//! Unpacking ZIP bundles: which files of the archive are what.

use crate::archive::{
    entries, entry_names, file_bytes, file_names, file_text, load_bytes, load_text, Archive,
    EntryView,
};
use crate::assemble::plain_efuse_views;
use crate::bundle::Bundle;
use crate::chip::{Chip, FlashSize, Params};
use crate::efuse::{Efuse, EfuseView};
use crate::fault::{BundleError, Fault};
use crate::image::{Image, ImageType, ImageView};
use crate::partition::image_view;
use crate::pool::image_views;
use crate::text::{ends_with, skip_text, starts_with, texts, trim_end, trim_end_matches};
use crate::tools::{params_outcome, Tools};
use std::sync::Arc;
use vstd::prelude::*;
use vstd::string::*;

verus! {

impl Bundle {
    /// The name of the parameters file when loaded from a ZIP bundle (.bundle)
    pub const PARAMS_FILE_NAME: &'static str = "params.toml";

    /// The name of the bootloader file when loaded from a ZIP bundle (.bundle)
    pub const BOOTLOADER_FILE_NAME: &'static str = "bootloader.bin";

    /// The name of the partition table file when loaded from a ZIP bundle (.bundle)
    pub const PART_TABLE_FILE_NAME: &'static str = "partition-table.csv";

    /// The suffix of the binary image files when loaded from a ZIP bundle (.bundle)
    pub const BIN_SUFFIX: &'static str = ".bin";

    /// The prefix of the image files when loaded from a ZIP bundle (.bundle)
    pub const IMAGES_PREFIX: &'static str = "images/";

    /// The prefix of the efuse files when loaded from a ZIP bundle (.bundle)
    pub const EFUSES_PREFIX: &'static str = "efuses/";
}

/// What is reported of a file that an archive does not have.
pub const NOT_FOUND: &'static str = "specified file not found in archive";

/// What a ZIP bundle holds.
pub struct Parts {
    /// The parameters of the bundle
    pub params: Params,
    /// The text of the partition table
    pub part_table: Option<String>,
    /// The bootloader image
    pub bootloader: Option<Image>,
    /// The images to be flashed to the partitions of their names
    pub images: Vec<Image>,
    /// The efuses to be programmed
    pub efuses: Vec<Efuse>,
}

/// What a ZIP bundle holds, as contracts speak of it.
pub struct PartsView {
    pub params: Params,
    pub part_table: Option<Seq<char>>,
    pub bootloader: Option<ImageView>,
    pub images: Seq<ImageView>,
    pub efuses: Seq<EfuseView>,
}

/// A text that may be missing, as contracts speak of it.
pub open spec fn text_view(text: Option<String>) -> Option<Seq<char>> {
    match text {
        Some(text) => Some(text@),
        None => None,
    }
}

impl View for Parts {
    type V = PartsView;

    open spec fn view(&self) -> PartsView {
        PartsView {
            params: self.params,
            part_table: text_view(self.part_table),
            bootloader: image_view(self.bootloader),
            images: image_views(self.images@),
            efuses: plain_efuse_views(self.efuses@),
        }
    }
}

/// What came of unpacking, as contracts speak of it.
pub open spec fn parts_outcome(result: Result<Parts, BundleError>) -> Result<
    PartsView,
    Fault<Seq<char>>,
> {
    match result {
        Ok(parts) => Ok(parts@),
        Err(e) => Err(e@),
    }
}

/// Whether `name` is that of a file below `prefix`, and not of a directory.
pub open spec fn is_file_below(name: Seq<char>, prefix: Seq<char>) -> bool {
    prefix.is_prefix_of(name) && !"/"@.is_suffix_of(name)
}

/// Those of `names` that are of files below `prefix`, in their order.
pub open spec fn files_below(names: Seq<Seq<char>>, prefix: Seq<char>) -> Seq<Seq<char>>
    decreases names.len(),
{
    if names.len() == 0 {
        names
    } else {
        let rest = files_below(names.drop_last(), prefix);
        if is_file_below(names.last(), prefix) {
            rest.push(names.last())
        } else {
            rest
        }
    }
}

/// The bytes of a file that has to be there.
pub open spec fn owed_bytes(entries: Seq<EntryView>, file: Seq<char>) -> Result<
    Seq<u8>,
    Fault<Seq<char>>,
> {
    match file_bytes(entries, file) {
        Ok(Some(bytes)) => Ok(bytes),
        Ok(None) => Err(Fault::Load { file, reason: NOT_FOUND@ }),
        Err(fault) => Err(fault),
    }
}

/// What loading the partition table of an archive comes to. One that cannot be opened is
/// reported under the name of the file with parameters.
pub open spec fn part_table_of_archive(entries: Seq<EntryView>) -> Result<
    Option<Seq<char>>,
    Fault<Seq<char>>,
> {
    match file_text(entries, Bundle::PART_TABLE_FILE_NAME@) {
        None => Ok(None),
        Some(Ok(Ok(text))) => Ok(Some(text)),
        Some(Ok(Err(reason))) => Err(Fault::Load { file: Bundle::PART_TABLE_FILE_NAME@, reason }),
        Some(Err(reason)) => Err(Fault::Load { file: Bundle::PARAMS_FILE_NAME@, reason }),
    }
}

/// Whether the file can be loaded and has an ELF file in it.
pub open spec fn is_elf_file(entries: Seq<EntryView>, file: Seq<char>) -> bool {
    owed_bytes(entries, file) is Ok && !Bundle::BIN_SUFFIX@.is_suffix_of(file)
}

/// The efuse that a file of the archive describes, by its name below the prefix.
pub open spec fn efuse_of_file(
    entries: Seq<EntryView>,
    file: Seq<char>,
) -> Result<EfuseView, Fault<Seq<char>>> {
    match owed_bytes(entries, file) {
        Ok(data) => EfuseView::of_file(file.skip(Bundle::EFUSES_PREFIX@.len() as int), data),
        Err(fault) => Err(fault),
    }
}

/// The efuses that files of the archive describe, or what is wrong with the first that
/// does not.
pub open spec fn efuses_of_files(
    entries: Seq<EntryView>,
    files: Seq<Seq<char>>,
) -> Result<Seq<EfuseView>, Fault<Seq<char>>>
    decreases files.len(),
{
    if files.len() == 0 {
        Ok(Seq::empty())
    } else {
        match (efuses_of_files(entries, files.drop_last()), efuse_of_file(entries, files.last())) {
            (Err(fault), _) => Err(fault),
            (Ok(_), Err(fault)) => Err(fault),
            (Ok(efuses), Ok(efuse)) => Ok(efuses.push(efuse)),
        }
    }
}

/// The bootloader image that an archive holds.
pub open spec fn bootloader_of_archive(entries: Seq<EntryView>) -> Result<
    Option<ImageView>,
    Fault<Seq<char>>,
> {
    match file_bytes(entries, Bundle::BOOTLOADER_FILE_NAME@) {
        Ok(Some(data)) => Ok(
            Some(ImageView::fresh(Bundle::BOOTLOADER_NAME@, ImageType::Binary, data)),
        ),
        Ok(None) => Ok(None),
        Err(fault) => Err(fault),
    }
}

impl<F, G, P> Tools<F, G, P> where
    F: Fn(&[u8], Chip) -> Result<Vec<u8>, String>,
    G: Fn(Chip, Option<FlashSize>) -> Result<Vec<u8>, String>,
    P: Fn(&str) -> Result<Params, String>,
 {
    /// The image in a file of the archive. It has the name of the file below the
    /// prefix, without the suffix of binary images. A file without that suffix is an
    /// ELF file.
    pub open spec fn image_of_file(
        self,
        chip: Chip,
        entries: Seq<EntryView>,
        file: Seq<char>,
    ) -> Result<ImageView, Fault<Seq<char>>> {
        let name = trim_end(
            file.skip(Bundle::IMAGES_PREFIX@.len() as int),
            Bundle::BIN_SUFFIX@,
        );
        match owed_bytes(entries, file) {
            Ok(data) => if Bundle::BIN_SUFFIX@.is_suffix_of(file) {
                Ok(ImageView::fresh(name, ImageType::Binary, data))
            } else {
                match self.converted(data, chip) {
                    Ok(bin) => Ok(ImageView::fresh(name, ImageType::Elf, bin)),
                    Err(fault) => Err(fault),
                }
            },
            Err(fault) => Err(fault),
        }
    }

    /// The images in files of the archive, or what is wrong with the first that has
    /// none.
    pub open spec fn images_of_files(
        self,
        chip: Chip,
        entries: Seq<EntryView>,
        files: Seq<Seq<char>>,
    ) -> Result<Seq<ImageView>, Fault<Seq<char>>>
        decreases files.len(),
    {
        if files.len() == 0 {
            Ok(Seq::empty())
        } else {
            match (
                self.images_of_files(chip, entries, files.drop_last()),
                self.image_of_file(chip, entries, files.last()),
            ) {
                (Err(fault), _) => Err(fault),
                (Ok(_), Err(fault)) => Err(fault),
                (Ok(images), Ok(image)) => Ok(images.push(image)),
            }
        }
    }

    /// Whether `elf2bin` comes back from the ELF files in these files, up to the first
    /// that has no image.
    pub open spec fn has_converted_files(
        self,
        chip: Chip,
        entries: Seq<EntryView>,
        files: Seq<Seq<char>>,
    ) -> bool {
        forall|i: int|
            0 <= i < files.len() && self.images_of_files(chip, entries, files.take(i)) is Ok
                && is_elf_file(entries, #[trigger] files[i]) ==> self.has_converted(
                owed_bytes(entries, files[i])->Ok_0,
                chip,
            )
    }

    /// What getting the parameters of an archive comes to. Where it has no file with
    /// them, `default_params` stand in, if there are any.
    pub open spec fn params_in(
        self,
        entries: Seq<EntryView>,
        default_params: Option<Params>,
    ) -> Result<Params, Fault<Seq<char>>> {
        match file_text(entries, Bundle::PARAMS_FILE_NAME@) {
            None => match default_params {
                Some(params) => Ok(params),
                None => Err(Fault::NoParams),
            },
            Some(Ok(Ok(text))) => self.params_of(text),
            Some(Ok(Err(reason))) => Err(Fault::LoadParams { reason }),
            Some(Err(reason)) => Err(Fault::Archive { reason }),
        }
    }

    /// Whether the tools come back from what unpacking an archive asks of them.
    pub open spec fn has_unpacked(
        self,
        entries: Seq<EntryView>,
        default_params: Option<Params>,
    ) -> bool {
        let text = file_text(entries, Bundle::PARAMS_FILE_NAME@);
        let params = self.params_in(entries, default_params);
        &&& text matches Some(Ok(Ok(written))) ==> self.has_read(written)
        &&& params is Ok && part_table_of_archive(entries) is Ok
            && bootloader_of_archive(entries) is Ok ==> self.has_converted_files(
            params->Ok_0.chip,
            entries,
            files_below(entry_names(entries), Bundle::IMAGES_PREFIX@),
        )
    }

    /// What unpacking an archive comes to: its parameters, then its partition table,
    /// bootloader, images and efuses, or the first thing that is wrong.
    pub open spec fn unpacked(
        self,
        entries: Seq<EntryView>,
        default_params: Option<Params>,
    ) -> Result<PartsView, Fault<Seq<char>>> {
        let names = entry_names(entries);
        match self.params_in(entries, default_params) {
            Ok(params) => {
                let part_table = part_table_of_archive(entries);
                let bootloader = bootloader_of_archive(entries);
                let images = self.images_of_files(
                    params.chip,
                    entries,
                    files_below(names, Bundle::IMAGES_PREFIX@),
                );
                let efuses = efuses_of_files(entries, files_below(names, Bundle::EFUSES_PREFIX@));
                if part_table is Err {
                    Err(part_table->Err_0)
                } else if bootloader is Err {
                    Err(bootloader->Err_0)
                } else if images is Err {
                    Err(images->Err_0)
                } else if efuses is Err {
                    Err(efuses->Err_0)
                } else {
                    Ok(
                        PartsView {
                            params,
                            part_table: part_table->Ok_0,
                            bootloader: bootloader->Ok_0,
                            images: images->Ok_0,
                            efuses: efuses->Ok_0,
                        },
                    )
                }
            },
            Err(fault) => Err(fault),
        }
    }
}

/// Those of `names` that are of files below `prefix`.
fn select_below(names: &Vec<String>, prefix: &str) -> (files: Vec<String>)
    ensures
        texts(files@) == files_below(texts(names@), prefix@),
        forall|i: int| 0 <= i < files@.len() ==> prefix@.is_prefix_of((#[trigger] files@[i])@),
{
    let ghost views = texts(names@);
    let mut files: Vec<String> = Vec::new();
    let mut i: usize = 0;
    assert(texts(files@) =~= files_below(views.take(0), prefix@));
    while i < names.len()
        invariant
            i <= names@.len(),
            views == texts(names@),
            texts(files@) == files_below(views.take(i as int), prefix@),
            forall|j: int| 0 <= j < files@.len() ==> prefix@.is_prefix_of((#[trigger] files@[j])@),
        decreases names@.len() - i,
    {
        let ghost before = texts(files@);
        let name = &names[i];
        proof {
            let next = views.take(i + 1);
            assert(next.drop_last() =~= views.take(i as int));
            assert(next.last() == name@);
        }
        if starts_with(name.as_str(), prefix) && !ends_with(name.as_str(), "/") {
            files.push(name.clone());
            assert(texts(files@) =~= before.push(name@));
        }
        i = i + 1;
    }
    assert(views.take(i as int) =~= views);
    files
}

/// What came of loading bytes that have to be there, as contracts speak of it.
pub open spec fn owed_outcome(result: Result<Vec<u8>, BundleError>) -> Result<
    Seq<u8>,
    Fault<Seq<char>>,
> {
    match result {
        Ok(bytes) => Ok(bytes@),
        Err(e) => Err(e@),
    }
}

/// Load the bytes of a file that has to be there.
fn load_owed(archive: &mut Archive, file: &str) -> (data: Result<Vec<u8>, BundleError>)
    ensures
        owed_outcome(data) == owed_bytes(entries(*old(archive)), file@),
        entries(*final(archive)) == entries(*old(archive)),
{
    match load_bytes(archive, file) {
        Ok(Some(bytes)) => Ok(bytes),
        Ok(None) => Err(Fault::Load { file: file.to_string(), reason: NOT_FOUND.to_string() }),
        Err(e) => Err(e),
    }
}

/// Load the efuses that files describe.
fn load_efuses(archive: &mut Archive, files: &Vec<String>) -> (efuses: Result<
    Vec<Efuse>,
    BundleError,
>)
    requires
        forall|i: int|
            0 <= i < files@.len() ==> Bundle::EFUSES_PREFIX@.is_prefix_of((#[trigger] files@[i])@),
    ensures
        entries(*final(archive)) == entries(*old(archive)),
        match efuses_of_files(entries(*old(archive)), texts(files@)) {
            Ok(views) => efuses is Ok && plain_efuse_views(efuses->Ok_0@) == views,
            Err(fault) => efuses is Err && efuses->Err_0@ == fault,
        },
{
    let ghost all = entries(*archive);
    let ghost names = texts(files@);
    let mut efuses: Vec<Efuse> = Vec::new();
    let mut i: usize = 0;
    assert(plain_efuse_views(efuses@) =~= Seq::<EfuseView>::empty());
    while i < files.len()
        invariant
            i <= files@.len(),
            names == texts(files@),
            all == entries(*old(archive)),
            entries(*archive) == all,
            efuses_of_files(all, names.take(i as int)) == Ok::<Seq<EfuseView>, Fault<Seq<char>>>(
                plain_efuse_views(efuses@),
            ),
            forall|j: int|
                0 <= j < files@.len() ==> Bundle::EFUSES_PREFIX@.is_prefix_of(
                    (#[trigger] files@[j])@,
                ),
        decreases files@.len() - i,
    {
        let ghost before = plain_efuse_views(efuses@);
        let file = &files[i];
        proof {
            let next = names.take(i + 1);
            assert(next.drop_last() =~= names.take(i as int));
            assert(next.last() == file@);
            if efuse_of_file(all, file@) is Err {
                lemma_efuses_fail(all, names, i as int, efuse_of_file(all, file@)->Err_0);
            }
        }
        let data = match load_owed(archive, file.as_str()) {
            Ok(data) => data,
            Err(e) => {
                return Err(e);
            },
        };
        let name = skip_text(file.as_str(), Bundle::EFUSES_PREFIX.unicode_len());
        match Efuse::new(name, Arc::new(data)) {
            Ok(efuse) => {
                let ghost pushed = efuse@;
                efuses.push(efuse);
                assert(plain_efuse_views(efuses@) =~= before.push(pushed));
            },
            Err(e) => {
                return Err(e);
            },
        }
        i = i + 1;
    }
    assert(names.take(i as int) =~= names);
    Ok(efuses)
}

/// What is wrong with the first file that describes no efuse is wrong with them all.
proof fn lemma_efuses_fail(
    entries: Seq<EntryView>,
    files: Seq<Seq<char>>,
    i: int,
    fault: Fault<Seq<char>>,
)
    requires
        0 <= i < files.len(),
        efuses_of_files(entries, files.take(i)) is Ok,
        efuse_of_file(entries, files[i]) == Err::<EfuseView, Fault<Seq<char>>>(fault),
    ensures
        efuses_of_files(entries, files) == Err::<Seq<EfuseView>, Fault<Seq<char>>>(fault),
    decreases files.len(),
{
    if i < files.len() - 1 {
        assert(files.drop_last().take(i) =~= files.take(i));
        lemma_efuses_fail(entries, files.drop_last(), i, fault);
    } else {
        assert(files.drop_last() =~= files.take(i));
    }
}

impl<F, G, P> Tools<F, G, P> where
    F: Fn(&[u8], Chip) -> Result<Vec<u8>, String>,
    G: Fn(Chip, Option<FlashSize>) -> Result<Vec<u8>, String>,
    P: Fn(&str) -> Result<Params, String>,
 {
    /// What is wrong with the first file that has no image is wrong with them all.
    proof fn lemma_images_fail(
        self,
        chip: Chip,
        entries: Seq<EntryView>,
        files: Seq<Seq<char>>,
        i: int,
        fault: Fault<Seq<char>>,
    )
        requires
            0 <= i < files.len(),
            self.images_of_files(chip, entries, files.take(i)) is Ok,
            self.image_of_file(chip, entries, files[i]) == Err::<ImageView, Fault<Seq<char>>>(
                fault,
            ),
        ensures
            self.images_of_files(chip, entries, files) == Err::<Seq<ImageView>, Fault<Seq<char>>>(
                fault,
            ),
        decreases files.len(),
    {
        if i < files.len() - 1 {
            assert(files.drop_last().take(i) =~= files.take(i));
            self.lemma_images_fail(chip, entries, files.drop_last(), i, fault);
        } else {
            assert(files.drop_last() =~= files.take(i));
        }
    }

    /// From the first file that has no image on, there are no images.
    proof fn lemma_images_stop(
        self,
        chip: Chip,
        entries: Seq<EntryView>,
        files: Seq<Seq<char>>,
        i: int,
    )
        requires
            0 <= i < files.len(),
            self.images_of_files(chip, entries, files.take(i)) is Ok,
            self.image_of_file(chip, entries, files[i]) is Err,
        ensures
            forall|j: int|
                i < j <= files.len() ==> self.images_of_files(
                    chip,
                    entries,
                    #[trigger] files.take(j),
                ) is Err,
    {
        let fault = self.image_of_file(chip, entries, files[i])->Err_0;
        assert forall|j: int| i < j <= files.len() implies self.images_of_files(
            chip,
            entries,
            #[trigger] files.take(j),
        ) is Err by {
            assert(files.take(j).take(i) =~= files.take(i));
            self.lemma_images_fail(chip, entries, files.take(j), i, fault);
        }
    }

    /// Load the images in files.
    fn load_images(&self, chip: Chip, archive: &mut Archive, files: &Vec<String>) -> (
        images: Result<Vec<Image>, BundleError>)
        requires
            self.wf(),
            forall|i: int|
                0 <= i < files@.len() ==> Bundle::IMAGES_PREFIX@.is_prefix_of(
                    (#[trigger] files@[i])@,
                ),
        ensures
            entries(*final(archive)) == entries(*old(archive)),
            match self.images_of_files(chip, entries(*old(archive)), texts(files@)) {
                Ok(views) => images is Ok && image_views(images->Ok_0@) == views,
                Err(fault) => images is Err && images->Err_0@ == fault,
            },
            self.has_converted_files(chip, entries(*old(archive)), texts(files@)),
    {
        let ghost all = entries(*archive);
        let ghost names = texts(files@);
        let mut images: Vec<Image> = Vec::new();
        let mut i: usize = 0;
        assert(image_views(images@) =~= Seq::<ImageView>::empty());
        while i < files.len()
            invariant
                i <= files@.len(),
                self.wf(),
                names == texts(files@),
                all == entries(*old(archive)),
                entries(*archive) == all,
                self.images_of_files(chip, all, names.take(i as int)) == Ok::<
                    Seq<ImageView>,
                    Fault<Seq<char>>,
                >(image_views(images@)),
                forall|j: int|
                    0 <= j < i && is_elf_file(all, #[trigger] names[j])
                        ==> self.has_converted(owed_bytes(all, names[j])->Ok_0, chip),
                forall|j: int|
                    0 <= j < files@.len() ==> Bundle::IMAGES_PREFIX@.is_prefix_of(
                        (#[trigger] files@[j])@,
                    ),
            decreases files@.len() - i,
        {
            let ghost before = image_views(images@);
            let file = &files[i];
            proof {
                let next = names.take(i + 1);
                assert(next.drop_last() =~= names.take(i as int));
                assert(next.last() == file@);
                let wrong = self.image_of_file(chip, all, file@);
                if wrong is Err {
                    self.lemma_images_fail(chip, all, names, i as int, wrong->Err_0);
                    self.lemma_images_stop(chip, all, names, i as int);
                }
            }
            let data = match load_owed(archive, file.as_str()) {
                Ok(data) => data,
                Err(e) => {
                    return Err(e);
                },
            };
            let name = trim_end_matches(
                skip_text(file.as_str(), Bundle::IMAGES_PREFIX.unicode_len()),
                Bundle::BIN_SUFFIX,
            );
            let image = if ends_with(file.as_str(), Bundle::BIN_SUFFIX) {
                Image::new(name, data)
            } else {
                match self.convert(data.as_slice(), chip) {
                    Ok(bin) => Image::new_elf(name, bin),
                    Err(e) => {
                        return Err(e);
                    },
                }
            };
            let ghost pushed = image@;
            images.push(image);
            assert(image_views(images@) =~= before.push(pushed));
            i = i + 1;
        }
        assert(names.take(i as int) =~= names);
        Ok(images)
    }

    /// Load the parameters of a ZIP bundle. Where it has no file with them,
    /// `default_params` stand in, if there are any.
    fn load_params(&self, archive: &mut Archive, default_params: Option<Params>) -> (
        params: Result<Params, BundleError>)
        requires
            self.wf(),
        ensures
            params_outcome(params) == self.params_in(entries(*old(archive)), default_params),
            file_text(entries(*old(archive)), Bundle::PARAMS_FILE_NAME@) matches Some(
                Ok(Ok(written)),
            ) ==> self.has_read(written),
            entries(*final(archive)) == entries(*old(archive)),
    {
        match load_text(archive, Bundle::PARAMS_FILE_NAME) {
            None => match default_params {
                Some(params) => Ok(params),
                None => Err(Fault::NoParams),
            },
            Some(Ok(Ok(text))) => self.parse_params(text.as_str()),
            Some(Ok(Err(reason))) => Err(Fault::LoadParams { reason }),
            Some(Err(reason)) => Err(Fault::Archive { reason }),
        }
    }

    /// Load everything that a ZIP bundle holds.
    pub fn unpack(&self, archive: &mut Archive, default_params: Option<Params>) -> (parts: Result<
        Parts,
        BundleError,
    >)
        requires
            self.wf(),
        ensures
            parts_outcome(parts) == self.unpacked(entries(*old(archive)), default_params),
            self.has_unpacked(entries(*old(archive)), default_params),
            entries(*final(archive)) == entries(*old(archive)),
    {
        let params = match self.load_params(archive, default_params) {
            Ok(params) => params,
            Err(e) => {
                return Err(e);
            },
        };
        let part_table = match load_text(archive, Bundle::PART_TABLE_FILE_NAME) {
            None => None,
            Some(Ok(Ok(text))) => Some(text),
            Some(Ok(Err(reason))) => {
                return Err(
                    Fault::Load { file: Bundle::PART_TABLE_FILE_NAME.to_string(), reason },
                );
            },
            Some(Err(reason)) => {
                return Err(Fault::Load { file: Bundle::PARAMS_FILE_NAME.to_string(), reason });
            },
        };
        let bootloader = match load_bytes(archive, Bundle::BOOTLOADER_FILE_NAME) {
            Ok(Some(data)) => Some(Image::new(Bundle::BOOTLOADER_NAME.to_string(), data)),
            Ok(None) => None,
            Err(e) => {
                return Err(e);
            },
        };
        let names = file_names(archive);
        let images = match self.load_images(
            params.chip,
            archive,
            &select_below(&names, Bundle::IMAGES_PREFIX),
        ) {
            Ok(images) => images,
            Err(e) => {
                return Err(e);
            },
        };
        let efuses = match load_efuses(archive, &select_below(&names, Bundle::EFUSES_PREFIX)) {
            Ok(efuses) => efuses,
            Err(e) => {
                return Err(e);
            },
        };
        Ok(Parts { params, part_table, bootloader, images, efuses })
    }
}

} // verus!
