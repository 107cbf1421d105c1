//! What a bundle made from content holds: of a ZIP archive, or of the image of an app.

use crate::archive::{
    archive_entries, entry_index, entry_names, lemma_entry_index, EntryView,
};
use crate::assembly_laws::{
    are_mapped, comes_to, has_row, is_boot_answer, is_last, is_last_named, is_made_from,
    lemma_boot_answer, lemma_made_from, rows_in,
};
use crate::bundle::{Bundle, BundleView};
use crate::chip::{Chip, FlashSize, Params};
use crate::efuse::EfuseView;
use crate::fault::Fault;
use crate::image::{ImageType, ImageView, ProvisioningStatus};
use crate::laws::law_efuse_files;
use crate::payload::Payload;
use crate::text::trim_end;
use crate::tools::{bytes_reply, params_reply, Tools};
use crate::unpack::{
    bootloader_of_archive, efuse_of_file, efuses_of_files, files_below, is_elf_file, is_file_below,
    owed_bytes, part_table_of_archive,
};
use vstd::prelude::*;
use vstd::string::*;

verus! {

/// Whether entry `k` is the first with this name.
pub open spec fn is_entry(entries: Seq<EntryView>, name: Seq<char>, k: int) -> bool {
    &&& 0 <= k < entries.len()
    &&& entries[k].name == name
    &&& forall|j: int| 0 <= j < k ==> (#[trigger] entries[j]).name != name
}

/// Whether an entry has this name.
pub open spec fn has_entry(entries: Seq<EntryView>, name: Seq<char>) -> bool {
    exists|k: int| 0 <= k < entries.len() && (#[trigger] entries[k]).name == name
}

/// Whether `params` is what `read_params` answers to a text.
pub open spec fn is_params_answer<F, G, P>(
    tools: Tools<F, G, P>,
    text: Seq<char>,
    params: Result<Params, Fault<Seq<char>>>,
) -> bool where
    F: Fn(&[u8], Chip) -> Result<Vec<u8>, String>,
    G: Fn(Chip, Option<FlashSize>) -> Result<Vec<u8>, String>,
    P: Fn(&str) -> Result<Params, String>,
 {
    exists|written: &str, answer: Result<Params, String>|
        {
            &&& written@ == text
            &&& #[trigger] tools.read_params.ensures((written,), answer)
            &&& match answer {
                Ok(read) => params == Ok::<Params, Fault<Seq<char>>>(read),
                Err(reason) => params == Err::<Params, Fault<Seq<char>>>(
                    Fault::Params { reason: reason@ },
                ),
            }
        }
}

/// Whether `bin` is what `elf2bin` answers to an ELF file for a chip.
pub open spec fn is_elf_answer<F, G, P>(
    tools: Tools<F, G, P>,
    elf: Seq<u8>,
    chip: Chip,
    bin: Result<Seq<u8>, Fault<Seq<char>>>,
) -> bool where
    F: Fn(&[u8], Chip) -> Result<Vec<u8>, String>,
    G: Fn(Chip, Option<FlashSize>) -> Result<Vec<u8>, String>,
    P: Fn(&str) -> Result<Params, String>,
 {
    exists|file: &[u8], answer: Result<Vec<u8>, String>|
        {
            &&& file@ == elf
            &&& #[trigger] tools.elf2bin.ensures((file, chip), answer)
            &&& match answer {
                Ok(bytes) => bin == Ok::<Seq<u8>, Fault<Seq<char>>>(bytes@),
                Err(reason) => bin == Err::<Seq<u8>, Fault<Seq<char>>>(
                    Fault::Elf { reason: reason@ },
                ),
            }
        }
}

/// Whether `params` are those of an archive: what the text of `params.toml` is read as,
/// or the default ones where there is no such file.
pub open spec fn are_params_of<F, G, P>(
    params: Result<Params, Fault<Seq<char>>>,
    tools: Tools<F, G, P>,
    entries: Seq<EntryView>,
    default_params: Option<Params>,
) -> bool where
    F: Fn(&[u8], Chip) -> Result<Vec<u8>, String>,
    G: Fn(Chip, Option<FlashSize>) -> Result<Vec<u8>, String>,
    P: Fn(&str) -> Result<Params, String>,
 {
    &&& !has_entry(entries, "params.toml"@) ==> params == match default_params {
        Some(given) => Ok::<Params, Fault<Seq<char>>>(given),
        None => Err(Fault::NoParams),
    }
    &&& forall|k: int| #[trigger]
        is_entry(entries, "params.toml"@, k) ==> match entries[k].opened {
            Err(reason) => params == Err::<Params, Fault<Seq<char>>>(Fault::Archive { reason }),
            Ok(content) => match content.text {
                Err(reason) => params == Err::<Params, Fault<Seq<char>>>(
                    Fault::LoadParams { reason },
                ),
                Ok(text) => is_params_answer(tools, text, params),
            },
        }
}

/// Whether `text` is that of the partition table of an archive, if it has one.
pub open spec fn is_table_text_of(
    text: Result<Option<Seq<char>>, Fault<Seq<char>>>,
    entries: Seq<EntryView>,
) -> bool {
    &&& !has_entry(entries, "partition-table.csv"@) ==> text == Ok::<
        Option<Seq<char>>,
        Fault<Seq<char>>,
    >(None)
    &&& forall|k: int| #[trigger]
        is_entry(entries, "partition-table.csv"@, k) ==> text == match entries[k].opened {
            Err(reason) => Err::<Option<Seq<char>>, Fault<Seq<char>>>(
                Fault::Load { file: "params.toml"@, reason },
            ),
            Ok(content) => match content.text {
                Err(reason) => Err(Fault::Load { file: "partition-table.csv"@, reason }),
                Ok(written) => Ok(Some(written)),
            },
        }
}

/// Whether `boot` is the bootloader of an archive, if it has one.
pub open spec fn is_boot_file_of(
    boot: Result<Option<ImageView>, Fault<Seq<char>>>,
    entries: Seq<EntryView>,
) -> bool {
    &&& !has_entry(entries, "bootloader.bin"@) ==> boot == Ok::<
        Option<ImageView>,
        Fault<Seq<char>>,
    >(None)
    &&& forall|k: int| #[trigger]
        is_entry(entries, "bootloader.bin"@, k) ==> boot == match entries[k].opened {
            Err(reason) => Err::<Option<ImageView>, Fault<Seq<char>>>(
                Fault::Load { file: "bootloader.bin"@, reason },
            ),
            Ok(content) => match content.bytes {
                Err(reason) => Err(Fault::Load { file: "bootloader.bin"@, reason }),
                Ok(data) => Ok(
                    Some(
                        ImageView {
                            name: "(bootloader)"@,
                            ty: ImageType::Binary,
                            data,
                            status: ProvisioningStatus::NotStarted,
                        },
                    ),
                ),
            },
        }
}

/// `.bin`, `count` times.
pub open spec fn bins(count: nat) -> Seq<char>
    decreases count,
{
    if count == 0 {
        Seq::empty()
    } else {
        bins((count - 1) as nat) + ".bin"@
    }
}

/// Whether `stem` is `name` without any `.bin` at its end.
pub open spec fn is_stem(stem: Seq<char>, name: Seq<char>) -> bool {
    &&& exists|count: nat| name == stem + #[trigger] bins(count)
    &&& !".bin"@.is_suffix_of(stem)
}

/// Whether `image` is the one in a file of an archive, below the prefix of images: its
/// bytes where the file ends with `.bin`, or else what they are converted to for the chip.
pub open spec fn is_image_in<F, G, P>(
    image: Result<ImageView, Fault<Seq<char>>>,
    tools: Tools<F, G, P>,
    chip: Chip,
    entries: Seq<EntryView>,
    file: Seq<char>,
) -> bool where
    F: Fn(&[u8], Chip) -> Result<Vec<u8>, String>,
    G: Fn(Chip, Option<FlashSize>) -> Result<Vec<u8>, String>,
    P: Fn(&str) -> Result<Params, String>,
 {
    &&& image matches Ok(made) ==> {
        &&& is_stem(made.name, file.skip(7))
        &&& made.status == ProvisioningStatus::NotStarted
        &&& made.ty == if ".bin"@.is_suffix_of(file) {
            ImageType::Binary
        } else {
            ImageType::Elf
        }
    }
    &&& forall|k: int| #[trigger]
        is_entry(entries, file, k) ==> match entries[k].opened {
            Err(reason) => image == Err::<ImageView, Fault<Seq<char>>>(
                Fault::Load { file, reason },
            ),
            Ok(content) => match content.bytes {
                Err(reason) => image == Err::<ImageView, Fault<Seq<char>>>(
                    Fault::Load { file, reason },
                ),
                Ok(data) => if ".bin"@.is_suffix_of(file) {
                    image is Ok && image->Ok_0.data == data
                } else {
                    is_elf_answer(
                        tools,
                        data,
                        chip,
                        match image {
                            Ok(made) => Ok(made.data),
                            Err(fault) => Err(fault),
                        },
                    )
                },
            },
        }
}

/// The entries of an archive that are files below a prefix.
pub open spec fn entries_below(entries: Seq<EntryView>, prefix: Seq<char>) -> Seq<EntryView> {
    entries.filter(
        |entry: EntryView| prefix.is_prefix_of(entry.name) && !"/"@.is_suffix_of(entry.name),
    )
}

/// Whether `images` are those of an archive: one for each file below `images/`, in their
/// order, or what is wrong with the first that has none.
pub open spec fn are_images_of<F, G, P>(
    images: Result<Seq<ImageView>, Fault<Seq<char>>>,
    tools: Tools<F, G, P>,
    chip: Chip,
    entries: Seq<EntryView>,
) -> bool where
    F: Fn(&[u8], Chip) -> Result<Vec<u8>, String>,
    G: Fn(Chip, Option<FlashSize>) -> Result<Vec<u8>, String>,
    P: Fn(&str) -> Result<Params, String>,
 {
    let files = entries_below(entries, "images/"@);
    match images {
        Ok(images) => {
            &&& images.len() == files.len()
            &&& forall|i: int|
                0 <= i < files.len() ==> is_image_in(
                    Ok(images[i]),
                    tools,
                    chip,
                    entries,
                    (#[trigger] files[i]).name,
                )
        },
        Err(fault) => exists|i: int|
            {
                &&& 0 <= i < files.len()
                &&& is_image_in(Err(fault), tools, chip, entries, (#[trigger] files[i]).name)
                &&& forall|j: int|
                    0 <= j < i ==> exists|image: ImageView|
                        is_image_in(Ok(image), tools, chip, entries, (#[trigger] files[j]).name)
            },
    }
}

/// Whether `efuse` is the one that a file of an archive describes, below the prefix of
/// efuses.
pub open spec fn is_efuse_in(
    efuse: Result<EfuseView, Fault<Seq<char>>>,
    entries: Seq<EntryView>,
    file: Seq<char>,
) -> bool {
    forall|k: int| #[trigger]
        is_entry(entries, file, k) ==> efuse == match entries[k].opened {
            Err(reason) => Err::<EfuseView, Fault<Seq<char>>>(Fault::Load { file, reason }),
            Ok(content) => match content.bytes {
                Err(reason) => Err(Fault::Load { file, reason }),
                Ok(data) => EfuseView::of_file(file.skip(7), data),
            },
        }
}

/// Whether `efuses` are those of an archive: one for each file below `efuses/`, in their
/// order, or what is wrong with the first that describes none.
pub open spec fn are_efuses_of(
    efuses: Result<Seq<EfuseView>, Fault<Seq<char>>>,
    entries: Seq<EntryView>,
) -> bool {
    let files = entries_below(entries, "efuses/"@);
    match efuses {
        Ok(efuses) => {
            &&& efuses.len() == files.len()
            &&& forall|i: int|
                0 <= i < files.len() ==> is_efuse_in(
                    Ok(efuses[i]),
                    entries,
                    (#[trigger] files[i]).name,
                )
        },
        Err(fault) => exists|i: int|
            {
                &&& 0 <= i < files.len()
                &&& is_efuse_in(Err(fault), entries, (#[trigger] files[i]).name)
                &&& forall|j: int|
                    0 <= j < i ==> exists|efuse: EfuseView|
                        is_efuse_in(Ok(efuse), entries, (#[trigger] files[j]).name)
            },
    }
}

/// The entry that is found is the first with the name.
proof fn lemma_entry(entries: Seq<EntryView>, name: Seq<char>)
    ensures
        match entry_index(entries, name) {
            Some(k) => is_entry(entries, name, k),
            None => !has_entry(entries, name),
        },
    decreases entries.len(),
{
    if entries.len() > 0 {
        let head = entries.drop_last();
        lemma_entry(head, name);
        lemma_entry_index(entries, name);
        match entry_index(head, name) {
            Some(k) => {
                assert forall|j: int| 0 <= j < k implies (#[trigger] entries[j]).name != name by {
                    assert(head[j].name != name);
                }
            },
            None => {
                assert forall|j: int| 0 <= j < head.len() implies (#[trigger] entries[j]).name
                    != name by {
                    assert(head[j].name != name);
                }
                if entries.last().name != name && has_entry(entries, name) {
                    let k = choose|k: int|
                        0 <= k < entries.len() && (#[trigger] entries[k]).name == name;
                    assert(k == entries.len() - 1);
                }
            },
        }
    }
}

/// At most one entry is the first with a name.
proof fn lemma_one_entry(entries: Seq<EntryView>, name: Seq<char>)
    ensures
        forall|k: int| #[trigger]
            is_entry(entries, name, k) ==> entry_index(entries, name) == Some(k),
        has_entry(entries, name) ==> entry_index(entries, name) is Some,
        entry_index(entries, name) matches Some(k) ==> is_entry(entries, name, k),
{
    lemma_entry(entries, name);
    assert forall|k: int| #[trigger] is_entry(entries, name, k) implies entry_index(entries, name)
        == Some(k) by {
        assert(has_entry(entries, name));
        let l = entry_index(entries, name)->0;
        if l < k {
            assert(entries[l].name != name);
        } else if k < l {
            assert(entries[k].name != name);
        }
    }
}

/// What `elf2bin` comes back with is its answer.
proof fn lemma_elf_answer<F, G, P>(tools: Tools<F, G, P>, elf: Seq<u8>, chip: Chip) where
    F: Fn(&[u8], Chip) -> Result<Vec<u8>, String>,
    G: Fn(Chip, Option<FlashSize>) -> Result<Vec<u8>, String>,
    P: Fn(&str) -> Result<Params, String>,

    requires
        tools.has_converted(elf, chip),
    ensures
        is_elf_answer(tools, elf, chip, tools.converted(elf, chip)),
{
    let reply = choose|reply: Result<Seq<u8>, Seq<char>>| tools.may_convert(elf, chip, reply);
    assert(tools.may_convert(elf, chip, reply));
    let (file, answer) = choose|file: &[u8], answer: Result<Vec<u8>, String>|
        #![trigger tools.elf2bin.ensures((file, chip), answer)]
        file@ == elf && tools.elf2bin.ensures((file, chip), answer) && reply == bytes_reply(answer);
    assert(tools.elf2bin.ensures((file, chip), answer));
}

/// What `read_params` comes back with is its answer.
proof fn lemma_params_answer<F, G, P>(tools: Tools<F, G, P>, text: Seq<char>) where
    F: Fn(&[u8], Chip) -> Result<Vec<u8>, String>,
    G: Fn(Chip, Option<FlashSize>) -> Result<Vec<u8>, String>,
    P: Fn(&str) -> Result<Params, String>,

    requires
        tools.has_read(text),
    ensures
        is_params_answer(tools, text, tools.params_of(text)),
{
    let reply = choose|reply: Result<Params, Seq<char>>| tools.may_read(text, reply);
    assert(tools.may_read(text, reply));
    let (written, answer) = choose|written: &str, answer: Result<Params, String>|
        #![trigger tools.read_params.ensures((written,), answer)]
        written@ == text && tools.read_params.ensures((written,), answer) && reply == params_reply(
            answer,
        );
    assert(tools.read_params.ensures((written,), answer));
}

/// A text without the suffix at its end is its stem.
proof fn lemma_stem(name: Seq<char>)
    ensures
        is_stem(trim_end(name, ".bin"@), name),
    decreases name.len(),
{
    reveal_strlit(".bin");
    let stem = trim_end(name, ".bin"@);
    if ".bin"@.is_suffix_of(name) {
        let head = name.take(name.len() - ".bin"@.len());
        lemma_stem(head);
        let count = choose|count: nat| head == stem + #[trigger] bins(count);
        assert(bins((count + 1) as nat) == bins(count) + ".bin"@);
        assert(name =~= head + ".bin"@);
        assert(name =~= stem + bins((count + 1) as nat));
    } else {
        assert(name =~= stem + bins(0));
    }
}

/// The image in a file is the one that should be.
proof fn lemma_image_in<F, G, P>(
    tools: Tools<F, G, P>,
    chip: Chip,
    entries: Seq<EntryView>,
    file: Seq<char>,
) where
    F: Fn(&[u8], Chip) -> Result<Vec<u8>, String>,
    G: Fn(Chip, Option<FlashSize>) -> Result<Vec<u8>, String>,
    P: Fn(&str) -> Result<Params, String>,

    requires
        is_elf_file(entries, file) ==> tools.has_converted(owed_bytes(entries, file)->Ok_0, chip),
    ensures
        is_image_in(tools.image_of_file(chip, entries, file), tools, chip, entries, file),
{
    reveal_strlit("images/");
    lemma_one_entry(entries, file);
    lemma_stem(file.skip(7));
    if is_elf_file(entries, file) {
        lemma_elf_answer(tools, owed_bytes(entries, file)->Ok_0, chip);
    }
}

/// The names of the files below a prefix are those of the entries below it.
proof fn lemma_files(entries: Seq<EntryView>, prefix: Seq<char>)
    ensures
        files_below(entry_names(entries), prefix) == entry_names(entries_below(entries, prefix)),
    decreases entries.len(),
{
    reveal(Seq::filter);
    let below = entries_below(entries, prefix);
    if entries.len() > 0 {
        let head = entries.drop_last();
        lemma_files(head, prefix);
        assert(entry_names(entries).drop_last() =~= entry_names(head));
        if is_file_below(entries.last().name, prefix) {
            assert(entry_names(below) =~= entry_names(entries_below(head, prefix)).push(
                entries.last().name,
            ));
        }
    } else {
        assert(entry_names(below) =~= files_below(entry_names(entries), prefix));
    }
}

/// Where there are no images, the first file without one tells why.
proof fn lemma_images_err<F, G, P>(
    tools: Tools<F, G, P>,
    chip: Chip,
    entries: Seq<EntryView>,
    files: Seq<Seq<char>>,
) -> (i: int) where
    F: Fn(&[u8], Chip) -> Result<Vec<u8>, String>,
    G: Fn(Chip, Option<FlashSize>) -> Result<Vec<u8>, String>,
    P: Fn(&str) -> Result<Params, String>,

    requires
        tools.images_of_files(chip, entries, files) is Err,
    ensures
        0 <= i < files.len(),
        tools.image_of_file(chip, entries, files[i]) == Err::<ImageView, Fault<Seq<char>>>(
            tools.images_of_files(chip, entries, files)->Err_0,
        ),
        tools.images_of_files(chip, entries, files.take(i)) is Ok,
    decreases files.len(),
{
    let head = files.drop_last();
    if tools.images_of_files(chip, entries, head) is Err {
        let i = lemma_images_err(tools, chip, entries, head);
        assert(head.take(i) =~= files.take(i));
        i
    } else {
        assert(files.take(files.len() - 1) =~= head);
        files.len() - 1
    }
}

/// Where there are no efuses, the first file without one tells why.
proof fn lemma_efuses_err(entries: Seq<EntryView>, files: Seq<Seq<char>>) -> (i: int)
    requires
        efuses_of_files(entries, files) is Err,
    ensures
        0 <= i < files.len(),
        efuse_of_file(entries, files[i]) == Err::<EfuseView, Fault<Seq<char>>>(
            efuses_of_files(entries, files)->Err_0,
        ),
        efuses_of_files(entries, files.take(i)) is Ok,
    decreases files.len(),
{
    let head = files.drop_last();
    if efuses_of_files(entries, head) is Err {
        let i = lemma_efuses_err(entries, head);
        assert(head.take(i) =~= files.take(i));
        i
    } else {
        assert(files.take(files.len() - 1) =~= head);
        files.len() - 1
    }
}

/// The image in a file behind files with images is the one that should be.
proof fn lemma_image_at<F, G, P>(
    tools: Tools<F, G, P>,
    chip: Chip,
    entries: Seq<EntryView>,
    files: Seq<Seq<char>>,
    i: int,
) where
    F: Fn(&[u8], Chip) -> Result<Vec<u8>, String>,
    G: Fn(Chip, Option<FlashSize>) -> Result<Vec<u8>, String>,
    P: Fn(&str) -> Result<Params, String>,

    requires
        tools.has_converted_files(chip, entries, files),
        tools.images_of_files(chip, entries, files.take(i)) is Ok,
        0 <= i < files.len(),
    ensures
        is_image_in(tools.image_of_file(chip, entries, files[i]), tools, chip, entries, files[i]),
{
    lemma_image_in(tools, chip, entries, files[i]);
}

/// The images in files, where all of them have one, are those that they should be.
proof fn lemma_images_upto<F, G, P>(
    tools: Tools<F, G, P>,
    chip: Chip,
    entries: Seq<EntryView>,
    names: Seq<Seq<char>>,
    count: int,
) -> (images: Seq<ImageView>) where
    F: Fn(&[u8], Chip) -> Result<Vec<u8>, String>,
    G: Fn(Chip, Option<FlashSize>) -> Result<Vec<u8>, String>,
    P: Fn(&str) -> Result<Params, String>,

    requires
        tools.has_converted_files(chip, entries, names),
        0 <= count <= names.len(),
        tools.images_of_files(chip, entries, names.take(count)) is Ok,
    ensures
        tools.images_of_files(chip, entries, names.take(count))->Ok_0 == images,
        images.len() == count,
        forall|i: int|
            0 <= i < count ==> is_image_in(
                Ok(#[trigger] images[i]),
                tools,
                chip,
                entries,
                names[i],
            ),
    decreases count,
{
    if count == 0 {
        Seq::empty()
    } else {
        let last = count - 1;
        assert(names.take(count).drop_last() =~= names.take(last));
        assert(names.take(count).last() == names[last]);
        let head = lemma_images_upto(tools, chip, entries, names, last);
        lemma_image_at(tools, chip, entries, names, last);
        head.push(tools.image_of_file(chip, entries, names[last])->Ok_0)
    }
}

/// The first file without an image tells what is wrong with them all.
proof fn lemma_first_wrong<F, G, P>(
    tools: Tools<F, G, P>,
    chip: Chip,
    entries: Seq<EntryView>,
    fault: Fault<Seq<char>>,
    images: Seq<ImageView>,
    i: int,
) where
    F: Fn(&[u8], Chip) -> Result<Vec<u8>, String>,
    G: Fn(Chip, Option<FlashSize>) -> Result<Vec<u8>, String>,
    P: Fn(&str) -> Result<Params, String>,

    requires
        0 <= i < entries_below(entries, "images/"@).len(),
        images.len() == i,
        forall|j: int|
            0 <= j < i ==> is_image_in(
                Ok(images[j]),
                tools,
                chip,
                entries,
                (#[trigger] entries_below(entries, "images/"@)[j]).name,
            ),
        is_image_in(
            Err(fault),
            tools,
            chip,
            entries,
            entries_below(entries, "images/"@)[i].name,
        ),
    ensures
        are_images_of(Err(fault), tools, chip, entries),
{
    let files = entries_below(entries, "images/"@);
    assert forall|j: int| 0 <= j < i implies exists|image: ImageView|
        is_image_in(Ok(image), tools, chip, entries, (#[trigger] files[j]).name) by {
        assert(is_image_in(Ok(images[j]), tools, chip, entries, files[j].name));
    }
}

/// The images of an archive are those that they should be.
proof fn lemma_images_of<F, G, P>(tools: Tools<F, G, P>, chip: Chip, entries: Seq<EntryView>) where
    F: Fn(&[u8], Chip) -> Result<Vec<u8>, String>,
    G: Fn(Chip, Option<FlashSize>) -> Result<Vec<u8>, String>,
    P: Fn(&str) -> Result<Params, String>,

    requires
        tools.has_converted_files(chip, entries, files_below(entry_names(entries), "images/"@)),
    ensures
        are_images_of(
            tools.images_of_files(chip, entries, files_below(entry_names(entries), "images/"@)),
            tools,
            chip,
            entries,
        ),
{
    let names = files_below(entry_names(entries), "images/"@);
    let files = entries_below(entries, "images/"@);
    lemma_files(entries, "images/"@);
    assert(names.len() == files.len());
    assert(forall|i: int| 0 <= i < files.len() ==> names[i] == (#[trigger] files[i]).name);
    if tools.images_of_files(chip, entries, names) is Ok {
        assert(names.take(names.len() as int) =~= names);
        let images = lemma_images_upto(tools, chip, entries, names, names.len() as int);
        assert forall|i: int| 0 <= i < files.len() implies is_image_in(
            Ok(images[i]),
            tools,
            chip,
            entries,
            (#[trigger] files[i]).name,
        ) by {
            assert(images[i] == images[i]);
        }
    } else {
        let i = lemma_images_err(tools, chip, entries, names);
        let images = lemma_images_upto(tools, chip, entries, names, i);
        let fault = tools.images_of_files(chip, entries, names)->Err_0;
        lemma_image_at(tools, chip, entries, names, i);
        assert(names[i] == files[i].name);
        lemma_first_wrong(tools, chip, entries, fault, images, i);
    }
}

/// The efuses of an archive are those that they should be.
proof fn lemma_efuses_of(entries: Seq<EntryView>)
    ensures
        are_efuses_of(
            efuses_of_files(entries, files_below(entry_names(entries), "efuses/"@)),
            entries,
        ),
{
    let names = files_below(entry_names(entries), "efuses/"@);
    let files = entries_below(entries, "efuses/"@);
    reveal_strlit("efuses/");
    lemma_files(entries, "efuses/"@);
    law_efuse_files(entries, names);
    assert forall|i: int| 0 <= i < files.len() implies is_efuse_in(
        efuse_of_file(entries, (#[trigger] files[i]).name),
        entries,
        files[i].name,
    ) by {
        lemma_one_entry(entries, files[i].name);
    }
    match efuses_of_files(entries, names) {
        Ok(efuses) => {
            assert forall|i: int| 0 <= i < files.len() implies is_efuse_in(
                Ok(efuses[i]),
                entries,
                (#[trigger] files[i]).name,
            ) by {
                assert(names[i] == files[i].name);
            }
        },
        Err(fault) => {
            let i = lemma_efuses_err(entries, names);
            assert(names[i] == files[i].name);
            law_efuse_files(entries, names.take(i));
            assert forall|j: int| 0 <= j < i implies exists|efuse: EfuseView|
                is_efuse_in(Ok(efuse), entries, (#[trigger] files[j]).name) by {
                assert(names[j] == files[j].name);
                assert(names.take(i)[j] == names[j]);
                let efuse = efuse_of_file(entries, names[j])->Ok_0;
                assert(is_efuse_in(Ok(efuse), entries, files[j].name));
            }
        },
    }
}

/// What a ZIP archive comes to, given its parameters, its table and its bootloader: a
/// bundle with its images and efuses, and with what is supplied where it is missing.
pub open spec fn is_zip_of_files<F, G, P>(
    result: Result<BundleView, Fault<Seq<char>>>,
    tools: Tools<F, G, P>,
    name: Seq<char>,
    params: Params,
    text: Option<Seq<char>>,
    boot: Option<ImageView>,
    entries: Seq<EntryView>,
    supply: (bool, bool),
) -> bool where
    F: Fn(&[u8], Chip) -> Result<Vec<u8>, String>,
    G: Fn(Chip, Option<FlashSize>) -> Result<Vec<u8>, String>,
    P: Fn(&str) -> Result<Params, String>,
 {
    exists|
        images: Result<Seq<ImageView>, Fault<Seq<char>>>,
        efuses: Result<Seq<EfuseView>, Fault<Seq<char>>>,
    |
        {
            &&& #[trigger] are_images_of(images, tools, params.chip, entries)
            &&& #[trigger] are_efuses_of(efuses, entries)
            &&& match (images, efuses) {
                (Err(fault), _) => result == Err::<BundleView, Fault<Seq<char>>>(fault),
                (_, Err(fault)) => result == Err::<BundleView, Fault<Seq<char>>>(fault),
                (Ok(images), Ok(efuses)) => is_made_from(
                    result,
                    tools,
                    name,
                    params,
                    if text is None && supply.0 {
                        Some(Bundle::DEFAULT_PART_TABLE@)
                    } else {
                        text
                    },
                    match boot {
                        Some(image) => Payload::Provided(image),
                        None => if supply.1 {
                            Payload::Default
                        } else {
                            Payload::NotProvided
                        },
                    },
                    images,
                    efuses,
                ),
            }
        }
}

/// What a ZIP archive comes to, given its parameters.
pub open spec fn is_zip_of_params<F, G, P>(
    result: Result<BundleView, Fault<Seq<char>>>,
    tools: Tools<F, G, P>,
    name: Seq<char>,
    params: Params,
    entries: Seq<EntryView>,
    supply: (bool, bool),
) -> bool where
    F: Fn(&[u8], Chip) -> Result<Vec<u8>, String>,
    G: Fn(Chip, Option<FlashSize>) -> Result<Vec<u8>, String>,
    P: Fn(&str) -> Result<Params, String>,
 {
    exists|
        text: Result<Option<Seq<char>>, Fault<Seq<char>>>,
        boot: Result<Option<ImageView>, Fault<Seq<char>>>,
    |
        {
            &&& #[trigger] is_table_text_of(text, entries)
            &&& #[trigger] is_boot_file_of(boot, entries)
            &&& match (text, boot) {
                (Err(fault), _) => result == Err::<BundleView, Fault<Seq<char>>>(fault),
                (_, Err(fault)) => result == Err::<BundleView, Fault<Seq<char>>>(fault),
                (Ok(text), Ok(boot)) => is_zip_of_files(
                    result,
                    tools,
                    name,
                    params,
                    text,
                    boot,
                    entries,
                    supply,
                ),
            }
        }
}

/// What a ZIP archive comes to: a bundle with what its files hold, or what is wrong with
/// the first of them.
pub open spec fn is_zip_of<F, G, P>(
    result: Result<BundleView, Fault<Seq<char>>>,
    tools: Tools<F, G, P>,
    name: Seq<char>,
    default_params: Option<Params>,
    entries: Seq<EntryView>,
    supply: (bool, bool),
) -> bool where
    F: Fn(&[u8], Chip) -> Result<Vec<u8>, String>,
    G: Fn(Chip, Option<FlashSize>) -> Result<Vec<u8>, String>,
    P: Fn(&str) -> Result<Params, String>,
 {
    exists|params: Result<Params, Fault<Seq<char>>>|
        {
            &&& #[trigger] are_params_of(params, tools, entries, default_params)
            &&& match params {
                Err(fault) => result == Err::<BundleView, Fault<Seq<char>>>(fault),
                Ok(params) => is_zip_of_params(result, tools, name, params, entries, supply),
            }
        }
}

/// The parameters of an archive are those that they should be.
proof fn lemma_params_of<F, G, P>(
    tools: Tools<F, G, P>,
    entries: Seq<EntryView>,
    default_params: Option<Params>,
) where
    F: Fn(&[u8], Chip) -> Result<Vec<u8>, String>,
    G: Fn(Chip, Option<FlashSize>) -> Result<Vec<u8>, String>,
    P: Fn(&str) -> Result<Params, String>,

    requires
        tools.has_unpacked(entries, default_params),
    ensures
        are_params_of(tools.params_in(entries, default_params), tools, entries, default_params),
{
    lemma_one_entry(entries, "params.toml"@);
    if let Some(k) = entry_index(entries, "params.toml"@) {
        if entries[k].opened is Ok && entries[k].opened->Ok_0.text is Ok {
            lemma_params_answer(tools, entries[k].opened->Ok_0.text->Ok_0);
        }
    }
}

/// The table and the bootloader of an archive are those that they should be.
pub(crate) proof fn lemma_front_files(entries: Seq<EntryView>)
    ensures
        is_table_text_of(part_table_of_archive(entries), entries),
        is_boot_file_of(bootloader_of_archive(entries), entries),
{
    lemma_one_entry(entries, "partition-table.csv"@);
    lemma_one_entry(entries, "bootloader.bin"@);
}

/// Of what a ZIP archive holds, the parameters come first, then the partition table, the
/// bootloader, the images and the efuses; what is wrong with the first that cannot be had
/// is reported. Each image is the bytes of its file, or what they are converted to for the
/// chip of the bundle. The default partition table and the default bootloader are supplied
/// where they are missing and asked for, each for itself.
pub proof fn law_zip_archive<F, G, P>(
    tools: Tools<F, G, P>,
    name: Seq<char>,
    default_params: Option<Params>,
    entries: Seq<EntryView>,
    supply_default_part_table: bool,
    supply_default_bootloader: bool,
) where
    F: Fn(&[u8], Chip) -> Result<Vec<u8>, String>,
    G: Fn(Chip, Option<FlashSize>) -> Result<Vec<u8>, String>,
    P: Fn(&str) -> Result<Params, String>,

    requires
        tools.has_zipped(default_params, entries, supply_default_bootloader),
        tools.zip_has_place(default_params, entries, supply_default_bootloader),
    ensures
        is_zip_of(
            tools.zipped(
                name,
                default_params,
                entries,
                supply_default_part_table,
                supply_default_bootloader,
            ),
            tools,
            name,
            default_params,
            entries,
            (supply_default_part_table, supply_default_bootloader),
        ),
{
    let supply = (supply_default_part_table, supply_default_bootloader);
    let result = tools.zipped(name, default_params, entries, supply.0, supply.1);
    let params = tools.params_in(entries, default_params);
    let text = part_table_of_archive(entries);
    let boot = bootloader_of_archive(entries);
    lemma_params_of(tools, entries, default_params);
    lemma_front_files(entries);
    if params is Ok {
        let chip = params->Ok_0.chip;
        if text is Ok && boot is Ok {
            let names = files_below(entry_names(entries), "images/"@);
            let images = tools.images_of_files(chip, entries, names);
            let efuses = efuses_of_files(
                entries,
                files_below(entry_names(entries), "efuses/"@),
            );
            lemma_images_of(tools, chip, entries);
            lemma_efuses_of(entries);
            if images is Ok && efuses is Ok {
                let parts = tools.unpacked(entries, default_params)->Ok_0;
                lemma_made_from(
                    tools,
                    name,
                    params->Ok_0,
                    if text->Ok_0 is None && supply.0 {
                        Some(Bundle::DEFAULT_PART_TABLE@)
                    } else {
                        text->Ok_0
                    },
                    Payload::spec_new(boot->Ok_0, supply.1),
                    images->Ok_0,
                    efuses->Ok_0,
                );
            }
            assert(is_zip_of_files(
                result,
                tools,
                name,
                params->Ok_0,
                text->Ok_0,
                boot->Ok_0,
                entries,
                supply,
            ));
        }
        assert(is_zip_of_params(result, tools, name, params->Ok_0, entries, supply));
    }
}

/// The image of an app alone.
pub open spec fn app_image(ty: ImageType, data: Seq<u8>) -> ImageView {
    ImageView { name: "ota_1"@, ty, data, status: ProvisioningStatus::NotStarted }
}

/// What the image of an app alone comes to: a bundle with nothing else but the default
/// partition table and the default bootloader, each where it is asked for.
pub open spec fn is_app_bundle<F, G, P>(
    result: Result<BundleView, Fault<Seq<char>>>,
    tools: Tools<F, G, P>,
    name: Seq<char>,
    params: Params,
    app: ImageView,
    supply: (bool, bool),
) -> bool where
    F: Fn(&[u8], Chip) -> Result<Vec<u8>, String>,
    G: Fn(Chip, Option<FlashSize>) -> Result<Vec<u8>, String>,
    P: Fn(&str) -> Result<Params, String>,
 {
    is_made_from(
        result,
        tools,
        name,
        params,
        if supply.0 {
            Some(Bundle::DEFAULT_PART_TABLE@)
        } else {
            None
        },
        if supply.1 {
            Payload::Default
        } else {
            Payload::NotProvided
        },
        seq![app],
        Seq::empty(),
    )
}

/// What the content of a bundle comes to is told by the suffix of its name: a ZIP archive,
/// a binary app image, or an ELF app image, which is converted for the chip of the default
/// parameters. A name with another suffix is reported.
pub proof fn law_created<F, G, P>(
    tools: Tools<F, G, P>,
    name: Seq<char>,
    default_params: Params,
    content: Seq<u8>,
    supply_default_part_table: bool,
    supply_default_bootloader: bool,
) where
    F: Fn(&[u8], Chip) -> Result<Vec<u8>, String>,
    G: Fn(Chip, Option<FlashSize>) -> Result<Vec<u8>, String>,
    P: Fn(&str) -> Result<Params, String>,

    requires
        tools.has_created(name, default_params, content, supply_default_bootloader),
        tools.content_has_place(name, default_params, content, supply_default_bootloader),
    ensures
        ({
            let supply = (supply_default_part_table, supply_default_bootloader);
            let result = tools.created(name, default_params, content, supply.0, supply.1);
            if ".bundle"@.is_suffix_of(name) {
                match archive_entries(content) {
                    Ok(entries) => is_zip_of(
                        result,
                        tools,
                        name,
                        Some(default_params),
                        entries,
                        supply,
                    ),
                    Err(reason) => result == Err::<BundleView, Fault<Seq<char>>>(
                        Fault::Archive { reason },
                    ),
                }
            } else if ".bin"@.is_suffix_of(name) {
                is_app_bundle(
                    result,
                    tools,
                    name,
                    default_params,
                    app_image(ImageType::Binary, content),
                    supply,
                )
            } else if ".elf"@.is_suffix_of(name) {
                exists|bin: Result<Seq<u8>, Fault<Seq<char>>>|
                    {
                        &&& #[trigger] is_elf_answer(tools, content, default_params.chip, bin)
                        &&& match bin {
                            Err(fault) => result == Err::<BundleView, Fault<Seq<char>>>(fault),
                            Ok(data) => is_app_bundle(
                                result,
                                tools,
                                name,
                                default_params,
                                app_image(ImageType::Elf, data),
                                supply,
                            ),
                        }
                    }
            } else {
                result == Err::<BundleView, Fault<Seq<char>>>(Fault::UnknownSuffix { name })
            }
        }),
{
    let supply = (supply_default_part_table, supply_default_bootloader);
    let text = if supply.0 {
        Some(Bundle::DEFAULT_PART_TABLE@)
    } else {
        None
    };
    let boot = Payload::spec_new(None, supply.1);
    if ".bundle"@.is_suffix_of(name) {
        if let Ok(entries) = archive_entries(content) {
            law_zip_archive(tools, name, Some(default_params), entries, supply.0, supply.1);
        }
    } else if ".bin"@.is_suffix_of(name) {
        let app = app_image(ImageType::Binary, content);
        lemma_made_from(tools, name, default_params, text, boot, seq![app], Seq::empty());
    } else if ".elf"@.is_suffix_of(name) {
        lemma_elf_answer(tools, content, default_params.chip);
        if let Ok(data) = tools.converted(content, default_params.chip) {
            let app = app_image(ImageType::Elf, data);
            lemma_made_from(tools, name, default_params, text, boot, seq![app], Seq::empty());
        }
    }
}

/// Each ELF file below `images/` of an archive is in its image as what `elf2bin` answers
/// for its bytes and the chip of the parameters of the bundle, and each binary file as its
/// bytes. There is one image for each of these files, and no other.
pub proof fn law_images_for_the_chip<F, G, P>(
    tools: Tools<F, G, P>,
    entries: Seq<EntryView>,
    default_params: Option<Params>,
) where
    F: Fn(&[u8], Chip) -> Result<Vec<u8>, String>,
    G: Fn(Chip, Option<FlashSize>) -> Result<Vec<u8>, String>,
    P: Fn(&str) -> Result<Params, String>,

    requires
        tools.has_unpacked(entries, default_params),
    ensures
        tools.unpacked(entries, default_params) matches Ok(parts) ==> {
            let files = entries_below(entries, "images/"@);
            &&& are_params_of(Ok(parts.params), tools, entries, default_params)
            &&& parts.images.len() == files.len()
            &&& forall|i: int, k: int|
                0 <= i < files.len() && #[trigger] is_entry(entries, files[i].name, k) ==> {
                    let image = #[trigger] parts.images[i];
                    let data = entries[k].opened->Ok_0.bytes->Ok_0;
                    &&& entries[k].opened is Ok
                    &&& entries[k].opened->Ok_0.bytes is Ok
                    &&& is_stem(image.name, files[i].name.skip(7))
                    &&& if ".bin"@.is_suffix_of(files[i].name) {
                        image.ty == ImageType::Binary && image.data == data
                    } else {
                        image.ty == ImageType::Elf && is_elf_answer(
                            tools,
                            data,
                            parts.params.chip,
                            Ok(image.data),
                        )
                    }
                }
        },
{
    if let Ok(parts) = tools.unpacked(entries, default_params) {
        let files = entries_below(entries, "images/"@);
        lemma_params_of(tools, entries, default_params);
        lemma_images_of(tools, parts.params.chip, entries);
        assert(are_images_of(Ok(parts.images), tools, parts.params.chip, entries));
        assert forall|i: int, k: int|
            0 <= i < files.len() && #[trigger] is_entry(entries, files[i].name, k) implies {
            let image = #[trigger] parts.images[i];
            let data = entries[k].opened->Ok_0.bytes->Ok_0;
            &&& entries[k].opened is Ok
            &&& entries[k].opened->Ok_0.bytes is Ok
            &&& is_stem(image.name, files[i].name.skip(7))
            &&& if ".bin"@.is_suffix_of(files[i].name) {
                image.ty == ImageType::Binary && image.data == data
            } else {
                image.ty == ImageType::Elf && is_elf_answer(
                    tools,
                    data,
                    parts.params.chip,
                    Ok(image.data),
                )
            }
        } by {
            assert(is_image_in(
                Ok(parts.images[i]),
                tools,
                parts.params.chip,
                entries,
                files[i].name,
            ));
        }
    }
}

/// What is made of parts has a partition if and only if there is a table, and begins with
/// the bootloader if and only if there is one.
proof fn lemma_made_front<F, G, P>(
    bundle: BundleView,
    tools: Tools<F, G, P>,
    name: Seq<char>,
    params: Params,
    text: Option<Seq<char>>,
    boot: Payload<ImageView>,
    images: Seq<ImageView>,
    efuses: Seq<EfuseView>,
) where
    F: Fn(&[u8], Chip) -> Result<Vec<u8>, String>,
    G: Fn(Chip, Option<FlashSize>) -> Result<Vec<u8>, String>,
    P: Fn(&str) -> Result<Params, String>,

    requires
        is_made_from(Ok(bundle), tools, name, params, text, boot, images, efuses),
    ensures
        has_partitions(bundle) <==> text is Some,
        text is Some ==> (begins_with_bootloader(bundle) <==> !(boot is NotProvided)),
        boot is Default ==> bundle.parts[0].image is Some && bundle.parts[0].image->0.name
            == "(bootloader)"@,
        boot matches Payload::Provided(image) ==> bundle.parts[0].image == Some(image),
        text is None && images.len() == 1 ==> bundle.parts.len() == if boot is NotProvided {
            1int
        } else {
            2
        },
{
    let rows = match text {
        Some(text) => Some(rows_in(text)->Ok_0),
        None => None,
    };
    let image = match boot {
        Payload::NotProvided => None,
        Payload::Provided(image) => Some(image),
        Payload::Default => {
            let made = choose|made: Result<ImageView, Fault<Seq<char>>>|
                {
                    &&& #[trigger] is_boot_answer(tools, params, made)
                    &&& match made {
                        Ok(image) => comes_to(
                            Ok(bundle),
                            name,
                            params,
                            rows,
                            Some(image),
                            images,
                            efuses,
                        ),
                        Err(fault) => Ok::<BundleView, Fault<Seq<char>>>(bundle) == Err::<
                            BundleView,
                            Fault<Seq<char>>,
                        >(fault),
                    }
                };
            Some(made->Ok_0)
        },
    };
    assert(comes_to(Ok(bundle), name, params, rows, image, images, efuses));
    assert(are_mapped(bundle.parts, params.chip, rows, image, images));
    let front: int = if image is Some {
        1
    } else {
        0
    };
    reveal_strlit("(bootloader)");
    reveal_strlit("(part-table)");
    assert("(bootloader)"@[1] != "(part-table)"@[1]);
    if text is Some {
        assert(bundle.parts[front].partition is Some);
    } else {
        let loose = bundle.parts.skip(front);
        assert forall|i: int| 0 <= i < bundle.parts.len() implies (
        #[trigger] bundle.parts[i]).partition is None by {
            if i >= front {
                assert(loose[i - front] == bundle.parts[i]);
            }
        }
        if images.len() == 1 {
            assert(is_last(images, images[0].name, 0));
            assert(!has_row(Seq::empty(), images[0].name));
            assert(exists|i: int|
                0 <= i < loose.len() && (#[trigger] loose[i]).image == Some(images[0]));
            if loose.len() > 1 {
                assert(loose[0].image->0.name != loose[1].image->0.name);
                assert(is_last_named(images, loose[0].image->0.name, loose[0].image));
                assert(is_last_named(images, loose[1].image->0.name, loose[1].image));
            }
        }
    }
}

/// Whether a bundle has a mapping to a partition.
pub open spec fn has_partitions(bundle: BundleView) -> bool {
    exists|i: int| 0 <= i < bundle.parts.len() && (#[trigger] bundle.parts[i]).partition is Some
}

/// Whether the first mapping of a bundle is to the partition of the bootloader.
pub open spec fn begins_with_bootloader(bundle: BundleView) -> bool {
    &&& bundle.parts[0].partition is Some
    &&& bundle.parts[0].partition->0.name == "(bootloader)"@
}

/// A bundle made from content has a partition table if and only if one was in the ZIP
/// archive or was asked for, and begins with a bootloader if and only if one was in the
/// archive or was asked for. Neither depends on whether the other was asked for.
pub proof fn law_supplied<F, G, P>(
    tools: Tools<F, G, P>,
    name: Seq<char>,
    default_params: Params,
    content: Seq<u8>,
    supply_default_part_table: bool,
    supply_default_bootloader: bool,
) where
    F: Fn(&[u8], Chip) -> Result<Vec<u8>, String>,
    G: Fn(Chip, Option<FlashSize>) -> Result<Vec<u8>, String>,
    P: Fn(&str) -> Result<Params, String>,

    requires
        tools.has_created(name, default_params, content, supply_default_bootloader),
        tools.content_has_place(name, default_params, content, supply_default_bootloader),
    ensures
        tools.created(
            name,
            default_params,
            content,
            supply_default_part_table,
            supply_default_bootloader,
        ) matches Ok(bundle) ==> {
            let zip = ".bundle"@.is_suffix_of(name);
            let entries = archive_entries(content)->Ok_0;
            let table = supply_default_part_table || (zip && has_entry(
                entries,
                "partition-table.csv"@,
            ));
            let boot = supply_default_bootloader || (zip && has_entry(
                entries,
                "bootloader.bin"@,
            ));
            &&& has_partitions(bundle) <==> table
            &&& table ==> (begins_with_bootloader(bundle) <==> boot)
            &&& boot ==> bundle.parts[0].image is Some && bundle.parts[0].image->0.name
                == "(bootloader)"@
            &&& !zip && !table ==> bundle.parts.len() == if boot {
                2int
            } else {
                1
            }
        },
{
    let supply = (supply_default_part_table, supply_default_bootloader);
    law_created(tools, name, default_params, content, supply.0, supply.1);
    let result = tools.created(name, default_params, content, supply.0, supply.1);
    if let Ok(bundle) = result {
        let text = if supply.0 {
            Some(Bundle::DEFAULT_PART_TABLE@)
        } else {
            None
        };
        let boot = if supply.1 {
            Payload::Default
        } else {
            Payload::NotProvided
        };
        if ".bundle"@.is_suffix_of(name) {
            lemma_zip_front(
                bundle,
                tools,
                name,
                Some(default_params),
                archive_entries(content)->Ok_0,
                supply,
            );
        } else if ".bin"@.is_suffix_of(name) {
            let images = seq![app_image(ImageType::Binary, content)];
            lemma_made_front(
                bundle,
                tools,
                name,
                default_params,
                text,
                boot,
                images,
                Seq::empty(),
            );
        } else {
            let data = tools.converted(content, default_params.chip)->Ok_0;
            let bin = choose|bin: Result<Seq<u8>, Fault<Seq<char>>>|
                {
                    &&& #[trigger] is_elf_answer(tools, content, default_params.chip, bin)
                    &&& match bin {
                        Err(fault) => result == Err::<BundleView, Fault<Seq<char>>>(fault),
                        Ok(data) => is_app_bundle(
                            result,
                            tools,
                            name,
                            default_params,
                            app_image(ImageType::Elf, data),
                            supply,
                        ),
                    }
                };
            let images = seq![app_image(ImageType::Elf, bin->Ok_0)];
            lemma_made_front(
                bundle,
                tools,
                name,
                default_params,
                text,
                boot,
                images,
                Seq::empty(),
            );
        }
    }
}

proof fn lemma_zip_front<F, G, P>(
    bundle: BundleView,
    tools: Tools<F, G, P>,
    name: Seq<char>,
    default_params: Option<Params>,
    entries: Seq<EntryView>,
    supply: (bool, bool),
) where
    F: Fn(&[u8], Chip) -> Result<Vec<u8>, String>,
    G: Fn(Chip, Option<FlashSize>) -> Result<Vec<u8>, String>,
    P: Fn(&str) -> Result<Params, String>,

    requires
        is_zip_of(Ok(bundle), tools, name, default_params, entries, supply),
    ensures
        ({
            let table = supply.0 || has_entry(entries, "partition-table.csv"@);
            let boot = supply.1 || has_entry(entries, "bootloader.bin"@);
            &&& has_partitions(bundle) <==> table
            &&& table ==> (begins_with_bootloader(bundle) <==> boot)
            &&& boot ==> bundle.parts[0].image is Some && bundle.parts[0].image->0.name
                == "(bootloader)"@
        }),
{
    let result = Ok::<BundleView, Fault<Seq<char>>>(bundle);
    let params = choose|params: Result<Params, Fault<Seq<char>>>|
        {
            &&& #[trigger] are_params_of(params, tools, entries, default_params)
            &&& match params {
                Err(fault) => result == Err::<BundleView, Fault<Seq<char>>>(fault),
                Ok(params) => is_zip_of_params(result, tools, name, params, entries, supply),
            }
        };
    let (text, boot) = choose|
        text: Result<Option<Seq<char>>, Fault<Seq<char>>>,
        boot: Result<Option<ImageView>, Fault<Seq<char>>>,
    |
        {
            &&& #[trigger] is_table_text_of(text, entries)
            &&& #[trigger] is_boot_file_of(boot, entries)
            &&& match (text, boot) {
                (Err(fault), _) => result == Err::<BundleView, Fault<Seq<char>>>(fault),
                (_, Err(fault)) => result == Err::<BundleView, Fault<Seq<char>>>(fault),
                (Ok(text), Ok(boot)) => is_zip_of_files(
                    result,
                    tools,
                    name,
                    params->Ok_0,
                    text,
                    boot,
                    entries,
                    supply,
                ),
            }
        };
    lemma_one_entry(entries, "partition-table.csv"@);
    lemma_one_entry(entries, "bootloader.bin"@);
    lemma_files_front(
        bundle,
        tools,
        name,
        params->Ok_0,
        text->Ok_0,
        boot->Ok_0,
        entries,
        supply,
    );
}

proof fn lemma_files_front<F, G, P>(
    bundle: BundleView,
    tools: Tools<F, G, P>,
    name: Seq<char>,
    params: Params,
    text: Option<Seq<char>>,
    boot: Option<ImageView>,
    entries: Seq<EntryView>,
    supply: (bool, bool),
) where
    F: Fn(&[u8], Chip) -> Result<Vec<u8>, String>,
    G: Fn(Chip, Option<FlashSize>) -> Result<Vec<u8>, String>,
    P: Fn(&str) -> Result<Params, String>,

    requires
        is_zip_of_files(Ok(bundle), tools, name, params, text, boot, entries, supply),
    ensures
        has_partitions(bundle) <==> supply.0 || text is Some,
        supply.0 || text is Some ==> (begins_with_bootloader(bundle) <==> supply.1
            || boot is Some),
        boot matches Some(image) ==> bundle.parts[0].image == Some(image),
        boot is None && supply.1 ==> bundle.parts[0].image is Some
            && bundle.parts[0].image->0.name == "(bootloader)"@,
{
    let result = Ok::<BundleView, Fault<Seq<char>>>(bundle);
    let given = if text is None && supply.0 {
        Some(Bundle::DEFAULT_PART_TABLE@)
    } else {
        text
    };
    let payload = match boot {
        Some(image) => Payload::Provided(image),
        None => if supply.1 {
            Payload::Default
        } else {
            Payload::NotProvided
        },
    };
    let (images, efuses) = choose|
        images: Result<Seq<ImageView>, Fault<Seq<char>>>,
        efuses: Result<Seq<EfuseView>, Fault<Seq<char>>>,
    |
        {
            &&& #[trigger] are_images_of(images, tools, params.chip, entries)
            &&& #[trigger] are_efuses_of(efuses, entries)
            &&& match (images, efuses) {
                (Err(fault), _) => result == Err::<BundleView, Fault<Seq<char>>>(fault),
                (_, Err(fault)) => result == Err::<BundleView, Fault<Seq<char>>>(fault),
                (Ok(images), Ok(efuses)) => is_made_from(
                    result,
                    tools,
                    name,
                    params,
                    given,
                    payload,
                    images,
                    efuses,
                ),
            }
        };
    lemma_made_front(
        bundle,
        tools,
        name,
        params,
        given,
        payload,
        images->Ok_0,
        efuses->Ok_0,
    );
}

/// The tools are asked for what is wanted of them, for the chip, the flash size and the
/// text that are meant, and their answers are taken as they are.
pub proof fn law_tools_answer<F, G, P>(
    tools: Tools<F, G, P>,
    elf: Seq<u8>,
    chip: Chip,
    params: Params,
    text: Seq<char>,
) where
    F: Fn(&[u8], Chip) -> Result<Vec<u8>, String>,
    G: Fn(Chip, Option<FlashSize>) -> Result<Vec<u8>, String>,
    P: Fn(&str) -> Result<Params, String>,

    ensures
        tools.has_converted(elf, chip) ==> is_elf_answer(
            tools,
            elf,
            chip,
            tools.converted(elf, chip),
        ),
        tools.has_read(text) ==> is_params_answer(tools, text, tools.params_of(text)),
        tools.has_booted(params) ==> is_boot_answer(
            tools,
            params,
            match tools.bootloader(params) {
                Ok(data) => Ok(
                    ImageView {
                        name: "(bootloader)"@,
                        ty: ImageType::Binary,
                        data,
                        status: ProvisioningStatus::NotStarted,
                    },
                ),
                Err(fault) => Err(fault),
            },
        ),
{
    if tools.has_converted(elf, chip) {
        lemma_elf_answer(tools, elf, chip);
    }
    if tools.has_read(text) {
        lemma_params_answer(tools, text);
    }
    if tools.has_booted(params) {
        lemma_boot_answer(tools, params);
    }
}

} // verus!
