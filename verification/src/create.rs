//! Making bundles from what they are given as.

use crate::archive::{archive_entries, entries, open_archive, Archive, EntryView};
use crate::assemble::{outcome, plain_efuse_views};
use crate::bundle::{Bundle, BundleView};
use crate::chip::{Chip, FlashSize, Params};
use crate::efuse::{Efuse, EfuseView};
use crate::fault::{BundleError, Fault};
use crate::image::{Image, ImageType, ImageView};
use crate::loader::BundleType;
use crate::payload::Payload;
use crate::pool::image_views;
use crate::table::{check_place, payload_text, table_of_text, text_has_place, PartTable};
use crate::tools::Tools;
use vstd::prelude::*;
use vstd::slice::slice_to_vec;
use vstd::string::*;

verus! {

impl<F, G, P> Tools<F, G, P> where
    F: Fn(&[u8], Chip) -> Result<Vec<u8>, String>,
    G: Fn(Chip, Option<FlashSize>) -> Result<Vec<u8>, String>,
    P: Fn(&str) -> Result<Params, String>,
 {
    /// What getting the bootloader that a payload stands for comes to.
    pub open spec fn booted(self, payload: Payload<ImageView>, params: Params) -> Result<
        Option<ImageView>,
        Fault<Seq<char>>,
    > {
        match payload {
            Payload::NotProvided => Ok(None),
            Payload::Default => match self.bootloader(params) {
                Ok(data) => Ok(
                    Some(ImageView::fresh(Bundle::BOOTLOADER_NAME@, ImageType::Binary, data)),
                ),
                Err(fault) => Err(fault),
            },
            Payload::Provided(image) => Ok(Some(image)),
        }
    }

    /// Where the chip boots, if the payload comes to a bootloader.
    pub open spec fn boot_place(self, payload: Payload<ImageView>, params: Params) -> Option<u32> {
        match self.booted(payload, params) {
            Ok(Some(image)) => Some(params.chip.spec_boot_addr()),
            _ => None,
        }
    }

    /// Get the bootloader that a payload stands for.
    fn boot(&self, payload: Payload<Image>, params: Params) -> (image: Result<
        Option<Image>,
        BundleError,
    >)
        requires
            self.wf(),
        ensures
            image_outcome(image) == self.booted(image_payload(payload), params),
            payload is Default ==> self.has_booted(params),
    {
        let default = || -> (image: Result<Image, BundleError>)
            requires
                self.wf(),
            ensures
                match self.bootloader(params) {
                    Ok(data) => image is Ok && image->Ok_0@ == ImageView::fresh(
                        Bundle::BOOTLOADER_NAME@,
                        ImageType::Binary,
                        data,
                    ),
                    Err(fault) => image is Err && image->Err_0@ == fault,
                },
                self.has_booted(params),
        {
            match self.make_bootloader(params) {
                Ok(data) => Ok(Image::new(Bundle::BOOTLOADER_NAME.to_string(), data)),
                Err(e) => Err(e),
            }
        };
        payload.into_option(default)
    }
}

/// A payload as contracts speak of it.
pub open spec fn image_payload(payload: Payload<Image>) -> Payload<ImageView> {
    match payload {
        Payload::NotProvided => Payload::NotProvided,
        Payload::Default => Payload::Default,
        Payload::Provided(image) => Payload::Provided(image@),
    }
}

/// What came of getting an image, as contracts speak of it.
pub open spec fn image_outcome(result: Result<Option<Image>, BundleError>) -> Result<
    Option<ImageView>,
    Fault<Seq<char>>,
> {
    match result {
        Ok(Some(image)) => Ok(Some(image@)),
        Ok(None) => Ok(None),
        Err(e) => Err(e@),
    }
}

impl BundleView {
    /// What making a bundle from its parts comes to: the partition table is read first,
    /// then the bootloader is made.
    pub open spec fn of_parts(
        name: Seq<char>,
        params: Params,
        table_text: Option<Seq<char>>,
        bootloader: Result<Option<ImageView>, Fault<Seq<char>>>,
        images: Seq<ImageView>,
        efuses: Seq<EfuseView>,
    ) -> Result<BundleView, Fault<Seq<char>>> {
        match (table_of_text(table_text), bootloader) {
            (Err(fault), _) => Err(fault),
            (Ok(_), Err(fault)) => Err(fault),
            (Ok(table), Ok(image)) => BundleView::assembled(
                name,
                params,
                table,
                image,
                images,
                efuses,
            ),
        }
    }

    /// What making a bundle from the image of an app alone comes to.
    pub open spec fn of_app(
        name: Seq<char>,
        params: Params,
        app: ImageView,
        supply_default_part_table: bool,
        bootloader: Result<Option<ImageView>, Fault<Seq<char>>>,
    ) -> Result<BundleView, Fault<Seq<char>>> {
        BundleView::of_parts(
            name,
            params,
            if supply_default_part_table {
                Some(Bundle::DEFAULT_PART_TABLE@)
            } else {
                None
            },
            bootloader,
            seq![app],
            Seq::empty(),
        )
    }
}

impl Bundle {
    /// The name of the partition that an app image goes to when it is all there is.
    pub const APP_NAME: &'static str = "ota_1";

    /// Create a new `Bundle` from the parts of the bundle.
    ///
    /// - `name`: The name of the bundle
    /// - `params`: The parameters of the bundle (chip and an optional flash size)
    /// - `part_table_str`: The partition table as a string
    /// - `bootloader`: The bootloader image
    /// - `images`: The images to be flashed to the partitions of their names
    /// - `efuses`: The efuses to be programmed
    /// - `tools`: What makes the default bootloader
    pub fn from_parts<F, G, P>(
        name: String,
        params: Params,
        part_table_str: Payload<&str>,
        bootloader: Payload<Image>,
        images: Vec<Image>,
        efuses: Vec<Efuse>,
        tools: &Tools<F, G, P>,
    ) -> (bundle: Result<Self, BundleError>) where
        F: Fn(&[u8], Chip) -> Result<Vec<u8>, String>,
        G: Fn(Chip, Option<FlashSize>) -> Result<Vec<u8>, String>,
        P: Fn(&str) -> Result<Params, String>,

        requires
            tools.wf(),
            part_table_str matches Payload::Provided(text) ==> text_has_place(
                text@,
                tools.boot_place(image_payload(bootloader), params),
            ),
        ensures
            outcome(bundle) == BundleView::of_parts(
                name@,
                params,
                payload_text(part_table_str),
                tools.booted(image_payload(bootloader), params),
                image_views(images@),
                plain_efuse_views(efuses@),
            ),
            bootloader is Default && table_of_text(payload_text(part_table_str)) is Ok
                ==> tools.has_booted(params),
            part_table_str is Default ==> table_of_text(payload_text(part_table_str)) is Ok,
    {
        let table = match PartTable::new(part_table_str) {
            Ok(table) => table,
            Err(e) => {
                return Err(e);
            },
        };
        let image = match tools.boot(bootloader, params) {
            Ok(image) => image,
            Err(e) => {
                return Err(e);
            },
        };
        Self::assemble(name, params, table, image, images, efuses)
    }

    /// Create a new `Bundle` from an ELF application image.
    ///
    /// - `name`: The name of the bundle
    /// - `params`: The parameters of the bundle (chip and an optional flash size)
    /// - `app_image`: The content of the ELF application image
    /// - `supply_default_part_table`: Whether to supply the default partition table
    /// - `supply_default_bootloader`: Whether to supply the default bootloader
    /// - `tools`: What makes the binary image and the default bootloader
    pub fn from_elf_app_image<F, G, P>(
        name: String,
        params: Params,
        app_image: &[u8],
        supply_default_part_table: bool,
        supply_default_bootloader: bool,
        tools: &Tools<F, G, P>,
    ) -> (bundle: Result<Self, BundleError>) where
        F: Fn(&[u8], Chip) -> Result<Vec<u8>, String>,
        G: Fn(Chip, Option<FlashSize>) -> Result<Vec<u8>, String>,
        P: Fn(&str) -> Result<Params, String>,

        requires
            tools.wf(),
        ensures
            outcome(bundle) == match tools.converted(app_image@, params.chip) {
                Ok(data) => BundleView::of_app(
                    name@,
                    params,
                    ImageView::fresh(Self::APP_NAME@, ImageType::Elf, data),
                    supply_default_part_table,
                    tools.booted(Payload::spec_new(None, supply_default_bootloader), params),
                ),
                Err(fault) => Err(fault),
            },
            tools.has_converted(app_image@, params.chip),
            supply_default_bootloader && tools.converted(app_image@, params.chip) is Ok
                ==> tools.has_booted(params),
    {
        let app_image = match tools.convert(app_image, params.chip) {
            Ok(data) => Image::new_elf(Self::APP_NAME.to_string(), data),
            Err(e) => {
                return Err(e);
            },
        };
        Self::from_app(
            name,
            params,
            app_image,
            supply_default_part_table,
            supply_default_bootloader,
            tools,
        )
    }

    /// Create a new `Bundle` from a binary application image.
    ///
    /// - `name`: The name of the bundle
    /// - `params`: The parameters of the bundle (chip and an optional flash size)
    /// - `app_image`: The content of the binary application image
    /// - `supply_default_part_table`: Whether to supply the default partition table
    /// - `supply_default_bootloader`: Whether to supply the default bootloader
    /// - `tools`: What makes the default bootloader
    pub fn from_bin_app_image<F, G, P>(
        name: String,
        params: Params,
        app_image: &[u8],
        supply_default_part_table: bool,
        supply_default_bootloader: bool,
        tools: &Tools<F, G, P>,
    ) -> (bundle: Result<Self, BundleError>) where
        F: Fn(&[u8], Chip) -> Result<Vec<u8>, String>,
        G: Fn(Chip, Option<FlashSize>) -> Result<Vec<u8>, String>,
        P: Fn(&str) -> Result<Params, String>,

        requires
            tools.wf(),
        ensures
            outcome(bundle) == BundleView::of_app(
                name@,
                params,
                ImageView::fresh(Self::APP_NAME@, ImageType::Binary, app_image@),
                supply_default_part_table,
                tools.booted(Payload::spec_new(None, supply_default_bootloader), params),
            ),
            supply_default_bootloader ==> tools.has_booted(params),
    {
        let app_image = Image::new(Self::APP_NAME.to_string(), slice_to_vec(app_image));
        Self::from_app(
            name,
            params,
            app_image,
            supply_default_part_table,
            supply_default_bootloader,
            tools,
        )
    }

    /// Create a new `Bundle` from the image of an app alone.
    fn from_app<F, G, P>(
        name: String,
        params: Params,
        app_image: Image,
        supply_default_part_table: bool,
        supply_default_bootloader: bool,
        tools: &Tools<F, G, P>,
    ) -> (bundle: Result<Self, BundleError>) where
        F: Fn(&[u8], Chip) -> Result<Vec<u8>, String>,
        G: Fn(Chip, Option<FlashSize>) -> Result<Vec<u8>, String>,
        P: Fn(&str) -> Result<Params, String>,

        requires
            tools.wf(),
        ensures
            outcome(bundle) == BundleView::of_app(
                name@,
                params,
                app_image@,
                supply_default_part_table,
                tools.booted(Payload::spec_new(None, supply_default_bootloader), params),
            ),
            supply_default_bootloader ==> tools.has_booted(params),
    {
        let ghost app = app_image@;
        let images = vec![app_image];
        let efuses: Vec<Efuse> = Vec::new();
        proof {
            assert(image_views(images@) =~= seq![app]);
            assert(plain_efuse_views(efuses@) =~= Seq::<EfuseView>::empty());
        }
        Self::from_parts(
            name,
            params,
            Payload::new(None, supply_default_part_table),
            Payload::new(None, supply_default_bootloader),
            images,
            efuses,
            tools,
        )
    }
}

impl<F, G, P> Tools<F, G, P> where
    F: Fn(&[u8], Chip) -> Result<Vec<u8>, String>,
    G: Fn(Chip, Option<FlashSize>) -> Result<Vec<u8>, String>,
    P: Fn(&str) -> Result<Params, String>,
 {
    /// What making a bundle from the entries of a ZIP archive comes to, `default_params`
    /// standing in for parameters that are not among them.
    pub open spec fn zipped(
        self,
        name: Seq<char>,
        default_params: Option<Params>,
        entries: Seq<EntryView>,
        supply_default_part_table: bool,
        supply_default_bootloader: bool,
    ) -> Result<BundleView, Fault<Seq<char>>> {
        match self.unpacked(entries, default_params) {
            Ok(parts) => BundleView::of_parts(
                name,
                parts.params,
                if parts.part_table is None && supply_default_part_table {
                    Some(Bundle::DEFAULT_PART_TABLE@)
                } else {
                    parts.part_table
                },
                self.booted(
                    Payload::spec_new(parts.bootloader, supply_default_bootloader),
                    parts.params,
                ),
                parts.images,
                parts.efuses,
            ),
            Err(fault) => Err(fault),
        }
    }

    /// Whether the tools come back from what making a bundle from the entries of a ZIP
    /// archive asks of them.
    pub open spec fn has_zipped(
        self,
        default_params: Option<Params>,
        entries: Seq<EntryView>,
        supply_default_bootloader: bool,
    ) -> bool {
        let unpacked = self.unpacked(entries, default_params);
        &&& self.has_unpacked(entries, default_params)
        &&& unpacked is Ok && unpacked->Ok_0.bootloader is None && supply_default_bootloader
            && table_of_text(unpacked->Ok_0.part_table) is Ok ==> self.has_booted(
            unpacked->Ok_0.params,
        )
    }

    /// Whether the tools come back from what looking at the partition table of a ZIP
    /// archive asks of them.
    pub open spec fn has_checked(
        self,
        default_params: Option<Params>,
        entries: Seq<EntryView>,
        supply_default_bootloader: bool,
    ) -> bool {
        let unpacked = self.unpacked(entries, default_params);
        &&& self.has_unpacked(entries, default_params)
        &&& unpacked is Ok && unpacked->Ok_0.part_table is Some && unpacked->Ok_0.bootloader is None
            && supply_default_bootloader ==> self.has_booted(unpacked->Ok_0.params)
    }

    /// Whether a partition table among the entries of a ZIP archive has its place.
    pub open spec fn zip_has_place(
        self,
        default_params: Option<Params>,
        entries: Seq<EntryView>,
        supply_default_bootloader: bool,
    ) -> bool {
        let unpacked = self.unpacked(entries, default_params);
        unpacked is Ok && unpacked->Ok_0.part_table is Some ==> text_has_place(
            unpacked->Ok_0.part_table->0,
            self.boot_place(
                Payload::spec_new(unpacked->Ok_0.bootloader, supply_default_bootloader),
                unpacked->Ok_0.params,
            ),
        )
    }

    /// What making a bundle from its content comes to: the suffix of its name tells
    /// what the content is.
    pub open spec fn created(
        self,
        name: Seq<char>,
        default_params: Params,
        content: Seq<u8>,
        supply_default_part_table: bool,
        supply_default_bootloader: bool,
    ) -> Result<BundleView, Fault<Seq<char>>> {
        let bootloader = self.booted(
            Payload::spec_new(None, supply_default_bootloader),
            default_params,
        );
        match BundleType::spec_of_name(name) {
            None => Err(Fault::UnknownSuffix { name }),
            Some(BundleType::Complete) => match archive_entries(content) {
                Ok(entries) => self.zipped(
                    name,
                    Some(default_params),
                    entries,
                    supply_default_part_table,
                    supply_default_bootloader,
                ),
                Err(reason) => Err(Fault::Archive { reason }),
            },
            Some(BundleType::BinAppImage) => BundleView::of_app(
                name,
                default_params,
                ImageView::fresh(Bundle::APP_NAME@, ImageType::Binary, content),
                supply_default_part_table,
                bootloader,
            ),
            Some(BundleType::ElfAppImage) => match self.converted(content, default_params.chip) {
                Ok(data) => BundleView::of_app(
                    name,
                    default_params,
                    ImageView::fresh(Bundle::APP_NAME@, ImageType::Elf, data),
                    supply_default_part_table,
                    bootloader,
                ),
                Err(fault) => Err(fault),
            },
        }
    }

    /// Whether the tools come back from what making a bundle from its content asks of
    /// them.
    pub open spec fn has_created(
        self,
        name: Seq<char>,
        default_params: Params,
        content: Seq<u8>,
        supply_default_bootloader: bool,
    ) -> bool {
        match BundleType::spec_of_name(name) {
            None => true,
            Some(BundleType::Complete) => archive_entries(content) is Ok ==> self.has_zipped(
                Some(default_params),
                archive_entries(content)->Ok_0,
                supply_default_bootloader,
            ),
            Some(BundleType::BinAppImage) => supply_default_bootloader ==> self.has_booted(
                default_params,
            ),
            Some(BundleType::ElfAppImage) => {
                &&& self.has_converted(content, default_params.chip)
                &&& supply_default_bootloader && self.converted(content, default_params.chip) is Ok
                    ==> self.has_booted(default_params)
            },
        }
    }

    /// Whether a partition table in the content of a bundle has its place.
    pub open spec fn content_has_place(
        self,
        name: Seq<char>,
        default_params: Params,
        content: Seq<u8>,
        supply_default_bootloader: bool,
    ) -> bool {
        BundleType::spec_of_name(name) == Some(BundleType::Complete) && archive_entries(
            content,
        ) is Ok ==> self.zip_has_place(
            Some(default_params),
            archive_entries(content)->Ok_0,
            supply_default_bootloader,
        )
    }

    /// Whether a partition table in the content of a bundle has its place.
    fn check_content(
        &self,
        name: &str,
        default_params: Params,
        content: &Vec<u8>,
        supply_default_bootloader: bool,
    ) -> (yes: bool)
        requires
            self.wf(),
        ensures
            yes == self.content_has_place(
                name@,
                default_params,
                content@,
                supply_default_bootloader,
            ),
            !yes ==> self.has_checked(
                Some(default_params),
                archive_entries(content@)->Ok_0,
                supply_default_bootloader,
            ),
    {
        match BundleType::of_name(name) {
            Some(BundleType::Complete) => {},
            _ => {
                return true;
            },
        }
        match open_archive(content.clone()) {
            Ok(mut archive) => self.check_zip(
                Some(default_params),
                &mut archive,
                supply_default_bootloader,
            ),
            Err(_) => true,
        }
    }

    /// Whether a partition table among the entries of a ZIP archive has its place.
    fn check_zip(
        &self,
        default_params: Option<Params>,
        zip: &mut Archive,
        supply_default_bootloader: bool,
    ) -> (yes: bool)
        requires
            self.wf(),
        ensures
            yes == self.zip_has_place(
                default_params,
                entries(*old(zip)),
                supply_default_bootloader,
            ),
            self.has_checked(default_params, entries(*old(zip)), supply_default_bootloader),
            entries(*final(zip)) == entries(*old(zip)),
    {
        let parts = match self.unpack(zip, default_params) {
            Ok(parts) => parts,
            Err(_) => {
                return true;
            },
        };
        match &parts.part_table {
            Some(text) => {
                let payload = Payload::new(parts.bootloader, supply_default_bootloader);
                let boot = match self.boot(payload, parts.params) {
                    Ok(Some(_)) => Some(parts.params.chip.boot_addr()),
                    _ => None,
                };
                check_place(text.as_str(), boot)
            },
            None => true,
        }
    }
}

impl Bundle {
    /// Create a new `Bundle` from a ZIP bundle.
    ///
    /// - `name`: The name of the bundle
    /// - `zip`: The ZIP archive containing the bundle content
    /// - `supply_default_part_table`: Whether to supply the default partition table if
    ///   the partition table is not provided in the bundle
    /// - `supply_default_bootloader`: Whether to supply the default bootloader if the
    ///   bootloader is not provided in the bundle
    /// - `tools`: What reads the parameters, and makes binary images and the default
    ///   bootloader
    pub fn from_zip_bundle<F, G, P>(
        name: String,
        zip: &mut Archive,
        supply_default_part_table: bool,
        supply_default_bootloader: bool,
        tools: &Tools<F, G, P>,
    ) -> (bundle: Result<Self, BundleError>) where
        F: Fn(&[u8], Chip) -> Result<Vec<u8>, String>,
        G: Fn(Chip, Option<FlashSize>) -> Result<Vec<u8>, String>,
        P: Fn(&str) -> Result<Params, String>,

        requires
            tools.wf(),
            tools.zip_has_place(None, entries(*old(zip)), supply_default_bootloader),
        ensures
            outcome(bundle) == tools.zipped(
                name@,
                None,
                entries(*old(zip)),
                supply_default_part_table,
                supply_default_bootloader,
            ),
            tools.has_zipped(None, entries(*old(zip)), supply_default_bootloader),
            entries(*final(zip)) == entries(*old(zip)),
    {
        Self::from_archive(
            name,
            None,
            zip,
            supply_default_part_table,
            supply_default_bootloader,
            tools,
        )
    }

    /// Create a new `Bundle` from a ZIP bundle, unless a partition table in it cannot be
    /// read, or leaves no place for itself or for the bootloader.
    pub fn from_zip_bundle_checked<F, G, P>(
        name: String,
        zip: &mut Archive,
        supply_default_part_table: bool,
        supply_default_bootloader: bool,
        tools: &Tools<F, G, P>,
    ) -> (bundle: Option<Result<Self, BundleError>>) where
        F: Fn(&[u8], Chip) -> Result<Vec<u8>, String>,
        G: Fn(Chip, Option<FlashSize>) -> Result<Vec<u8>, String>,
        P: Fn(&str) -> Result<Params, String>,

        requires
            tools.wf(),
        ensures
            bundle is Some <==> tools.zip_has_place(
                None,
                entries(*old(zip)),
                supply_default_bootloader,
            ),
            bundle matches Some(result) ==> outcome(result) == tools.zipped(
                name@,
                None,
                entries(*old(zip)),
                supply_default_part_table,
                supply_default_bootloader,
            ),
            bundle is Some ==> tools.has_zipped(
                None,
                entries(*old(zip)),
                supply_default_bootloader,
            ),
            tools.has_checked(None, entries(*old(zip)), supply_default_bootloader),
            entries(*final(zip)) == entries(*old(zip)),
    {
        if tools.check_zip(None, zip, supply_default_bootloader) {
            Some(
                Self::from_zip_bundle(
                    name,
                    zip,
                    supply_default_part_table,
                    supply_default_bootloader,
                    tools,
                ),
            )
        } else {
            None
        }
    }

    /// Create a new `Bundle` from a ZIP bundle, `default_params` standing in for
    /// parameters that it does not have.
    fn from_archive<F, G, P>(
        name: String,
        default_params: Option<Params>,
        zip: &mut Archive,
        supply_default_part_table: bool,
        supply_default_bootloader: bool,
        tools: &Tools<F, G, P>,
    ) -> (bundle: Result<Self, BundleError>) where
        F: Fn(&[u8], Chip) -> Result<Vec<u8>, String>,
        G: Fn(Chip, Option<FlashSize>) -> Result<Vec<u8>, String>,
        P: Fn(&str) -> Result<Params, String>,

        requires
            tools.wf(),
            tools.zip_has_place(default_params, entries(*old(zip)), supply_default_bootloader),
        ensures
            outcome(bundle) == tools.zipped(
                name@,
                default_params,
                entries(*old(zip)),
                supply_default_part_table,
                supply_default_bootloader,
            ),
            tools.has_zipped(default_params, entries(*old(zip)), supply_default_bootloader),
            entries(*final(zip)) == entries(*old(zip)),
    {
        let parts = match tools.unpack(zip, default_params) {
            Ok(parts) => parts,
            Err(e) => {
                return Err(e);
            },
        };
        let part_table = match &parts.part_table {
            Some(text) => Some(text.as_str()),
            None => None,
        };
        Self::from_parts(
            name,
            parts.params,
            Payload::new(part_table, supply_default_part_table),
            Payload::new(parts.bootloader, supply_default_bootloader),
            parts.images,
            parts.efuses,
            tools,
        )
    }

    /// Create a new `Bundle` from a bundle content.
    ///
    /// - `name`: The name of the bundle. Used to identify the type of the provided
    ///   `bundle_content` by examining the suffix in the name as well as for display
    ///   purposes
    /// - `default_params`: The default parameters to use when the parameters are not
    ///   provided in the bundle
    /// - `bundle_content`: The content of the bundle (a ZIP archive, a binary image, or
    ///   an ELF image)
    /// - `supply_default_part_table`: Whether to supply the default partition table if
    ///   the partition table is not provided in the bundle
    /// - `supply_default_bootloader`: Whether to supply the default bootloader if the
    ///   bootloader is not provided in the bundle
    /// - `tools`: What reads the parameters, and makes binary images and the default
    ///   bootloader
    pub fn create<F, G, P>(
        name: String,
        default_params: Params,
        bundle_content: Vec<u8>,
        supply_default_part_table: bool,
        supply_default_bootloader: bool,
        tools: &Tools<F, G, P>,
    ) -> (bundle: Result<Self, BundleError>) where
        F: Fn(&[u8], Chip) -> Result<Vec<u8>, String>,
        G: Fn(Chip, Option<FlashSize>) -> Result<Vec<u8>, String>,
        P: Fn(&str) -> Result<Params, String>,

        requires
            tools.wf(),
            tools.content_has_place(
                name@,
                default_params,
                bundle_content@,
                supply_default_bootloader,
            ),
        ensures
            outcome(bundle) == tools.created(
                name@,
                default_params,
                bundle_content@,
                supply_default_part_table,
                supply_default_bootloader,
            ),
            tools.has_created(name@, default_params, bundle_content@, supply_default_bootloader),
    {
        match BundleType::of_name(name.as_str()) {
            None => Err(Fault::UnknownSuffix { name }),
            Some(BundleType::Complete) => {
                let mut zip = match open_archive(bundle_content) {
                    Ok(zip) => zip,
                    Err(e) => {
                        return Err(e);
                    },
                };
                Self::from_archive(
                    name,
                    Some(default_params),
                    &mut zip,
                    supply_default_part_table,
                    supply_default_bootloader,
                    tools,
                )
            },
            Some(BundleType::BinAppImage) => Self::from_bin_app_image(
                name,
                default_params,
                bundle_content.as_slice(),
                supply_default_part_table,
                supply_default_bootloader,
                tools,
            ),
            Some(BundleType::ElfAppImage) => Self::from_elf_app_image(
                name,
                default_params,
                bundle_content.as_slice(),
                supply_default_part_table,
                supply_default_bootloader,
                tools,
            ),
        }
    }

    /// Create a new `Bundle` from a bundle content, unless a partition table in it
    /// cannot be read, or leaves no place for itself or for the bootloader.
    pub fn create_checked<F, G, P>(
        name: String,
        default_params: Params,
        bundle_content: Vec<u8>,
        supply_default_part_table: bool,
        supply_default_bootloader: bool,
        tools: &Tools<F, G, P>,
    ) -> (bundle: Option<Result<Self, BundleError>>) where
        F: Fn(&[u8], Chip) -> Result<Vec<u8>, String>,
        G: Fn(Chip, Option<FlashSize>) -> Result<Vec<u8>, String>,
        P: Fn(&str) -> Result<Params, String>,

        requires
            tools.wf(),
        ensures
            bundle is Some <==> tools.content_has_place(
                name@,
                default_params,
                bundle_content@,
                supply_default_bootloader,
            ),
            bundle matches Some(result) ==> outcome(result) == tools.created(
                name@,
                default_params,
                bundle_content@,
                supply_default_part_table,
                supply_default_bootloader,
            ),
            bundle is Some ==> tools.has_created(
                name@,
                default_params,
                bundle_content@,
                supply_default_bootloader,
            ),
            bundle is None ==> tools.has_checked(
                Some(default_params),
                archive_entries(bundle_content@)->Ok_0,
                supply_default_bootloader,
            ),
    {
        if tools.check_content(
            name.as_str(),
            default_params,
            &bundle_content,
            supply_default_bootloader,
        ) {
            Some(
                Self::create(
                    name,
                    default_params,
                    bundle_content,
                    supply_default_part_table,
                    supply_default_bootloader,
                    tools,
                ),
            )
        } else {
            None
        }
    }
}

} // verus!
