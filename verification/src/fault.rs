//! What can go wrong with a bundle.

use crate::text::{check_overflow, dec, overflows, push_dec};
use vstd::prelude::*;
use vstd::string::*;

verus! {

/// A fault, with its texts as `S`: strings in a `BundleError`, characters in a
/// contract.
#[derive(Debug, Clone, PartialEq, Eq)]
pub enum Fault<S> {
    /// The name of the bundle ends with the suffix of no kind of bundle.
    UnknownSuffix { name: S },
    /// The content is no ZIP archive, or its file with parameters cannot be opened.
    Archive { reason: S },
    /// The ZIP archive has no file with parameters.
    NoParams,
    /// The file with parameters cannot be read.
    LoadParams { reason: S },
    /// The parameters are not valid ones.
    Params { reason: S },
    /// An entry of the ZIP archive cannot be opened or read.
    Load { file: S, reason: S },
    /// The partition table is not a valid one.
    PartTable { reason: S },
    /// An ELF image could not be made into a binary image.
    Elf { reason: S },
    /// There is no default bootloader to be had.
    Bootloader { reason: S },
    /// An ELF image was provided for a partition that holds no app.
    ElfNotApp { partition: S },
    /// An image is larger than its partition.
    TooLarge { image: S, partition: S, image_len: usize, part_len: usize },
    /// Two bundles with different parameters were to be merged.
    ParamsDiffer,
    /// A merge would overwrite the image of this mapping.
    ImageExists { name: S },
    /// A merge would overwrite this efuse.
    EfuseExists { efuse: S },
    /// The name of an efuse has too few parts, or too many.
    EfuseName { name: S },
    /// The name of a parameter efuse has no value.
    EfuseNoValue { name: S },
    /// The value of a parameter efuse does not begin with `0x`.
    EfuseValue { value: S, name: S },
    /// The value of a parameter efuse is no hexadecimal number of 32 bits.
    EfuseNumber { digits: S },
    /// A parameter efuse came with data.
    EfuseData { name: S, len: usize },
    /// A key or a key digest came without data.
    EfuseEmpty { name: S },
    /// The type of an efuse is not known.
    EfuseType { ty: S },
}

/// A fault with its texts as strings.
pub type BundleError = Fault<String>;

impl View for Fault<String> {
    type V = Fault<Seq<char>>;

    open spec fn view(&self) -> Fault<Seq<char>> {
        match *self {
            Fault::UnknownSuffix { name } => Fault::UnknownSuffix { name: name@ },
            Fault::Archive { reason } => Fault::Archive { reason: reason@ },
            Fault::NoParams => Fault::NoParams,
            Fault::LoadParams { reason } => Fault::LoadParams { reason: reason@ },
            Fault::Params { reason } => Fault::Params { reason: reason@ },
            Fault::Load { file, reason } => Fault::Load { file: file@, reason: reason@ },
            Fault::PartTable { reason } => Fault::PartTable { reason: reason@ },
            Fault::Elf { reason } => Fault::Elf { reason: reason@ },
            Fault::Bootloader { reason } => Fault::Bootloader { reason: reason@ },
            Fault::ElfNotApp { partition } => Fault::ElfNotApp { partition: partition@ },
            Fault::TooLarge { image, partition, image_len, part_len } => Fault::TooLarge {
                image: image@,
                partition: partition@,
                image_len,
                part_len,
            },
            Fault::ParamsDiffer => Fault::ParamsDiffer,
            Fault::ImageExists { name } => Fault::ImageExists { name: name@ },
            Fault::EfuseExists { efuse } => Fault::EfuseExists { efuse: efuse@ },
            Fault::EfuseName { name } => Fault::EfuseName { name: name@ },
            Fault::EfuseNoValue { name } => Fault::EfuseNoValue { name: name@ },
            Fault::EfuseValue { value, name } => Fault::EfuseValue { value: value@, name: name@ },
            Fault::EfuseNumber { digits } => Fault::EfuseNumber { digits: digits@ },
            Fault::EfuseData { name, len } => Fault::EfuseData { name: name@, len },
            Fault::EfuseEmpty { name } => Fault::EfuseEmpty { name: name@ },
            Fault::EfuseType { ty } => Fault::EfuseType { ty: ty@ },
        }
    }
}

impl Fault<Seq<char>> {
    /// The fault in words.
    pub open spec fn spec_text(self) -> Seq<char> {
        match self {
            Fault::UnknownSuffix { name } => "Bundle name `"@ + name
                + "` does not end with a known suffix"@,
            Fault::Archive { reason } => reason,
            Fault::NoParams => "specified file not found in archive"@,
            Fault::LoadParams { .. } => "Loading params.toml from the ZIP file failed"@,
            Fault::Params { reason } => reason,
            Fault::Load { file, .. } => "Loading `"@ + file + "` from the ZIP file failed"@,
            Fault::PartTable { .. } => "Parsing CSV partition table failed"@,
            Fault::Elf { reason } => reason,
            Fault::Bootloader { reason } => reason,
            Fault::ElfNotApp { partition } => "Partition `"@ + partition
                + "` is not of type 'App', but an ELF image was provided"@,
            Fault::TooLarge { image, partition, image_len, part_len } => "Image `"@ + image
                + "` is too large for partition `"@ + partition + "` ("@ + dec(image_len as nat)
                + "B > "@ + dec(part_len as nat) + "B)"@,
            Fault::ParamsDiffer => "Cannot merge bundles with different parameters"@,
            Fault::ImageExists { name } => "Image for mapping `"@ + name + "` already exists"@,
            Fault::EfuseExists { efuse } => "Efuse `"@ + efuse + "` already exists"@,
            Fault::EfuseName { name } => "Invalid efuse name `"@ + name + "`"@,
            Fault::EfuseNoValue { name } => "Invalid efuse value for name `"@ + name,
            Fault::EfuseValue { value, name } => "Invalid efuse value `"@ + value
                + "` for name `"@ + name,
            Fault::EfuseNumber { digits } => if digits.len() == 0 {
                "cannot parse integer from empty string"@
            } else if overflows(digits) {
                "number too large to fit in target type"@
            } else {
                "invalid digit found in string"@
            },
            Fault::EfuseData { name, len } => "Invalid efuse data for efuse `"@ + name + "`: "@
                + dec(len as nat) + " bytes provided, but no data expected"@,
            Fault::EfuseEmpty { name } => "Invalid efuse data for efuse `"@ + name + "`: empty"@,
            Fault::EfuseType { ty } => "Invalid efuse type `"@ + ty + "`"@,
        }
    }
}

impl Fault<Seq<char>> {
    /// What lies below the fault: the text of the error that it was met with.
    pub open spec fn spec_cause(self) -> Option<Seq<char>> {
        match self {
            Fault::LoadParams { reason } => Some(reason),
            Fault::Load { reason, .. } => Some(reason),
            Fault::PartTable { reason } => Some(reason),
            _ => None,
        }
    }
}

impl Fault<String> {
    /// What lies below the fault: the text of the error that it was met with.
    pub fn cause(&self) -> (cause: Option<&str>)
        ensures
            cause is Some <==> self@.spec_cause() is Some,
            cause matches Some(reason) ==> reason@ == self@.spec_cause()->0,
    {
        match self {
            Fault::LoadParams { reason } => Some(reason.as_str()),
            Fault::Load { file: _, reason } => Some(reason.as_str()),
            Fault::PartTable { reason } => Some(reason.as_str()),
            _ => None,
        }
    }

    /// The fault in words.
    pub fn to_text(&self) -> (text: String)
        ensures
            text@ == self@.spec_text(),
    {
        match self {
            Fault::UnknownSuffix { name } => {
                let mut text = "Bundle name `".to_string();
                text.append(name.as_str());
                text.append("` does not end with a known suffix");
                text
            },
            Fault::Archive { reason } => reason.clone(),
            Fault::NoParams => "specified file not found in archive".to_string(),
            Fault::LoadParams { .. } => {
                "Loading params.toml from the ZIP file failed".to_string()
            },
            Fault::Params { reason } => reason.clone(),
            Fault::Load { file, .. } => {
                let mut text = "Loading `".to_string();
                text.append(file.as_str());
                text.append("` from the ZIP file failed");
                text
            },
            Fault::PartTable { .. } => "Parsing CSV partition table failed".to_string(),
            Fault::Elf { reason } => reason.clone(),
            Fault::Bootloader { reason } => reason.clone(),
            Fault::ElfNotApp { partition } => {
                let mut text = "Partition `".to_string();
                text.append(partition.as_str());
                text.append("` is not of type 'App', but an ELF image was provided");
                text
            },
            Fault::TooLarge { image, partition, image_len, part_len } => {
                let mut text = "Image `".to_string();
                text.append(image.as_str());
                text.append("` is too large for partition `");
                text.append(partition.as_str());
                text.append("` (");
                push_dec(&mut text, *image_len);
                text.append("B > ");
                push_dec(&mut text, *part_len);
                text.append("B)");
                text
            },
            Fault::ParamsDiffer => "Cannot merge bundles with different parameters".to_string(),
            Fault::ImageExists { name } => {
                let mut text = "Image for mapping `".to_string();
                text.append(name.as_str());
                text.append("` already exists");
                text
            },
            Fault::EfuseExists { efuse } => {
                let mut text = "Efuse `".to_string();
                text.append(efuse.as_str());
                text.append("` already exists");
                text
            },
            Fault::EfuseName { name } => {
                let mut text = "Invalid efuse name `".to_string();
                text.append(name.as_str());
                text.append("`");
                text
            },
            Fault::EfuseNoValue { name } => {
                let mut text = "Invalid efuse value for name `".to_string();
                text.append(name.as_str());
                text
            },
            Fault::EfuseValue { value, name } => {
                let mut text = "Invalid efuse value `".to_string();
                text.append(value.as_str());
                text.append("` for name `");
                text.append(name.as_str());
                text
            },
            Fault::EfuseNumber { digits } => {
                if digits.unicode_len() == 0 {
                    "cannot parse integer from empty string".to_string()
                } else if check_overflow(digits.as_str()) {
                    "number too large to fit in target type".to_string()
                } else {
                    "invalid digit found in string".to_string()
                }
            },
            Fault::EfuseData { name, len } => {
                let mut text = "Invalid efuse data for efuse `".to_string();
                text.append(name.as_str());
                text.append("`: ");
                push_dec(&mut text, *len);
                text.append(" bytes provided, but no data expected");
                text
            },
            Fault::EfuseEmpty { name } => {
                let mut text = "Invalid efuse data for efuse `".to_string();
                text.append(name.as_str());
                text.append("`: empty");
                text
            },
            Fault::EfuseType { ty } => {
                let mut text = "Invalid efuse type `".to_string();
                text.append(ty.as_str());
                text.append("`");
                text
            },
        }
    }
}

} // verus!
