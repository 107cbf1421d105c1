//! The kinds of bundles, told apart by the names they come under.

use crate::text::ends_with;
use vstd::prelude::*;
use vstd::string::*;

verus! {

/// The type of the content of a bundle.
#[derive(Debug, Copy, Clone, Eq, PartialEq, Hash, Structural)]
pub enum BundleType {
    /// A ZIP file with everything that the bundle holds
    Complete,
    /// A binary app image
    BinAppImage,
    /// An ELF app image
    ElfAppImage,
}

impl BundleType {
    /// The suffix of the names of such bundles.
    pub open spec fn spec_suffix(self) -> Seq<char> {
        match self {
            BundleType::Complete => ".bundle"@,
            BundleType::BinAppImage => ".bin"@,
            BundleType::ElfAppImage => ".elf"@,
        }
    }

    /// The type of a bundle with this name: the first whose suffix the name ends with.
    pub open spec fn spec_of_name(name: Seq<char>) -> Option<Self> {
        if BundleType::Complete.spec_suffix().is_suffix_of(name) {
            Some(BundleType::Complete)
        } else if BundleType::BinAppImage.spec_suffix().is_suffix_of(name) {
            Some(BundleType::BinAppImage)
        } else if BundleType::ElfAppImage.spec_suffix().is_suffix_of(name) {
            Some(BundleType::ElfAppImage)
        } else {
            None
        }
    }

    /// The suffix of the names of such bundles.
    pub fn suffix(&self) -> (suffix: &'static str)
        ensures
            suffix@ == self.spec_suffix(),
    {
        match self {
            Self::Complete => ".bundle",
            Self::BinAppImage => ".bin",
            Self::ElfAppImage => ".elf",
        }
    }

    /// The type of a bundle with this name.
    pub fn of_name(name: &str) -> (ty: Option<Self>)
        ensures
            ty == Self::spec_of_name(name@),
    {
        if ends_with(name, Self::Complete.suffix()) {
            Some(Self::Complete)
        } else if ends_with(name, Self::BinAppImage.suffix()) {
            Some(Self::BinAppImage)
        } else if ends_with(name, Self::ElfAppImage.suffix()) {
            Some(Self::ElfAppImage)
        } else {
            None
        }
    }
}

} // verus!
