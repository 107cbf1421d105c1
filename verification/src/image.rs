//! Images, and how far their provisioning has come.

use crate::text::{dec, hex, push_dec, push_hex};
use std::sync::Arc;
use vstd::prelude::*;
use vstd::string::*;

verus! {

/// The status of the provisioning process for a particular partition and image.
#[derive(Debug, Copy, Clone, Eq, PartialEq, Hash, Structural)]
pub enum ProvisioningStatus {
    /// The provisioning process has not started yet
    NotStarted,
    /// The provisioning process is pending
    Pending,
    /// The provisioning process is in progress
    InProgress(Option<u8>),
    /// The provisioning process has been completed
    Done,
}

impl ProvisioningStatus {
    /// The status in text.
    pub open spec fn spec_text(self) -> Seq<char> {
        match self {
            ProvisioningStatus::NotStarted => "Not started"@,
            ProvisioningStatus::Pending => "Pending"@,
            ProvisioningStatus::InProgress(Some(progress)) => "In progress ("@ + dec(
                progress as nat,
            ) + "%)"@,
            ProvisioningStatus::InProgress(None) => "In progress"@,
            ProvisioningStatus::Done => "Done"@,
        }
    }

    /// The status in text, a known progress in whole percent.
    pub fn to_text(&self) -> (text: String)
        ensures
            text@ == self.spec_text(),
    {
        match self {
            Self::NotStarted => "Not started".to_string(),
            Self::Pending => "Pending".to_string(),
            Self::InProgress(progress) => {
                if let Some(progress) = progress {
                    let mut text = "In progress (".to_string();
                    push_dec(&mut text, *progress as usize);
                    text.append("%)");
                    text
                } else {
                    "In progress".to_string()
                }
            },
            Self::Done => "Done".to_string(),
        }
    }
}

/// What an image was made from.
#[derive(Copy, Clone, Debug, Eq, PartialEq, Hash, Structural)]
pub enum ImageType {
    /// An ELF image
    Elf,
    /// A binary image
    Binary,
    /// An empty space (0xff bytes)
    Empty,
}

impl ImageType {
    /// The type in text.
    pub open spec fn spec_text(self) -> Seq<char> {
        match self {
            ImageType::Elf => "ELF"@,
            ImageType::Binary => "Binary"@,
            ImageType::Empty => "Empty"@,
        }
    }

    /// The type in text.
    pub fn to_text(&self) -> (text: String)
        ensures
            text@ == self.spec_text(),
    {
        match self {
            Self::Elf => "ELF".to_string(),
            Self::Binary => "Binary".to_string(),
            Self::Empty => "Empty".to_string(),
        }
    }
}

/// An image to be flashed to some partition.
#[derive(Debug, Clone)]
pub struct Image {
    /// The name of the image
    pub name: String,
    /// Image type.
    /// Only necessary to know for some sanity checks done during bundle loading,
    /// as in trying to associate an ELF image to a non-App partition
    /// as well as for the UI.
    pub ty: ImageType,
    /// The data of the image
    pub data: Arc<Vec<u8>>,
    /// The status of the image flashing
    pub status: ProvisioningStatus,
}

/// An image as contracts speak of it.
pub struct ImageView {
    pub name: Seq<char>,
    pub ty: ImageType,
    pub data: Seq<u8>,
    pub status: ProvisioningStatus,
}

impl View for Image {
    type V = ImageView;

    open spec fn view(&self) -> ImageView {
        ImageView { name: self.name@, ty: self.ty, data: self.data@, status: self.status }
    }
}

/// `size` bytes of erased flash.
pub open spec fn erased(size: nat) -> Seq<u8> {
    Seq::new(size, |i: int| 0xffu8)
}

impl ImageView {
    /// An image that nothing has been done with yet.
    pub open spec fn fresh(name: Seq<char>, ty: ImageType, data: Seq<u8>) -> Self {
        ImageView { name, ty, data, status: ProvisioningStatus::NotStarted }
    }

    /// The image that leaves `size` bytes erased.
    pub open spec fn empty(size: nat) -> Self {
        Self::fresh("(Empty)"@, ImageType::Empty, erased(size))
    }

    /// The image in text.
    pub open spec fn spec_text(self) -> Seq<char> {
        let ty = match self.ty {
            ImageType::Binary => Seq::<char>::empty(),
            ImageType::Elf => " ELF"@,
            ImageType::Empty => " Empty"@,
        };
        self.name + "("@ + dec(self.data.len()) + "B"@ + ty + ")"@
    }
}

/// `size` bytes of erased flash.
fn empty_space(size: usize) -> (space: Vec<u8>)
    ensures
        space@ == erased(size as nat),
{
    let mut space: Vec<u8> = Vec::new();
    while space.len() < size
        invariant
            space@.len() <= size,
            forall|i: int| 0 <= i < space@.len() ==> space@[i] == 0xffu8,
        decreases size - space@.len(),
    {
        space.push(0xff);
    }
    assert(space@ =~= erased(size as nat));
    space
}

impl Image {
    /// Create a new `Image` from the given binary data, where the binary data
    /// was not extracted from an ELF file.
    pub fn new(name: String, data: Vec<u8>) -> (image: Self)
        ensures
            image@ == ImageView::fresh(name@, ImageType::Binary, data@),
    {
        Self {
            name,
            ty: ImageType::Binary,
            data: Arc::new(data),
            status: ProvisioningStatus::NotStarted,
        }
    }

    /// Create a new `Image` from the given binary data, where the binary data
    /// was extracted from an ELF file.
    pub fn new_elf(name: String, data: Vec<u8>) -> (image: Self)
        ensures
            image@ == ImageView::fresh(name@, ImageType::Elf, data@),
    {
        Self {
            name,
            ty: ImageType::Elf,
            data: Arc::new(data),
            status: ProvisioningStatus::NotStarted,
        }
    }

    /// Create a new `Image` with empty space of the given size.
    pub fn new_empty(size: usize) -> (image: Self)
        ensures
            image@ == ImageView::empty(size as nat),
    {
        Self {
            name: "(Empty)".to_string(),
            ty: ImageType::Empty,
            data: Arc::new(empty_space(size)),
            status: ProvisioningStatus::NotStarted,
        }
    }

    /// The image in text: its name, its length, and what it was made from where that
    /// is no binary.
    pub fn to_text(&self) -> (text: String)
        ensures
            text@ == self@.spec_text(),
    {
        let mut text = self.name.clone();
        text.append("(");
        push_dec(&mut text, self.data.len());
        text.append("B");
        match self.ty {
            ImageType::Binary => {
                assert(text@ + Seq::<char>::empty() =~= text@);
            },
            ImageType::Elf => text.append(" ELF"),
            ImageType::Empty => text.append(" Empty"),
        }
        text.append(")");
        text
    }
}

/// The data to be flashed to the device.
#[derive(Clone, Debug)]
pub struct FlashData {
    /// The offset in the flash memory
    pub offset: u32,
    /// The data to be flashed
    pub data: Arc<Vec<u8>>,
    /// Whether the partition where the data is to be flashed is marked as encrypted
    pub encrypted_partition: bool,
}

/// Data to be flashed, as contracts speak of it.
pub struct FlashDataView {
    pub offset: u32,
    pub data: Seq<u8>,
    pub encrypted_partition: bool,
}

impl View for FlashData {
    type V = FlashDataView;

    open spec fn view(&self) -> FlashDataView {
        FlashDataView {
            offset: self.offset,
            data: self.data@,
            encrypted_partition: self.encrypted_partition,
        }
    }
}

impl FlashDataView {
    /// The flash data in text.
    pub open spec fn spec_text(self) -> Seq<char> {
        let text = "Flash data for addr `0x"@ + hex(self.offset as nat, 8) + "` ("@ + dec(
            self.data.len(),
        ) + "B)"@;
        if self.encrypted_partition {
            text + " (encrypted)"@
        } else {
            text
        }
    }
}

impl FlashData {
    /// The flash data in text: where it goes, its length, and whether it is encrypted.
    pub fn to_text(&self) -> (text: String)
        ensures
            text@ == self@.spec_text(),
    {
        let mut text = "Flash data for addr `0x".to_string();
        push_hex(&mut text, self.offset, 8);
        text.append("` (");
        push_dec(&mut text, self.data.len());
        text.append("B)");
        if self.encrypted_partition {
            text.append(" (encrypted)");
        }
        text
    }
}

} // verus!
