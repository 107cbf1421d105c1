//! Partitions of the flash memory, and the images that go to them.

use crate::image::{Image, ImageView, ProvisioningStatus};
use crate::text::{dec, hex, push_dec, push_hex};
use vstd::prelude::*;
use vstd::string::*;

verus! {

/// The type of a partition.
#[derive(Debug, Copy, Clone, Eq, PartialEq, Hash, Structural)]
pub enum PartitionType {
    /// The partition holds an app
    App,
    /// The partition holds data
    Data,
    /// A type of the user's own
    Custom(u8),
}

impl PartitionType {
    /// The type in text.
    pub open spec fn spec_text(self) -> Seq<char> {
        match self {
            PartitionType::App => "app"@,
            PartitionType::Data => "data"@,
            PartitionType::Custom(code) => "0x"@ + hex(code as nat, 2),
        }
    }

    /// Appends the type.
    fn push_text(&self, text: &mut String)
        ensures
            final(text)@ == old(text)@ + self.spec_text(),
    {
        match self {
            Self::App => text.append("app"),
            Self::Data => text.append("data"),
            Self::Custom(code) => push_code(text, *code),
        }
    }
}

/// Appends a code: two hexadecimal digits behind `0x`.
fn push_code(text: &mut String, code: u8)
    ensures
        final(text)@ == old(text)@ + ("0x"@ + hex(code as nat, 2)),
{
    let ghost before = text@;
    text.append("0x");
    push_hex(text, code as u32, 2);
    assert(text@ =~= before + ("0x"@ + hex(code as nat, 2)));
}

/// The subtype of a partition: the code that stands for it in a binary partition
/// table, and whether it is one of an app, one of data or one of the user's own.
#[derive(Debug, Copy, Clone, Eq, PartialEq, Hash, Structural)]
pub enum PartitionSubType {
    /// A subtype of an app partition
    App(u8),
    /// A subtype of a data partition
    Data(u8),
    /// A subtype of the user's own
    Custom(u8),
}

impl PartitionSubType {
    /// The name of a subtype of an app partition; a code without a name is written
    /// as it is.
    pub open spec fn app_name(code: u8) -> Seq<char> {
        if code == 0 {
            "factory"@
        } else if 0x10 <= code < 0x20 {
            "ota_"@ + dec((code - 0x10) as nat)
        } else if code == 0x20 {
            "test"@
        } else {
            "0x"@ + hex(code as nat, 2)
        }
    }

    /// The name of a subtype of a data partition; a code without a name is written
    /// as it is.
    pub open spec fn data_name(code: u8) -> Seq<char> {
        if code == 0 {
            "ota"@
        } else if code == 1 {
            "phy"@
        } else if code == 2 {
            "nvs"@
        } else if code == 3 {
            "coredump"@
        } else if code == 4 {
            "nvs_keys"@
        } else if code == 5 {
            "efuse"@
        } else if code == 6 {
            "undefined"@
        } else if code == 0x80 {
            "esphttpd"@
        } else if code == 0x81 {
            "fat"@
        } else if code == 0x82 {
            "spiffs"@
        } else if code == 0x83 {
            "littlefs"@
        } else {
            "0x"@ + hex(code as nat, 2)
        }
    }

    /// The subtype in text.
    pub open spec fn spec_text(self) -> Seq<char> {
        match self {
            PartitionSubType::App(code) => Self::app_name(code),
            PartitionSubType::Data(code) => Self::data_name(code),
            PartitionSubType::Custom(code) => "0x"@ + hex(code as nat, 2),
        }
    }

    /// Whether a subtype of app partitions has this code.
    pub open spec fn is_app_code(code: u8) -> bool {
        code == 0 || 0x10 <= code <= 0x20
    }

    /// Whether a subtype of data partitions has this code.
    pub open spec fn is_data_code(code: u8) -> bool {
        code <= 6 || 0x80 <= code <= 0x83
    }

    /// The subtype in text.
    pub fn to_text(&self) -> (text: String)
        ensures
            text@ == self.spec_text(),
    {
        let mut text = String::new();
        self.push_text(&mut text);
        assert(text@ =~= self.spec_text());
        text
    }

    /// Appends the subtype.
    fn push_text(&self, text: &mut String)
        ensures
            final(text)@ == old(text)@ + self.spec_text(),
    {
        match self {
            Self::App(code) => {
                let code = *code;
                if code == 0 {
                    text.append("factory");
                } else if 0x10 <= code && code < 0x20 {
                    let ghost before = text@;
                    text.append("ota_");
                    push_dec(text, (code - 0x10) as usize);
                    assert(text@ =~= before + ("ota_"@ + dec((code - 0x10) as nat)));
                } else if code == 0x20 {
                    text.append("test");
                } else {
                    push_code(text, code);
                }
            },
            Self::Data(code) => {
                let code = *code;
                if code == 0 {
                    text.append("ota");
                } else if code == 1 {
                    text.append("phy");
                } else if code == 2 {
                    text.append("nvs");
                } else if code == 3 {
                    text.append("coredump");
                } else if code == 4 {
                    text.append("nvs_keys");
                } else if code == 5 {
                    text.append("efuse");
                } else if code == 6 {
                    text.append("undefined");
                } else if code == 0x80 {
                    text.append("esphttpd");
                } else if code == 0x81 {
                    text.append("fat");
                } else if code == 0x82 {
                    text.append("spiffs");
                } else if code == 0x83 {
                    text.append("littlefs");
                } else {
                    push_code(text, code);
                }
            },
            Self::Custom(code) => push_code(text, *code),
        }
    }
}

/// A partition of the flash memory.
#[derive(Debug, Clone)]
pub struct Partition {
    /// The name of the partition
    pub name: String,
    /// The type of the partition
    pub ty: PartitionType,
    /// The subtype of the partition
    pub subtype: PartitionSubType,
    /// Where the partition begins
    pub offset: u32,
    /// How many bytes it has
    pub size: u32,
    /// Whether it is marked as encrypted
    pub encrypted: bool,
}

/// A partition as contracts speak of it.
pub struct PartitionView {
    pub name: Seq<char>,
    pub ty: PartitionType,
    pub subtype: PartitionSubType,
    pub offset: u32,
    pub size: u32,
    pub encrypted: bool,
}

impl View for Partition {
    type V = PartitionView;

    open spec fn view(&self) -> PartitionView {
        PartitionView {
            name: self.name@,
            ty: self.ty,
            subtype: self.subtype,
            offset: self.offset,
            size: self.size,
            encrypted: self.encrypted,
        }
    }
}

impl PartitionView {
    /// A partition that stands in no partition table, but takes up flash memory.
    pub open spec fn pseudo(name: Seq<char>, offset: u32, size: u32) -> Self {
        PartitionView {
            name,
            ty: PartitionType::Custom(0),
            subtype: PartitionSubType::Custom(0),
            offset,
            size,
            encrypted: false,
        }
    }

    /// The partition in text.
    pub open spec fn spec_text(self) -> Seq<char> {
        let text = self.name + "("@ + self.ty.spec_text() + "("@ + self.subtype.spec_text()
            + ") 0x"@ + hex(self.offset as nat, 8) + " "@ + dec(self.size as nat) + "B"@;
        if self.encrypted {
            text + " encrypted"@ + ")"@
        } else {
            text + ")"@
        }
    }
}

impl Partition {
    /// A partition that stands in no partition table, but takes up flash memory.
    pub fn pseudo(name: &str, offset: u32, size: u32) -> (partition: Self)
        ensures
            partition@ == PartitionView::pseudo(name@, offset, size),
    {
        Partition {
            name: name.to_string(),
            ty: PartitionType::Custom(0),
            subtype: PartitionSubType::Custom(0),
            offset,
            size,
            encrypted: false,
        }
    }

    /// The same partition once more.
    pub fn duplicate(&self) -> (partition: Self)
        ensures
            partition@ == self@,
    {
        Partition {
            name: self.name.clone(),
            ty: self.ty,
            subtype: self.subtype,
            offset: self.offset,
            size: self.size,
            encrypted: self.encrypted,
        }
    }

    /// The partition in text: its name, type, subtype, place and size.
    pub fn to_text(&self) -> (text: String)
        ensures
            text@ == self@.spec_text(),
    {
        let mut text = self.name.clone();
        text.append("(");
        self.ty.push_text(&mut text);
        text.append("(");
        self.subtype.push_text(&mut text);
        text.append(") 0x");
        push_hex(&mut text, self.offset, 8);
        text.append(" ");
        push_dec(&mut text, self.size as usize);
        text.append("B");
        if self.encrypted {
            text.append(" encrypted");
        }
        text.append(")");
        text
    }
}

/// The mapping of a partition to an image.
///
/// Such a mapping is created for each partition in the partition table, as well as
/// for the bootloader and the partition table itself.
/// If there is no image for a partition, the image is `None`.
#[derive(Clone, Debug)]
pub struct PartitionMapping {
    /// The partition
    pub partition: Option<Partition>,
    /// The image to be flashed to the partition; if `None`, the partition will be
    /// left empty
    pub image: Option<Image>,
}

/// A mapping as contracts speak of it.
pub struct MappingView {
    pub partition: Option<PartitionView>,
    pub image: Option<ImageView>,
}

/// A partition that may be missing, as contracts speak of it.
pub open spec fn partition_view(partition: Option<Partition>) -> Option<PartitionView> {
    match partition {
        Some(partition) => Some(partition@),
        None => None,
    }
}

/// An image that may be missing, as contracts speak of it.
pub open spec fn image_view(image: Option<Image>) -> Option<ImageView> {
    match image {
        Some(image) => Some(image@),
        None => None,
    }
}

impl View for PartitionMapping {
    type V = MappingView;

    open spec fn view(&self) -> MappingView {
        MappingView {
            partition: partition_view(self.partition),
            image: image_view(self.image),
        }
    }
}

impl MappingView {
    /// A mapping maps something: a partition, an image or both.
    pub open spec fn wf(self) -> bool {
        self.partition is Some || self.image is Some
    }

    /// What other mappings find this one by: the name of its partition or, where it
    /// has none, of its image.
    pub open spec fn key(self) -> Seq<char>
        recommends
            self.wf(),
    {
        match self.partition {
            Some(partition) => partition.name,
            None => self.image->0.name,
        }
    }

    /// Whether the image, if there is one, has room in the partition, if there is one.
    pub open spec fn fits(self) -> bool {
        self.partition is Some && self.image is Some ==> self.image->0.data.len()
            <= self.partition->0.size
    }

    /// Whether this mapping has something to be flashed, and a place for it.
    pub open spec fn flashable(self) -> bool {
        self.partition is Some && self.image is Some
    }

    /// How far the flashing of the image has come.
    pub open spec fn spec_status(self) -> Option<ProvisioningStatus> {
        if self.flashable() {
            Some(self.image->0.status)
        } else {
            None
        }
    }

    /// The mapping in text.
    pub open spec fn spec_text(self) -> Seq<char> {
        let partition = match self.partition {
            Some(partition) => partition.spec_text(),
            None => "(none)"@,
        };
        match self.image {
            Some(image) => partition + " -> "@ + image.spec_text(),
            None => partition + " -> (none)"@,
        }
    }
}

impl PartitionMapping {
    /// Get the status of the image; there is none where there is no partition to
    /// flash it to.
    pub fn status(&self) -> (status: Option<ProvisioningStatus>)
        ensures
            status == self@.spec_status(),
    {
        if self.partition.is_some() {
            match &self.image {
                Some(image) => Some(image.status),
                None => None,
            }
        } else {
            None
        }
    }

    /// The mapping in text.
    pub fn to_text(&self) -> (text: String)
        ensures
            text@ == self@.spec_text(),
    {
        let mut text = match &self.partition {
            Some(partition) => partition.to_text(),
            None => "(none)".to_string(),
        };
        match &self.image {
            Some(image) => {
                text.append(" -> ");
                text.append(image.to_text().as_str());
            },
            None => {
                text.append(" -> (none)");
            },
        }
        text
    }
}

} // verus!
