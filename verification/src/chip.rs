//! The chips that a bundle can be made for, and the parameters of a bundle.

use espflash::targets::Chip as FlashChip;
use vstd::prelude::*;
use vstd::string::*;

verus! {

/// The chip that the flashing tools know: an enum without fields, all of whose
/// variants are read as they stand.
#[verifier::external_type_specification]
pub struct ExFlashChip(FlashChip);

/// The type of the chip to be flashed.
#[derive(Debug, Copy, Clone, Eq, PartialEq, Hash, Structural)]
#[non_exhaustive]
pub enum Chip {
    /// ESP32
    Esp32,
    /// ESP32-C2, ESP8684
    Esp32c2,
    /// ESP32-C3, ESP8685
    Esp32c3,
    /// ESP32-C6
    Esp32c6,
    /// ESP32-H2
    Esp32h2,
    /// ESP32-P4
    Esp32p4,
    /// ESP32-S2
    Esp32s2,
    /// ESP32-S3
    Esp32s3,
}

impl Chip {
    /// Where the boot ROM of the chip looks for the bootloader.
    pub open spec fn spec_boot_addr(self) -> u32 {
        match self {
            Chip::Esp32 | Chip::Esp32s2 => 0x1000,
            Chip::Esp32p4 => 0x2000,
            _ => 0,
        }
    }

    /// The name of the chip in the Espressif tools.
    pub open spec fn tools_name(self) -> Seq<char> {
        match self {
            Chip::Esp32 => "esp32"@,
            Chip::Esp32c2 => "esp32c2"@,
            Chip::Esp32c3 => "esp32c3"@,
            Chip::Esp32c6 => "esp32c6"@,
            Chip::Esp32h2 => "esp32h2"@,
            Chip::Esp32p4 => "esp32p4"@,
            Chip::Esp32s2 => "esp32s2"@,
            Chip::Esp32s3 => "esp32s3"@,
        }
    }

    /// The name of the chip as this library spells it.
    pub open spec fn variant_name(self) -> Seq<char> {
        match self {
            Chip::Esp32 => "Esp32"@,
            Chip::Esp32c2 => "Esp32c2"@,
            Chip::Esp32c3 => "Esp32c3"@,
            Chip::Esp32c6 => "Esp32c6"@,
            Chip::Esp32h2 => "Esp32h2"@,
            Chip::Esp32p4 => "Esp32p4"@,
            Chip::Esp32s2 => "Esp32s2"@,
            Chip::Esp32s3 => "Esp32s3"@,
        }
    }

    /// The same chip, as the flashing tools know it.
    pub open spec fn spec_flash_chip(self) -> FlashChip {
        match self {
            Chip::Esp32 => FlashChip::Esp32,
            Chip::Esp32c2 => FlashChip::Esp32c2,
            Chip::Esp32c3 => FlashChip::Esp32c3,
            Chip::Esp32c6 => FlashChip::Esp32c6,
            Chip::Esp32h2 => FlashChip::Esp32h2,
            Chip::Esp32p4 => FlashChip::Esp32p4,
            Chip::Esp32s2 => FlashChip::Esp32s2,
            Chip::Esp32s3 => FlashChip::Esp32s3,
        }
    }

    /// Get the boot address of the chip.
    pub fn boot_addr(&self) -> (addr: u32)
        ensures
            addr == self.spec_boot_addr(),
    {
        match self {
            Self::Esp32 | Self::Esp32s2 => 0x1000,
            Self::Esp32p4 => 0x2000,
            _ => 0x0,
        }
    }

    /// Convert the `Chip` to a string representation suitable for usage with the
    /// Espressif tools (`esptool.py`, `espefuse.py`).
    pub fn as_tools_str(&self) -> (name: &'static str)
        ensures
            name@ == self.tools_name(),
    {
        match self {
            Self::Esp32 => "esp32",
            Self::Esp32c2 => "esp32c2",
            Self::Esp32c3 => "esp32c3",
            Self::Esp32c6 => "esp32c6",
            Self::Esp32h2 => "esp32h2",
            Self::Esp32p4 => "esp32p4",
            Self::Esp32s2 => "esp32s2",
            Self::Esp32s3 => "esp32s3",
        }
    }

    /// Convert the `Chip` to the chip of the flashing tools.
    pub fn to_flash_chip(self) -> (chip: FlashChip)
        ensures
            chip == self.spec_flash_chip(),
    {
        match self {
            Self::Esp32 => FlashChip::Esp32,
            Self::Esp32c2 => FlashChip::Esp32c2,
            Self::Esp32c3 => FlashChip::Esp32c3,
            Self::Esp32c6 => FlashChip::Esp32c6,
            Self::Esp32h2 => FlashChip::Esp32h2,
            Self::Esp32p4 => FlashChip::Esp32p4,
            Self::Esp32s2 => FlashChip::Esp32s2,
            Self::Esp32s3 => FlashChip::Esp32s3,
        }
    }

    /// The chip in text: its name in the Espressif tools.
    pub fn to_text(&self) -> (text: String)
        ensures
            text@ == self.tools_name(),
    {
        self.as_tools_str().to_string()
    }

    fn variant_str(&self) -> (name: &'static str)
        ensures
            name@ == self.variant_name(),
    {
        match self {
            Self::Esp32 => "Esp32",
            Self::Esp32c2 => "Esp32c2",
            Self::Esp32c3 => "Esp32c3",
            Self::Esp32c6 => "Esp32c6",
            Self::Esp32h2 => "Esp32h2",
            Self::Esp32p4 => "Esp32p4",
            Self::Esp32s2 => "Esp32s2",
            Self::Esp32s3 => "Esp32s3",
        }
    }
}

/// The size of the flash memory of a device.
#[derive(Debug, Copy, Clone, Eq, PartialEq, Hash, Structural)]
#[non_exhaustive]
pub enum FlashSize {
    /// 256 KB
    _256Kb,
    /// 512 KB
    _512Kb,
    /// 1 MB
    _1Mb,
    /// 2 MB
    _2Mb,
    /// 4 MB
    _4Mb,
    /// 8 MB
    _8Mb,
    /// 16 MB
    _16Mb,
    /// 32 MB
    _32Mb,
    /// 64 MB
    _64Mb,
    /// 128 MB
    _128Mb,
    /// 256 MB
    _256Mb,
}

impl FlashSize {
    /// The name of the size as this library spells it.
    pub open spec fn variant_name(self) -> Seq<char> {
        match self {
            FlashSize::_256Kb => "_256Kb"@,
            FlashSize::_512Kb => "_512Kb"@,
            FlashSize::_1Mb => "_1Mb"@,
            FlashSize::_2Mb => "_2Mb"@,
            FlashSize::_4Mb => "_4Mb"@,
            FlashSize::_8Mb => "_8Mb"@,
            FlashSize::_16Mb => "_16Mb"@,
            FlashSize::_32Mb => "_32Mb"@,
            FlashSize::_64Mb => "_64Mb"@,
            FlashSize::_128Mb => "_128Mb"@,
            FlashSize::_256Mb => "_256Mb"@,
        }
    }

    fn variant_str(&self) -> (name: &'static str)
        ensures
            name@ == self.variant_name(),
    {
        match self {
            Self::_256Kb => "_256Kb",
            Self::_512Kb => "_512Kb",
            Self::_1Mb => "_1Mb",
            Self::_2Mb => "_2Mb",
            Self::_4Mb => "_4Mb",
            Self::_8Mb => "_8Mb",
            Self::_16Mb => "_16Mb",
            Self::_32Mb => "_32Mb",
            Self::_64Mb => "_64Mb",
            Self::_128Mb => "_128Mb",
            Self::_256Mb => "_256Mb",
        }
    }
}

/// The parameters of the bundle.
#[derive(Debug, Copy, Clone, Eq, PartialEq, Structural)]
pub struct Params {
    /// Chip type to be flashed
    pub chip: Chip,
    /// Flash size of the target device.
    /// If not provided, 4MB flash size is assumed.
    pub flash_size: Option<FlashSize>,
}

impl Params {
    /// Parameters in text.
    pub open spec fn spec_text(self) -> Seq<char> {
        let chip = "Chip: "@ + self.chip.variant_name();
        match self.flash_size {
            Some(size) => chip + ", Flash size: "@ + size.variant_name(),
            None => chip,
        }
    }

    /// Create a new `Params` with default values (ESP32 chip and no specific flash
    /// size, i.e. 4MB).
    pub fn new() -> (params: Self)
        ensures
            params == (Params { chip: Chip::Esp32, flash_size: None }),
    {
        Self { chip: Chip::Esp32, flash_size: None }
    }

    /// The parameters in text.
    pub fn to_text(&self) -> (text: String)
        ensures
            text@ == self.spec_text(),
    {
        let mut text = "Chip: ".to_string();
        text.append(self.chip.variant_str());
        if let Some(size) = self.flash_size {
            text.append(", Flash size: ");
            text.append(size.variant_str());
        }
        text
    }
}

impl Default for Params {
    fn default() -> (params: Self)
        ensures
            params == (Params { chip: Chip::Esp32, flash_size: None }),
    {
        Self::new()
    }
}

} // verus!
