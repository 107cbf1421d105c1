//! eFuses, and the file names that describe them.

use crate::fault::{BundleError, Fault};
use crate::image::ProvisioningStatus;
use crate::text::{
    at_most, chars_of, hex, lowered, lowers_to, parse_radix, push_hex, radix_value, same_text,
    skip_text, split, split_text, starts_with, texts,
};
use std::sync::Arc;
use vstd::prelude::*;
use vstd::string::*;

verus! {

/// An efuse to be programmed.
#[derive(Debug, Clone)]
pub enum Efuse {
    /// A parameter efuse - basically a name and a numeric value.
    ///
    /// Useful for programming single-bit efuse values (boolean or not) as well as
    /// multi-bit values which are not keys, key digests or the custom MAC.
    ///
    /// For burning those, the equivalent of `espefuse.py burn_efuse` command is used.
    Param {
        /// The name of the efuse, as documented here:
        /// https://docs.espressif.com/projects/esptool/en/latest/esp32s3/espefuse/burn-efuse-cmd.html
        name: String,
        /// The value of the efuse, as a numeric value as documented here:
        /// https://docs.espressif.com/projects/esptool/en/latest/esp32s3/espefuse/burn-efuse-cmd.html
        value: u32,
    },
    /// A key efuse - a key value to be programmed.
    ///
    /// Useful for programming keys.
    ///
    /// For burning those, the equivalent of `espefuse.py burn_key` command is used.
    Key {
        /// The block of the key efuse, as documented here:
        /// https://docs.espressif.com/projects/esptool/en/latest/esp32s3/espefuse/burn-key-cmd.html
        block: String,
        /// The key value to be programmed, as documented here:
        /// https://docs.espressif.com/projects/esptool/en/latest/esp32s3/espefuse/burn-key-cmd.html
        key_value: Arc<Vec<u8>>,
        /// The key purpose, as documented here:
        /// https://docs.espressif.com/projects/esptool/en/latest/esp32s3/espefuse/burn-key-cmd.html
        purpose: String,
    },
    /// A key digest efuse - a digest value to be programmed.
    ///
    /// Useful for programming key digests (i.e. the Secure Boot V2 RSA key digest).
    ///
    /// For burning those, the equivalent of `espefuse.py burn_digest` command is used.
    KeyDigest {
        /// The block of the key digest efuse, as documented here:
        /// https://docs.espressif.com/projects/esptool/en/latest/esp32s3/espefuse/burn-key-digest-cmd.html
        block: String,
        /// The digest value to be programmed (public key in PEM format needs to be
        /// provided!), as documented here:
        /// https://docs.espressif.com/projects/esptool/en/latest/esp32s3/espefuse/burn-key-digest-cmd.html
        digest_value: Arc<Vec<u8>>,
        /// The key digest purpose, as documented here:
        /// https://docs.espressif.com/projects/esptool/en/latest/esp32s3/espefuse/burn-key-digest-cmd.html
        purpose: String,
    },
}

/// An efuse as contracts speak of it.
pub enum EfuseView {
    Param { name: Seq<char>, value: u32 },
    Key { block: Seq<char>, key_value: Seq<u8>, purpose: Seq<char> },
    KeyDigest { block: Seq<char>, digest_value: Seq<u8>, purpose: Seq<char> },
}

impl View for Efuse {
    type V = EfuseView;

    open spec fn view(&self) -> EfuseView {
        match *self {
            Efuse::Param { name, value } => EfuseView::Param { name: name@, value },
            Efuse::Key { block, key_value, purpose } => EfuseView::Key {
                block: block@,
                key_value: key_value@,
                purpose: purpose@,
            },
            Efuse::KeyDigest { block, digest_value, purpose } => EfuseView::KeyDigest {
                block: block@,
                digest_value: digest_value@,
                purpose: purpose@,
            },
        }
    }
}

impl EfuseView {
    /// The efuse that the parts of a file name describe, the file holding `data`:
    /// `param-NAME-0xVALUE` of an empty file, `key-BLOCK-PURPOSE` or
    /// `keydigest-BLOCK-PURPOSE` of any other. `name` is the whole file name.
    ///
    /// The type is known in either case, but for a key `key` has to be in small
    /// letters: otherwise the efuse is a key digest.
    pub open spec fn described(
        name: Seq<char>,
        parts: Seq<Seq<char>>,
        data: Seq<u8>,
    ) -> Result<EfuseView, Fault<Seq<char>>> {
        let ty = lowered(parts[0]);
        if ty == "param"@ {
            if parts.len() < 2 {
                Err(Fault::EfuseName { name })
            } else if parts.len() < 3 {
                Err(Fault::EfuseNoValue { name: parts[1] })
            } else if !"0x"@.is_prefix_of(parts[2]) {
                Err(Fault::EfuseValue { value: parts[2], name: parts[1] })
            } else {
                let digits = parts[2].skip("0x"@.len() as int);
                match at_most(radix_value(digits, 16), u32::MAX as nat) {
                    None => Err(Fault::EfuseNumber { digits }),
                    Some(value) => if parts.len() > 3 {
                        Err(Fault::EfuseName { name: parts[1] })
                    } else if data.len() > 0 {
                        Err(Fault::EfuseData { name: parts[1], len: data.len() as usize })
                    } else {
                        Ok(EfuseView::Param { name: parts[1], value: value as u32 })
                    },
                }
            }
        } else if ty == "key"@ || ty == "keydigest"@ {
            if parts.len() != 3 {
                Err(Fault::EfuseName { name })
            } else if data.len() == 0 {
                Err(Fault::EfuseEmpty { name })
            } else if parts[0] == "key"@ {
                Ok(EfuseView::Key { block: parts[1], key_value: data, purpose: parts[2] })
            } else {
                Ok(EfuseView::KeyDigest { block: parts[1], digest_value: data, purpose: parts[2] })
            }
        } else {
            Err(Fault::EfuseType { ty: parts[0] })
        }
    }

    /// The efuse that a file with the name `name` and the content `data` describes:
    /// the parts of the name stand between dashes.
    pub open spec fn of_file(name: Seq<char>, data: Seq<u8>) -> Result<
        EfuseView,
        Fault<Seq<char>>,
    > {
        Self::described(name, split(name, '-', '-'), data)
    }

    /// What names the efuse: its own name, or its block.
    pub open spec fn spec_name(self) -> Seq<char> {
        match self {
            EfuseView::Param { name, .. } => name,
            EfuseView::Key { block, .. } => block,
            EfuseView::KeyDigest { block, .. } => block,
        }
    }

    /// Whether two efuses are of one kind and have one name, so that they are burned
    /// to the same place.
    pub open spec fn same_as(self, other: EfuseView) -> bool {
        &&& self is Param <==> other is Param
        &&& self is Key <==> other is Key
        &&& self.spec_name() == other.spec_name()
    }

    /// The efuse in text.
    pub open spec fn spec_text(self) -> Seq<char> {
        match self {
            EfuseView::Param { name, value } => "param-"@ + name + "-"@ + hex(value as nat, 8),
            EfuseView::Key { block, purpose, .. } => "key-"@ + block + "-"@ + purpose,
            EfuseView::KeyDigest { block, purpose, .. } => "keydigest-"@ + block + "-"@ + purpose,
        }
    }
}

/// What came of describing an efuse, as contracts speak of it.
pub open spec fn efuse_outcome(result: Result<Efuse, BundleError>) -> Result<
    EfuseView,
    Fault<Seq<char>>,
> {
    match result {
        Ok(efuse) => Ok(efuse@),
        Err(e) => Err(e@),
    }
}

impl Efuse {
    /// Create a new `Efuse` from the given file name and file data.
    pub fn new(name: &str, data: Arc<Vec<u8>>) -> (efuse: Result<Self, BundleError>)
        ensures
            efuse_outcome(efuse) == EfuseView::of_file(name@, data@),
    {
        let parts = split_text(name, '-', '-');
        let ghost views = texts(parts@);
        assert(forall|i: int| 0 <= i < parts@.len() ==> views[i] == (#[trigger] parts@[i])@);
        let ty = &parts[0];
        if lowers_to(ty.as_str(), "param") {
            if parts.len() < 2 {
                return Err(Fault::EfuseName { name: name.to_string() });
            }
            let param = &parts[1];
            if parts.len() < 3 {
                return Err(Fault::EfuseNoValue { name: param.clone() });
            }
            let value_str = &parts[2];
            if !starts_with(value_str.as_str(), "0x") {
                return Err(Fault::EfuseValue { value: value_str.clone(), name: param.clone() });
            }
            let digits = skip_text(value_str.as_str(), "0x".unicode_len());
            let value = match parse_radix(&chars_of(digits), 16, u32::MAX as u64) {
                Some(value) => value as u32,
                None => {
                    return Err(Fault::EfuseNumber { digits: digits.to_string() });
                },
            };
            if parts.len() > 3 {
                return Err(Fault::EfuseName { name: param.clone() });
            }
            if data.len() > 0 {
                return Err(Fault::EfuseData { name: param.clone(), len: data.len() });
            }
            Ok(Self::Param { name: param.clone(), value })
        } else if lowers_to(ty.as_str(), "key") || lowers_to(ty.as_str(), "keydigest") {
            if parts.len() != 3 {
                return Err(Fault::EfuseName { name: name.to_string() });
            }
            if data.len() == 0 {
                return Err(Fault::EfuseEmpty { name: name.to_string() });
            }
            let block = parts[1].clone();
            let purpose = parts[2].clone();
            if same_text(ty.as_str(), "key") {
                Ok(Self::Key { block, key_value: data, purpose })
            } else {
                Ok(Self::KeyDigest { block, digest_value: data, purpose })
            }
        } else {
            Err(Fault::EfuseType { ty: ty.clone() })
        }
    }

    /// What names the efuse: its own name, or its block.
    pub fn name(&self) -> (name: &str)
        ensures
            name@ == self@.spec_name(),
    {
        match self {
            Self::Param { name, .. } => name.as_str(),
            Self::Key { block, .. } => block.as_str(),
            Self::KeyDigest { block, .. } => block.as_str(),
        }
    }

    /// Whether two efuses are of one kind and have one name.
    pub fn is_same(&self, other: &Self) -> (same: bool)
        ensures
            same == self@.same_as(other@),
    {
        match (self, other) {
            (Self::Param { name: name1, .. }, Self::Param { name: name2, .. }) => name1.eq(name2),
            (Self::Key { block: block1, .. }, Self::Key { block: block2, .. }) => block1.eq(block2),
            (Self::KeyDigest { block: block1, .. }, Self::KeyDigest { block: block2, .. }) => {
                block1.eq(block2)
            },
            _ => false,
        }
    }

    /// The efuse in text.
    pub fn to_text(&self) -> (text: String)
        ensures
            text@ == self@.spec_text(),
    {
        match self {
            Self::Param { name, value } => {
                let mut text = "param-".to_string();
                text.append(name.as_str());
                text.append("-");
                push_hex(&mut text, *value, 8);
                text
            },
            Self::Key { block, purpose, .. } => {
                let mut text = "key-".to_string();
                text.append(block.as_str());
                text.append("-");
                text.append(purpose.as_str());
                text
            },
            Self::KeyDigest { block, purpose, .. } => {
                let mut text = "keydigest-".to_string();
                text.append(block.as_str());
                text.append("-");
                text.append(purpose.as_str());
                text
            },
        }
    }
}

/// An efuse and how far its provisioning has come.
#[derive(Clone, Debug)]
pub struct EfuseMapping {
    /// The efuse
    pub efuse: Efuse,
    /// The status of the efuse programming
    pub status: ProvisioningStatus,
}

/// An efuse mapping as contracts speak of it.
pub struct EfuseMappingView {
    pub efuse: EfuseView,
    pub status: ProvisioningStatus,
}

impl View for EfuseMapping {
    type V = EfuseMappingView;

    open spec fn view(&self) -> EfuseMappingView {
        EfuseMappingView { efuse: self.efuse@, status: self.status }
    }
}

impl EfuseMapping {
    /// The mapping in text: that of its efuse.
    pub fn to_text(&self) -> (text: String)
        ensures
            text@ == self@.efuse.spec_text(),
    {
        self.efuse.to_text()
    }
}

} // verus!
