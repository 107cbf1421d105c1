//! What a bundle takes from tools outside: binary images of ELF files, bootloaders,
//! and the parameters that a text writes.

use crate::chip::{Chip, FlashSize, Params};
use crate::fault::{BundleError, Fault};
use vstd::prelude::*;

verus! {

/// The tools that making a bundle takes. Each answers, or gives the reason why it
/// does not.
pub struct Tools<F, G, P> {
    /// Makes the binary image of an ELF file for a chip
    pub elf2bin: F,
    /// Makes the bootloader for a chip and a flash size
    pub default_bootloader: G,
    /// Reads the parameters of a bundle from their text
    pub read_params: P,
}

/// An answer as contracts speak of it.
pub open spec fn bytes_reply(answer: Result<Vec<u8>, String>) -> Result<Seq<u8>, Seq<char>> {
    match answer {
        Ok(bytes) => Ok(bytes@),
        Err(reason) => Err(reason@),
    }
}

/// An answer as contracts speak of it.
pub open spec fn params_reply(answer: Result<Params, String>) -> Result<Params, Seq<char>> {
    match answer {
        Ok(params) => Ok(params),
        Err(reason) => Err(reason@),
    }
}

/// What came of a conversion, as contracts speak of it.
pub open spec fn bytes_outcome(result: Result<Vec<u8>, BundleError>) -> Result<
    Seq<u8>,
    Fault<Seq<char>>,
> {
    match result {
        Ok(bytes) => Ok(bytes@),
        Err(e) => Err(e@),
    }
}

/// What came of reading parameters, as contracts speak of it.
pub open spec fn params_outcome(result: Result<Params, BundleError>) -> Result<
    Params,
    Fault<Seq<char>>,
> {
    match result {
        Ok(params) => Ok(params),
        Err(e) => Err(e@),
    }
}

impl<F, G, P> Tools<F, G, P> where
    F: Fn(&[u8], Chip) -> Result<Vec<u8>, String>,
    G: Fn(Chip, Option<FlashSize>) -> Result<Vec<u8>, String>,
    P: Fn(&str) -> Result<Params, String>,
 {
    /// Whether `elf2bin` can come back from this ELF file with `reply`.
    pub open spec fn may_convert(
        self,
        elf: Seq<u8>,
        chip: Chip,
        reply: Result<Seq<u8>, Seq<char>>,
    ) -> bool {
        exists|file: &[u8], answer: Result<Vec<u8>, String>|
            #![trigger self.elf2bin.ensures((file, chip), answer)]
            file@ == elf && self.elf2bin.ensures((file, chip), answer) && reply == bytes_reply(
                answer,
            )
    }

    /// Whether `default_bootloader` can come back from this chip with `reply`.
    pub open spec fn may_boot(
        self,
        chip: Chip,
        flash_size: Option<FlashSize>,
        reply: Result<Seq<u8>, Seq<char>>,
    ) -> bool {
        exists|answer: Result<Vec<u8>, String>|
            #![trigger self.default_bootloader.ensures((chip, flash_size), answer)]
            self.default_bootloader.ensures((chip, flash_size), answer) && reply == bytes_reply(
                answer,
            )
    }

    /// Whether `read_params` can come back from this text with `reply`.
    pub open spec fn may_read(self, text: Seq<char>, reply: Result<Params, Seq<char>>) -> bool {
        exists|written: &str, answer: Result<Params, String>|
            #![trigger self.read_params.ensures((written,), answer)]
            written@ == text && self.read_params.ensures((written,), answer) && reply
                == params_reply(answer)
    }

    /// The tools take anything, and have one reply to the same question.
    pub open spec fn wf(self) -> bool {
        &&& forall|file: &[u8], chip: Chip| self.elf2bin.requires((file, chip))
        &&& forall|chip: Chip, flash_size: Option<FlashSize>|
            self.default_bootloader.requires((chip, flash_size))
        &&& forall|text: &str| self.read_params.requires((text,))
        &&& forall|
            elf: Seq<u8>,
            chip: Chip,
            a: Result<Seq<u8>, Seq<char>>,
            b: Result<Seq<u8>, Seq<char>>,
        |
            #[trigger] self.may_convert(elf, chip, a) && #[trigger] self.may_convert(elf, chip, b)
                ==> a == b
        &&& forall|
            chip: Chip,
            size: Option<FlashSize>,
            a: Result<Seq<u8>, Seq<char>>,
            b: Result<Seq<u8>, Seq<char>>,
        |
            #[trigger] self.may_boot(chip, size, a) && #[trigger] self.may_boot(chip, size, b)
                ==> a == b
        &&& forall|text: Seq<char>, a: Result<Params, Seq<char>>, b: Result<Params, Seq<char>>|
            #[trigger] self.may_read(text, a) && #[trigger] self.may_read(text, b) ==> a == b
    }

    /// Whether `elf2bin` comes back from this ELF file. Where it does, `converted` is
    /// what it comes back with.
    pub open spec fn has_converted(self, elf: Seq<u8>, chip: Chip) -> bool {
        exists|reply: Result<Seq<u8>, Seq<char>>| self.may_convert(elf, chip, reply)
    }

    /// Whether `default_bootloader` comes back from these parameters. Where it does,
    /// `bootloader` is what it comes back with.
    pub open spec fn has_booted(self, params: Params) -> bool {
        exists|reply: Result<Seq<u8>, Seq<char>>|
            self.may_boot(params.chip, params.flash_size, reply)
    }

    /// Whether `read_params` comes back from this text. Where it does, `params_of` is
    /// what it comes back with.
    pub open spec fn has_read(self, text: Seq<char>) -> bool {
        exists|reply: Result<Params, Seq<char>>| self.may_read(text, reply)
    }

    /// What converting an ELF file comes to.
    pub open spec fn converted(self, elf: Seq<u8>, chip: Chip) -> Result<
        Seq<u8>,
        Fault<Seq<char>>,
    > {
        match choose|reply: Result<Seq<u8>, Seq<char>>| self.may_convert(elf, chip, reply) {
            Ok(bytes) => Ok(bytes),
            Err(reason) => Err(Fault::Elf { reason }),
        }
    }

    /// What making the default bootloader comes to.
    pub open spec fn bootloader(self, params: Params) -> Result<Seq<u8>, Fault<Seq<char>>> {
        match choose|reply: Result<Seq<u8>, Seq<char>>|
            self.may_boot(params.chip, params.flash_size, reply) {
            Ok(bytes) => Ok(bytes),
            Err(reason) => Err(Fault::Bootloader { reason }),
        }
    }

    /// What reading parameters comes to.
    pub open spec fn params_of(self, text: Seq<char>) -> Result<Params, Fault<Seq<char>>> {
        match choose|reply: Result<Params, Seq<char>>| self.may_read(text, reply) {
            Ok(params) => Ok(params),
            Err(reason) => Err(Fault::Params { reason }),
        }
    }

    /// Bring the tools together.
    pub fn new(elf2bin: F, default_bootloader: G, read_params: P) -> (tools: Self)
        ensures
            tools == (Tools { elf2bin, default_bootloader, read_params }),
    {
        Tools { elf2bin, default_bootloader, read_params }
    }

    /// Make the binary image of an ELF file.
    pub fn convert(&self, elf: &[u8], chip: Chip) -> (bytes: Result<Vec<u8>, BundleError>)
        requires
            self.wf(),
        ensures
            bytes_outcome(bytes) == self.converted(elf@, chip),
            self.has_converted(elf@, chip),
    {
        let tool = &self.elf2bin;
        let answer = tool(elf, chip);
        assert(self.may_convert(elf@, chip, bytes_reply(answer)));
        match answer {
            Ok(bytes) => Ok(bytes),
            Err(reason) => Err(Fault::Elf { reason }),
        }
    }

    /// Make the default bootloader.
    pub fn make_bootloader(&self, params: Params) -> (bytes: Result<Vec<u8>, BundleError>)
        requires
            self.wf(),
        ensures
            bytes_outcome(bytes) == self.bootloader(params),
            self.has_booted(params),
    {
        let tool = &self.default_bootloader;
        let answer = tool(params.chip, params.flash_size);
        assert(self.may_boot(params.chip, params.flash_size, bytes_reply(answer)));
        match answer {
            Ok(bytes) => Ok(bytes),
            Err(reason) => Err(Fault::Bootloader { reason }),
        }
    }

    /// Read the parameters that a text writes.
    pub fn parse_params(&self, text: &str) -> (params: Result<Params, BundleError>)
        requires
            self.wf(),
        ensures
            params_outcome(params) == self.params_of(text@),
            self.has_read(text@),
    {
        let tool = &self.read_params;
        let answer = tool(text);
        assert(self.may_read(text@, params_reply(answer)));
        match answer {
            Ok(params) => Ok(params),
            Err(reason) => Err(Fault::Params { reason }),
        }
    }
}

} // verus!
