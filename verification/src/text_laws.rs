//! What bundles, and what they are made of, look like in text.

use crate::bundle::{efuse_lines, part_lines, BundleView};
use crate::chip::{Chip, FlashSize, Params};
use crate::efuse::{EfuseMappingView, EfuseView};
use crate::efuse_laws::hex_count;
use crate::fault::Fault;
use crate::image::{FlashDataView, ImageType, ImageView, ProvisioningStatus};
use crate::name_laws::{
    digit_of, is_small_digit, law_decimal_digits, law_hexadecimal_digits, law_numbers, number_in,
    spells,
};
use crate::partition::{MappingView, PartitionSubType, PartitionType};
use crate::text::{dec, digit_value, digits_value, hex, leading_digits, overflows};
use vstd::prelude::*;
use vstd::string::*;

verus! {

/// Whether a text is a number in decimal, without needless zeros.
pub open spec fn is_decimal(text: Seq<char>, n: nat) -> bool {
    &&& number_in(text, 10) == Some(n)
    &&& text.len() > 0
    &&& text[0] == '0' ==> text.len() == 1
    &&& forall|i: int| 0 <= i < text.len() ==> '0' <= #[trigger] text[i] <= '9'
}

/// Whether a text is a number in `width` hexadecimal digits.
pub open spec fn is_hexadecimal(text: Seq<char>, n: nat, width: nat) -> bool {
    &&& number_in(text, 16) == Some(n)
    &&& text.len() == width
    &&& forall|i: int| 0 <= i < text.len() ==> is_small_digit(#[trigger] text[i])
}

proof fn lemma_decimal(n: nat)
    ensures
        is_decimal(dec(n), n),
{
    law_decimal_digits(n);
}

proof fn lemma_word(n: u32)
    ensures
        is_hexadecimal(hex(n as nat, 8), n as nat, 8),
{
    reveal_with_fuel(hex_count, 9);
    law_hexadecimal_digits(n as nat, 8);
}

proof fn lemma_byte(n: u8)
    ensures
        is_hexadecimal(hex(n as nat, 2), n as nat, 2),
{
    reveal_with_fuel(hex_count, 3);
    law_hexadecimal_digits(n as nat, 2);
}

/// The texts of images, flash data and progress tell all lengths and percentages in
/// decimal, and where data goes in eight hexadecimal digits.
pub proof fn law_image_texts(
    image: ImageView,
    data: FlashDataView,
    progress: u8,
) -> (numbers: (Seq<char>, Seq<char>, Seq<char>, Seq<char>))
    ensures
        is_decimal(numbers.0, image.data.len()),
        image.spec_text() == image.name + "("@ + numbers.0 + "B"@ + (match image.ty {
            ImageType::Elf => " ELF"@,
            ImageType::Empty => " Empty"@,
            ImageType::Binary => Seq::empty(),
        }) + ")"@,
        is_hexadecimal(numbers.1, data.offset as nat, 8),
        is_decimal(numbers.2, data.data.len()),
        data.spec_text() == "Flash data for addr `0x"@ + numbers.1 + "` ("@ + numbers.2 + "B)"@ + (
        if data.encrypted_partition {
            " (encrypted)"@
        } else {
            Seq::empty()
        }),
        is_decimal(numbers.3, progress as nat),
        ProvisioningStatus::InProgress(Some(progress)).spec_text() == "In progress ("@ + numbers.3
            + "%)"@,
{
    lemma_decimal(image.data.len());
    lemma_word(data.offset);
    lemma_decimal(data.data.len());
    lemma_decimal(progress as nat);
    let text = "Flash data for addr `0x"@ + hex(data.offset as nat, 8) + "` ("@ + dec(
        data.data.len(),
    ) + "B)"@;
    assert(text + Seq::<char>::empty() =~= text);
    (dec(image.data.len()), hex(data.offset as nat, 8), dec(data.data.len()), dec(progress as nat))
}

/// A code without a name is written in two hexadecimal digits behind `0x`, and the app
/// partitions for updates are numbered from zero.
pub proof fn law_code_texts(code: u8) -> (numbers: (Seq<char>, Seq<char>))
    ensures
        is_hexadecimal(numbers.0, code as nat, 2),
        PartitionType::Custom(code).spec_text() == "0x"@ + numbers.0,
        PartitionSubType::Custom(code).spec_text() == "0x"@ + numbers.0,
        0 < code < 0x10 || code > 0x20 ==> PartitionSubType::App(code).spec_text() == "0x"@
            + numbers.0,
        6 < code < 0x80 || code > 0x83 ==> PartitionSubType::Data(code).spec_text() == "0x"@
            + numbers.0,
        0x10 <= code < 0x20 ==> is_decimal(numbers.1, (code - 0x10) as nat)
            && PartitionSubType::App(code).spec_text() == "ota_"@ + numbers.1,
{
    lemma_byte(code);
    if 0x10 <= code < 0x20 {
        lemma_decimal((code - 0x10) as nat);
    }
    (hex(code as nat, 2), dec((code - 0x10) as nat))
}

/// The text of a mapping is that of its partition and that of its image. A partition is
/// written with its name, its type and subtype, where it begins in eight hexadecimal
/// digits, its size in decimal, and whether it is encrypted.
pub proof fn law_mapping_text(mapping: MappingView) -> (numbers: (Seq<char>, Seq<char>))
    ensures
        ({
            let image = match mapping.image {
                Some(image) => image.spec_text(),
                None => "(none)"@,
            };
            match mapping.partition {
                Some(p) => {
                    &&& is_hexadecimal(numbers.0, p.offset as nat, 8)
                    &&& is_decimal(numbers.1, p.size as nat)
                    &&& mapping.spec_text() == p.name + "("@ + p.ty.spec_text() + "("@
                        + p.subtype.spec_text() + ") 0x"@ + numbers.0 + " "@ + numbers.1 + "B"@ + (
                    if p.encrypted {
                        " encrypted"@
                    } else {
                        Seq::empty()
                    }) + ")"@ + " -> "@ + image
                },
                None => mapping.spec_text() == "(none)"@ + " -> "@ + image,
            }
        }),
{
    reveal_strlit(" -> (none)");
    reveal_strlit(" -> ");
    reveal_strlit("(none)");
    assert(" -> (none)"@ =~= " -> "@ + "(none)"@);
    match mapping.partition {
        Some(p) => {
            lemma_word(p.offset);
            lemma_decimal(p.size as nat);
            let text = p.name + "("@ + p.ty.spec_text() + "("@ + p.subtype.spec_text() + ") 0x"@
                + hex(p.offset as nat, 8) + " "@ + dec(p.size as nat) + "B"@;
            assert(text + Seq::<char>::empty() =~= text);
            let whole = p.spec_text();
            assert(whole + " -> (none)"@ =~= whole + " -> "@ + "(none)"@);
            (hex(p.offset as nat, 8), dec(p.size as nat))
        },
        None => {
            assert("(none)"@ + " -> (none)"@ =~= "(none)"@ + " -> "@ + "(none)"@);
            (Seq::empty(), Seq::empty())
        },
    }
}

/// The text of an efuse is its kind, what names it, and its value in eight hexadecimal
/// digits or its purpose, with dashes between them. The values of keys do not show.
pub proof fn law_efuse_text(efuse: EfuseView) -> (number: Seq<char>)
    ensures
        match efuse {
            EfuseView::Param { name, value } => is_hexadecimal(number, value as nat, 8)
                && efuse.spec_text() == "param-"@ + name + "-"@ + number,
            EfuseView::Key { block, purpose, .. } => efuse.spec_text() == "key-"@ + block + "-"@
                + purpose,
            EfuseView::KeyDigest { block, purpose, .. } => efuse.spec_text() == "keydigest-"@
                + block + "-"@ + purpose,
        },
{
    match efuse {
        EfuseView::Param { name, value } => {
            lemma_word(value);
            hex(value as nat, 8)
        },
        _ => Seq::empty(),
    }
}

/// Lines of texts, each indented.
pub open spec fn indented(texts: Seq<Seq<char>>) -> Seq<char>
    decreases texts.len(),
{
    if texts.len() == 0 {
        Seq::empty()
    } else {
        indented(texts.drop_last()) + "    "@ + texts.last() + "\n"@
    }
}

proof fn lemma_part_lines(parts: Seq<MappingView>)
    ensures
        part_lines(parts) == indented(parts.map_values(|m: MappingView| m.spec_text())),
    decreases parts.len(),
{
    let texts = parts.map_values(|m: MappingView| m.spec_text());
    if parts.len() > 0 {
        lemma_part_lines(parts.drop_last());
        assert(texts.drop_last() =~= parts.drop_last().map_values(
            |m: MappingView| m.spec_text(),
        ));
    }
}

proof fn lemma_efuse_lines(efuses: Seq<EfuseMappingView>)
    ensures
        efuse_lines(efuses) == indented(
            efuses.map_values(|e: EfuseMappingView| e.efuse.spec_text()),
        ),
    decreases efuses.len(),
{
    let texts = efuses.map_values(|e: EfuseMappingView| e.efuse.spec_text());
    if efuses.len() > 0 {
        lemma_efuse_lines(efuses.drop_last());
        assert(texts.drop_last() =~= efuses.drop_last().map_values(
            |e: EfuseMappingView| e.efuse.spec_text(),
        ));
    }
}

/// The text of a bundle has its name, its parameters, and a line for each of its mappings
/// and each of its efuses, in their order.
pub proof fn law_bundle_text(bundle: BundleView)
    ensures
        bundle.spec_text() == "Bundle `"@ + bundle.name + "` {\n"@ + "  Parameters: "@
            + bundle.params.spec_text() + "\n"@ + "  Partition {\n"@ + indented(
            bundle.parts.map_values(|m: MappingView| m.spec_text()),
        ) + "  }\n"@ + "  eFuse {\n"@ + indented(
            bundle.efuses.map_values(|e: EfuseMappingView| e.efuse.spec_text()),
        ) + "  }\n"@ + "}\n"@,
{
    lemma_part_lines(bundle.parts);
    lemma_efuse_lines(bundle.efuses);
}

/// The size of a flash memory as its name counts it, and whether it does so in megabytes.
pub open spec fn counted(size: FlashSize) -> (nat, bool) {
    match size {
        FlashSize::_256Kb => (256, false),
        FlashSize::_512Kb => (512, false),
        FlashSize::_1Mb => (1, true),
        FlashSize::_2Mb => (2, true),
        FlashSize::_4Mb => (4, true),
        FlashSize::_8Mb => (8, true),
        FlashSize::_16Mb => (16, true),
        FlashSize::_32Mb => (32, true),
        FlashSize::_64Mb => (64, true),
        FlashSize::_128Mb => (128, true),
        FlashSize::_256Mb => (256, true),
    }
}

/// The text of parameters has the chip, whose name is spelled as in the Espressif tools but
/// for a capital letter, and the flash size, where there is one, counted in kilobytes or
/// megabytes.
pub proof fn law_params_text(params: Params) -> (number: Seq<char>)
    ensures
        spells(params.chip.variant_name(), params.chip.tools_name()),
        params.chip.variant_name()[0] == 'E',
        params.spec_text() == "Chip: "@ + params.chip.variant_name() + (match params.flash_size {
            Some(size) => ", Flash size: "@ + size.variant_name(),
            None => Seq::empty(),
        }),
        params.flash_size matches Some(size) ==> {
            &&& is_decimal(number, counted(size).0)
            &&& size.variant_name() == "_"@ + number + if counted(size).1 {
                "Mb"@
            } else {
                "Kb"@
            }
        },
{
    lemma_chip_names(params.chip);
    let head = "Chip: "@ + params.chip.variant_name();
    assert(head + Seq::<char>::empty() =~= head);
    match params.flash_size {
        Some(size) => {
            lemma_decimal(counted(size).0);
            lemma_size_names(size);
            let rest = ", Flash size: "@ + size.variant_name();
            assert(head + rest =~= head + ", Flash size: "@ + size.variant_name());
            dec(counted(size).0)
        },
        None => Seq::empty(),
    }
}

proof fn lemma_chip_names(chip: Chip)
    ensures
        spells(chip.variant_name(), chip.tools_name()),
        chip.variant_name()[0] == 'E',
{
    reveal_strlit("Esp32");
    reveal_strlit("Esp32c2");
    reveal_strlit("Esp32c3");
    reveal_strlit("Esp32c6");
    reveal_strlit("Esp32h2");
    reveal_strlit("Esp32p4");
    reveal_strlit("Esp32s2");
    reveal_strlit("Esp32s3");
    reveal_strlit("esp32");
    reveal_strlit("esp32c2");
    reveal_strlit("esp32c3");
    reveal_strlit("esp32c6");
    reveal_strlit("esp32h2");
    reveal_strlit("esp32p4");
    reveal_strlit("esp32s2");
    reveal_strlit("esp32s3");
}

proof fn lemma_size_names(size: FlashSize)
    ensures
        size.variant_name() == "_"@ + dec(counted(size).0) + if counted(size).1 {
            "Mb"@
        } else {
            "Kb"@
        },
{
    reveal_strlit("0123456789abcdef");
    reveal_strlit("_");
    reveal_strlit("Kb");
    reveal_strlit("Mb");
    reveal_strlit("_256Kb");
    reveal_strlit("_512Kb");
    reveal_strlit("_1Mb");
    reveal_strlit("_2Mb");
    reveal_strlit("_4Mb");
    reveal_strlit("_8Mb");
    reveal_strlit("_16Mb");
    reveal_strlit("_32Mb");
    reveal_strlit("_64Mb");
    reveal_strlit("_128Mb");
    reveal_strlit("_256Mb");
    reveal_with_fuel(dec, 4);
    let n = counted(size).0;
    let unit = if counted(size).1 {
        "Mb"@
    } else {
        "Kb"@
    };
    assert(size.variant_name() =~= "_"@ + dec(n) + unit);
}

/// Whether digits are the first ones of a text, behind a plus sign, and write a number
/// beyond 32 bits.
pub open spec fn are_too_many(digits: Seq<char>, text: Seq<char>) -> bool {
    &&& digits.is_prefix_of(
        if text.len() > 0 && text[0] == '+' {
            text.skip(1)
        } else {
            text
        },
    )
    &&& number_in(digits, 16) matches Some(n) && n > u32::MAX
}

/// What is wrong with the number of an efuse is told as the standard library does: it is
/// missing, it begins with digits for more than 32 bits, or it is none.
pub proof fn law_number_fault_text(digits: Seq<char>)
    ensures
        ({
            let text = (Fault::EfuseNumber { digits }).spec_text();
            let large = exists|first: Seq<char>| #[trigger] are_too_many(first, digits);
            text == if digits.len() == 0 {
                "cannot parse integer from empty string"@
            } else if large {
                "number too large to fit in target type"@
            } else {
                "invalid digit found in string"@
            }
        }),
{
    let rest = if digits.len() > 0 && digits[0] == '+' {
        digits.skip(1)
    } else {
        digits
    };
    let count = leading_digits(rest) as int;
    lemma_leading(rest);
    let lead = rest.take(count);
    law_numbers(lead, 16);
    if overflows(digits) {
        assert(lead.is_prefix_of(rest));
        assert(are_too_many(lead, digits));
    }
    if exists|first: Seq<char>| #[trigger] are_too_many(first, digits) {
        let first = choose|first: Seq<char>| #[trigger] are_too_many(first, digits);
        lemma_all_digits(first);
        if first.len() > count {
            assert(digit_of(first[count]) is Some);
            assert(first[count] == rest[count]);
            assert(digit_value(rest[count], 16) is Some);
        }
        lemma_number_grows(lead, first.len() as int);
        assert(lead.take(first.len() as int) =~= first);
    }
}

/// The digits that a text begins with are digits, and no digit follows them.
proof fn lemma_leading(s: Seq<char>)
    ensures
        leading_digits(s) <= s.len(),
        leading_digits(s) < s.len() ==> digit_value(s[leading_digits(s) as int], 16) is None,
        digits_value(s.take(leading_digits(s) as int), 16) is Some,
    decreases s.len(),
{
    let count = leading_digits(s) as int;
    if s.len() > 0 && digit_value(s[0], 16) is Some {
        lemma_leading(s.skip(1));
        assert forall|i: int| 0 <= i < count implies digit_value(s[i], 16) is Some by {
            if i > 0 {
                lemma_leading_digit(s.skip(1), i - 1);
            }
        }
        lemma_digits_some(s.take(count));
    } else {
        assert(s.take(0) =~= Seq::<char>::empty());
    }
}

proof fn lemma_leading_digit(s: Seq<char>, i: int)
    requires
        0 <= i < leading_digits(s),
    ensures
        i < s.len(),
        digit_value(s[i], 16) is Some,
    decreases s.len(),
{
    if i > 0 {
        lemma_leading_digit(s.skip(1), i - 1);
    }
}

proof fn lemma_digits_some(s: Seq<char>)
    requires
        forall|i: int| 0 <= i < s.len() ==> digit_value(#[trigger] s[i], 16) is Some,
    ensures
        digits_value(s, 16) is Some,
    decreases s.len(),
{
    if s.len() > 0 {
        assert(digit_value(s[s.len() - 1], 16) is Some);
        lemma_digits_some(s.drop_last());
    }
}

/// What writes a number has digits only.
proof fn lemma_all_digits(s: Seq<char>)
    requires
        number_in(s, 16) is Some,
    ensures
        forall|i: int| 0 <= i < s.len() ==> digit_of(#[trigger] s[i]) is Some,
    decreases s.len(),
{
    if s.len() > 0 {
        lemma_all_digits(s.drop_last());
        assert forall|i: int| 0 <= i < s.len() implies digit_of(#[trigger] s[i]) is Some by {
            if i < s.len() - 1 {
                assert(s[i] == s.drop_last()[i]);
            }
        }
    }
}

/// The first digits of a number write a number that is not larger.
proof fn lemma_number_grows(s: Seq<char>, count: int)
    requires
        number_in(s, 16) is Some,
        0 <= count <= s.len(),
    ensures
        number_in(s.take(count), 16) is Some,
        number_in(s.take(count), 16)->0 <= number_in(s, 16)->0,
    decreases s.len(),
{
    if count < s.len() {
        lemma_number_grows(s.drop_last(), count);
        assert(s.drop_last().take(count) =~= s.take(count));
    } else {
        assert(s.take(count) =~= s);
    }
}

/// Faults are told in words, with the names of what is at fault.
pub proof fn law_fault_texts(
    a: Seq<char>,
    b: Seq<char>,
    m: usize,
    n: usize,
) -> (numbers: (Seq<char>, Seq<char>))
    ensures
        is_decimal(numbers.0, m as nat),
        is_decimal(numbers.1, n as nat),
        (Fault::UnknownSuffix { name: a }).spec_text() == "Bundle name `"@ + a
            + "` does not end with a known suffix"@,
        (Fault::Archive { reason: a }).spec_text() == a,
        (Fault::Params { reason: a }).spec_text() == a,
        (Fault::Elf { reason: a }).spec_text() == a,
        (Fault::Bootloader { reason: a }).spec_text() == a,
        (Fault::LoadParams { reason: a }).spec_text()
            == "Loading params.toml from the ZIP file failed"@,
        (Fault::LoadParams { reason: a }).spec_cause() == Some(a),
        (Fault::Load { file: a, reason: b }).spec_text() == "Loading `"@ + a
            + "` from the ZIP file failed"@,
        (Fault::Load { file: a, reason: b }).spec_cause() == Some(b),
        (Fault::PartTable { reason: a }).spec_text() == "Parsing CSV partition table failed"@,
        (Fault::PartTable { reason: a }).spec_cause() == Some(a),
        (Fault::ElfNotApp { partition: a }).spec_text() == "Partition `"@ + a
            + "` is not of type 'App', but an ELF image was provided"@,
        (Fault::TooLarge { image: a, partition: b, image_len: m, part_len: n }).spec_text()
            == "Image `"@ + a + "` is too large for partition `"@ + b + "` ("@ + numbers.0
            + "B > "@ + numbers.1 + "B)"@,
        (Fault::ImageExists { name: a }).spec_text() == "Image for mapping `"@ + a
            + "` already exists"@,
        (Fault::EfuseExists { efuse: a }).spec_text() == "Efuse `"@ + a + "` already exists"@,
        (Fault::EfuseName { name: a }).spec_text() == "Invalid efuse name `"@ + a + "`"@,
        (Fault::EfuseNoValue { name: a }).spec_text() == "Invalid efuse value for name `"@ + a,
        (Fault::EfuseValue { value: a, name: b }).spec_text() == "Invalid efuse value `"@ + a
            + "` for name `"@ + b,
        (Fault::EfuseData { name: a, len: m }).spec_text() == "Invalid efuse data for efuse `"@ + a
            + "`: "@ + numbers.0 + " bytes provided, but no data expected"@,
        (Fault::EfuseEmpty { name: a }).spec_text() == "Invalid efuse data for efuse `"@ + a
            + "`: empty"@,
        (Fault::EfuseType { ty: a }).spec_text() == "Invalid efuse type `"@ + a + "`"@,
{
    lemma_decimal(m as nat);
    lemma_decimal(n as nat);
    (dec(m as nat), dec(n as nat))
}

} // verus!
