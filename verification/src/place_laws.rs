//! Which partition tables have their place in the flash memory, and where it is.

use crate::archive::{archive_entries, EntryView};
use crate::assembly_laws::{boots_from, is_boot_answer, lemma_boot_answer, rows_in};
use crate::bundle::Bundle;
use crate::chip::{Chip, FlashSize, Params};
use crate::create_laws::{is_boot_file_of, is_table_text_of, lemma_front_files};
use crate::fault::Fault;
use crate::image::{ImageType, ImageView, ProvisioningStatus};
use crate::partition::{PartitionSubType, PartitionType, PartitionView};
use crate::payload::Payload;
use crate::table::{table_bytes, table_of_text, text_has_place};
use crate::table_text::is_sound;
use crate::tools::Tools;
use vstd::prelude::*;
use vstd::string::*;

verus! {

/// A partition that stands in no table has the name, the offset and the size that it is
/// given, is of no type, and is not encrypted.
pub proof fn law_pseudo_partition(name: Seq<char>, offset: u32, size: u32)
    ensures
        PartitionView::pseudo(name, offset, size) == (PartitionView {
            name,
            ty: PartitionType::Custom(0),
            subtype: PartitionSubType::Custom(0),
            offset,
            size,
            encrypted: false,
        }),
{
}

/// A partition table is read with all its partitions, goes one page in front of the first
/// of them, and is flashed as the bytes that it is written as. What is wrong with the text
/// is reported, and without a text there is no table.
pub proof fn law_table_read(text: Option<Seq<char>>)
    ensures
        match text {
            None => table_of_text(text) is Ok && table_of_text(text)->Ok_0 is None,
            Some(written) => match rows_in(written) {
                Err(reason) => table_of_text(text) is Err && table_of_text(text)->Err_0 == (
                Fault::PartTable { reason }),
                Ok(rows) => {
                    let table = table_of_text(text)->Ok_0->0;
                    &&& table_of_text(text) is Ok
                    &&& table_of_text(text)->Ok_0 is Some
                    &&& table.rows == rows
                    &&& rows[0].offset >= 4096 ==> table.offset + 4096 == rows[0].offset
                    &&& table.image.name == "(part-table)"@
                    &&& table.image.ty == ImageType::Binary
                    &&& table.image.data == table_bytes(rows)
                    &&& table.image.status == ProvisioningStatus::NotStarted
                },
            },
        },
{
}

/// Whether a text is one that the reader of partition tables comes back from and, where it
/// writes partitions, there are 95 of them at most, one page is free in front of the
/// first, and what is booted from `boot` begins in front of that page.
pub open spec fn is_placed(text: Seq<char>, boot: Option<int>) -> bool {
    &&& text == Bundle::DEFAULT_PART_TABLE@ || is_sound(text)
    &&& rows_in(text) matches Ok(rows) ==> {
        &&& rows.len() <= 95
        &&& rows[0].offset >= 4096
        &&& boot matches Some(address) ==> address + 4096 <= rows[0].offset
    }
}

/// A text has its place if and only if it can be read, and its table can be written and
/// put in front of its partitions, behind where the chip boots.
pub proof fn law_table_place(text: Seq<char>, boot: Option<u32>)
    ensures
        text_has_place(text, boot) <==> is_placed(
            text,
            match boot {
                Some(address) => Some(address as int),
                None => None,
            },
        ),
{
}

/// Whether `address` is where the chip boots, if a bootloader is provided or can be had,
/// and nothing otherwise.
pub open spec fn is_boot_address<F, G, P>(
    address: Option<int>,
    tools: Tools<F, G, P>,
    boot: Payload<ImageView>,
    params: Params,
) -> bool where
    F: Fn(&[u8], Chip) -> Result<Vec<u8>, String>,
    G: Fn(Chip, Option<FlashSize>) -> Result<Vec<u8>, String>,
    P: Fn(&str) -> Result<Params, String>,
 {
    match boot {
        Payload::NotProvided => address is None,
        Payload::Provided(_) => address == Some(boots_from(params.chip)),
        Payload::Default => exists|made: Result<ImageView, Fault<Seq<char>>>|
            {
                &&& #[trigger] is_boot_answer(tools, params, made)
                &&& address == match made {
                    Ok(_) => Some(boots_from(params.chip)),
                    Err(_) => None,
                }
            },
    }
}

/// There is something to boot if and only if a bootloader is provided, or is asked for
/// and can be had, and it is booted from where the chip does.
pub proof fn law_boot_address<F, G, P>(
    tools: Tools<F, G, P>,
    boot: Payload<ImageView>,
    params: Params,
) where
    F: Fn(&[u8], Chip) -> Result<Vec<u8>, String>,
    G: Fn(Chip, Option<FlashSize>) -> Result<Vec<u8>, String>,
    P: Fn(&str) -> Result<Params, String>,

    requires
        boot is Default ==> tools.has_booted(params),
    ensures
        is_boot_address(
            match tools.boot_place(boot, params) {
                Some(address) => Some(address as int),
                None => None,
            },
            tools,
            boot,
            params,
        ),
{
    if boot is Default {
        lemma_boot_answer(tools, params);
    }
}

/// A bootloader that is provided, or else the default one, where it is supplied.
pub open spec fn provided_or(boot: Option<ImageView>, supply: bool) -> Payload<ImageView> {
    match boot {
        Some(image) => Payload::Provided(image),
        None => if supply {
            Payload::Default
        } else {
            Payload::NotProvided
        },
    }
}

/// A ZIP archive is refused for its partition table if and only if it can be unpacked, has
/// one, and that has no place in front of its partitions, behind the bootloader that the
/// archive has or that is supplied.
pub proof fn law_zip_place<F, G, P>(
    tools: Tools<F, G, P>,
    default_params: Option<Params>,
    entries: Seq<EntryView>,
    supply_default_bootloader: bool,
) where
    F: Fn(&[u8], Chip) -> Result<Vec<u8>, String>,
    G: Fn(Chip, Option<FlashSize>) -> Result<Vec<u8>, String>,
    P: Fn(&str) -> Result<Params, String>,

    requires
        tools.has_checked(default_params, entries, supply_default_bootloader),
    ensures
        ({
            let place = tools.zip_has_place(default_params, entries, supply_default_bootloader);
            match tools.unpacked(entries, default_params) {
                Err(_) => place,
                Ok(parts) => {
                    &&& is_table_text_of(Ok(parts.part_table), entries)
                    &&& is_boot_file_of(Ok(parts.bootloader), entries)
                    &&& match parts.part_table {
                        None => place,
                        Some(text) => exists|address: Option<int>|
                            {
                                &&& #[trigger] is_boot_address(
                                    address,
                                    tools,
                                    provided_or(parts.bootloader, supply_default_bootloader),
                                    parts.params,
                                )
                                &&& place <==> is_placed(text, address)
                            },
                    }
                },
            }
        }),
{
    if let Ok(parts) = tools.unpacked(entries, default_params) {
        let payload = Payload::spec_new(parts.bootloader, supply_default_bootloader);
        let boot = tools.boot_place(payload, parts.params);
        let address = match boot {
            Some(address) => Some(address as int),
            None => None,
        };
        lemma_front_files(entries);
        if let Some(text) = parts.part_table {
            law_boot_address(tools, payload, parts.params);
            law_table_place(text, boot);
            assert(is_boot_address(address, tools, payload, parts.params));
        }
    }
}

/// Content is refused for its partition table only where it is a ZIP archive that is.
pub proof fn law_content_place<F, G, P>(
    tools: Tools<F, G, P>,
    name: Seq<char>,
    default_params: Params,
    content: Seq<u8>,
    supply_default_bootloader: bool,
) where
    F: Fn(&[u8], Chip) -> Result<Vec<u8>, String>,
    G: Fn(Chip, Option<FlashSize>) -> Result<Vec<u8>, String>,
    P: Fn(&str) -> Result<Params, String>,

    ensures
        tools.content_has_place(name, default_params, content, supply_default_bootloader) <==> (
        ".bundle"@.is_suffix_of(name) && archive_entries(content) is Ok ==> tools.zip_has_place(
            Some(default_params),
            archive_entries(content)->Ok_0,
            supply_default_bootloader,
        )),
{
}

} // verus!
