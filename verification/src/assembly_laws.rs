//! What a bundle put together from its parts holds, and why some are not put together.

use crate::assemble::{
    assembled_parts, boot_mapping, first_misplaced, image_for, misplaced, placed, row_names,
    table_mapping,
};
use crate::bundle::{first_oversized, Bundle, BundleView};
use crate::chip::{Chip, FlashSize, Params};
use crate::efuse::{EfuseMappingView, EfuseView};
use crate::fault::Fault;
use crate::image::{ImageType, ImageView, ProvisioningStatus};
use crate::laws::{
    law_last_image_counts, lemma_find_without_all, lemma_found, lemma_misplaced, lemma_oversized,
};
use crate::merge::unmapped;
use crate::partition::{MappingView, PartitionSubType, PartitionType, PartitionView};
use crate::payload::Payload;
use crate::pool::{find, latest, lemma_at, lemma_latest_distinct, lemma_without_all, without_all};
use crate::table::{
    csv_rows, default_rows, payload_text, table_bytes, text_has_place, TableView,
};
use crate::tools::{bytes_reply, Tools};
use vstd::prelude::*;
use vstd::string::*;

verus! {

/// Whether image `k` is the last of those with this name.
pub open spec fn is_last(images: Seq<ImageView>, name: Seq<char>, k: int) -> bool {
    &&& 0 <= k < images.len()
    &&& images[k].name == name
    &&& forall|l: int| k < l < images.len() ==> (#[trigger] images[l]).name != name
}

/// Whether `found` is the last image with this name, or nothing where none has it.
pub open spec fn is_last_named(
    images: Seq<ImageView>,
    name: Seq<char>,
    found: Option<ImageView>,
) -> bool {
    match found {
        Some(image) => exists|k: int| #[trigger] is_last(images, name, k) && images[k] == image,
        None => forall|k: int| 0 <= k < images.len() ==> (#[trigger] images[k]).name != name,
    }
}

/// Whether partition `i` is the first of those with its name.
pub open spec fn is_first_row(rows: Seq<PartitionView>, i: int) -> bool {
    &&& 0 <= i < rows.len()
    &&& forall|j: int| 0 <= j < i ==> (#[trigger] rows[j]).name != rows[i].name
}

/// Whether one of the partitions has this name.
pub open spec fn has_row(rows: Seq<PartitionView>, name: Seq<char>) -> bool {
    exists|i: int| 0 <= i < rows.len() && (#[trigger] rows[i]).name == name
}

/// Where the boot ROM of a chip looks for the bootloader.
pub open spec fn boots_from(chip: Chip) -> int {
    match chip {
        Chip::Esp32 => 0x1000,
        Chip::Esp32s2 => 0x1000,
        Chip::Esp32p4 => 0x2000,
        _ => 0,
    }
}

/// Whether a mapping is that of the bootloader, in front of a table in front of `first`.
pub open spec fn is_boot_mapping(
    mapping: MappingView,
    chip: Chip,
    first: PartitionView,
    boot: ImageView,
) -> bool {
    &&& mapping.image == Some(boot)
    &&& mapping.partition is Some
    &&& mapping.partition->0.name == "(bootloader)"@
    &&& mapping.partition->0.ty == PartitionType::Custom(0)
    &&& mapping.partition->0.subtype == PartitionSubType::Custom(0)
    &&& mapping.partition->0.offset == boots_from(chip)
    &&& mapping.partition->0.size == first.offset - 0x1000 - boots_from(chip)
    &&& !mapping.partition->0.encrypted
}

/// Whether a mapping is that of the table of `rows`, written in binary.
pub open spec fn is_table_mapping(mapping: MappingView, rows: Seq<PartitionView>) -> bool {
    &&& mapping.partition is Some
    &&& mapping.partition->0.name == "(part-table)"@
    &&& mapping.partition->0.ty == PartitionType::Custom(0)
    &&& mapping.partition->0.subtype == PartitionSubType::Custom(0)
    &&& mapping.partition->0.offset == rows[0].offset - 0x1000
    &&& mapping.partition->0.size == 0x1000
    &&& !mapping.partition->0.encrypted
    &&& mapping.image is Some
    &&& mapping.image->0.name == "(part-table)"@
    &&& mapping.image->0.ty == ImageType::Binary
    &&& mapping.image->0.data == table_bytes(rows)
    &&& mapping.image->0.status == ProvisioningStatus::NotStarted
}

/// Whether a mapping is that of row `i`, with the image of its name. Where an earlier
/// row has the same name, it has no image.
pub open spec fn is_row_mapping(
    mapping: MappingView,
    rows: Seq<PartitionView>,
    images: Seq<ImageView>,
    i: int,
) -> bool {
    &&& mapping.partition == Some(rows[i])
    &&& is_first_row(rows, i) ==> is_last_named(images, rows[i].name, mapping.image)
    &&& !is_first_row(rows, i) ==> mapping.image is None
}

/// Whether mappings are those of the images that none of `rows` is for: the last of each
/// name, once, without a partition.
pub open spec fn are_loose(
    mappings: Seq<MappingView>,
    rows: Seq<PartitionView>,
    images: Seq<ImageView>,
) -> bool {
    &&& forall|i: int|
        0 <= i < mappings.len() ==> {
            &&& (#[trigger] mappings[i]).partition is None
            &&& mappings[i].image is Some
            &&& !has_row(rows, mappings[i].image->0.name)
            &&& is_last_named(images, mappings[i].image->0.name, mappings[i].image)
        }
    &&& forall|i: int, j: int|
        0 <= i < j < mappings.len() ==> (#[trigger] mappings[i]).image->0.name != (
        #[trigger] mappings[j]).image->0.name
    &&& forall|k: int|
        #![trigger images[k]]
        is_last(images, images[k].name, k) && !has_row(rows, images[k].name)
            ==> exists|i: int|
            0 <= i < mappings.len() && (#[trigger] mappings[i]).image == Some(images[k])
}

/// Whether mappings are those of a bootloader, a table, its partitions, and the images
/// that are left.
pub open spec fn are_mapped(
    parts: Seq<MappingView>,
    chip: Chip,
    rows: Option<Seq<PartitionView>>,
    boot: Option<ImageView>,
    images: Seq<ImageView>,
) -> bool {
    let front: int = if boot is Some {
        1
    } else {
        0
    };
    match rows {
        Some(rows) => {
            &&& parts.len() >= front + 1 + rows.len()
            &&& boot matches Some(image) ==> is_boot_mapping(parts[0], chip, rows[0], image)
            &&& is_table_mapping(parts[front], rows)
            &&& forall|i: int|
                #![trigger rows[i]]
                0 <= i < rows.len() ==> is_row_mapping(parts[front + 1 + i], rows, images, i)
            &&& are_loose(parts.skip(front + 1 + rows.len()), rows, images)
        },
        None => {
            &&& parts.len() >= front
            &&& boot matches Some(image) ==> parts[0] == (MappingView {
                partition: None,
                image: Some(image),
            })
            &&& are_loose(parts.skip(front), Seq::empty(), images)
        },
    }
}

/// Whether efuses are these, all still to be programmed.
pub open spec fn are_to_program(
    mappings: Seq<EfuseMappingView>,
    efuses: Seq<EfuseView>,
) -> bool {
    &&& mappings.len() == efuses.len()
    &&& forall|i: int|
        0 <= i < efuses.len() ==> (#[trigger] mappings[i]).efuse == efuses[i]
            && mappings[i].status == ProvisioningStatus::NotStarted
}

/// Whether the image for row `i` was made from an ELF file, and the row holds no app.
pub open spec fn is_misfit(rows: Seq<PartitionView>, images: Seq<ImageView>, i: int) -> bool {
    &&& is_first_row(rows, i)
    &&& rows[i].ty != PartitionType::App
    &&& exists|k: int|
        #[trigger] is_last(images, rows[i].name, k) && images[k].ty == ImageType::Elf
}

/// Whether a mapping has an image that is larger than its partition.
pub open spec fn is_over(mapping: MappingView) -> bool {
    &&& mapping.partition is Some
    &&& mapping.image is Some
    &&& mapping.image->0.data.len() > mapping.partition->0.size
}

/// Whether a fault is that of the first mapping whose image is larger than its partition.
pub open spec fn is_first_over(parts: Seq<MappingView>, fault: Fault<Seq<char>>) -> bool {
    exists|i: int|
        {
            &&& 0 <= i < parts.len()
            &&& is_over(#[trigger] parts[i])
            &&& forall|j: int| 0 <= j < i ==> !is_over(#[trigger] parts[j])
            &&& fault == (Fault::TooLarge {
                image: parts[i].image->0.name,
                partition: parts[i].partition->0.name,
                image_len: parts[i].image->0.data.len() as usize,
                part_len: parts[i].partition->0.size as usize,
            })
        }
}

/// What putting parts together comes to: a bundle of all of them, unless an image goes
/// where it must not, or has no room.
pub open spec fn comes_to(
    result: Result<BundleView, Fault<Seq<char>>>,
    name: Seq<char>,
    params: Params,
    rows: Option<Seq<PartitionView>>,
    boot: Option<ImageView>,
    images: Seq<ImageView>,
    efuses: Seq<EfuseView>,
) -> bool {
    match result {
        Ok(bundle) => {
            &&& bundle.name == name
            &&& bundle.params == params
            &&& are_mapped(bundle.parts, params.chip, rows, boot, images)
            &&& are_to_program(bundle.efuses, efuses)
            &&& rows matches Some(table) ==> forall|i: int| !#[trigger] is_misfit(table, images, i)
            &&& forall|i: int| 0 <= i < bundle.parts.len() ==> !is_over(#[trigger] bundle.parts[i])
        },
        Err(fault) => {
            ||| rows is Some && exists|i: int|
                {
                    &&& #[trigger] is_misfit(rows->0, images, i)
                    &&& forall|j: int| 0 <= j < i ==> !#[trigger] is_misfit(rows->0, images, j)
                    &&& fault == (Fault::ElfNotApp { partition: rows->0[i].name })
                }
            ||| {
                &&& rows is Some ==> forall|i: int| !#[trigger] is_misfit(rows->0, images, i)
                &&& exists|parts: Seq<MappingView>| #[trigger]
                    are_mapped(parts, params.chip, rows, boot, images) && is_first_over(
                        parts,
                        fault,
                    )
            }
        },
    }
}

/// Whether there is place for a table in front of its partitions, and for what is booted
/// in front of the table.
pub open spec fn has_place(chip: Chip, rows: Seq<PartitionView>, boot: Option<ImageView>) -> bool {
    &&& rows[0].offset >= 0x1000
    &&& boot is Some ==> rows[0].offset >= 0x1000 + boots_from(chip)
}

/// Looking for a name finds the last image that has it.
pub(crate) proof fn lemma_find_last(images: Seq<ImageView>, name: Seq<char>)
    ensures
        is_last_named(images, name, find(images, name)),
    decreases images.len(),
{
    if images.len() > 0 {
        let head = images.drop_last();
        lemma_find_last(head, name);
        if images.last().name == name {
            assert(is_last(images, name, images.len() - 1));
        } else if find(head, name) is Some {
            let k = choose|k: int|
                #[trigger] is_last(head, name, k) && head[k] == find(head, name)->0;
            assert(images[k] == head[k]);
            assert forall|l: int| k < l < images.len() implies (#[trigger] images[l]).name
                != name by {
                if l < head.len() {
                    assert(head[l].name != name);
                }
            }
            assert(is_last(images, name, k));
        } else {
            assert forall|k: int| 0 <= k < images.len() implies (#[trigger] images[k]).name
                != name by {
                if k < head.len() {
                    assert(head[k].name != name);
                }
            }
        }
    }
}

/// The last image of a name is the one that is found.
pub(crate) proof fn lemma_last_found(images: Seq<ImageView>, name: Seq<char>, k: int)
    requires
        is_last(images, name, k),
    ensures
        find(images, name) == Some(images[k]),
{
    lemma_find_last(images, name);
    match find(images, name) {
        Some(image) => {
            let l = choose|l: int| #[trigger] is_last(images, name, l) && images[l] == image;
            if l < k {
                assert(images[k].name != name);
            } else if k < l {
                assert(images[l].name != name);
            }
        },
        None => {
            assert(images[k].name != name);
        },
    }
}

/// The image for a row is the last of its name, unless an earlier row has it.
proof fn lemma_row_image(rows: Seq<PartitionView>, images: Seq<ImageView>, i: int)
    requires
        0 <= i < rows.len(),
    ensures
        is_first_row(rows, i) ==> image_for(rows, latest(images), i) == find(
            images,
            rows[i].name,
        ),
        is_first_row(rows, i) ==> is_last_named(
            images,
            rows[i].name,
            image_for(rows, latest(images), i),
        ),
        !is_first_row(rows, i) ==> image_for(rows, latest(images), i) is None,
        misplaced(rows, latest(images), i) <==> is_misfit(rows, images, i),
{
    let name = rows[i].name;
    let names = row_names(rows).take(i);
    lemma_find_without_all(latest(images), names, name);
    law_last_image_counts(images, name);
    lemma_find_last(images, name);
    if is_first_row(rows, i) {
        assert forall|j: int| 0 <= j < names.len() implies names[j] != name by {
            assert(rows[j].name != name);
        }
        if is_misfit(rows, images, i) {
            let k = choose|k: int|
                #[trigger] is_last(images, name, k) && images[k].ty == ImageType::Elf;
            lemma_last_found(images, name, k);
        }
    } else {
        let j = choose|j: int| 0 <= j < i && (#[trigger] rows[j]).name == name;
        assert(names[j] == name);
    }
}

/// The images that are left are the last of each name that no row has, each once.
proof fn lemma_loose(rows: Seq<PartitionView>, images: Seq<ImageView>)
    ensures
        are_loose(unmapped(without_all(latest(images), row_names(rows))), rows, images),
{
    let names = row_names(rows);
    let pool = latest(images);
    let left = without_all(pool, names);
    let mappings = unmapped(left);
    lemma_latest_distinct(images);
    lemma_without_all(pool, names);
    assert forall|i: int| 0 <= i < mappings.len() implies {
        &&& (#[trigger] mappings[i]).partition is None
        &&& mappings[i].image is Some
        &&& !has_row(rows, mappings[i].image->0.name)
        &&& is_last_named(images, mappings[i].image->0.name, mappings[i].image)
    } by {
        let name = left[i].name;
        lemma_at(left, i);
        lemma_find_without_all(pool, names, name);
        law_last_image_counts(images, name);
        lemma_find_last(images, name);
        if has_row(rows, name) {
            let j = choose|j: int| 0 <= j < rows.len() && (#[trigger] rows[j]).name == name;
            assert(names[j] == name);
        }
    }
    assert forall|i: int, j: int| 0 <= i < j < mappings.len() implies (
    #[trigger] mappings[i]).image->0.name != (#[trigger] mappings[j]).image->0.name by {
        assert(left[i].name != left[j].name);
    }
    assert forall|k: int|
        #![trigger images[k]]
        is_last(images, images[k].name, k) && !has_row(rows, images[k].name) implies exists|i: int|
        0 <= i < mappings.len() && (#[trigger] mappings[i]).image == Some(images[k]) by {
        let name = images[k].name;
        lemma_last_found(images, name, k);
        law_last_image_counts(images, name);
        lemma_find_without_all(pool, names, name);
        if names.contains(name) {
            let j = choose|j: int| 0 <= j < names.len() && names[j] == name;
            assert(rows[j].name == name);
        }
        lemma_found(left, name);
        let i = choose|i: int| 0 <= i < left.len() && left[i] == images[k];
        assert(mappings[i].image == Some(images[k]));
    }
}

/// The mappings of all parts are those that they should be.
proof fn lemma_mapped(
    params: Params,
    rows: Option<Seq<PartitionView>>,
    boot: Option<ImageView>,
    images: Seq<ImageView>,
)
    requires
        rows matches Some(table) ==> has_place(params.chip, table, boot),
    ensures
        ({
            let table = match rows {
                Some(table) => Some(TableView::of_rows(table)),
                None => None,
            };
            are_mapped(
                assembled_parts(params, table, boot, latest(images)),
                params.chip,
                rows,
                boot,
                images,
            )
        }),
{
    let pool = latest(images);
    let front: int = if boot is Some {
        1
    } else {
        0
    };
    match rows {
        Some(rows) => {
            let table = TableView::of_rows(rows);
            let parts = assembled_parts(params, Some(table), boot, pool);
            let left = without_all(pool, row_names(rows));
            lemma_loose(rows, images);
            assert(parts.skip(front + 1 + rows.len()) =~= unmapped(left));
            assert(parts[front] == table_mapping(table));
            if let Some(image) = boot {
                assert(parts[0] == boot_mapping(params, Some(table), image));
            }
            assert forall|i: int| #![trigger rows[i]] 0 <= i < rows.len() implies is_row_mapping(
                parts[front + 1 + i],
                rows,
                images,
                i,
            ) by {
                assert(parts[front + 1 + i] == placed(rows, pool)[i]);
                lemma_row_image(rows, images, i);
            }
        },
        None => {
            let rows = Seq::<PartitionView>::empty();
            let parts = assembled_parts(params, None, boot, pool);
            lemma_loose(rows, images);
            assert(row_names(rows) =~= Seq::<Seq<char>>::empty());
            assert(without_all(pool, row_names(rows)) == pool);
            assert(parts.skip(front) =~= unmapped(pool));
        },
    }
}

/// Parts are put together as follows. The bootloader goes where the chip boots, the table
/// in binary right in front of its first partition, and the last image of each name to
/// the first partition of that name; the other images are kept without a partition. All
/// efuses are still to be programmed. An image from an ELF file that would go to a
/// partition without an app, or an image that is larger than its partition, is reported.
pub proof fn law_put_together(
    name: Seq<char>,
    params: Params,
    rows: Option<Seq<PartitionView>>,
    boot: Option<ImageView>,
    images: Seq<ImageView>,
    efuses: Seq<EfuseView>,
)
    requires
        rows matches Some(table) ==> has_place(params.chip, table, boot),
    ensures
        comes_to(
            BundleView::assembled(
                name,
                params,
                match rows {
                    Some(table) => Some(TableView::of_rows(table)),
                    None => None,
                },
                boot,
                images,
                efuses,
            ),
            name,
            params,
            rows,
            boot,
            images,
            efuses,
        ),
{
    let pool = latest(images);
    let table = match rows {
        Some(table) => Some(TableView::of_rows(table)),
        None => None,
    };
    let parts = assembled_parts(params, table, boot, pool);
    let result = BundleView::assembled(name, params, table, boot, images, efuses);
    lemma_mapped(params, rows, boot, images);
    lemma_oversized(parts, parts.len());
    assert forall|i: int| 0 <= i < parts.len() implies is_over(#[trigger] parts[i])
        == !parts[i].fits() by {}
    if let Some(rows) = rows {
        lemma_misplaced(rows, pool, rows.len());
        assert forall|i: int| #[trigger] is_misfit(rows, images, i) == (0 <= i < rows.len()
            && misplaced(rows, pool, i)) by {
            if 0 <= i < rows.len() {
                lemma_row_image(rows, images, i);
            }
        }
        if let Some(i) = first_misplaced(rows, pool, rows.len()) {
            assert(is_misfit(rows, images, i));
        }
    }
    if let Err(fault) = result {
        if rows is None || first_misplaced(rows->0, pool, rows->0.len()) is None {
            let i = first_oversized(parts, parts.len())->0;
            assert(is_over(parts[i]));
            assert(is_first_over(parts, fault));
        }
    }
}

/// The partitions that a text writes, or what is wrong with it.
pub open spec fn rows_in(text: Seq<char>) -> Result<Seq<PartitionView>, Seq<char>> {
    if text == Bundle::DEFAULT_PART_TABLE@ {
        Ok(default_rows())
    } else {
        csv_rows(text)
    }
}

/// Whether `boot` is what `default_bootloader` answers for these parameters: an image of
/// the bytes, or the reason why there are none.
pub open spec fn is_boot_answer<F, G, P>(
    tools: Tools<F, G, P>,
    params: Params,
    boot: Result<ImageView, Fault<Seq<char>>>,
) -> bool where
    F: Fn(&[u8], Chip) -> Result<Vec<u8>, String>,
    G: Fn(Chip, Option<FlashSize>) -> Result<Vec<u8>, String>,
    P: Fn(&str) -> Result<Params, String>,
 {
    exists|answer: Result<Vec<u8>, String>|
        {
            &&& #[trigger] tools.default_bootloader.ensures(
                (params.chip, params.flash_size),
                answer,
            )
            &&& match answer {
                Ok(bytes) => boot == Ok::<ImageView, Fault<Seq<char>>>(
                    ImageView {
                        name: "(bootloader)"@,
                        ty: ImageType::Binary,
                        data: bytes@,
                        status: ProvisioningStatus::NotStarted,
                    },
                ),
                Err(reason) => boot == Err::<ImageView, Fault<Seq<char>>>(
                    Fault::Bootloader { reason: reason@ },
                ),
            }
        }
}

/// What making a bundle from its parts comes to: the text of the partition table is read
/// first, then the bootloader is asked for, and then all is put together.
pub open spec fn is_made_from<F, G, P>(
    result: Result<BundleView, Fault<Seq<char>>>,
    tools: Tools<F, G, P>,
    name: Seq<char>,
    params: Params,
    text: Option<Seq<char>>,
    boot: Payload<ImageView>,
    images: Seq<ImageView>,
    efuses: Seq<EfuseView>,
) -> bool where
    F: Fn(&[u8], Chip) -> Result<Vec<u8>, String>,
    G: Fn(Chip, Option<FlashSize>) -> Result<Vec<u8>, String>,
    P: Fn(&str) -> Result<Params, String>,
 {
    if text is Some && rows_in(text->0) is Err {
        result == Err::<BundleView, Fault<Seq<char>>>(
            Fault::PartTable { reason: rows_in(text->0)->Err_0 },
        )
    } else {
        let rows = match text {
            Some(text) => Some(rows_in(text)->Ok_0),
            None => None,
        };
        match boot {
            Payload::NotProvided => comes_to(result, name, params, rows, None, images, efuses),
            Payload::Provided(image) => comes_to(
                result,
                name,
                params,
                rows,
                Some(image),
                images,
                efuses,
            ),
            Payload::Default => exists|made: Result<ImageView, Fault<Seq<char>>>|
                {
                    &&& #[trigger] is_boot_answer(tools, params, made)
                    &&& match made {
                        Ok(image) => comes_to(
                            result,
                            name,
                            params,
                            rows,
                            Some(image),
                            images,
                            efuses,
                        ),
                        Err(fault) => result == Err::<BundleView, Fault<Seq<char>>>(fault),
                    }
                },
        }
    }
}

/// What `default_bootloader` comes back with is its answer.
pub(crate) proof fn lemma_boot_answer<F, G, P>(tools: Tools<F, G, P>, params: Params) where
    F: Fn(&[u8], Chip) -> Result<Vec<u8>, String>,
    G: Fn(Chip, Option<FlashSize>) -> Result<Vec<u8>, String>,
    P: Fn(&str) -> Result<Params, String>,

    requires
        tools.has_booted(params),
    ensures
        is_boot_answer(
            tools,
            params,
            match tools.booted(Payload::Default, params) {
                Ok(image) => Ok(image->0),
                Err(fault) => Err(fault),
            },
        ),
        tools.booted(Payload::Default, params) matches Ok(image) ==> image is Some,
{
    let reply = choose|reply: Result<Seq<u8>, Seq<char>>|
        tools.may_boot(params.chip, params.flash_size, reply);
    assert(tools.may_boot(params.chip, params.flash_size, reply));
    let answer = choose|answer: Result<Vec<u8>, String>|
        #![trigger tools.default_bootloader.ensures((params.chip, params.flash_size), answer)]
        tools.default_bootloader.ensures((params.chip, params.flash_size), answer) && reply
            == bytes_reply(answer);
    assert(tools.default_bootloader.ensures((params.chip, params.flash_size), answer));
}

/// A bundle is made from its parts as follows. A partition table that is asked for by
/// default is the default one. It is read before the bootloader is asked for, which comes
/// from the tools for the chip and the flash size of the bundle, where it is asked for by
/// default. What either of them reports is reported.
pub proof fn law_made_from_parts<F, G, P>(
    tools: Tools<F, G, P>,
    name: Seq<char>,
    params: Params,
    part_table: Payload<&str>,
    boot: Payload<ImageView>,
    images: Seq<ImageView>,
    efuses: Seq<EfuseView>,
) where
    F: Fn(&[u8], Chip) -> Result<Vec<u8>, String>,
    G: Fn(Chip, Option<FlashSize>) -> Result<Vec<u8>, String>,
    P: Fn(&str) -> Result<Params, String>,

    requires
        part_table matches Payload::Provided(text) ==> text_has_place(
            text@,
            tools.boot_place(boot, params),
        ),
        boot is Default && !(part_table matches Payload::Provided(text) && rows_in(text@) is Err)
            ==> tools.has_booted(params),
    ensures
        is_made_from(
            BundleView::of_parts(
                name,
                params,
                payload_text(part_table),
                tools.booted(boot, params),
                images,
                efuses,
            ),
            tools,
            name,
            params,
            match part_table {
                Payload::NotProvided => None,
                Payload::Default => Some(Bundle::DEFAULT_PART_TABLE@),
                Payload::Provided(text) => Some(text@),
            },
            boot,
            images,
            efuses,
        ),
{
    lemma_made_from(tools, name, params, payload_text(part_table), boot, images, efuses);
}

pub(crate) proof fn lemma_made_from<F, G, P>(
    tools: Tools<F, G, P>,
    name: Seq<char>,
    params: Params,
    text: Option<Seq<char>>,
    boot: Payload<ImageView>,
    images: Seq<ImageView>,
    efuses: Seq<EfuseView>,
) where
    F: Fn(&[u8], Chip) -> Result<Vec<u8>, String>,
    G: Fn(Chip, Option<FlashSize>) -> Result<Vec<u8>, String>,
    P: Fn(&str) -> Result<Params, String>,

    requires
        text is Some && text->0 != Bundle::DEFAULT_PART_TABLE@ ==> text_has_place(
            text->0,
            tools.boot_place(boot, params),
        ),
        boot is Default && !(text is Some && rows_in(text->0) is Err) ==> tools.has_booted(params),
    ensures
        is_made_from(
            BundleView::of_parts(
                name,
                params,
                text,
                tools.booted(boot, params),
                images,
                efuses,
            ),
            tools,
            name,
            params,
            text,
            boot,
            images,
            efuses,
        ),
{
    let booted = tools.booted(boot, params);
    if !(text is Some && rows_in(text->0) is Err) {
        let rows = match text {
            Some(text) => Some(rows_in(text)->Ok_0),
            None => None,
        };
        if boot is Default {
            lemma_boot_answer(tools, params);
        }
        if let Ok(image) = booted {
            law_put_together(name, params, rows, image, images, efuses);
        }
    }
}

/// In every bundle made from parts with a partition table, the table itself is mapped to
/// its partition, right behind the bootloader where there is one: all the bytes that it is
/// written as, and nothing else.
pub proof fn law_table_is_flashed<F, G, P>(
    tools: Tools<F, G, P>,
    name: Seq<char>,
    params: Params,
    part_table: Payload<&str>,
    boot: Payload<ImageView>,
    images: Seq<ImageView>,
    efuses: Seq<EfuseView>,
) where
    F: Fn(&[u8], Chip) -> Result<Vec<u8>, String>,
    G: Fn(Chip, Option<FlashSize>) -> Result<Vec<u8>, String>,
    P: Fn(&str) -> Result<Params, String>,

    requires
        !(part_table is NotProvided),
    ensures
        BundleView::of_parts(
            name,
            params,
            payload_text(part_table),
            tools.booted(boot, params),
            images,
            efuses,
        ) matches Ok(bundle) ==> {
            let rows = match part_table {
                Payload::Provided(text) => rows_in(text@),
                _ => Ok(default_rows()),
            };
            let front: int = if boot is NotProvided {
                0
            } else {
                1
            };
            &&& rows is Ok
            &&& bundle.parts.len() > front
            &&& bundle.parts[front].partition is Some
            &&& bundle.parts[front].partition->0.name == "(part-table)"@
            &&& bundle.parts[front].image is Some
            &&& bundle.parts[front].image->0.data == table_bytes(rows->Ok_0)
        },
{
    let rows = match part_table {
        Payload::Provided(text) => rows_in(text@),
        _ => Ok(default_rows()),
    };
    if let Ok(bundle) = BundleView::of_parts(
        name,
        params,
        payload_text(part_table),
        tools.booted(boot, params),
        images,
        efuses,
    ) {
        let table = TableView::of_rows(rows->Ok_0);
        let front: int = if boot is NotProvided {
            0
        } else {
            1
        };
        assert(bundle.parts[front] == table_mapping(table));
    }
}

} // verus!
