//! What contracts speak of is what is there: nothing of a bundle, and nothing of what went
//! wrong, is left out or made up.

use crate::assemble::outcome;
use crate::bundle::Bundle;
use crate::chip::Params;
use crate::create::{image_outcome, image_payload};
use crate::efuse::{efuse_outcome, Efuse, EfuseMapping, EfuseView};
use crate::fault::{BundleError, Fault};
use crate::image::{FlashData, Image};
use crate::merge::unit_outcome;
use crate::partition::{Partition, PartitionMapping};
use crate::payload::Payload;
use crate::table::{table_outcome, PartTable};
use crate::tools::{bytes_outcome, params_outcome};
use crate::unpack::{parts_outcome, Parts};
use vstd::prelude::*;

verus! {

/// What came of an operation is what it returned, or the fault that it returned.
pub proof fn law_outcomes(
    bundle: Bundle,
    parts: Parts,
    table: PartTable,
    efuse: Efuse,
    image: Image,
    params: Params,
    bytes: Vec<u8>,
    e: BundleError,
)
    ensures
        outcome(Ok(bundle)) == Ok::<_, Fault<Seq<char>>>(bundle@),
        outcome(Err(e)) is Err && outcome(Err(e))->Err_0 == e@,
        unit_outcome(Ok(())) is Ok,
        unit_outcome(Err(e)) is Err && unit_outcome(Err(e))->Err_0 == e@,
        parts_outcome(Ok(parts)) == Ok::<_, Fault<Seq<char>>>(parts@),
        parts_outcome(Err(e)) is Err && parts_outcome(Err(e))->Err_0 == e@,
        table_outcome(Ok(Some(table))) == Ok::<_, Fault<Seq<char>>>(Some(table@)),
        table_outcome(Ok(None)) is Ok && table_outcome(Ok(None))->Ok_0 is None,
        table_outcome(Err(e)) is Err && table_outcome(Err(e))->Err_0 == e@,
        efuse_outcome(Ok(efuse)) == Ok::<_, Fault<Seq<char>>>(efuse@),
        efuse_outcome(Err(e)) is Err && efuse_outcome(Err(e))->Err_0 == e@,
        image_outcome(Ok(Some(image))) == Ok::<_, Fault<Seq<char>>>(Some(image@)),
        image_outcome(Ok(None)) is Ok && image_outcome(Ok(None))->Ok_0 is None,
        image_outcome(Err(e)) is Err && image_outcome(Err(e))->Err_0 == e@,
        params_outcome(Ok(params)) == Ok::<_, Fault<Seq<char>>>(params),
        params_outcome(Err(e)) is Err && params_outcome(Err(e))->Err_0 == e@,
        bytes_outcome(Ok(bytes)) == Ok::<_, Fault<Seq<char>>>(bytes@),
        bytes_outcome(Err(e)) is Err && bytes_outcome(Err(e))->Err_0 == e@,
        image_payload(Payload::Provided(image)) == Payload::Provided(image@),
        image_payload(Payload::Default) is Default,
        image_payload(Payload::NotProvided) is NotProvided,
{
}

/// A bundle is spoken of with its name, its parameters, and all its mappings and efuses, in
/// their order.
pub proof fn law_bundle_view(bundle: Bundle)
    ensures
        bundle@.name == bundle.name@,
        bundle@.params == bundle.params,
        bundle@.parts.len() == bundle.parts_mapping@.len(),
        forall|i: int|
            0 <= i < bundle.parts_mapping@.len() ==> #[trigger] bundle@.parts[i]
                == bundle.parts_mapping@[i]@,
        bundle@.efuses.len() == bundle.efuse_mapping@.len(),
        forall|i: int|
            0 <= i < bundle.efuse_mapping@.len() ==> #[trigger] bundle@.efuses[i]
                == bundle.efuse_mapping@[i]@,
{
}

/// What was unpacked is spoken of with all its parts, and a partition table with all its
/// partitions.
pub proof fn law_parts_view(parts: Parts, table: PartTable)
    ensures
        parts@.params == parts.params,
        parts.part_table matches Some(text) ==> parts@.part_table == Some(text@),
        parts.part_table is None ==> parts@.part_table is None,
        parts.bootloader matches Some(image) ==> parts@.bootloader == Some(image@),
        parts.bootloader is None ==> parts@.bootloader is None,
        parts@.images.len() == parts.images@.len(),
        forall|i: int|
            0 <= i < parts.images@.len() ==> #[trigger] parts@.images[i] == parts.images@[i]@,
        parts@.efuses.len() == parts.efuses@.len(),
        forall|i: int|
            0 <= i < parts.efuses@.len() ==> #[trigger] parts@.efuses[i] == parts.efuses@[i]@,
        table@.offset == table.offset,
        table@.image == table.image@,
        table@.rows.len() == table.rows@.len(),
        forall|i: int|
            0 <= i < table.rows@.len() ==> #[trigger] table@.rows[i] == table.rows@[i]@,
{
}

/// Mappings, partitions, images, flash data and efuses are spoken of with all their fields.
pub proof fn law_item_views(
    mapping: PartitionMapping,
    partition: Partition,
    image: Image,
    data: FlashData,
    burned: EfuseMapping,
    efuse: Efuse,
)
    ensures
        mapping.partition matches Some(p) ==> mapping@.partition == Some(p@),
        mapping.partition is None ==> mapping@.partition is None,
        mapping.image matches Some(flashed) ==> mapping@.image == Some(flashed@),
        mapping.image is None ==> mapping@.image is None,
        partition@.name == partition.name@,
        partition@.ty == partition.ty,
        partition@.subtype == partition.subtype,
        partition@.offset == partition.offset,
        partition@.size == partition.size,
        partition@.encrypted == partition.encrypted,
        image@.name == image.name@,
        image@.ty == image.ty,
        image@.data == image.data@,
        image@.status == image.status,
        data@.offset == data.offset,
        data@.data == data.data@,
        data@.encrypted_partition == data.encrypted_partition,
        burned@.efuse == burned.efuse@,
        burned@.status == burned.status,
        match efuse {
            Efuse::Param { name, value } => efuse@ == (EfuseView::Param { name: name@, value }),
            Efuse::Key { block, key_value, purpose } => efuse@ == (EfuseView::Key {
                block: block@,
                key_value: key_value@,
                purpose: purpose@,
            }),
            Efuse::KeyDigest { block, digest_value, purpose } => efuse@ == (EfuseView::KeyDigest {
                block: block@,
                digest_value: digest_value@,
                purpose: purpose@,
            }),
        },
{
}

/// A fault is spoken of as what it is, with all its texts.
pub proof fn law_fault_view(e: BundleError)
    ensures
        match e {
            Fault::UnknownSuffix { name } => e@ == (Fault::UnknownSuffix { name: name@ }),
            Fault::Archive { reason } => e@ == (Fault::Archive { reason: reason@ }),
            Fault::NoParams => e@ is NoParams,
            Fault::LoadParams { reason } => e@ == (Fault::LoadParams { reason: reason@ }),
            Fault::Params { reason } => e@ == (Fault::Params { reason: reason@ }),
            Fault::Load { file, reason } => e@ == (Fault::Load { file: file@, reason: reason@ }),
            Fault::PartTable { reason } => e@ == (Fault::PartTable { reason: reason@ }),
            Fault::Elf { reason } => e@ == (Fault::Elf { reason: reason@ }),
            Fault::Bootloader { reason } => e@ == (Fault::Bootloader { reason: reason@ }),
            Fault::ElfNotApp { partition } => e@ == (Fault::ElfNotApp { partition: partition@ }),
            Fault::TooLarge { image, partition, image_len, part_len } => e@ == (Fault::TooLarge {
                image: image@,
                partition: partition@,
                image_len,
                part_len,
            }),
            Fault::ParamsDiffer => e@ is ParamsDiffer,
            Fault::ImageExists { name } => e@ == (Fault::ImageExists { name: name@ }),
            Fault::EfuseExists { efuse } => e@ == (Fault::EfuseExists { efuse: efuse@ }),
            Fault::EfuseName { name } => e@ == (Fault::EfuseName { name: name@ }),
            Fault::EfuseNoValue { name } => e@ == (Fault::EfuseNoValue { name: name@ }),
            Fault::EfuseValue { value, name } => e@ == (Fault::EfuseValue {
                value: value@,
                name: name@,
            }),
            Fault::EfuseNumber { digits } => e@ == (Fault::EfuseNumber { digits: digits@ }),
            Fault::EfuseData { name, len } => e@ == (Fault::EfuseData { name: name@, len }),
            Fault::EfuseEmpty { name } => e@ == (Fault::EfuseEmpty { name: name@ }),
            Fault::EfuseType { ty } => e@ == (Fault::EfuseType { ty: ty@ }),
        },
{
}

} // verus!
