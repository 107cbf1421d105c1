//! What is erased, flashed and burned of a bundle, and how far that has come.

use crate::assembly_laws::{is_first_over, is_over};
use crate::bundle::{encrypt_keys, first_oversized, flash_data, size_fault, BundleView};
use crate::efuse::EfuseMappingView;
use crate::image::{FlashDataView, ImageType, ImageView, ProvisioningStatus};
use crate::laws::lemma_oversized;
use crate::partition::{MappingView, PartitionType};
use vstd::prelude::*;
use vstd::string::*;

verus! {

/// Whether an image erases `size` bytes: it is as long, and all its bytes are `0xff`.
pub open spec fn is_erasing(image: ImageView, size: int) -> bool {
    &&& image.name == "(Empty)"@
    &&& image.ty == ImageType::Empty
    &&& image.status == ProvisioningStatus::NotStarted
    &&& image.data.len() == size
    &&& forall|k: int| 0 <= k < size ==> #[trigger] image.data[k] == 0xff
}

/// Each partition that had no image gets one that erases all of it, and nothing else
/// changes.
pub proof fn law_erased_whole(parts: Seq<MappingView>)
    ensures
        ({
            let after = parts.map_values(|m: MappingView| m.filled());
            &&& after.len() == parts.len()
            &&& forall|i: int|
                #![trigger after[i]]
                0 <= i < parts.len() ==> if parts[i].partition is Some && parts[i].image is None {
                    &&& after[i].partition == parts[i].partition
                    &&& after[i].image is Some
                    &&& is_erasing(after[i].image->0, parts[i].partition->0.size as int)
                } else {
                    after[i] == parts[i]
                }
        }),
{
}

/// An image of `size` empty bytes erases as many, and other images hold what they are
/// given, with nothing done yet.
pub proof fn law_new_images(name: Seq<char>, ty: ImageType, data: Seq<u8>, size: nat)
    ensures
        is_erasing(ImageView::empty(size), size as int),
        ImageView::fresh(name, ty, data).name == name,
        ImageView::fresh(name, ty, data).ty == ty,
        ImageView::fresh(name, ty, data).data == data,
        ImageView::fresh(name, ty, data).status == ProvisioningStatus::NotStarted,
{
}

/// Whether the image of a mapping is flashed: there is a partition for it.
pub open spec fn is_flashed(mapping: MappingView) -> bool {
    mapping.partition is Some && mapping.image is Some
}

/// The sizes are in order if and only if no image is larger than its partition, and the
/// first that is is reported.
pub proof fn law_room(parts: Seq<MappingView>)
    ensures
        size_fault(parts) is None <==> forall|i: int|
            0 <= i < parts.len() ==> !is_over(#[trigger] parts[i]),
        size_fault(parts) matches Some(fault) ==> is_first_over(parts, fault),
{
    lemma_oversized(parts, parts.len());
    assert forall|i: int| 0 <= i < parts.len() implies is_over(#[trigger] parts[i])
        == !parts[i].fits() by {}
    if size_fault(parts) is Some {
        let i = first_oversized(parts, parts.len())->0;
        assert(is_over(parts[i]));
    }
}

/// The flash data is one piece for each image with a partition, in their order: all its
/// data, to where the partition begins, encrypted where the partition is, or is that of
/// the bootloader or of the partition table.
pub proof fn law_flashed(parts: Seq<MappingView>)
    ensures
        flash_data(parts) == parts.filter(
            |m: MappingView| m.partition is Some && m.image is Some,
        ).map_values(
            |m: MappingView|
                FlashDataView {
                    offset: m.partition->0.offset,
                    data: m.image->0.data,
                    encrypted_partition: m.partition->0.encrypted || m.partition->0.name
                        == "(bootloader)"@ || m.partition->0.name == "(part-table)"@,
                },
        ),
    decreases parts.len(),
{
    reveal(Seq::filter);
    let chosen = |m: MappingView| m.partition is Some && m.image is Some;
    let piece = |m: MappingView|
        FlashDataView {
            offset: m.partition->0.offset,
            data: m.image->0.data,
            encrypted_partition: m.partition->0.encrypted || m.partition->0.name
                == "(bootloader)"@ || m.partition->0.name == "(part-table)"@,
        };
    if parts.len() > 0 {
        let head = parts.drop_last();
        law_flashed(head);
        if chosen(parts.last()) {
            assert(parts.filter(chosen).map_values(piece) =~= head.filter(chosen).map_values(
                piece,
            ).push(piece(parts.last())));
        }
    } else {
        assert(parts.filter(chosen).map_values(piece) =~= flash_data(parts));
    }
}

/// The keys that encrypt the flash memory are the values of the keys for that purpose, in
/// the order of the efuses.
pub proof fn law_encrypt_keys(efuses: Seq<EfuseMappingView>)
    ensures
        encrypt_keys(efuses) == efuses.filter(
            |e: EfuseMappingView|
                e.efuse is Key && e.efuse->Key_purpose == "XTS_AES_128_KEY"@,
        ).map_values(|e: EfuseMappingView| e.efuse->key_value),
    decreases efuses.len(),
{
    reveal(Seq::filter);
    let chosen = |e: EfuseMappingView|
        e.efuse is Key && e.efuse->Key_purpose == "XTS_AES_128_KEY"@;
    let value = |e: EfuseMappingView| e.efuse->key_value;
    if efuses.len() > 0 {
        let head = efuses.drop_last();
        law_encrypt_keys(head);
        if chosen(efuses.last()) {
            assert(efuses.filter(chosen).map_values(value) =~= head.filter(chosen).map_values(
                value,
            ).push(value(efuses.last())));
        }
    } else {
        assert(efuses.filter(chosen).map_values(value) =~= encrypt_keys(efuses));
    }
}

/// Whether `after` is a mapping with the status of its image set, and nothing else
/// changed.
pub open spec fn is_set(
    after: MappingView,
    mapping: MappingView,
    status: ProvisioningStatus,
) -> bool {
    &&& after.partition == mapping.partition
    &&& after.image is Some
    &&& after.image->0.status == status
    &&& after.image->0.name == mapping.image->0.name
    &&& after.image->0.ty == mapping.image->0.ty
    &&& after.image->0.data == mapping.image->0.data
}

/// Setting a status sets it on each image that is flashed, and changes nothing else. It
/// is told that something changed if and only if something did.
pub proof fn law_set_status_all(parts: Seq<MappingView>, status: ProvisioningStatus)
    ensures
        ({
            let after = parts.map_values(|m: MappingView| m.with_status(status));
            &&& after.len() == parts.len()
            &&& forall|i: int|
                #![trigger after[i]]
                0 <= i < parts.len() ==> if is_flashed(parts[i]) {
                    is_set(after[i], parts[i], status)
                } else {
                    after[i] == parts[i]
                }
            &&& (exists|i: int|
                0 <= i < parts.len() && (#[trigger] parts[i]).status_differs(status)) <==> after
                != parts
        }),
{
    let after = parts.map_values(|m: MappingView| m.with_status(status));
    if exists|i: int| 0 <= i < parts.len() && (#[trigger] parts[i]).status_differs(status) {
        let i = choose|i: int|
            0 <= i < parts.len() && (#[trigger] parts[i]).status_differs(status);
        assert(after[i].image->0.status != parts[i].image->0.status);
    } else {
        assert forall|i: int| 0 <= i < parts.len() implies after[i] == parts[i] by {
            assert(!parts[i].status_differs(status));
            assert(is_flashed(parts[i]) ==> parts[i].image->0.status == status);
        }
        assert(after =~= parts);
    }
}

/// Setting the status at an offset sets it on each image that is flashed to a partition
/// that begins there, and changes nothing else. It is told that something changed if and
/// only if something did.
pub proof fn law_set_status_at(parts: Seq<MappingView>, offset: u32, status: ProvisioningStatus)
    ensures
        ({
            let after = parts.map_values(
                |m: MappingView|
                    if m.is_at(offset) {
                        m.with_status(status)
                    } else {
                        m
                    },
            );
            &&& after.len() == parts.len()
            &&& forall|i: int|
                #![trigger after[i]]
                0 <= i < parts.len() ==> if is_flashed(parts[i]) && parts[i].partition->0.offset
                    == offset {
                    is_set(after[i], parts[i], status)
                } else {
                    after[i] == parts[i]
                }
            &&& (exists|i: int|
                0 <= i < parts.len() && (#[trigger] parts[i]).is_at(offset)
                    && parts[i].status_differs(status)) <==> after != parts
        }),
{
    let after = parts.map_values(
        |m: MappingView|
            if m.is_at(offset) {
                m.with_status(status)
            } else {
                m
            },
    );
    if exists|i: int|
        0 <= i < parts.len() && (#[trigger] parts[i]).is_at(offset) && parts[i].status_differs(
            status,
        ) {
        let i = choose|i: int|
            0 <= i < parts.len() && (#[trigger] parts[i]).is_at(offset)
                && parts[i].status_differs(status);
        assert(after[i].image->0.status != parts[i].image->0.status);
    } else {
        assert forall|i: int| 0 <= i < parts.len() implies after[i] == parts[i] by {
            assert(parts[i].is_at(offset) ==> !parts[i].status_differs(status));
        }
        assert(after =~= parts);
    }
}

/// A mapping has a status if and only if its image is flashed, and it is that of the
/// image.
pub proof fn law_mapping_status(mapping: MappingView)
    ensures
        mapping.spec_status() is Some <==> is_flashed(mapping),
        mapping.spec_status() matches Some(status) ==> status == mapping.image->0.status,
{
}

/// Of what a bundle can be, a bundle without mappings is nothing, and another mapping
/// gives it a partition table where it has a partition, a bootloader where that is the one
/// of the bootloader, and an app image where it has an image for an app partition.
pub proof fn law_becomes_bootable(bundle: BundleView, mapping: MappingView)
    ensures
        ({
            let none = BundleView { parts: Seq::empty(), ..bundle };
            let more = BundleView { parts: bundle.parts.push(mapping), ..bundle };
            &&& !none.spec_has_part_table()
            &&& !none.spec_has_bootloader()
            &&& !none.spec_has_app_image()
            &&& more.spec_has_part_table() <==> bundle.spec_has_part_table()
                || mapping.partition is Some
            &&& more.spec_has_bootloader() <==> bundle.spec_has_bootloader() || (
            mapping.partition is Some && mapping.partition->0.name == "(bootloader)"@)
            &&& more.spec_has_app_image() <==> bundle.spec_has_app_image() || (
            mapping.partition is Some && mapping.image is Some && mapping.partition->0.ty
                == PartitionType::App)
        }),
{
    let more = BundleView { parts: bundle.parts.push(mapping), ..bundle };
    let n = bundle.parts.len() as int;
    assert(more.parts[n] == mapping);
    assert(forall|i: int| 0 <= i < n ==> #[trigger] more.parts[i] == bundle.parts[i]);
    if bundle.spec_has_part_table() {
        let i = choose|i: int| 0 <= i < n && (#[trigger] bundle.parts[i]).partition is Some;
        assert(more.parts[i].partition is Some);
    }
    if bundle.spec_has_bootloader() {
        let i = choose|i: int|
            0 <= i < n && (#[trigger] bundle.parts[i]).partition is Some
                && bundle.parts[i].partition->0.name == "(bootloader)"@;
        assert(more.parts[i].partition is Some);
    }
    if bundle.spec_has_app_image() {
        let i = choose|i: int|
            0 <= i < n && (#[trigger] bundle.parts[i]).flashable()
                && bundle.parts[i].partition->0.ty is App;
        assert(more.parts[i].flashable());
    }
    if more.spec_has_part_table() && !(mapping.partition is Some) {
        let i = choose|i: int| 0 <= i < n + 1 && (#[trigger] more.parts[i]).partition is Some;
        assert(bundle.parts[i].partition is Some);
    }
    if more.spec_has_bootloader() && !(mapping.partition is Some && mapping.partition->0.name
        == "(bootloader)"@) {
        let i = choose|i: int|
            0 <= i < n + 1 && (#[trigger] more.parts[i]).partition is Some
                && more.parts[i].partition->0.name == "(bootloader)"@;
        assert(bundle.parts[i].partition is Some);
    }
    if more.spec_has_app_image() && !(is_flashed(mapping) && mapping.partition->0.ty is App) {
        let i = choose|i: int|
            0 <= i < n + 1 && (#[trigger] more.parts[i]).flashable()
                && more.parts[i].partition->0.ty is App;
        assert(bundle.parts[i].flashable());
    }
}

} // verus!
