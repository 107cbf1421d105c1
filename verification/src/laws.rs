//! What holds of bundles as a whole.

use crate::archive::{archive_entries, EntryView};
use crate::assemble::{
    assembled_parts, boot_mapping, first_misplaced, image_for, misplaced, placed, row_names,
    table_mapping, unprogrammed,
};
use crate::bundle::{first_oversized, flash_data, size_fault, Bundle, BundleView};
use crate::chip::{Chip, FlashSize, Params};
use crate::efuse::{EfuseMappingView, EfuseView};
use crate::fault::Fault;
use crate::image::{FlashDataView, ImageType, ImageView, ProvisioningStatus};
use crate::loader::BundleType;
use crate::merge::{
    arriving, blocks, first_blocking, first_known, first_same, images_of, keys, known, refilled,
    unmapped, with_efuse, with_efuses,
};
use crate::partition::{MappingView, PartitionView};
use crate::payload::Payload;
use crate::pool::{
    distinct, find, latest, lemma_at, lemma_latest_distinct, lemma_without_absent,
    lemma_without_all, without, without_all,
};
use crate::table::{default_rows, rows_have_place, table_of_text, TableView};
use crate::tools::Tools;
use crate::unpack::{efuse_of_file, efuses_of_files, files_below, is_file_below};
use vstd::prelude::*;
use vstd::seq_lib::group_to_multiset_ensures;
use vstd::string::*;

verus! {

pub(crate) proof fn lemma_oversized(parts: Seq<MappingView>, count: nat)
    requires
        count <= parts.len(),
    ensures
        match first_oversized(parts, count) {
            Some(i) => {
                &&& 0 <= i < count
                &&& !parts[i].fits()
                &&& forall|j: int| 0 <= j < i ==> (#[trigger] parts[j]).fits()
            },
            None => forall|j: int| 0 <= j < count ==> (#[trigger] parts[j]).fits(),
        },
    decreases count,
{
    if count > 0 {
        lemma_oversized(parts, (count - 1) as nat);
    }
}

/// The sizes are in order if and only if every image has room in its partition, and
/// what is reported otherwise is the first image that has none.
pub proof fn law_size_check(parts: Seq<MappingView>)
    ensures
        size_fault(parts) is None <==> forall|i: int|
            0 <= i < parts.len() ==> (#[trigger] parts[i]).fits(),
        size_fault(parts) matches Some(fault) ==> exists|i: int|
            {
                &&& 0 <= i < parts.len()
                &&& !(#[trigger] parts[i]).fits()
                &&& forall|j: int| 0 <= j < i ==> (#[trigger] parts[j]).fits()
                &&& fault == (Fault::TooLarge {
                    image: parts[i].image->0.name,
                    partition: parts[i].partition->0.name,
                    image_len: parts[i].image->0.data.len() as usize,
                    part_len: parts[i].partition->0.size as usize,
                })
            },
{
    lemma_oversized(parts, parts.len());
}

/// The images that are left are those whose names are not left out.
proof fn lemma_find_without(images: Seq<ImageView>, name: Seq<char>, other: Seq<char>)
    ensures
        find(without(images, name), other) == if other == name {
            None
        } else {
            find(images, other)
        },
    decreases images.len(),
{
    if images.len() > 0 {
        let rest = without(images.drop_last(), name);
        lemma_find_without(images.drop_last(), name, other);
        if images.last().name != name {
            assert(rest.push(images.last()).drop_last() =~= rest);
        }
    }
}

pub(crate) proof fn lemma_find_without_all(
    images: Seq<ImageView>,
    names: Seq<Seq<char>>,
    other: Seq<char>,
)
    ensures
        find(without_all(images, names), other) == if names.contains(other) {
            None
        } else {
            find(images, other)
        },
    decreases names.len(),
{
    if names.len() > 0 {
        let head = names.drop_last();
        lemma_find_without_all(images, head, other);
        lemma_find_without(without_all(images, head), names.last(), other);
        if names.contains(other) {
            let k = choose|k: int| 0 <= k < names.len() && names[k] == other;
            if k < head.len() {
                assert(head[k] == other);
            }
        } else {
            assert(names[names.len() - 1] != other);
            assert forall|k: int| 0 <= k < head.len() implies head[k] != other by {
                assert(names[k] != other);
            }
        }
    }
}

/// Of images with the same name, the last one counts: looking for a name finds the same
/// image before and after the others are left out.
pub proof fn law_last_image_counts(images: Seq<ImageView>, name: Seq<char>)
    ensures
        find(latest(images), name) == find(images, name),
        distinct(latest(images)),
    decreases images.len(),
{
    lemma_latest_distinct(images);
    if images.len() > 0 {
        let head = images.drop_last();
        law_last_image_counts(head, name);
        lemma_find_without(latest(head), images.last().name, name);
        let rest = without(latest(head), images.last().name);
        assert(rest.push(images.last()).drop_last() =~= rest);
    }
}

pub(crate) proof fn lemma_found(images: Seq<ImageView>, name: Seq<char>)
    ensures
        find(images, name) matches Some(image) ==> images.contains(image) && image.name == name,
    decreases images.len(),
{
    if images.len() > 0 {
        lemma_found(images.drop_last(), name);
        if images.last().name == name {
            assert(images[images.len() - 1] == images.last());
        } else if let Some(image) = find(images.drop_last(), name) {
            let k = choose|k: int|
                0 <= k < images.drop_last().len() && images.drop_last()[k] == image;
            assert(images[k] == image);
        }
    }
}

proof fn lemma_take_one(images: Seq<ImageView>, name: Seq<char>)
    requires
        distinct(images),
    ensures
        match find(images, name) {
            Some(image) => images.to_multiset() == without(images, name).to_multiset().insert(
                image,
            ),
            None => images == without(images, name),
        },
{
    broadcast use group_to_multiset_ensures;

    lemma_found(images, name);
    match find(images, name) {
        Some(image) => {
            let k = choose|k: int| 0 <= k < images.len() && images[k] == image;
            lemma_at(images, k);
            assert(images.remove(k).to_multiset() =~= images.to_multiset().remove(image));
            assert(images.to_multiset().contains(image));
            assert(images.to_multiset() =~= images.to_multiset().remove(image).insert(image));
        },
        None => {
            lemma_without_absent(images, name);
        },
    }
}

proof fn lemma_images_of_push(parts: Seq<MappingView>, mapping: MappingView)
    ensures
        images_of(parts.push(mapping)) == match mapping.image {
            Some(image) => images_of(parts).push(image),
            None => images_of(parts),
        },
{
    assert(parts.push(mapping).drop_last() =~= parts);
}

proof fn lemma_images_of_add(a: Seq<MappingView>, b: Seq<MappingView>)
    ensures
        images_of(a + b) == images_of(a) + images_of(b),
    decreases b.len(),
{
    if b.len() == 0 {
        assert(a + b =~= a);
        assert(images_of(a) + images_of(b) =~= images_of(a));
    } else {
        lemma_images_of_add(a, b.drop_last());
        assert((a + b).drop_last() =~= a + b.drop_last());
        assert((a + b).last() == b.last());
        if let Some(image) = b.last().image {
            assert(images_of(a) + images_of(b.drop_last()).push(image) =~= (images_of(a)
                + images_of(b.drop_last())).push(image));
        }
    }
}

proof fn lemma_images_of_unmapped(images: Seq<ImageView>)
    ensures
        images_of(unmapped(images)) == images,
    decreases images.len(),
{
    if images.len() > 0 {
        lemma_images_of_unmapped(images.drop_last());
        assert(unmapped(images).drop_last() =~= unmapped(images.drop_last()));
        assert(images.drop_last().push(images.last()) =~= images);
    }
}

proof fn lemma_placed_conserves(rows: Seq<PartitionView>, pool: Seq<ImageView>, count: int)
    requires
        distinct(pool),
        0 <= count <= rows.len(),
    ensures
        images_of(placed(rows, pool).take(count)).to_multiset().add(
            without_all(pool, row_names(rows).take(count)).to_multiset(),
        ) == pool.to_multiset(),
    decreases count,
{
    broadcast use group_to_multiset_ensures;

    let parts = placed(rows, pool);
    let names = row_names(rows);
    if count == 0 {
        assert(parts.take(0) =~= Seq::<MappingView>::empty());
        assert(names.take(0) =~= Seq::<Seq<char>>::empty());
        assert(images_of(parts.take(0)).to_multiset().add(pool.to_multiset())
            =~= pool.to_multiset());
    } else {
        let i = count - 1;
        lemma_placed_conserves(rows, pool, i);
        let left = without_all(pool, names.take(i));
        lemma_without_all(pool, names.take(i));
        lemma_take_one(left, rows[i].name);
        assert(names.take(count).drop_last() =~= names.take(i));
        assert(names.take(count).last() == rows[i].name);
        assert(parts.take(count) =~= parts.take(i).push(parts[i]));
        lemma_images_of_push(parts.take(i), parts[i]);
        let before = images_of(parts.take(i));
        let after = without(left, rows[i].name);
        if let Some(image) = image_for(rows, pool, i) {
            assert(before.push(image).to_multiset() =~= before.to_multiset().insert(image));
            assert(before.to_multiset().insert(image).add(after.to_multiset())
                =~= before.to_multiset().add(after.to_multiset().insert(image)));
        }
    }
}

/// No image is lost and none is doubled: the mappings hold the bootloader, the image of
/// the partition table and the last image of each name, each once, and nothing else.
pub proof fn law_assembled_images(
    params: Params,
    table: Option<TableView>,
    bootloader: Option<ImageView>,
    images: Seq<ImageView>,
)
    ensures
        images_of(assembled_parts(params, table, bootloader, latest(images))).to_multiset() == ((
        match bootloader {
            Some(image) => seq![image],
            None => Seq::empty(),
        }) + (match table {
            Some(table) => seq![table.image],
            None => Seq::empty(),
        }) + latest(images)).to_multiset(),
{
    broadcast use group_to_multiset_ensures;

    let pool = latest(images);
    lemma_latest_distinct(images);
    let boot = match bootloader {
        Some(image) => seq![boot_mapping(params, table, image)],
        None => Seq::empty(),
    };
    let boot_image = match bootloader {
        Some(image) => seq![image],
        None => Seq::empty(),
    };
    if let Some(image) = bootloader {
        assert(Seq::<MappingView>::empty().push(boot[0]) =~= boot);
        lemma_images_of_push(Seq::empty(), boot[0]);
        assert(images_of(boot) =~= boot_image);
    } else {
        assert(images_of(boot) =~= boot_image);
    }
    match table {
        Some(table) => {
            let head = seq![table_mapping(table)];
            let rows = placed(table.rows, pool);
            let left = without_all(pool, row_names(table.rows));
            assert(Seq::<MappingView>::empty().push(head[0]) =~= head);
            lemma_images_of_push(Seq::empty(), head[0]);
            assert(images_of(head) =~= seq![table.image]);
            lemma_images_of_add(boot, head);
            lemma_images_of_add(boot + head, rows);
            lemma_images_of_add(boot + head + rows, unmapped(left));
            lemma_images_of_unmapped(left);
            lemma_placed_conserves(table.rows, pool, table.rows.len() as int);
            assert(rows.take(table.rows.len() as int) =~= rows);
            assert(row_names(table.rows).take(table.rows.len() as int) =~= row_names(table.rows));
            let front = boot_image + seq![table.image];
            vstd::seq_lib::lemma_multiset_commutative(front + images_of(rows), left);
            vstd::seq_lib::lemma_multiset_commutative(front, images_of(rows));
            vstd::seq_lib::lemma_multiset_commutative(front, pool);
            assert((front + images_of(rows) + left).to_multiset() =~= (front + pool).to_multiset());
        },
        None => {
            lemma_images_of_add(boot, unmapped(pool));
            lemma_images_of_unmapped(pool);
            assert(boot_image + Seq::<ImageView>::empty() + pool =~= boot_image + pool);
        },
    }
}

pub(crate) proof fn lemma_misplaced(rows: Seq<PartitionView>, pool: Seq<ImageView>, count: nat)
    requires
        count <= rows.len(),
    ensures
        match first_misplaced(rows, pool, count) {
            Some(i) => {
                &&& 0 <= i < count
                &&& misplaced(rows, pool, i)
                &&& forall|j: int| 0 <= j < i ==> !misplaced(rows, pool, j)
            },
            None => forall|j: int| 0 <= j < count ==> !misplaced(rows, pool, j),
        },
    decreases count,
{
    if count > 0 {
        lemma_misplaced(rows, pool, (count - 1) as nat);
    }
}

/// What is put together is a bundle whose images all have room in their partitions,
/// whose mappings all map something, and whose partitions that hold no app have no
/// images from ELF files.
pub proof fn law_assembled_valid(
    name: Seq<char>,
    params: Params,
    table: Option<TableView>,
    bootloader: Option<ImageView>,
    images: Seq<ImageView>,
    efuses: Seq<EfuseView>,
)
    ensures
        BundleView::assembled(name, params, table, bootloader, images, efuses) matches Ok(bundle)
            ==> {
            &&& bundle.wf()
            &&& forall|i: int| 0 <= i < bundle.parts.len() ==> (#[trigger] bundle.parts[i]).fits()
            &&& table matches Some(t) ==> forall|i: int|
                0 <= i < t.rows.len() && image_for(t.rows, latest(images), i) is Some
                    && image_for(t.rows, latest(images), i)->0.ty is Elf
                    ==> #[trigger] t.rows[i].ty is App
            &&& bundle.name == name
            &&& bundle.params == params
            &&& bundle.efuses == unprogrammed(efuses)
        },
{
    let pool = latest(images);
    if let Ok(bundle) = BundleView::assembled(name, params, table, bootloader, images, efuses) {
        law_size_check(bundle.parts);
        if let Some(t) = table {
            lemma_misplaced(t.rows, pool, t.rows.len());
            assert forall|i: int|
                0 <= i < t.rows.len() && image_for(t.rows, pool, i) is Some && image_for(
                    t.rows,
                    pool,
                    i,
                )->0.ty is Elf implies #[trigger] t.rows[i].ty is App by {
                assert(!misplaced(t.rows, pool, i));
            }
        }
    }
}

/// The bootloader, the partition table and the first partition of the table follow each
/// other in the flash memory without a gap.
pub proof fn law_layout(params: Params, rows: Seq<PartitionView>, bootloader: ImageView)
    requires
        rows.len() > 0,
        rows_have_place(rows, Some(params.chip.spec_boot_addr())),
    ensures
        ({
            let table = TableView::of_rows(rows);
            let boot = boot_mapping(params, Some(table), bootloader).partition->0;
            let head = table_mapping(table).partition->0;
            &&& boot.offset == params.chip.spec_boot_addr()
            &&& boot.offset + boot.size == head.offset
            &&& head.offset + head.size == rows[0].offset
        }),
{
}

/// Whether partition `i` holds an app, and there is an image for it.
pub open spec fn gets_app(rows: Seq<PartitionView>, images: Seq<ImageView>, i: int) -> bool {
    &&& 0 <= i < rows.len()
    &&& rows[i].ty is App
    &&& find(images, rows[i].name) is Some
    &&& forall|j: int| 0 <= j < i ==> (#[trigger] rows[j]).name != rows[i].name
}

/// A bundle put together has a partition table if and only if one was given. With a
/// bootloader and an image for one of the app partitions it is bootable.
pub proof fn law_assembled_bootable(
    name: Seq<char>,
    params: Params,
    table: Option<TableView>,
    bootloader: Option<ImageView>,
    images: Seq<ImageView>,
    efuses: Seq<EfuseView>,
    app: int,
)
    ensures
        BundleView::assembled(name, params, table, bootloader, images, efuses) matches Ok(bundle)
            ==> {
            &&& bundle.spec_has_part_table() <==> table is Some
            &&& table is Some && bootloader is Some ==> bundle.spec_has_bootloader()
            &&& table is Some && gets_app(table->0.rows, images, app)
                ==> bundle.spec_has_app_image()
        },
{
    let pool = latest(images);
    if let Ok(bundle) = BundleView::assembled(name, params, table, bootloader, images, efuses) {
        let parts = bundle.parts;
        let shift: int = if bootloader is Some {
            1
        } else {
            0
        };
        match table {
            Some(t) => {
                assert(parts[shift] == table_mapping(t));
                assert(parts[shift].partition is Some);
                if bootloader is Some {
                    assert(parts[0] == boot_mapping(params, table, bootloader->0));
                }
                if gets_app(t.rows, images, app) {
                    let names = row_names(t.rows).take(app);
                    assert forall|j: int| 0 <= j < names.len() implies names[j]
                        != t.rows[app].name by {
                        assert(t.rows[j].name != t.rows[app].name);
                    }
                    law_last_image_counts(images, t.rows[app].name);
                    lemma_find_without_all(pool, names, t.rows[app].name);
                    assert(parts[shift + 1 + app] == placed(t.rows, pool)[app]);
                    assert(parts[shift + 1 + app].flashable());
                }
            },
            None => {
                assert forall|i: int| 0 <= i < parts.len() implies (
                #[trigger] parts[i]).partition is None by {}
            },
        }
    }
}

/// With partitions that have names of their own, a bundle put together has a bootloader
/// if and only if a partition table and a bootloader were given, and an app image if and
/// only if there is an image for one of the app partitions.
pub proof fn law_assembled_bootable_exactly(
    name: Seq<char>,
    params: Params,
    table: Option<TableView>,
    bootloader: Option<ImageView>,
    images: Seq<ImageView>,
    efuses: Seq<EfuseView>,
)
    requires
        table matches Some(t) ==> row_names(t.rows).no_duplicates() && !row_names(t.rows).contains(
            Bundle::BOOTLOADER_NAME@,
        ),
    ensures
        BundleView::assembled(name, params, table, bootloader, images, efuses) matches Ok(bundle)
            ==> {
            &&& bundle.spec_has_bootloader() <==> table is Some && bootloader is Some
            &&& bundle.spec_has_app_image() <==> table is Some && exists|i: int|
                gets_app(table->0.rows, images, i)
        },
{
    let pool = latest(images);
    if let Ok(bundle) = BundleView::assembled(name, params, table, bootloader, images, efuses) {
        let parts = bundle.parts;
        let shift: int = if bootloader is Some {
            1
        } else {
            0
        };
        law_assembled_bootable(name, params, table, bootloader, images, efuses, 0);
        if let Some(t) = table {
            let names = row_names(t.rows);
            let rows = placed(t.rows, pool);
            reveal_strlit("(bootloader)");
            reveal_strlit("(part-table)");
            assert(Bundle::PART_TABLE_NAME@[1] != Bundle::BOOTLOADER_NAME@[1]);
            assert forall|i: int| 0 <= i < parts.len() && bootloader is None implies !(
            (#[trigger] parts[i]).partition is Some && parts[i].partition->0.name
                == Bundle::BOOTLOADER_NAME@) by {
                if i == 0 {
                    assert(parts[i] == table_mapping(t));
                } else if i <= t.rows.len() {
                    assert(parts[i] == rows[i - 1]);
                    assert(names[i - 1] == t.rows[i - 1].name);
                    assert(names.contains(names[i - 1]));
                } else {
                    assert(parts[i].partition is None);
                }
            }
            if bundle.spec_has_app_image() {
                let i = choose|i: int|
                    0 <= i < parts.len() && (#[trigger] parts[i]).flashable()
                        && parts[i].partition->0.ty is App;
                let k = i - shift - 1;
                if k < 0 {
                    if i == shift {
                        assert(parts[i] == table_mapping(t));
                    } else {
                        assert(parts[i] == boot_mapping(params, table, bootloader->0));
                    }
                } else if k < t.rows.len() {
                    assert(parts[i] == rows[k]);
                    lemma_find_without_all(pool, names.take(k), t.rows[k].name);
                    law_last_image_counts(images, t.rows[k].name);
                    assert forall|j: int| 0 <= j < k implies (#[trigger] t.rows[j]).name
                        != t.rows[k].name by {
                        assert(names[j] != names[k]);
                    }
                    assert(gets_app(t.rows, images, k));
                }
            }
            if exists|i: int| gets_app(t.rows, images, i) {
                let i = choose|i: int| gets_app(t.rows, images, i);
                law_assembled_bootable(name, params, table, bootloader, images, efuses, i);
            }
        } else {
            assert forall|i: int| 0 <= i < parts.len() implies (
            #[trigger] parts[i]).partition is None by {}
        }
    }
}

/// The default partition table is one for 4 MB of flash: its partitions follow each
/// other from 64 KB on and end below that. The partitions for apps begin at multiples of
/// 64 KB, and without the 4 KB for a signature their sizes are such multiples too. In
/// front of them there is place for the table, and for the bootloader of any chip.
pub proof fn law_default_table(params: Params)
    ensures
        default_rows().len() == 9,
        default_rows()[0].offset == 0x10000,
        forall|i: int|
            0 <= i < 8 ==> (#[trigger] default_rows()[i]).offset + default_rows()[i].size
                == default_rows()[i + 1].offset,
        default_rows()[8].offset + default_rows()[8].size <= 4 * 1024 * 1024,
        forall|i: int|
            0 <= i < 9 && (#[trigger] default_rows()[i]).ty is App ==> default_rows()[i].offset
                % 0x10000 == 0 && (default_rows()[i].size - 4096) % 0x10000 == 0,
        rows_have_place(default_rows(), Some(params.chip.spec_boot_addr())),
{
}

/// An app image alone, with the default partition table and a bootloader, makes a
/// bootable bundle, if it makes one.
pub proof fn law_app_bootable(
    name: Seq<char>,
    params: Params,
    app: ImageView,
    bootloader: ImageView,
)
    requires
        app.name == Bundle::APP_NAME@,
    ensures
        BundleView::of_app(
            name,
            params,
            app,
            true,
            Ok(Some(bootloader)),
        ) matches Ok(bundle) ==> {
            &&& bundle.spec_has_part_table()
            &&& bundle.spec_has_bootloader()
            &&& bundle.spec_has_app_image()
        },
{
    let rows = default_rows();
    let images = seq![app];
    reveal_strlit("ota_0");
    reveal_strlit("ota_1");
    reveal_strlit("nvs");
    reveal_strlit("nvs_keys");
    reveal_strlit("phy_init");
    reveal_strlit("extra_0");
    assert(images.last() == app);
    assert(rows[5].name == Bundle::APP_NAME@);
    assert("ota_0"@[4] != "ota_1"@[4]);
    assert(gets_app(rows, images, 5)) by {
        assert forall|j: int| 0 <= j < 5 implies (#[trigger] rows[j]).name != rows[5].name by {
            assert(rows[0].name.len() == 5);
            assert(rows[5].name.len() == 5);
            assert(rows[1].name.len() == 3);
            assert(rows[2].name.len() == 8);
            assert(rows[3].name.len() == 8);
            assert(rows[4].name.len() == 7);
        }
    }
    law_assembled_bootable(
        name,
        params,
        Some(TableView::of_rows(rows)),
        Some(bootloader),
        images,
        Seq::empty(),
        5,
    );
}

proof fn lemma_blocking(parts: Seq<MappingView>, pool: Seq<ImageView>, count: nat)
    requires
        count <= parts.len(),
    ensures
        match first_blocking(parts, pool, count) {
            Some(i) => 0 <= i < count && blocks(parts, pool, i),
            None => forall|j: int| 0 <= j < count ==> !blocks(parts, pool, j),
        },
    decreases count,
{
    if count > 0 {
        lemma_blocking(parts, pool, (count - 1) as nat);
    }
}

/// Adding a bundle keeps the parameters and the partitions, whatever comes of it. Where
/// it succeeds, all images have room in their partitions.
pub proof fn law_add_keeps(bundle: BundleView, other: BundleView, overwrite: bool)
    requires
        bundle.wf(),
    ensures
        ({
            let (after, result) = bundle.added(other, overwrite);
            &&& after.wf()
            &&& after.params == bundle.params
            &&& after.parts.len() >= bundle.parts.len()
            &&& forall|i: int|
                0 <= i < bundle.parts.len() ==> (#[trigger] after.parts[i]).partition
                    == bundle.parts[i].partition
            &&& forall|i: int|
                bundle.parts.len() <= i < after.parts.len() ==> (
                #[trigger] after.parts[i]).partition is None
            &&& result is Ok ==> {
                &&& after == bundle.joined(other)
                &&& bundle.params == other.params
                &&& forall|i: int| 0 <= i < after.parts.len() ==> (#[trigger] after.parts[i]).fits()
            }
        }),
{
    let (after, result) = bundle.added(other, overwrite);
    let pool = latest(images_of(other.parts));
    law_size_check(after.parts);
    assert forall|i: int| 0 <= i < after.parts.len() implies (#[trigger] after.parts[i]).wf() by {
        if i < bundle.parts.len() {
            assert(bundle.parts[i].wf());
        }
    }
}

/// Adding a bundle with other parameters changes nothing.
pub proof fn law_add_refuses_other_params(bundle: BundleView, other: BundleView, overwrite: bool)
    requires
        bundle.params != other.params,
    ensures
        bundle.added(other, overwrite) == (
            bundle,
            Err::<(), Fault<Seq<char>>>(Fault::ParamsDiffer),
        ),
{
}

/// A bundle that another was added to holds all images of the other: of each name the
/// last one.
pub proof fn law_add_brings_images(bundle: BundleView, other: BundleView, image: ImageView)
    requires
        latest(images_of(other.parts)).contains(image),
    ensures
        exists|i: int|
            0 <= i < bundle.joined(other).parts.len() && (#[trigger] bundle.joined(
                other,
            ).parts[i]).image == Some(image),
{
    let pool = latest(images_of(other.parts));
    let parts = bundle.parts;
    let names = keys(parts);
    let joined = bundle.joined(other).parts;
    lemma_latest_distinct(images_of(other.parts));
    let k = choose|k: int| 0 <= k < pool.len() && pool[k] == image;
    lemma_at(pool, k);
    if names.contains(image.name) {
        let i = lemma_first_index(names, image.name);
        lemma_find_without_all(pool, names.take(i), image.name);
        assert(arriving(parts, pool, i) == Some(image));
        assert(joined[i] == refilled(parts, pool, parts.len())[i]);
    } else {
        let left = without_all(pool, names);
        lemma_find_without_all(pool, names, image.name);
        lemma_found(left, image.name);
        let j = choose|j: int| 0 <= j < left.len() && left[j] == image;
        assert(joined[parts.len() + j] == unmapped(left)[j]);
    }
}

/// Where a name stands first.
proof fn lemma_first_index(names: Seq<Seq<char>>, name: Seq<char>) -> (i: int)
    requires
        names.contains(name),
    ensures
        0 <= i < names.len(),
        names[i] == name,
        !names.take(i).contains(name),
    decreases names.len(),
{
    let k = choose|k: int| 0 <= k < names.len() && names[k] == name;
    if names.take(k).contains(name) {
        let i = lemma_first_index(names.take(k), name);
        assert(names.take(k).take(i) =~= names.take(i));
        i
    } else {
        k
    }
}

/// Without overwriting, adding a bundle leaves every image and every efuse that was
/// there as it was.
pub proof fn law_add_without_overwrite(bundle: BundleView, other: BundleView)
    ensures
        bundle.added(other, false).1 is Ok ==> {
            let after = bundle.added(other, false).0;
            &&& forall|i: int|
                0 <= i < bundle.parts.len() && (#[trigger] bundle.parts[i]).image is Some
                    ==> after.parts[i] == bundle.parts[i]
            &&& after.efuses.len() >= bundle.efuses.len()
            &&& after.efuses.take(bundle.efuses.len() as int) == bundle.efuses
        },
{
    let (after, result) = bundle.added(other, false);
    let pool = latest(images_of(other.parts));
    if result is Ok {
        lemma_blocking(bundle.parts, pool, bundle.parts.len());
        lemma_unknown(bundle.efuses, other.efuses, other.efuses.len());
        lemma_with_unknown(bundle.efuses, other.efuses);
        assert forall|i: int|
            0 <= i < bundle.parts.len() && (
            #[trigger] bundle.parts[i]).image is Some implies after.parts[i]
            == bundle.parts[i] by {
            assert(!blocks(bundle.parts, pool, i));
        }
    }
}

proof fn lemma_unknown(
    efuses: Seq<EfuseMappingView>,
    others: Seq<EfuseMappingView>,
    count: nat,
)
    requires
        count <= others.len(),
        first_known(efuses, others, count) is None,
    ensures
        forall|j: int| 0 <= j < count ==> !known(efuses, #[trigger] others[j]),
    decreases count,
{
    if count > 0 {
        lemma_unknown(efuses, others, (count - 1) as nat);
    }
}

proof fn lemma_first_same_found(
    efuses: Seq<EfuseMappingView>,
    efuse: EfuseMappingView,
    count: nat,
)
    requires
        count <= efuses.len(),
    ensures
        match first_same(efuses, efuse, count) {
            Some(i) => 0 <= i < count && efuse.efuse.same_as(efuses[i].efuse),
            None => forall|j: int|
                0 <= j < count ==> !efuse.efuse.same_as((#[trigger] efuses[j]).efuse),
        },
    decreases count,
{
    if count > 0 {
        lemma_first_same_found(efuses, efuse, (count - 1) as nat);
    }
}

proof fn lemma_with_unknown(efuses: Seq<EfuseMappingView>, others: Seq<EfuseMappingView>)
    requires
        forall|j: int| 0 <= j < others.len() ==> !known(efuses, #[trigger] others[j]),
    ensures
        with_efuses(efuses, others).len() >= efuses.len(),
        with_efuses(efuses, others).take(efuses.len() as int) == efuses,
    decreases others.len(),
{
    let len = efuses.len() as int;
    if others.len() == 0 {
        assert(efuses.take(len) =~= efuses);
    } else {
        let head = others.drop_last();
        assert forall|j: int| 0 <= j < head.len() implies !known(
            efuses,
            #[trigger] head[j],
        ) by {
            assert(!known(efuses, others[j]));
        }
        lemma_with_unknown(efuses, head);
        let before = with_efuses(efuses, head);
        let efuse = others.last();
        assert(!known(efuses, others[others.len() - 1]));
        lemma_first_same_found(before, efuse, before.len());
        if let Some(i) = first_same(before, efuse, before.len()) {
            if i < len {
                assert(before.take(len)[i] == efuses[i]);
                assert(known(efuses, efuse));
            }
            assert(before.update(i, efuse).take(len) =~= efuses);
        } else {
            assert(before.push(efuse).take(len) =~= efuses);
        }
    }
}

/// To be the same is an equivalence of efuses.
pub proof fn law_same_efuse(a: EfuseView, b: EfuseView, c: EfuseView)
    ensures
        a.same_as(a),
        a.same_as(b) ==> b.same_as(a),
        a.same_as(b) && b.same_as(c) ==> a.same_as(c),
{
}

/// A bundle that another was added to holds all efuses of the other, where two of them
/// are the same the later one, and each efuse of its own in its place, unless the other
/// had the same one.
pub proof fn law_add_brings_efuses(
    efuses: Seq<EfuseMappingView>,
    others: Seq<EfuseMappingView>,
)
    ensures
        with_efuses(efuses, others).len() >= efuses.len(),
        forall|i: int|
            #![trigger with_efuses(efuses, others)[i]]
            0 <= i < efuses.len() ==> with_efuses(efuses, others)[i].efuse.same_as(
                efuses[i].efuse,
            ),
        forall|i: int|
            #![trigger with_efuses(efuses, others)[i]]
            0 <= i < efuses.len() && !known(others, efuses[i]) ==> with_efuses(efuses, others)[i]
                == efuses[i],
        forall|k: int|
            0 <= k < others.len() && (forall|j: int|
                k < j < others.len() ==> !others[k].efuse.same_as((#[trigger] others[j]).efuse))
                ==> with_efuses(efuses, others).contains(#[trigger] others[k]),
    decreases others.len(),
{
    if others.len() > 0 {
        let head = others.drop_last();
        let last = others.last();
        law_add_brings_efuses(efuses, head);
        let before = with_efuses(efuses, head);
        let after = with_efuses(efuses, others);
        lemma_first_same_found(before, last, before.len());
        assert(last == others[others.len() - 1]);
        match first_same(before, last, before.len()) {
            Some(i) => {
                assert(after == before.update(i, last));
                assert(after[i] == last);
            },
            None => {
                assert(after == before.push(last));
                assert(after[before.len() as int] == last);
            },
        }
        assert forall|i: int|
            #![trigger after[i]]
            0 <= i < efuses.len() && !known(others, efuses[i]) implies after[i] == efuses[i] by {
            assert(!known(head, efuses[i])) by {
                if known(head, efuses[i]) {
                    let j = choose|j: int|
                        0 <= j < head.len() && efuses[i].efuse.same_as((#[trigger] head[j]).efuse);
                    assert(others[j] == head[j]);
                }
            }
            assert(before[i] == efuses[i]);
            assert(!efuses[i].efuse.same_as(others[others.len() - 1].efuse));
        }
        assert forall|k: int|
            0 <= k < others.len() && (forall|j: int|
                k < j < others.len() ==> !others[k].efuse.same_as(
                    (#[trigger] others[j]).efuse,
                )) implies after.contains(#[trigger] others[k]) by {
            if k < head.len() {
                assert(head[k] == others[k]);
                assert forall|j: int| k < j < head.len() implies !head[k].efuse.same_as(
                    (#[trigger] head[j]).efuse,
                ) by {
                    assert(!others[k].efuse.same_as(others[j].efuse));
                }
                assert(before.contains(head[k]));
                let p = choose|p: int| 0 <= p < before.len() && before[p] == head[k];
                assert(!others[k].efuse.same_as(others[others.len() - 1].efuse));
                assert(after[p] == others[k]);
            }
        }
    }
}

/// Whether no two efuses are the same.
pub open spec fn all_different(efuses: Seq<EfuseMappingView>) -> bool {
    forall|i: int, j: int|
        0 <= i < j < efuses.len() ==> !(#[trigger] efuses[i]).efuse.same_as(
            (#[trigger] efuses[j]).efuse,
        )
}

/// Adding a bundle to one without two same efuses leaves no two same efuses, whatever the
/// other holds.
pub proof fn law_add_keeps_efuses_different(
    efuses: Seq<EfuseMappingView>,
    others: Seq<EfuseMappingView>,
)
    requires
        all_different(efuses),
    ensures
        all_different(with_efuses(efuses, others)),
    decreases others.len(),
{
    if others.len() > 0 {
        let before = with_efuses(efuses, others.drop_last());
        let put = others.last();
        let after = with_efuses(efuses, others);
        law_add_keeps_efuses_different(efuses, others.drop_last());
        lemma_first_same_found(before, put, before.len());
        assert forall|i: int, j: int| 0 <= i < j < after.len() implies !(
        #[trigger] after[i]).efuse.same_as((#[trigger] after[j]).efuse) by {
            match first_same(before, put, before.len()) {
                Some(k) => {
                    assert(!before[i].efuse.same_as(before[j].efuse));
                    law_same_efuse(put.efuse, before[k].efuse, before[i].efuse);
                    law_same_efuse(put.efuse, before[k].efuse, before[j].efuse);
                },
                None => {
                    if j < before.len() {
                        assert(!before[i].efuse.same_as(before[j].efuse));
                    } else {
                        assert(!put.efuse.same_as(before[i].efuse));
                    }
                },
            }
        }
    }
}

/// Giving erased images to the partitions that have none gives one to each partition,
/// leaves the images that are there, and gives nothing more when it is done again. The
/// images that had room still have it.
pub proof fn law_add_empty(parts: Seq<MappingView>)
    ensures
        ({
            let after = parts.map_values(|m: MappingView| m.filled());
            &&& after.map_values(|m: MappingView| m.filled()) == after
            &&& forall|i: int|
                #![trigger after[i]]
                0 <= i < parts.len() ==> {
                    &&& after[i].partition == parts[i].partition
                    &&& parts[i].partition is Some ==> after[i].flashable()
                    &&& parts[i].image is Some ==> after[i] == parts[i]
                    &&& parts[i].fits() ==> after[i].fits()
                }
        }),
{
    let after = parts.map_values(|m: MappingView| m.filled());
    assert(after.map_values(|m: MappingView| m.filled()) =~= after);
}

/// The piece of flash data that a mapping makes.
pub open spec fn flash_piece(mapping: MappingView) -> FlashDataView {
    let partition = mapping.partition->0;
    FlashDataView {
        offset: partition.offset,
        data: mapping.image->0.data,
        encrypted_partition: partition.encrypted || partition.name == Bundle::BOOTLOADER_NAME@
            || partition.name == Bundle::PART_TABLE_NAME@,
    }
}

/// The flash data has one piece for each mapping of an image to a partition, in their
/// order, and no other.
pub proof fn law_flash_data(parts: Seq<MappingView>)
    ensures
        flash_data(parts) == parts.filter(|m: MappingView| m.flashable()).map_values(
            |m: MappingView| flash_piece(m),
        ),
    decreases parts.len(),
{
    reveal(Seq::filter);
    let chosen = parts.filter(|m: MappingView| m.flashable());
    let pieces = chosen.map_values(|m: MappingView| flash_piece(m));
    if parts.len() > 0 {
        let head = parts.drop_last();
        law_flash_data(head);
        let rest = head.filter(|m: MappingView| m.flashable());
        if parts.last().flashable() {
            assert(chosen == rest.push(parts.last()));
            assert(pieces =~= rest.map_values(|m: MappingView| flash_piece(m)).push(
                flash_piece(parts.last()),
            ));
        }
    } else {
        assert(pieces =~= flash_data(parts));
    }
}

/// No piece of the flash data of a bundle whose images have room goes beyond the
/// partition that it is for.
pub proof fn law_flash_data_fits(parts: Seq<MappingView>, k: int)
    requires
        forall|i: int| 0 <= i < parts.len() ==> (#[trigger] parts[i]).fits(),
        0 <= k < flash_data(parts).len(),
    ensures
        exists|i: int|
            0 <= i < parts.len() && (#[trigger] parts[i]).flashable() && flash_data(parts)[k]
                == flash_piece(parts[i]) && flash_data(parts)[k].data.len()
                <= parts[i].partition->0.size,
    decreases parts.len(),
{
    if parts.len() > 0 {
        let head = parts.drop_last();
        let rest = flash_data(head);
        if k < rest.len() {
            assert forall|i: int| 0 <= i < head.len() implies (#[trigger] head[i]).fits() by {
                assert(parts[i].fits());
            }
            law_flash_data_fits(head, k);
            let i = choose|i: int|
                0 <= i < head.len() && (#[trigger] head[i]).flashable() && rest[k] == flash_piece(
                    head[i],
                ) && rest[k].data.len() <= head[i].partition->0.size;
            assert(parts[i] == head[i]);
            assert(flash_data(parts)[k] == rest[k]);
        } else {
            let i = parts.len() - 1;
            assert(parts[i].fits());
            assert(flash_data(parts)[k] == flash_piece(parts[i]));
        }
    }
}

/// Setting a status shows on every image that is flashed, changes nothing when it is
/// done again, and changes nothing of what is flashed.
pub proof fn law_status_all(parts: Seq<MappingView>, status: ProvisioningStatus)
    ensures
        ({
            let after = parts.map_values(|m: MappingView| m.with_status(status));
            &&& after.map_values(|m: MappingView| m.with_status(status)) == after
            &&& forall|i: int|
                #![trigger after[i]]
                0 <= i < parts.len() ==> {
                    &&& after[i].spec_status() == if parts[i].flashable() {
                        Some(status)
                    } else {
                        None
                    }
                    &&& !after[i].status_differs(status)
                    &&& after[i].partition == parts[i].partition
                    &&& parts[i].fits() ==> after[i].fits()
                }
            &&& flash_data(after) == flash_data(parts)
        }),
{
    let set = |m: MappingView| m.with_status(status);
    let after = parts.map_values(set);
    assert(after.map_values(set) =~= after);
    lemma_same_flash_data(parts, after);
}

/// Setting the status at an offset shows on the images there and on no other, changes
/// nothing when it is done again, and changes nothing of what is flashed.
pub proof fn law_status_at(parts: Seq<MappingView>, offset: u32, status: ProvisioningStatus)
    ensures
        ({
            let set = |m: MappingView|
                if m.is_at(offset) {
                    m.with_status(status)
                } else {
                    m
                };
            let after = parts.map_values(set);
            &&& after.map_values(set) == after
            &&& forall|i: int|
                #![trigger after[i]]
                0 <= i < parts.len() ==> {
                    &&& !parts[i].is_at(offset) ==> after[i] == parts[i]
                    &&& parts[i].is_at(offset) && parts[i].image is Some
                        ==> after[i].spec_status() == Some(status)
                    &&& after[i].is_at(offset) ==> !after[i].status_differs(status)
                }
            &&& flash_data(after) == flash_data(parts)
        }),
{
    let set = |m: MappingView|
        if m.is_at(offset) {
            m.with_status(status)
        } else {
            m
        };
    let after = parts.map_values(set);
    assert(after.map_values(set) =~= after);
    lemma_same_flash_data(parts, after);
}

proof fn lemma_same_flash_data(a: Seq<MappingView>, b: Seq<MappingView>)
    requires
        a.len() == b.len(),
        forall|i: int|
            #![trigger a[i]]
            #![trigger b[i]]
            0 <= i < a.len() ==> a[i].flashable() == b[i].flashable() && (a[i].flashable()
                ==> a[i].partition == b[i].partition && a[i].image->0.data
                == b[i].image->0.data),
    ensures
        flash_data(a) == flash_data(b),
    decreases a.len(),
{
    if a.len() > 0 {
        assert(a[a.len() - 1] == a.last());
        assert(b[b.len() - 1] == b.last());
        let x = a.drop_last();
        let y = b.drop_last();
        assert forall|i: int|
            #![trigger x[i]]
            #![trigger y[i]]
            0 <= i < x.len() implies x[i].flashable() == y[i].flashable() && (x[i].flashable()
            ==> x[i].partition == y[i].partition && x[i].image->0.data
            == y[i].image->0.data) by {
            assert(a[i] == x[i] && b[i] == y[i]);
        }
        lemma_same_flash_data(x, y);
    }
}

/// Two efuses are the same where they are the same in both sequences.
proof fn lemma_same_places(
    a: Seq<EfuseMappingView>,
    b: Seq<EfuseMappingView>,
    efuse: EfuseMappingView,
    count: nat,
)
    requires
        count <= a.len(),
        count <= b.len(),
        forall|i: int| 0 <= i < count ==> (#[trigger] a[i]).efuse.same_as(b[i].efuse),
    ensures
        first_same(a, efuse, count) == first_same(b, efuse, count),
    decreases count,
{
    if count > 0 {
        lemma_same_places(a, b, efuse, (count - 1) as nat);
        assert(a[count - 1].efuse.same_as(b[count - 1].efuse));
    }
}

/// Putting an efuse among efuses changes no place that another one has.
proof fn lemma_place_stays(
    efuses: Seq<EfuseMappingView>,
    put: EfuseMappingView,
    efuse: EfuseMappingView,
)
    ensures
        ({
            let before = first_same(efuses, efuse, efuses.len());
            let after = with_efuse(efuses, put);
            &&& before is Some ==> first_same(after, efuse, after.len()) == before
            &&& efuse.efuse.same_as(put.efuse) ==> {
                let place = first_same(after, efuse, after.len());
                place is Some && 0 <= place->0 < after.len() && after[place->0] == put
            }
        }),
{
    let after = with_efuse(efuses, put);
    let len = efuses.len();
    lemma_first_same_found(efuses, put, len);
    lemma_first_same_found(efuses, efuse, len);
    lemma_same_places(after, efuses, efuse, len);
    lemma_same_places(after, efuses, put, len);
    if efuse.efuse.same_as(put.efuse) {
        lemma_like(efuses, efuse, put, len);
    }
}

/// Two efuses that are the same have the same place.
proof fn lemma_like(
    efuses: Seq<EfuseMappingView>,
    a: EfuseMappingView,
    b: EfuseMappingView,
    count: nat,
)
    requires
        count <= efuses.len(),
        a.efuse.same_as(b.efuse),
    ensures
        first_same(efuses, a, count) == first_same(efuses, b, count),
    decreases count,
{
    if count > 0 {
        lemma_like(efuses, a, b, (count - 1) as nat);
    }
}

/// Each of the others has a place, and the last of those that are the same holds it.
proof fn lemma_last_holds(
    efuses: Seq<EfuseMappingView>,
    others: Seq<EfuseMappingView>,
    k: int,
)
    requires
        0 <= k < others.len(),
    ensures
        ({
            let all = with_efuses(efuses, others);
            let place = first_same(all, others[k], all.len());
            &&& place is Some
            &&& 0 <= place->0 < all.len()
            &&& (forall|j: int|
                k < j < others.len() ==> !others[k].efuse.same_as((#[trigger] others[j]).efuse))
                ==> all[place->0] == others[k]
        }),
    decreases others.len(),
{
    let head = others.drop_last();
    let last = others.last();
    let before = with_efuses(efuses, head);
    let all = with_efuses(efuses, others);
    assert(last == others[others.len() - 1]);
    lemma_place_stays(before, last, others[k]);
    lemma_first_same_found(all, others[k], all.len());
    if k < head.len() {
        assert(head[k] == others[k]);
        lemma_last_holds(efuses, head, k);
        lemma_first_same_found(before, last, before.len());
        let place = first_same(before, others[k], before.len())->0;
        lemma_first_same_found(before, others[k], before.len());
        if forall|j: int|
            k < j < others.len() ==> !others[k].efuse.same_as((#[trigger] others[j]).efuse) {
            assert(!others[k].efuse.same_as(others[others.len() - 1].efuse));
            assert forall|j: int| k < j < head.len() implies !head[k].efuse.same_as(
                (#[trigger] head[j]).efuse,
            ) by {
                assert(!others[k].efuse.same_as(others[j].efuse));
            }
            assert(before[place] == others[k]);
        }
    } else {
        law_same_efuse(last.efuse, last.efuse, last.efuse);
    }
}

/// Adding the first `count` of the others again changes at most the places that the
/// rest of them have.
proof fn lemma_efuses_again(
    efuses: Seq<EfuseMappingView>,
    others: Seq<EfuseMappingView>,
    count: int,
)
    requires
        0 <= count <= others.len(),
    ensures
        ({
            let all = with_efuses(efuses, others);
            let again = with_efuses(all, others.take(count));
            &&& again.len() == all.len()
            &&& forall|p: int|
                #![trigger again[p]]
                0 <= p < all.len() ==> {
                    &&& again[p].efuse.same_as(all[p].efuse)
                    &&& again[p] == all[p] || {
                        &&& first_same(all, all[p], all.len()) == Some(p)
                        &&& exists|j: int|
                            count <= j < others.len() && (#[trigger] others[j]).efuse.same_as(
                                all[p].efuse,
                            )
                    }
                }
        }),
    decreases count,
{
    let all = with_efuses(efuses, others);
    if count == 0 {
        assert(others.take(0) =~= Seq::<EfuseMappingView>::empty());
    } else {
        let k = count - 1;
        let put = others[k];
        let before = with_efuses(all, others.take(k));
        let again = with_efuses(all, others.take(count));
        lemma_efuses_again(efuses, others, k);
        assert(others.take(count).drop_last() =~= others.take(k));
        assert(others.take(count).last() == put);
        lemma_last_holds(efuses, others, k);
        lemma_same_places(before, all, put, all.len());
        lemma_first_same_found(all, put, all.len());
        let place = first_same(all, put, all.len())->0;
        assert(again == before.update(place, put));
        let later = exists|j: int|
            count <= j < others.len() && (#[trigger] others[j]).efuse.same_as(put.efuse);
        assert forall|p: int|
            #![trigger again[p]]
            0 <= p < all.len() implies again[p].efuse.same_as(all[p].efuse) && (again[p] == all[p]
            || (first_same(all, all[p], all.len()) == Some(p) && exists|j: int|
            count <= j < others.len() && (#[trigger] others[j]).efuse.same_as(all[p].efuse))) by {
            assert(before[p].efuse.same_as(all[p].efuse));
            if p == place {
                lemma_like(all, all[p], put, all.len());
                if !later {
                    assert forall|j: int| k < j < others.len() implies !put.efuse.same_as(
                        (#[trigger] others[j]).efuse,
                    ) by {
                        assert(!others[j].efuse.same_as(put.efuse));
                    }
                    assert(all[place] == put);
                } else {
                    let j = choose|j: int|
                        count <= j < others.len() && (#[trigger] others[j]).efuse.same_as(
                            put.efuse,
                        );
                    assert(others[j].efuse.same_as(all[p].efuse));
                }
            } else if before[p] != all[p] {
                let j = choose|j: int|
                    k <= j < others.len() && (#[trigger] others[j]).efuse.same_as(all[p].efuse);
                if j == k {
                    lemma_like(all, all[p], put, all.len());
                }
                assert(j >= count);
            }
        }
    }
}

/// Adding a bundle once more, with overwriting, changes nothing but the name.
pub proof fn law_add_again(bundle: BundleView, other: BundleView)
    requires
        bundle.wf(),
    ensures
        bundle.joined(other).joined(other).parts == bundle.joined(other).parts,
        bundle.joined(other).joined(other).efuses == bundle.joined(other).efuses,
        bundle.joined(other).joined(other).params == bundle.joined(other).params,
{
    let parts = bundle.parts;
    let n = parts.len() as int;
    let pool = latest(images_of(other.parts));
    let names = keys(parts);
    let left = without_all(pool, names);
    let once = bundle.joined(other).parts;
    let again = keys(once);
    lemma_latest_distinct(images_of(other.parts));
    lemma_without_all(pool, names);
    lemma_without_all(pool, again);
    assert forall|i: int| 0 <= i < n implies #[trigger] again[i] == names[i] by {
        assert(parts[i].wf());
        lemma_found(without_all(pool, names.take(i)), parts[i].key());
    }
    assert forall|i: int| 0 <= i < once.len() implies refilled(once, pool, once.len())[i]
        == #[trigger] once[i] by {
        if i < n {
            assert(again.take(i) =~= names.take(i));
            assert(again[i] == names[i]);
            assert(arriving(once, pool, i) == arriving(parts, pool, i));
        } else {
            let j = i - n;
            assert(once[i] == unmapped(left)[j]);
            lemma_at(left, j);
            lemma_find_without_all(pool, names, left[j].name);
            let before = again.take(i);
            assert forall|k: int| 0 <= k < before.len() implies before[k] != left[j].name by {
                if k < n {
                    assert(before[k] == names[k]);
                } else {
                    assert(once[k] == unmapped(left)[k - n]);
                    assert(left[k - n].name != left[j].name);
                }
            }
            lemma_find_without_all(pool, before, left[j].name);
            assert(arriving(once, pool, i) == Some(left[j]));
        }
    }
    assert(refilled(once, pool, once.len()) =~= once);
    let rest = without_all(pool, again);
    if rest.len() > 0 {
        let name = rest[0].name;
        lemma_at(rest, 0);
        lemma_find_without_all(pool, again, name);
        if names.contains(name) {
            let k = choose|k: int| 0 <= k < names.len() && names[k] == name;
            assert(again[k] == name);
        } else {
            lemma_find_without_all(pool, names, name);
            lemma_found(left, name);
            let j = choose|j: int| 0 <= j < left.len() && left[j] == find(left, name)->0;
            assert(once[n + j] == unmapped(left)[j]);
            assert(again[n + j] == name);
        }
        assert(false);
    }
    assert(rest =~= Seq::<ImageView>::empty());
    assert(bundle.joined(other).joined(other).parts =~= once);
    let all = with_efuses(bundle.efuses, other.efuses);
    let last = other.efuses.len() as int;
    lemma_efuses_again(bundle.efuses, other.efuses, last);
    assert(other.efuses.take(last) =~= other.efuses);
    assert(with_efuses(all, other.efuses) =~= all);
}

/// Whatever content it is made from, a bundle has the name that it is made under, all its
/// images have room in their partitions, and all its mappings map something.
pub proof fn law_created_valid<F, G, P>(
    tools: Tools<F, G, P>,
    name: Seq<char>,
    default_params: Params,
    content: Seq<u8>,
    supply_default_part_table: bool,
    supply_default_bootloader: bool,
) where
    F: Fn(&[u8], Chip) -> Result<Vec<u8>, String>,
    G: Fn(Chip, Option<FlashSize>) -> Result<Vec<u8>, String>,
    P: Fn(&str) -> Result<Params, String>,

    ensures
        tools.created(
            name,
            default_params,
            content,
            supply_default_part_table,
            supply_default_bootloader,
        ) matches Ok(bundle) ==> {
            &&& bundle.name == name
            &&& bundle.wf()
            &&& forall|i: int| 0 <= i < bundle.parts.len() ==> (#[trigger] bundle.parts[i]).fits()
        },
{
    let default_table = if supply_default_part_table {
        Some(Bundle::DEFAULT_PART_TABLE@)
    } else {
        None
    };
    let bootloader = tools.booted(
        Payload::spec_new(None, supply_default_bootloader),
        default_params,
    );
    match BundleType::spec_of_name(name) {
        Some(BundleType::Complete) => {
            if archive_entries(content) is Ok && tools.unpacked(
                archive_entries(content)->Ok_0,
                Some(default_params),
            ) is Ok {
                let parts = tools.unpacked(
                    archive_entries(content)->Ok_0,
                    Some(default_params),
                )->Ok_0;
                lemma_of_parts_valid(
                    name,
                    parts.params,
                    if parts.part_table is None {
                        default_table
                    } else {
                        parts.part_table
                    },
                    tools.booted(
                        Payload::spec_new(parts.bootloader, supply_default_bootloader),
                        parts.params,
                    ),
                    parts.images,
                    parts.efuses,
                );
            }
        },
        Some(BundleType::BinAppImage) => {
            let app = ImageView::fresh(Bundle::APP_NAME@, ImageType::Binary, content);
            lemma_of_parts_valid(
                name,
                default_params,
                default_table,
                bootloader,
                seq![app],
                Seq::empty(),
            );
        },
        Some(BundleType::ElfAppImage) => {
            if let Ok(data) = tools.converted(content, default_params.chip) {
                let app = ImageView::fresh(Bundle::APP_NAME@, ImageType::Elf, data);
                lemma_of_parts_valid(
                    name,
                    default_params,
                    default_table,
                    bootloader,
                    seq![app],
                    Seq::empty(),
                );
            }
        },
        None => {},
    }
}

proof fn lemma_of_parts_valid(
    name: Seq<char>,
    params: Params,
    table_text: Option<Seq<char>>,
    bootloader: Result<Option<ImageView>, Fault<Seq<char>>>,
    images: Seq<ImageView>,
    efuses: Seq<EfuseView>,
)
    ensures
        BundleView::of_parts(name, params, table_text, bootloader, images, efuses) matches Ok(
            bundle,
        ) ==> {
            &&& bundle.name == name
            &&& bundle.wf()
            &&& forall|i: int| 0 <= i < bundle.parts.len() ==> (#[trigger] bundle.parts[i]).fits()
        },
{
    if table_of_text(table_text) is Ok && bootloader is Ok {
        law_assembled_valid(
            name,
            params,
            table_of_text(table_text)->Ok_0,
            bootloader->Ok_0,
            images,
            efuses,
        );
    }
}

/// The files of an archive that are looked at are those below the prefix, in their
/// order.
pub proof fn law_files_below(names: Seq<Seq<char>>, prefix: Seq<char>)
    ensures
        files_below(names, prefix) == names.filter(
            |name: Seq<char>| is_file_below(name, prefix),
        ),
    decreases names.len(),
{
    reveal(Seq::filter);
    if names.len() > 0 {
        law_files_below(names.drop_last(), prefix);
    }
}

/// The efuses of an archive are one for each file, in their order, unless one of the
/// files describes none.
pub proof fn law_efuse_files(
    entries: Seq<EntryView>,
    files: Seq<Seq<char>>,
)
    ensures
        efuses_of_files(entries, files) is Ok <==> forall|i: int|
            0 <= i < files.len() ==> efuse_of_file(entries, #[trigger] files[i]) is Ok,
        efuses_of_files(entries, files) matches Ok(efuses) ==> efuses.len() == files.len() && forall|
            i: int,
        |
            0 <= i < files.len() ==> efuse_of_file(entries, #[trigger] files[i]) == Ok::<
                EfuseView,
                Fault<Seq<char>>,
            >(efuses[i]),
    decreases files.len(),
{
    if files.len() > 0 {
        let head = files.drop_last();
        law_efuse_files(entries, head);
        assert(files.last() == files[files.len() - 1]);
        assert(forall|i: int| 0 <= i < head.len() ==> head[i] == #[trigger] files[i]);
    }
}

/// The images of an archive are one for each file, in their order, unless one of the
/// files has none.
pub proof fn law_image_files<F, G, P>(
    tools: Tools<F, G, P>,
    chip: Chip,
    entries: Seq<EntryView>,
    files: Seq<Seq<char>>,
) where
    F: Fn(&[u8], Chip) -> Result<Vec<u8>, String>,
    G: Fn(Chip, Option<FlashSize>) -> Result<Vec<u8>, String>,
    P: Fn(&str) -> Result<Params, String>,

    ensures
        tools.images_of_files(chip, entries, files) is Ok <==> forall|i: int|
            0 <= i < files.len() ==> tools.image_of_file(chip, entries, #[trigger] files[i]) is Ok,
        tools.images_of_files(chip, entries, files) matches Ok(images) ==> images.len()
            == files.len() && forall|i: int|
            0 <= i < files.len() ==> tools.image_of_file(chip, entries, #[trigger] files[i])
                == Ok::<ImageView, Fault<Seq<char>>>(images[i]),
    decreases files.len(),
{
    if files.len() > 0 {
        let head = files.drop_last();
        law_image_files(tools, chip, entries, head);
        assert(files.last() == files[files.len() - 1]);
        assert(forall|i: int| 0 <= i < head.len() ==> head[i] == #[trigger] files[i]);
    }
}

} // verus!
