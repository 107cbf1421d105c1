//! Putting bundles together from their parts.

use crate::bundle::{efuse_views, mapping_views, size_fault, Bundle, BundleView};
use crate::chip::Params;
use crate::efuse::{Efuse, EfuseMapping, EfuseMappingView, EfuseView};
use crate::fault::{BundleError, Fault};
use crate::image::{Image, ImageType, ImageView, ProvisioningStatus};
use crate::merge::{push_unmapped, unmapped};
use crate::partition::{
    image_view, MappingView, Partition, PartitionMapping, PartitionType, PartitionView,
};
use crate::pool::{collect, distinct, find, image_views, latest, take, without_all};
use crate::table::{partition_views, table_view, PartTable, TableView};
use vstd::prelude::*;
use vstd::string::*;

verus! {

/// The names of partitions.
pub open spec fn row_names(rows: Seq<PartitionView>) -> Seq<Seq<char>> {
    rows.map_values(|row: PartitionView| row.name)
}

/// The image of `pool` that goes to partition `i`: that of its name, unless an earlier
/// partition with the same name has taken it.
pub open spec fn image_for(rows: Seq<PartitionView>, pool: Seq<ImageView>, i: int) -> Option<
    ImageView,
> {
    find(without_all(pool, row_names(rows).take(i)), rows[i].name)
}

/// Whether an image made from an ELF file goes to partition `i`, which holds no app.
pub open spec fn misplaced(rows: Seq<PartitionView>, pool: Seq<ImageView>, i: int) -> bool {
    &&& image_for(rows, pool, i) is Some
    &&& image_for(rows, pool, i)->0.ty is Elf
    &&& !(rows[i].ty is App)
}

/// The first of the first `count` partitions that a misplaced image goes to.
pub open spec fn first_misplaced(
    rows: Seq<PartitionView>,
    pool: Seq<ImageView>,
    count: nat,
) -> Option<int>
    decreases count,
{
    if count == 0 {
        None
    } else {
        match first_misplaced(rows, pool, (count - 1) as nat) {
            Some(i) => Some(i),
            None => if misplaced(rows, pool, count - 1) {
                Some(count - 1)
            } else {
                None
            },
        }
    }
}

/// The partitions with the images of `pool` that go there.
pub open spec fn placed(rows: Seq<PartitionView>, pool: Seq<ImageView>) -> Seq<MappingView> {
    Seq::new(
        rows.len(),
        |i: int|
            MappingView { partition: Some(rows[i]), image: image_for(rows, pool, i) },
    )
}

/// The mapping of the bootloader. Where there is a partition table, the bootloader has
/// the room between where the chip boots and the table.
pub open spec fn boot_mapping(
    params: Params,
    table: Option<TableView>,
    image: ImageView,
) -> MappingView {
    let boot_addr = params.chip.spec_boot_addr();
    MappingView {
        partition: match table {
            Some(table) => Some(
                PartitionView::pseudo(
                    Bundle::BOOTLOADER_NAME@,
                    boot_addr,
                    (table.offset - boot_addr) as u32,
                ),
            ),
            None => None,
        },
        image: Some(image),
    }
}

/// The mapping of the partition table itself.
pub open spec fn table_mapping(table: TableView) -> MappingView {
    MappingView {
        partition: Some(
            PartitionView::pseudo(Bundle::PART_TABLE_NAME@, table.offset, Bundle::PART_TABLE_SIZE),
        ),
        image: Some(table.image),
    }
}

/// Efuses that are still to be programmed.
pub open spec fn unprogrammed(efuses: Seq<EfuseView>) -> Seq<EfuseMappingView> {
    efuses.map_values(
        |efuse: EfuseView| EfuseMappingView { efuse, status: ProvisioningStatus::NotStarted },
    )
}

/// All mappings: that of the bootloader, those of the partition table and of its
/// partitions, and the images that have no partition to go to.
pub open spec fn assembled_parts(
    params: Params,
    table: Option<TableView>,
    bootloader: Option<ImageView>,
    pool: Seq<ImageView>,
) -> Seq<MappingView> {
    let boot = match bootloader {
        Some(image) => seq![boot_mapping(params, table, image)],
        None => Seq::empty(),
    };
    match table {
        Some(table) => boot + seq![table_mapping(table)] + placed(table.rows, pool) + unmapped(
            without_all(pool, row_names(table.rows)),
        ),
        None => boot + unmapped(pool),
    }
}

impl BundleView {
    /// What putting the parts together comes to. Of images with the same name the
    /// last one counts.
    pub open spec fn assembled(
        name: Seq<char>,
        params: Params,
        table: Option<TableView>,
        bootloader: Option<ImageView>,
        images: Seq<ImageView>,
        efuses: Seq<EfuseView>,
    ) -> Result<BundleView, Fault<Seq<char>>> {
        let pool = latest(images);
        let misplaced = match table {
            Some(table) => first_misplaced(table.rows, pool, table.rows.len()),
            None => None,
        };
        let parts = assembled_parts(params, table, bootloader, pool);
        if misplaced is Some {
            Err(Fault::ElfNotApp { partition: table->0.rows[misplaced->0].name })
        } else if size_fault(parts) is Some {
            Err(size_fault(parts)->0)
        } else {
            Ok(BundleView { name, params, parts, efuses: unprogrammed(efuses) })
        }
    }
}

/// What came of making a bundle, as contracts speak of it.
pub open spec fn outcome(result: Result<Bundle, BundleError>) -> Result<
    BundleView,
    Fault<Seq<char>>,
> {
    match result {
        Ok(bundle) => Ok(bundle@),
        Err(e) => Err(e@),
    }
}

/// Efuses as contracts speak of them.
pub open spec fn plain_efuse_views(efuses: Seq<Efuse>) -> Seq<EfuseView> {
    efuses.map_values(|efuse: Efuse| efuse@)
}

proof fn lemma_first_misplaced(rows: Seq<PartitionView>, pool: Seq<ImageView>, i: int, count: nat)
    requires
        0 <= i < count <= rows.len(),
        first_misplaced(rows, pool, i as nat) is None,
        misplaced(rows, pool, i),
    ensures
        first_misplaced(rows, pool, count) == Some(i),
    decreases count,
{
    if count > i + 1 {
        lemma_first_misplaced(rows, pool, i, (count - 1) as nat);
    }
}

/// Appends the partitions with the images of the pool that go there, and leaves the
/// rest of the images in the pool.
fn place(mappings: &mut Vec<PartitionMapping>, rows: Vec<Partition>, pool: &mut Vec<Image>) -> (
    result: Result<(), BundleError>)
    requires
        distinct(image_views(old(pool)@)),
    ensures
        ({
            let views = partition_views(rows@);
            let images = image_views(old(pool)@);
            match first_misplaced(views, images, views.len()) {
                Some(i) => result is Err && result->Err_0@ == (Fault::ElfNotApp {
                    partition: views[i].name,
                }),
                None => {
                    &&& result is Ok
                    &&& mapping_views(final(mappings)@) == mapping_views(old(mappings)@) + placed(
                        views,
                        images,
                    )
                    &&& image_views(final(pool)@) == without_all(images, row_names(views))
                },
            }
        }),
{
    let ghost views = partition_views(rows@);
    let ghost images = image_views(pool@);
    let ghost start = mapping_views(mappings@);
    proof {
        assert(row_names(views).take(0) =~= Seq::<Seq<char>>::empty());
        assert(start =~= start + placed(views, images).take(0));
    }
    for partition in it: rows
        invariant
            views == partition_views(it.seq()),
            views == partition_views(rows@),
            images == image_views(old(pool)@),
            distinct(image_views(pool@)),
            image_views(pool@) == without_all(images, row_names(views).take(it.index())),
            mapping_views(mappings@) == start + placed(views, images).take(it.index()),
            first_misplaced(views, images, it.index() as nat) is None,
    {
        let ghost i = it.index();
        let ghost before = mapping_views(mappings@);
        proof {
            assert(views[i] == partition@);
            let next = row_names(views).take(i + 1);
            assert(next.drop_last() =~= row_names(views).take(i));
            assert(next.last() == views[i].name);
        }
        let image = take(pool, &partition.name);
        assert(image_view(image) == image_for(views, images, i));
        if let Some(found) = &image {
            if matches!(found.ty, ImageType::Elf) && !matches!(partition.ty, PartitionType::App) {
                proof {
                    lemma_first_misplaced(views, images, i, views.len());
                }
                return Err(Fault::ElfNotApp { partition: partition.name });
            }
        }
        let mapping = PartitionMapping { partition: Some(partition), image };
        let ghost pushed = mapping@;
        mappings.push(mapping);
        proof {
            assert(mapping_views(mappings@) =~= before.push(pushed));
            assert(pushed == placed(views, images)[i]);
            assert(placed(views, images).take(i + 1) =~= placed(views, images).take(i).push(
                pushed,
            ));
            assert(start + placed(views, images).take(i + 1) =~= before.push(pushed));
        }
    }
    proof {
        assert(row_names(views).take(views.len() as int) =~= row_names(views));
        assert(placed(views, images).take(views.len() as int) =~= placed(views, images));
    }
    Ok(())
}

/// Mappings of efuses that are still to be programmed.
fn map_efuses(efuses: Vec<Efuse>) -> (mappings: Vec<EfuseMapping>)
    ensures
        efuse_views(mappings@) == unprogrammed(plain_efuse_views(efuses@)),
{
    let ghost views = plain_efuse_views(efuses@);
    let mut mappings: Vec<EfuseMapping> = Vec::new();
    assert(efuse_views(mappings@) =~= unprogrammed(views).take(0));
    for efuse in it: efuses
        invariant
            views == plain_efuse_views(it.seq()),
            efuse_views(mappings@) == unprogrammed(views).take(it.index()),
    {
        let ghost before = efuse_views(mappings@);
        let mapping = EfuseMapping { efuse, status: ProvisioningStatus::NotStarted };
        let ghost pushed = mapping@;
        mappings.push(mapping);
        proof {
            assert(efuse_views(mappings@) =~= before.push(pushed));
            assert(pushed == unprogrammed(views)[it.index()]);
            assert(unprogrammed(views).take(it.index() + 1) =~= before.push(pushed));
        }
    }
    assert(unprogrammed(views).take(views.len() as int) =~= unprogrammed(views));
    mappings
}

impl Bundle {
    /// Put a bundle together from its parts.
    ///
    /// - `name`: The name of the bundle
    /// - `params`: The parameters of the bundle (chip and an optional flash size)
    /// - `table`: The partition table
    /// - `bootloader`: The bootloader image
    /// - `images`: The images to be flashed to the partitions of their names
    /// - `efuses`: The efuses to be programmed
    pub fn assemble(
        name: String,
        params: Params,
        table: Option<PartTable>,
        bootloader: Option<Image>,
        images: Vec<Image>,
        efuses: Vec<Efuse>,
    ) -> (bundle: Result<Self, BundleError>)
        requires
            table is Some && bootloader is Some ==> table->0.offset >= params.chip.spec_boot_addr(),
        ensures
            outcome(bundle) == BundleView::assembled(
                name@,
                params,
                table_view(table),
                image_view(bootloader),
                image_views(images@),
                plain_efuse_views(efuses@),
            ),
    {
        let ghost given = table_view(table);
        let ghost booter = image_view(bootloader);
        let ghost boot = match booter {
            Some(image) => seq![boot_mapping(params, given, image)],
            None => Seq::empty(),
        };
        let mut pool = collect(images);
        let ghost pooled = image_views(pool@);
        let mut parts_mapping: Vec<PartitionMapping> = Vec::new();
        if let Some(image) = bootloader {
            let boot_addr = params.chip.boot_addr();
            let partition = match &table {
                Some(table) => Some(
                    Partition::pseudo(Self::BOOTLOADER_NAME, boot_addr, table.offset - boot_addr),
                ),
                None => None,
            };
            parts_mapping.push(PartitionMapping { partition, image: Some(image) });
        }
        assert(mapping_views(parts_mapping@) =~= boot);
        if let Some(table) = table {
            let partition = Partition::pseudo(
                Self::PART_TABLE_NAME,
                table.offset,
                Self::PART_TABLE_SIZE,
            );
            parts_mapping.push(
                PartitionMapping { partition: Some(partition), image: Some(table.image) },
            );
            assert(mapping_views(parts_mapping@) =~= boot + seq![table_mapping(given->0)]);
            if let Err(e) = place(&mut parts_mapping, table.rows, &mut pool) {
                return Err(e);
            }
        }
        push_unmapped(&mut parts_mapping, pool);
        let ghost parts = mapping_views(parts_mapping@);
        assert(parts =~= assembled_parts(params, given, booter, pooled));
        let this = Bundle { name, params, parts_mapping, efuse_mapping: map_efuses(efuses) };
        match this.check_part_sizes() {
            Ok(()) => Ok(this),
            Err(e) => Err(e),
        }
    }
}

} // verus!
