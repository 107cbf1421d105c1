//! Bundles: partitions with their images, and efuses.

use crate::chip::Params;
use crate::efuse::{Efuse, EfuseMapping, EfuseMappingView, EfuseView};
use crate::fault::{BundleError, Fault};
use crate::image::{FlashData, FlashDataView, Image, ImageView, ProvisioningStatus};
use crate::partition::{MappingView, PartitionMapping, PartitionType};
use crate::text::same_text;
use vstd::prelude::*;
use vstd::string::*;

verus! {

/// Represents a loaded bundle ready for flashing and e-fuse programming.
#[derive(Clone, Debug)]
pub struct Bundle {
    /// The name of the bundle.
    pub name: String,
    /// The parameters of the bundle (chip and an optional flash size)
    pub params: Params,
    /// The mapping of partitions to images
    pub parts_mapping: Vec<PartitionMapping>,
    /// The mapping of efuses to efuse regions
    pub efuse_mapping: Vec<EfuseMapping>,
}

/// A bundle as contracts speak of it.
pub struct BundleView {
    pub name: Seq<char>,
    pub params: Params,
    pub parts: Seq<MappingView>,
    pub efuses: Seq<EfuseMappingView>,
}

/// Mappings as contracts speak of them.
pub open spec fn mapping_views(mappings: Seq<PartitionMapping>) -> Seq<MappingView> {
    mappings.map_values(|mapping: PartitionMapping| mapping@)
}

/// Efuse mappings as contracts speak of them.
pub open spec fn efuse_views(efuses: Seq<EfuseMapping>) -> Seq<EfuseMappingView> {
    efuses.map_values(|efuse: EfuseMapping| efuse@)
}

impl View for Bundle {
    type V = BundleView;

    open spec fn view(&self) -> BundleView {
        BundleView {
            name: self.name@,
            params: self.params,
            parts: mapping_views(self.parts_mapping@),
            efuses: efuse_views(self.efuse_mapping@),
        }
    }
}

/// The first of the first `count` mappings whose image has no room in its partition.
pub open spec fn first_oversized(parts: Seq<MappingView>, count: nat) -> Option<int>
    decreases count,
{
    if count == 0 {
        None
    } else {
        match first_oversized(parts, (count - 1) as nat) {
            Some(i) => Some(i),
            None => if parts[count - 1].fits() {
                None
            } else {
                Some(count - 1)
            },
        }
    }
}

/// What is wrong with the sizes of the images: the first that has no room in its
/// partition.
pub open spec fn size_fault(parts: Seq<MappingView>) -> Option<Fault<Seq<char>>> {
    match first_oversized(parts, parts.len()) {
        Some(i) => Some(
            Fault::TooLarge {
                image: parts[i].image->0.name,
                partition: parts[i].partition->0.name,
                image_len: parts[i].image->0.data.len() as usize,
                part_len: parts[i].partition->0.size as usize,
            },
        ),
        None => None,
    }
}

/// The data to be flashed: one piece for each mapping that has both a partition and
/// an image, in their order.
pub open spec fn flash_data(parts: Seq<MappingView>) -> Seq<FlashDataView>
    decreases parts.len(),
{
    if parts.len() == 0 {
        Seq::empty()
    } else {
        let rest = flash_data(parts.drop_last());
        if parts.last().flashable() {
            let partition = parts.last().partition->0;
            rest.push(
                FlashDataView {
                    offset: partition.offset,
                    data: parts.last().image->0.data,
                    encrypted_partition: partition.encrypted || partition.name
                        == Bundle::BOOTLOADER_NAME@ || partition.name == Bundle::PART_TABLE_NAME@,
                },
            )
        } else {
            rest
        }
    }
}

/// The values of the keys that encrypt the flash memory, in the order of the efuses.
pub open spec fn encrypt_keys(efuses: Seq<EfuseMappingView>) -> Seq<Seq<u8>>
    decreases efuses.len(),
{
    if efuses.len() == 0 {
        Seq::empty()
    } else {
        let rest = encrypt_keys(efuses.drop_last());
        match efuses.last().efuse {
            EfuseView::Key { block, key_value, purpose } => if purpose == "XTS_AES_128_KEY"@ {
                rest.push(key_value)
            } else {
                rest
            },
            _ => rest,
        }
    }
}

impl MappingView {
    /// The mapping with its image, where it is to be flashed, at `status`.
    pub open spec fn with_status(self, status: ProvisioningStatus) -> Self {
        if self.flashable() {
            MappingView {
                image: Some(ImageView { status, ..self.image->0 }),
                ..self
            }
        } else {
            self
        }
    }

    /// Whether the mapping changes when its image is put at `status`.
    pub open spec fn status_differs(self, status: ProvisioningStatus) -> bool {
        self.flashable() && self.image->0.status != status
    }

    /// Whether this is the mapping of a partition that begins at `offset`.
    pub open spec fn is_at(self, offset: u32) -> bool {
        self.partition is Some && self.partition->0.offset == offset
    }

    /// The mapping with an erased partition where no image was to be flashed to it.
    pub open spec fn filled(self) -> Self {
        match (self.partition, self.image) {
            (Some(partition), None) => MappingView {
                image: Some(ImageView::empty(partition.size as nat)),
                ..self
            },
            _ => self,
        }
    }
}

impl BundleView {
    /// Each mapping maps something.
    pub open spec fn wf(self) -> bool {
        forall|i: int| 0 <= i < self.parts.len() ==> (#[trigger] self.parts[i]).wf()
    }

    /// Whether the bundle has a partition table.
    pub open spec fn spec_has_part_table(self) -> bool {
        exists|i: int| 0 <= i < self.parts.len() && (#[trigger] self.parts[i]).partition is Some
    }

    /// Whether the bundle has a bootloader, in a place for it.
    pub open spec fn spec_has_bootloader(self) -> bool {
        exists|i: int|
            0 <= i < self.parts.len() && (#[trigger] self.parts[i]).partition is Some
                && self.parts[i].partition->0.name == Bundle::BOOTLOADER_NAME@
    }

    /// Whether the bundle has an image for an app partition.
    pub open spec fn spec_has_app_image(self) -> bool {
        exists|i: int|
            0 <= i < self.parts.len() && (#[trigger] self.parts[i]).flashable()
                && self.parts[i].partition->0.ty is App
    }
}

impl Bundle {
    /// The name of the bootloader pseudo-partition.
    /// This partition is not really present in the partition table, but is used for
    /// rendering purposes.
    pub const BOOTLOADER_NAME: &'static str = "(bootloader)";

    /// The name of the partition table pseudo-partition.
    /// This partition is not really present in the partition table, but is used for
    /// rendering purposes.
    pub const PART_TABLE_NAME: &'static str = "(part-table)";

    /// The size of a flash page in Espressif chips
    pub const PAGE_SIZE: usize = 4096;

    /// The size of the partition table in Espressif chips
    pub const PART_TABLE_SIZE: u32 = 4096;

    /// The default partition table which is used when the partition table is not
    /// provided in the bundle (i.e. ZIP bundles with no `partition-table.csv` file as
    /// well as binary and ELF app images).
    ///
    /// (4MB flash size assumed)
    ///
    /// Table is optimized so that it can hold a larger (signed) bootloader as well as
    /// two signed app images, whose partitions' start (as always) is aligned to 64K, and
    /// whose size (excluding the potential 4K signature at the end) is divisible by 64K.
    pub const DEFAULT_PART_TABLE: &'static str = r#"
# Name,   Type, SubType,   Offset,  Size,  Flags
ota_0,    app,  ota_0,    0x10000, 1924K,
nvs,      data, nvs,             ,   32K,
nvs_keys, data, 0x04,            ,    4K,
phy_init, data, phy,             ,    4K,
extra_0,  data, 0x06,            ,   20K,  
ota_1,    app,  ota_1,           , 1924K,
nvs_bm,   data, 0x06,            ,   32K,
otadata,  data, ota,             ,    8K,
extra_1,  data, 0x06,            ,   20K,
"#;

    /// Whether every image has room in its partition.
    pub fn check_part_sizes(&self) -> (result: Result<(), BundleError>)
        ensures
            match result {
                Ok(()) => size_fault(self@.parts) is None,
                Err(e) => size_fault(self@.parts) == Some(e@),
            },
    {
        let mut i: usize = 0;
        while i < self.parts_mapping.len()
            invariant
                i <= self.parts_mapping@.len(),
                first_oversized(self@.parts, i as nat) is None,
            decreases self.parts_mapping@.len() - i,
        {
            let mapping = &self.parts_mapping[i];
            assert(self@.parts[i as int] == mapping@);
            if let Some(partition) = &mapping.partition {
                if let Some(image) = &mapping.image {
                    let part_len = partition.size as usize;
                    if image.data.len() > part_len {
                        proof {
                            lemma_first_oversized(self@.parts, i as int);
                        }
                        return Err(
                            Fault::TooLarge {
                                image: image.name.clone(),
                                partition: partition.name.clone(),
                                image_len: image.data.len(),
                                part_len,
                            },
                        );
                    }
                }
            }
            i = i + 1;
        }
        Ok(())
    }

    /// Return `true` if the bundle is bootable, i.e. has a partition table, a
    /// bootloader, and an app image.
    pub fn is_bootable(&self) -> (yes: bool)
        ensures
            yes == (self@.spec_has_part_table() && self@.spec_has_bootloader()
                && self@.spec_has_app_image()),
    {
        self.has_part_table() && self.has_bootloader() && self.has_app_image()
    }

    /// Return `true` if the bundle has a partition table.
    pub fn has_part_table(&self) -> (yes: bool)
        ensures
            yes == self@.spec_has_part_table(),
    {
        let mut i: usize = 0;
        while i < self.parts_mapping.len()
            invariant
                i <= self.parts_mapping@.len(),
                forall|j: int| 0 <= j < i ==> (#[trigger] self@.parts[j]).partition is None,
            decreases self.parts_mapping@.len() - i,
        {
            assert(self@.parts[i as int] == self.parts_mapping@[i as int]@);
            if self.parts_mapping[i].partition.is_some() {
                return true;
            }
            i = i + 1;
        }
        false
    }

    /// Return `true` if the bundle has a bootloader.
    pub fn has_bootloader(&self) -> (yes: bool)
        ensures
            yes == self@.spec_has_bootloader(),
    {
        let mut i: usize = 0;
        while i < self.parts_mapping.len()
            invariant
                i <= self.parts_mapping@.len(),
                forall|j: int|
                    0 <= j < i && (#[trigger] self@.parts[j]).partition is Some
                        ==> self@.parts[j].partition->0.name != Self::BOOTLOADER_NAME@,
            decreases self.parts_mapping@.len() - i,
        {
            assert(self@.parts[i as int] == self.parts_mapping@[i as int]@);
            if let Some(partition) = &self.parts_mapping[i].partition {
                if same_text(partition.name.as_str(), Self::BOOTLOADER_NAME) {
                    return true;
                }
            }
            i = i + 1;
        }
        false
    }

    /// Return `true` if the bundle has at least one app image.
    pub fn has_app_image(&self) -> (yes: bool)
        ensures
            yes == self@.spec_has_app_image(),
    {
        let mut i: usize = 0;
        while i < self.parts_mapping.len()
            invariant
                i <= self.parts_mapping@.len(),
                forall|j: int|
                    0 <= j < i && (#[trigger] self@.parts[j]).flashable()
                        ==> !(self@.parts[j].partition->0.ty is App),
            decreases self.parts_mapping@.len() - i,
        {
            let mapping = &self.parts_mapping[i];
            assert(self@.parts[i as int] == mapping@);
            if let Some(partition) = &mapping.partition {
                if matches!(partition.ty, PartitionType::App) && mapping.image.is_some() {
                    return true;
                }
            }
            i = i + 1;
        }
        false
    }

    /// Get all flash encryption keys (if any).
    pub fn get_flash_encrypt_keys(&self) -> (keys: Vec<&[u8]>)
        ensures
            keys@.map_values(|key: &[u8]| key@) == encrypt_keys(self@.efuses),
    {
        let mut keys: Vec<&[u8]> = Vec::new();
        let mut i: usize = 0;
        let ghost key_of = |key: &[u8]| key@;
        assert(keys@.map_values(key_of) =~= encrypt_keys(self@.efuses.take(0)));
        while i < self.efuse_mapping.len()
            invariant
                i <= self.efuse_mapping@.len(),
                key_of == (|key: &[u8]| key@),
                keys@.map_values(key_of) == encrypt_keys(self@.efuses.take(i as int)),
            decreases self.efuse_mapping@.len() - i,
        {
            let ghost before = keys@.map_values(key_of);
            let ghost next = self@.efuses.take(i + 1);
            proof {
                assert(next.drop_last() =~= self@.efuses.take(i as int));
                assert(next.last() == self.efuse_mapping@[i as int]@);
            }
            if let Efuse::Key { block: _, key_value, purpose } = &self.efuse_mapping[i].efuse {
                if same_text(purpose.as_str(), "XTS_AES_128_KEY") {
                    keys.push(key_value.as_slice());
                    assert(keys@.map_values(key_of) =~= before.push(key_value@));
                }
            }
            i = i + 1;
        }
        assert(self@.efuses.take(i as int) =~= self@.efuses);
        keys
    }

    /// Get the flash data to be flashed to the device.
    pub fn get_flash_data(&self) -> (data: Vec<FlashData>)
        ensures
            data@.map_values(|piece: FlashData| piece@) == flash_data(self@.parts),
    {
        let mut data: Vec<FlashData> = Vec::new();
        let mut i: usize = 0;
        let ghost piece_of = |piece: FlashData| piece@;
        assert(data@.map_values(piece_of) =~= flash_data(self@.parts.take(0)));
        while i < self.parts_mapping.len()
            invariant
                i <= self.parts_mapping@.len(),
                piece_of == (|piece: FlashData| piece@),
                data@.map_values(piece_of) == flash_data(self@.parts.take(i as int)),
            decreases self.parts_mapping@.len() - i,
        {
            let ghost before = data@.map_values(piece_of);
            let ghost next = self@.parts.take(i + 1);
            let mapping = &self.parts_mapping[i];
            proof {
                assert(next.drop_last() =~= self@.parts.take(i as int));
                assert(next.last() == mapping@);
            }
            if let Some(partition) = &mapping.partition {
                if let Some(image) = &mapping.image {
                    let piece = FlashData {
                        offset: partition.offset,
                        data: image.data.clone(),
                        encrypted_partition: partition.encrypted || same_text(
                            partition.name.as_str(),
                            Self::BOOTLOADER_NAME,
                        ) || same_text(partition.name.as_str(), Self::PART_TABLE_NAME),
                    };
                    data.push(piece);
                    assert(data@.map_values(piece_of) =~= before.push(piece@));
                }
            }
            i = i + 1;
        }
        assert(self@.parts.take(i as int) =~= self@.parts);
        data
    }

    /// Set the status of all images to the given status, and return whether that
    /// changed any. An image without a partition is not flashed, and has none.
    pub fn set_status_all(&mut self, status: ProvisioningStatus) -> (modified: bool)
        ensures
            final(self)@ == (BundleView {
                parts: old(self)@.parts.map_values(|m: MappingView| m.with_status(status)),
                ..old(self)@
            }),
            modified == exists|i: int|
                0 <= i < old(self)@.parts.len() && (#[trigger] old(self)@.parts[i]).status_differs(
                    status,
                ),
    {
        let ghost start = self@;
        let mut modified = false;
        let mut i: usize = 0;
        while i < self.parts_mapping.len()
            invariant
                i <= self.parts_mapping@.len() == start.parts.len(),
                self@ == (BundleView { parts: self@.parts, ..start }),
                forall|j: int|
                    0 <= j < start.parts.len() ==> #[trigger] self@.parts[j] == if j < i {
                        start.parts[j].with_status(status)
                    } else {
                        start.parts[j]
                    },
                modified == exists|j: int|
                    0 <= j < i && (#[trigger] start.parts[j]).status_differs(status),
            decreases self.parts_mapping@.len() - i,
        {
            let ghost before = self@.parts;
            assert(before[i as int] == self.parts_mapping@[i as int]@);
            if self.parts_mapping[i].put_at(status) {
                modified = true;
                assert(start.parts[i as int].status_differs(status));
            }
            assert(self@.parts =~= before.update(i as int, before[i as int].with_status(status)));
            i = i + 1;
        }
        assert(self@.parts =~= start.parts.map_values(|m: MappingView| m.with_status(status)));
        modified
    }

    /// Set the status of the image for the partition at the given offset to the given
    /// status, and return whether that changed it.
    pub fn set_status(&mut self, part_offset: u32, status: ProvisioningStatus) -> (modified: bool)
        ensures
            final(self)@ == (BundleView {
                parts: old(self)@.parts.map_values(
                    |m: MappingView|
                        if m.is_at(part_offset) {
                            m.with_status(status)
                        } else {
                            m
                        },
                ),
                ..old(self)@
            }),
            modified == exists|i: int|
                0 <= i < old(self)@.parts.len() && (#[trigger] old(self)@.parts[i]).is_at(
                    part_offset,
                ) && old(self)@.parts[i].status_differs(status),
    {
        let ghost start = self@;
        let mut modified = false;
        let mut i: usize = 0;
        while i < self.parts_mapping.len()
            invariant
                i <= self.parts_mapping@.len() == start.parts.len(),
                self@ == (BundleView { parts: self@.parts, ..start }),
                forall|j: int|
                    0 <= j < start.parts.len() ==> #[trigger] self@.parts[j] == if j < i
                        && start.parts[j].is_at(part_offset) {
                        start.parts[j].with_status(status)
                    } else {
                        start.parts[j]
                    },
                modified == exists|j: int|
                    0 <= j < i && (#[trigger] start.parts[j]).is_at(part_offset)
                        && start.parts[j].status_differs(status),
            decreases self.parts_mapping@.len() - i,
        {
            let ghost before = self@.parts;
            assert(before[i as int] == self.parts_mapping@[i as int]@);
            let here = match &self.parts_mapping[i].partition {
                Some(partition) => partition.offset == part_offset,
                None => false,
            };
            assert(here == start.parts[i as int].is_at(part_offset));
            if here {
                if self.parts_mapping[i].put_at(status) {
                    modified = true;
                    assert(start.parts[i as int].status_differs(status));
                }
                assert(self@.parts =~= before.update(
                    i as int,
                    before[i as int].with_status(status),
                ));
            }
            i = i + 1;
        }
        assert(self@.parts =~= start.parts.map_values(
            |m: MappingView|
                if m.is_at(part_offset) {
                    m.with_status(status)
                } else {
                    m
                },
        ));
        modified
    }

    /// Give each partition without an image one that erases it.
    pub fn add_empty(&mut self)
        ensures
            final(self)@ == (BundleView {
                parts: old(self)@.parts.map_values(|m: MappingView| m.filled()),
                ..old(self)@
            }),
    {
        let ghost start = self@;
        let mut i: usize = 0;
        while i < self.parts_mapping.len()
            invariant
                i <= self.parts_mapping@.len() == start.parts.len(),
                self@ == (BundleView { parts: self@.parts, ..start }),
                forall|j: int|
                    0 <= j < start.parts.len() ==> #[trigger] self@.parts[j] == if j < i {
                        start.parts[j].filled()
                    } else {
                        start.parts[j]
                    },
            decreases self.parts_mapping@.len() - i,
        {
            let ghost before = self@.parts;
            assert(before[i as int] == self.parts_mapping@[i as int]@);
            self.parts_mapping[i].fill();
            assert(self@.parts =~= before.update(i as int, before[i as int].filled()));
            i = i + 1;
        }
        assert(self@.parts =~= start.parts.map_values(|m: MappingView| m.filled()));
    }
}

/// The texts of mappings, each on a line of its own.
pub open spec fn part_lines(parts: Seq<MappingView>) -> Seq<char>
    decreases parts.len(),
{
    if parts.len() == 0 {
        Seq::empty()
    } else {
        part_lines(parts.drop_last()) + "    "@ + parts.last().spec_text() + "\n"@
    }
}

/// The texts of efuses, each on a line of its own.
pub open spec fn efuse_lines(efuses: Seq<EfuseMappingView>) -> Seq<char>
    decreases efuses.len(),
{
    if efuses.len() == 0 {
        Seq::empty()
    } else {
        efuse_lines(efuses.drop_last()) + "    "@ + efuses.last().efuse.spec_text() + "\n"@
    }
}

impl BundleView {
    /// The bundle in text.
    pub open spec fn spec_text(self) -> Seq<char> {
        "Bundle `"@ + self.name + "` {\n"@ + "  Parameters: "@ + self.params.spec_text() + "\n"@
            + "  Partition {\n"@ + part_lines(self.parts) + "  }\n"@ + "  eFuse {\n"@
            + efuse_lines(self.efuses) + "  }\n"@ + "}\n"@
    }
}

impl Bundle {
    /// The bundle in text: its parameters, partitions and efuses, line by line.
    pub fn to_text(&self) -> (text: String)
        ensures
            text@ == self@.spec_text(),
    {
        let mut text = "Bundle `".to_string();
        text.append(self.name.as_str());
        text.append("` {\n");
        text.append("  Parameters: ");
        text.append(self.params.to_text().as_str());
        text.append("\n");
        text.append("  Partition {\n");
        let ghost head = text@;
        let mut i: usize = 0;
        assert(text@ =~= head + part_lines(self@.parts.take(0)));
        while i < self.parts_mapping.len()
            invariant
                i <= self.parts_mapping@.len(),
                text@ == head + part_lines(self@.parts.take(i as int)),
            decreases self.parts_mapping@.len() - i,
        {
            let ghost next = self@.parts.take(i + 1);
            proof {
                assert(next.drop_last() =~= self@.parts.take(i as int));
                assert(next.last() == self.parts_mapping@[i as int]@);
            }
            text.append("    ");
            text.append(self.parts_mapping[i].to_text().as_str());
            text.append("\n");
            assert(text@ =~= head + part_lines(next));
            i = i + 1;
        }
        assert(self@.parts.take(i as int) =~= self@.parts);
        text.append("  }\n");
        text.append("  eFuse {\n");
        let ghost head = text@;
        let mut i: usize = 0;
        assert(text@ =~= head + efuse_lines(self@.efuses.take(0)));
        while i < self.efuse_mapping.len()
            invariant
                i <= self.efuse_mapping@.len(),
                text@ == head + efuse_lines(self@.efuses.take(i as int)),
            decreases self.efuse_mapping@.len() - i,
        {
            let ghost next = self@.efuses.take(i + 1);
            proof {
                assert(next.drop_last() =~= self@.efuses.take(i as int));
                assert(next.last() == self.efuse_mapping@[i as int]@);
            }
            text.append("    ");
            text.append(self.efuse_mapping[i].to_text().as_str());
            text.append("\n");
            assert(text@ =~= head + efuse_lines(next));
            i = i + 1;
        }
        assert(self@.efuses.take(i as int) =~= self@.efuses);
        text.append("  }\n");
        text.append("}\n");
        text
    }
}

impl PartitionMapping {
    /// Puts the image, where it is to be flashed, at `status`, and returns whether
    /// that changed it.
    fn put_at(&mut self, status: ProvisioningStatus) -> (modified: bool)
        ensures
            final(self)@ == old(self)@.with_status(status),
            modified == old(self)@.status_differs(status),
    {
        if self.partition.is_some() {
            if let Some(image) = &mut self.image {
                if image.status != status {
                    image.status = status;
                    return true;
                }
            }
        }
        false
    }

    /// Erases the partition where no image was to be flashed to it.
    fn fill(&mut self)
        ensures
            final(self)@ == old(self)@.filled(),
    {
        if let Some(partition) = &self.partition {
            if self.image.is_none() {
                self.image = Some(Image::new_empty(partition.size as usize));
            }
        }
    }
}

/// The first mapping that does not fit is the one found.
proof fn lemma_first_oversized(parts: Seq<MappingView>, i: int)
    requires
        0 <= i < parts.len(),
        first_oversized(parts, i as nat) is None,
        !parts[i].fits(),
    ensures
        first_oversized(parts, parts.len()) == Some(i),
{
    lemma_oversized_stays(parts, i, parts.len());
}

proof fn lemma_oversized_stays(parts: Seq<MappingView>, i: int, count: nat)
    requires
        0 <= i < count <= parts.len(),
        first_oversized(parts, i as nat) is None,
        !parts[i].fits(),
    ensures
        first_oversized(parts, count) == Some(i),
    decreases count,
{
    if count > i + 1 {
        lemma_oversized_stays(parts, i, (count - 1) as nat);
    }
}

} // verus!
