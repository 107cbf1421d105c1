use esp_bundle::bundle::Bundle;
use esp_bundle::chip::{Chip, Params};
use esp_bundle::efuse::{Efuse, EfuseMapping};
use esp_bundle::fault::Fault;
use esp_bundle::image::{Image, ImageType, ProvisioningStatus};
use esp_bundle::partition::{Partition, PartitionMapping, PartitionType};
use std::sync::Arc;

fn partition(name: &str, offset: u32) -> Option<Partition> {
    Some(Partition::pseudo(name, offset, 4))
}

fn image(name: &str, data: &[u8]) -> Option<Image> {
    Some(Image::new(name.to_string(), data.to_vec()))
}

fn mapping(partition: Option<Partition>, image: Option<Image>) -> PartitionMapping {
    PartitionMapping { partition, image }
}

fn efuse(name: &str, data: &[u8]) -> EfuseMapping {
    EfuseMapping {
        efuse: Efuse::new(name, Arc::new(data.to_vec())).unwrap(),
        status: ProvisioningStatus::NotStarted,
    }
}

fn bundle(name: &str, parts: Vec<PartitionMapping>, efuses: Vec<EfuseMapping>) -> Bundle {
    Bundle {
        name: name.to_string(),
        params: Params::new(),
        parts_mapping: parts,
        efuse_mapping: efuses,
    }
}

fn base() -> Bundle {
    bundle(
        "base",
        vec![
            mapping(partition("a", 0x1000), image("a", &[1])),
            mapping(partition("b", 0x2000), None),
            mapping(None, image("c", &[3])),
        ],
        vec![efuse("param-X-0x1", &[]), efuse("key-K-P", &[1])],
    )
}

fn contents(bundle: &Bundle) -> Vec<(Option<&str>, Option<(&str, &[u8])>)> {
    bundle
        .parts_mapping
        .iter()
        .map(|mapping| {
            (
                mapping.partition.as_ref().map(|partition| partition.name.as_str()),
                mapping.image.as_ref().map(|image| (image.name.as_str(), image.data.as_slice())),
            )
        })
        .collect()
}

fn efuses(bundle: &Bundle) -> Vec<String> {
    bundle.efuse_mapping.iter().map(|efuse| efuse.to_text()).collect()
}

#[test]
fn adding_fills_what_is_free() {
    let mut merged = base();
    let other = bundle(
        "other",
        vec![mapping(None, image("b", &[2])), mapping(partition("z", 0), image("d", &[4]))],
        vec![efuse("keydigest-K-P", &[2])],
    );
    assert_eq!(merged.add(other, false), Ok(()));
    assert_eq!(merged.name, "base+other");
    assert_eq!(
        contents(&merged),
        vec![
            (Some("a"), Some(("a", &[1][..]))),
            (Some("b"), Some(("b", &[2][..]))),
            (None, Some(("c", &[3][..]))),
            (None, Some(("d", &[4][..]))),
        ]
    );
    assert_eq!(efuses(&merged), vec!["param-X-00000001", "key-K-P", "keydigest-K-P"]);
}

#[test]
fn adding_overwrites_only_when_asked() {
    let other = || {
        bundle(
            "other",
            vec![mapping(None, image("a", &[8])), mapping(None, image("c", &[9]))],
            vec![],
        )
    };
    let mut merged = base();
    assert_eq!(merged.add(other(), false), Err(Fault::ImageExists { name: "a".to_string() }));
    assert_eq!(contents(&merged), contents(&base()));
    assert_eq!(merged.name, "base");
    assert_eq!(merged.add(other(), true), Ok(()));
    assert_eq!(
        contents(&merged),
        vec![
            (Some("a"), Some(("a", &[8][..]))),
            (Some("b"), None),
            (None, Some(("c", &[9][..]))),
        ]
    );
}

#[test]
fn adding_efuses_overwrites_only_when_asked() {
    let other =
        || bundle("other", vec![mapping(None, image("b", &[2]))], vec![efuse("param-X-0x5", &[])]);
    let mut merged = base();
    assert_eq!(
        merged.add(other(), false),
        Err(Fault::EfuseExists { efuse: "param-X-00000005".to_string() })
    );
    assert_eq!(contents(&merged)[1], (Some("b"), Some(("b", &[2][..]))));
    assert_eq!(efuses(&merged), efuses(&base()));
    let mut merged = base();
    assert_eq!(merged.add(other(), true), Ok(()));
    assert_eq!(efuses(&merged), vec!["param-X-00000005", "key-K-P"]);
}

#[test]
fn of_the_same_efuses_the_later_one_is_added() {
    let mut merged = base();
    let other =
        bundle("other", vec![], vec![efuse("param-Y-0x1", &[]), efuse("param-Y-0x2", &[])]);
    assert_eq!(merged.add(other, false), Ok(()));
    assert_eq!(efuses(&merged), vec!["param-X-00000001", "key-K-P", "param-Y-00000002"]);
}

#[test]
fn adding_leaves_no_two_same_efuses() {
    let others = || {
        let names = ["param-X-0x7", "param-Y-0x1", "param-X-0x8", "param-Y-0x2"];
        bundle("other", vec![], names.iter().map(|name| efuse(name, &[])).collect())
    };
    let mut merged = base();
    assert_eq!(merged.add(others(), true), Ok(()));
    let all = &merged.efuse_mapping;
    for i in 0..all.len() {
        for j in i + 1..all.len() {
            assert!(!all[i].efuse.is_same(&all[j].efuse));
        }
    }
    assert_eq!(efuses(&merged), vec!["param-X-00000008", "key-K-P", "param-Y-00000002"]);
}

#[test]
fn bundles_with_other_parameters_are_not_added() {
    let mut merged = base();
    let mut other = base();
    other.params = Params { chip: Chip::Esp32c6, flash_size: None };
    assert_eq!(merged.add(other, true), Err(Fault::ParamsDiffer));
    assert_eq!(merged.to_text(), base().to_text());
}

#[test]
fn added_images_have_to_fit() {
    let mut merged = base();
    let other = bundle("other", vec![mapping(None, image("b", &[0; 5]))], vec![]);
    assert_eq!(
        merged.add(other, false),
        Err(Fault::TooLarge {
            image: "b".to_string(),
            partition: "b".to_string(),
            image_len: 5,
            part_len: 4,
        })
    );
    assert_eq!(merged.name, "base+other");
}

#[test]
fn adding_again_changes_nothing_but_the_name() {
    let other = || {
        bundle(
            "other",
            vec![mapping(None, image("a", &[8])), mapping(None, image("new", &[9]))],
            vec![efuse("param-X-0x3", &[]), efuse("key-N-P", &[1]), efuse("param-X-0x4", &[])],
        )
    };
    let mut merged = base();
    assert_eq!(merged.add(other(), true), Ok(()));
    let once = merged.clone();
    assert_eq!(merged.add(other(), true), Ok(()));
    assert_eq!(contents(&merged), contents(&once));
    assert_eq!(efuses(&merged), vec!["param-X-00000004", "key-K-P", "key-N-P"]);
    assert_eq!(efuses(&merged), efuses(&once));
    assert_eq!(merged.name, "base+other+other");
}

#[test]
fn partitions_without_images_are_erased() {
    let mut filled = base();
    filled.add_empty();
    let erased = filled.parts_mapping[1].image.as_ref().unwrap();
    assert_eq!(erased.ty, ImageType::Empty);
    assert_eq!(*erased.data, vec![0xff; 4]);
    assert_eq!(contents(&filled)[0], contents(&base())[0]);
    assert_eq!(contents(&filled)[2], contents(&base())[2]);
    assert_eq!(filled.check_part_sizes(), Ok(()));
    let once = filled.to_text();
    filled.add_empty();
    assert_eq!(filled.to_text(), once);
}

#[test]
fn flash_data_is_one_piece_for_each_flashed_image() {
    let mut flashed = base();
    flashed.parts_mapping[0].partition.as_mut().unwrap().encrypted = true;
    flashed.parts_mapping.push(mapping(partition("(bootloader)", 0), image("x", &[7, 8])));
    flashed.parts_mapping.push(mapping(partition("(part-table)", 0x800), image("y", &[9])));
    flashed.parts_mapping.push(mapping(partition("d", 0x3000), image("d", &[10])));
    let data = flashed.get_flash_data();
    let pieces: Vec<_> = data
        .iter()
        .map(|piece| (piece.offset, piece.data.as_slice(), piece.encrypted_partition))
        .collect();
    assert_eq!(
        pieces,
        vec![
            (0x1000, &[1][..], true),
            (0, &[7, 8][..], true),
            (0x800, &[9][..], true),
            (0x3000, &[10][..], false),
        ]
    );
}

#[test]
fn a_status_is_set_on_all_flashed_images() {
    let mut set = base();
    assert!(set.set_status_all(ProvisioningStatus::Pending));
    assert_eq!(set.parts_mapping[0].status(), Some(ProvisioningStatus::Pending));
    assert_eq!(set.parts_mapping[1].status(), None);
    let loose = set.parts_mapping[2].image.as_ref().unwrap();
    assert_eq!(loose.status, ProvisioningStatus::NotStarted);
    assert!(!set.set_status_all(ProvisioningStatus::Pending));
    assert!(set.set_status_all(ProvisioningStatus::Done));
}

#[test]
fn a_status_is_set_at_an_offset() {
    let mut set = base();
    set.add_empty();
    assert!(!set.set_status(0x5000, ProvisioningStatus::Done));
    assert!(set.set_status(0x2000, ProvisioningStatus::InProgress(Some(3))));
    assert!(!set.set_status(0x2000, ProvisioningStatus::InProgress(Some(3))));
    assert_eq!(set.parts_mapping[0].status(), Some(ProvisioningStatus::NotStarted));
    assert_eq!(set.parts_mapping[1].status(), Some(ProvisioningStatus::InProgress(Some(3))));
}

#[test]
fn only_complete_bundles_are_bootable() {
    let mut part = base();
    assert!(part.has_part_table());
    assert!(!part.has_bootloader());
    assert!(!part.has_app_image());
    part.parts_mapping[0].partition.as_mut().unwrap().ty = PartitionType::App;
    assert!(part.has_app_image());
    assert!(!part.is_bootable());
    part.parts_mapping.push(mapping(partition("(bootloader)", 0), None));
    assert!(part.has_bootloader());
    assert!(part.is_bootable());
    part.parts_mapping[0].image = None;
    assert!(!part.is_bootable());
    let loose = bundle("loose", vec![mapping(None, image("(bootloader)", &[1]))], vec![]);
    assert!(!loose.has_part_table());
    assert!(!loose.has_bootloader());
}
