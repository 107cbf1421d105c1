use esp_bundle::bundle::Bundle;
use esp_bundle::chip::{Chip, FlashSize, Params};
use esp_bundle::efuse::{Efuse, EfuseMapping};
use esp_bundle::fault::{BundleError, Fault};
use esp_bundle::image::{FlashData, Image, ImageType, ProvisioningStatus};
use esp_bundle::loader::BundleType;
use esp_bundle::partition::{Partition, PartitionMapping, PartitionSubType, PartitionType};
use esp_bundle::payload::Payload;
use std::sync::Arc;

const CHIPS: [(Chip, u32, &str, espflash::targets::Chip, &str); 8] = [
    (Chip::Esp32, 0x1000, "esp32", espflash::targets::Chip::Esp32, "Chip: Esp32"),
    (Chip::Esp32c2, 0, "esp32c2", espflash::targets::Chip::Esp32c2, "Chip: Esp32c2"),
    (Chip::Esp32c3, 0, "esp32c3", espflash::targets::Chip::Esp32c3, "Chip: Esp32c3"),
    (Chip::Esp32c6, 0, "esp32c6", espflash::targets::Chip::Esp32c6, "Chip: Esp32c6"),
    (Chip::Esp32h2, 0, "esp32h2", espflash::targets::Chip::Esp32h2, "Chip: Esp32h2"),
    (Chip::Esp32p4, 0x2000, "esp32p4", espflash::targets::Chip::Esp32p4, "Chip: Esp32p4"),
    (Chip::Esp32s2, 0x1000, "esp32s2", espflash::targets::Chip::Esp32s2, "Chip: Esp32s2"),
    (Chip::Esp32s3, 0, "esp32s3", espflash::targets::Chip::Esp32s3, "Chip: Esp32s3"),
];

#[test]
fn chips_have_their_addresses_and_names() {
    for (chip, addr, name, flash, text) in CHIPS {
        assert_eq!(chip.boot_addr(), addr);
        assert_eq!(chip.as_tools_str(), name);
        assert_eq!(chip.to_text(), name);
        assert_eq!(chip.to_flash_chip(), flash);
        assert_eq!(Params { chip, flash_size: None }.to_text(), text);
    }
}

#[test]
fn params_default_to_esp32_without_a_flash_size() {
    let params = Params::default();
    assert_eq!(params, Params::new());
    assert_eq!(params.chip, Chip::Esp32);
    assert_eq!(params.flash_size, None);
    assert_eq!(params.to_text(), "Chip: Esp32");
}

#[test]
fn params_write_their_flash_size() {
    let params = Params { chip: Chip::Esp32s3, flash_size: Some(FlashSize::_8Mb) };
    assert_eq!(params.to_text(), "Chip: Esp32s3, Flash size: _8Mb");
    let params = Params { chip: Chip::Esp32c3, flash_size: Some(FlashSize::_256Kb) };
    assert_eq!(params.to_text(), "Chip: Esp32c3, Flash size: _256Kb");
}

#[test]
fn payloads_are_provided_or_supplied() {
    assert!(matches!(Payload::new(Some(7), true), Payload::Provided(7)));
    assert!(matches!(Payload::new(Some(7), false), Payload::Provided(7)));
    assert!(matches!(Payload::<u8>::new(None, true), Payload::Default));
    assert!(matches!(Payload::<u8>::new(None, false), Payload::NotProvided));
}

#[test]
fn payloads_ask_for_the_default_only_where_it_is_wanted() {
    let given: Result<Option<u8>, u8> = Payload::Provided(1).into_option(|| Err(9));
    assert_eq!(given, Ok(Some(1)));
    let none: Result<Option<u8>, u8> = Payload::NotProvided.into_option(|| Err(9));
    assert_eq!(none, Ok(None));
    let made: Result<Option<u8>, u8> = Payload::Default.into_option(|| Ok(5));
    assert_eq!(made, Ok(Some(5)));
    let failed: Result<Option<u8>, u8> = Payload::Default.into_option(|| Err(9));
    assert_eq!(failed, Err(9));
}

#[test]
fn statuses_in_text() {
    assert_eq!(ProvisioningStatus::NotStarted.to_text(), "Not started");
    assert_eq!(ProvisioningStatus::Pending.to_text(), "Pending");
    assert_eq!(ProvisioningStatus::InProgress(None).to_text(), "In progress");
    assert_eq!(ProvisioningStatus::InProgress(Some(0)).to_text(), "In progress (0%)");
    assert_eq!(ProvisioningStatus::InProgress(Some(42)).to_text(), "In progress (42%)");
    assert_eq!(ProvisioningStatus::InProgress(Some(255)).to_text(), "In progress (255%)");
    assert_eq!(ProvisioningStatus::Done.to_text(), "Done");
}

#[test]
fn images_in_text() {
    let image = Image::new("app".to_string(), vec![1, 2, 3]);
    assert_eq!(image.ty, ImageType::Binary);
    assert_eq!(image.status, ProvisioningStatus::NotStarted);
    assert_eq!(*image.data, vec![1, 2, 3]);
    assert_eq!(image.to_text(), "app(3B)");
    let image = Image::new_elf("app".to_string(), vec![0; 1024]);
    assert_eq!(image.ty, ImageType::Elf);
    assert_eq!(image.to_text(), "app(1024B ELF)");
    let image = Image::new_empty(4);
    assert_eq!(image.ty, ImageType::Empty);
    assert_eq!(*image.data, vec![0xff; 4]);
    assert_eq!(image.to_text(), "(Empty)(4B Empty)");
    assert_eq!(ImageType::Elf.to_text(), "ELF");
    assert_eq!(ImageType::Binary.to_text(), "Binary");
    assert_eq!(ImageType::Empty.to_text(), "Empty");
}

#[test]
fn flash_data_in_text() {
    let data = FlashData { offset: 0x10000, data: Arc::new(vec![0; 10]), encrypted_partition: false };
    assert_eq!(data.to_text(), "Flash data for addr `0x00010000` (10B)");
    let data = FlashData { offset: 0xfedcba98, data: Arc::new(vec![]), encrypted_partition: true };
    assert_eq!(data.to_text(), "Flash data for addr `0xfedcba98` (0B) (encrypted)");
}

fn row(ty: PartitionType, subtype: PartitionSubType, encrypted: bool) -> Partition {
    Partition { name: "part".to_string(), ty, subtype, offset: 0x9000, size: 0x6000, encrypted }
}

#[test]
fn partitions_in_text() {
    let app = row(PartitionType::App, PartitionSubType::App(0x10), false);
    assert_eq!(app.to_text(), "part(app(ota_0) 0x00009000 24576B)");
    let app = row(PartitionType::App, PartitionSubType::App(0x1f), true);
    assert_eq!(app.to_text(), "part(app(ota_15) 0x00009000 24576B encrypted)");
    let data = row(PartitionType::Data, PartitionSubType::Data(2), false);
    assert_eq!(data.to_text(), "part(data(nvs) 0x00009000 24576B)");
    let custom = row(PartitionType::Custom(0x40), PartitionSubType::Custom(0xab), false);
    assert_eq!(custom.to_text(), "part(0x40(0xab) 0x00009000 24576B)");
    let pseudo = Partition::pseudo("boot", 0x1000, 7);
    assert_eq!(pseudo.to_text(), "boot(0x00(0x00) 0x00001000 7B)");
    assert_eq!(pseudo.duplicate().to_text(), pseudo.to_text());
}

#[test]
fn subtypes_in_text() {
    let names = ["ota", "phy", "nvs", "coredump", "nvs_keys", "efuse", "undefined"];
    for (code, name) in names.iter().enumerate() {
        assert_eq!(PartitionSubType::Data(code as u8).to_text(), *name);
    }
    assert_eq!(PartitionSubType::Data(0x80).to_text(), "esphttpd");
    assert_eq!(PartitionSubType::Data(0x81).to_text(), "fat");
    assert_eq!(PartitionSubType::Data(0x82).to_text(), "spiffs");
    assert_eq!(PartitionSubType::Data(0x83).to_text(), "littlefs");
    assert_eq!(PartitionSubType::App(0).to_text(), "factory");
    assert_eq!(PartitionSubType::App(0x20).to_text(), "test");
    assert_eq!(PartitionSubType::Custom(9).to_text(), "0x09");
}

#[test]
fn mappings_have_a_status_where_they_flash() {
    let mut image = Image::new("a".to_string(), vec![1]);
    image.status = ProvisioningStatus::Pending;
    let partition = Partition::pseudo("a", 0, 1);
    let both = PartitionMapping { partition: Some(partition.duplicate()), image: Some(image.clone()) };
    assert_eq!(both.status(), Some(ProvisioningStatus::Pending));
    assert_eq!(both.to_text(), "a(0x00(0x00) 0x00000000 1B) -> a(1B)");
    let no_image = PartitionMapping { partition: Some(partition), image: None };
    assert_eq!(no_image.status(), None);
    assert_eq!(no_image.to_text(), "a(0x00(0x00) 0x00000000 1B) -> (none)");
    let no_partition = PartitionMapping { partition: None, image: Some(image) };
    assert_eq!(no_partition.status(), None);
    assert_eq!(no_partition.to_text(), "(none) -> a(1B)");
}

fn efuse(name: &str, data: &[u8]) -> Result<Efuse, BundleError> {
    Efuse::new(name, Arc::new(data.to_vec()))
}

fn fault(name: &str, data: &[u8]) -> String {
    efuse(name, data).unwrap_err().to_text()
}

#[test]
fn parameter_efuses_are_read_from_file_names() {
    match efuse("param-DIS_JTAG-0x1F", &[]).unwrap() {
        Efuse::Param { name, value } => {
            assert_eq!(name, "DIS_JTAG");
            assert_eq!(value, 31);
        }
        _ => panic!("not a parameter"),
    }
    match efuse("PaRaM-A-0xffffffff", &[]).unwrap() {
        Efuse::Param { value, .. } => assert_eq!(value, u32::MAX),
        _ => panic!("not a parameter"),
    }
}

#[test]
fn parameter_efuses_are_read_back_behind_0x() {
    for value in [0u32, 1, 0xabc, 0x12345678, u32::MAX] {
        let written = Efuse::Param { name: "X".to_string(), value };
        let text = written.to_text();
        let name = format!("param-X-0x{}", text.strip_prefix("param-X-").unwrap());
        match efuse(&name, &[]).unwrap() {
            Efuse::Param { value: read, .. } => assert_eq!(read, value),
            _ => panic!("not a parameter"),
        }
    }
}

#[test]
fn invalid_parameter_efuses_are_reported() {
    assert_eq!(efuse("param", &[]).unwrap_err(), Fault::EfuseName { name: "param".to_string() });
    assert_eq!(efuse("param-A", &[]).unwrap_err(), Fault::EfuseNoValue { name: "A".to_string() });
    assert_eq!(
        efuse("param-A-12", &[]).unwrap_err(),
        Fault::EfuseValue { value: "12".to_string(), name: "A".to_string() }
    );
    for digits in ["", "+", "xyz", "100000000"] {
        assert_eq!(
            efuse(&format!("param-A-0x{digits}"), &[]).unwrap_err(),
            Fault::EfuseNumber { digits: digits.to_string() }
        );
    }
    assert!(matches!(efuse("param-A-0x+1f", &[]), Ok(Efuse::Param { value: 31, .. })));
    assert_eq!(efuse("param-A-0x1-2", &[]).unwrap_err(), Fault::EfuseName { name: "A".to_string() });
    assert_eq!(
        efuse("param-A-0x1", &[1, 2]).unwrap_err(),
        Fault::EfuseData { name: "A".to_string(), len: 2 }
    );
    assert_eq!(fault("param", &[]), "Invalid efuse name `param`");
    assert_eq!(fault("param-A", &[]), "Invalid efuse value for name `A");
    assert_eq!(fault("param-A-12", &[]), "Invalid efuse value `12` for name `A");
    assert_eq!(
        fault("param-A-0x1", &[1, 2]),
        "Invalid efuse data for efuse `A`: 2 bytes provided, but no data expected"
    );
}

#[test]
fn invalid_numbers_are_reported_as_in_the_standard_library() {
    for digits in [
        "", "+", "g", "xyz", "12g", "100000000", "+100000000", "ffffffffz", "100000000z", "0000000000g",
        "\u{e9}", "++1",
    ] {
        let expected = u32::from_str_radix(digits, 16).unwrap_err().to_string();
        assert_eq!(fault(&format!("param-A-0x{digits}"), &[]), expected);
    }
}

#[test]
fn parameter_efuses_are_read_in_any_digits() {
    for (digits, expected) in [("1f", 31), ("1F", 31), ("0000000001f", 31), ("+1f", 31), ("0", 0)] {
        match efuse(&format!("param-A-0x{digits}"), &[]).unwrap() {
            Efuse::Param { value, .. } => assert_eq!(value, expected),
            _ => panic!("not a parameter"),
        }
    }
}

#[test]
fn keys_and_digests_are_read_from_their_texts() {
    for name in ["key-BLOCK_KEY0-XTS_AES_128_KEY", "keydigest-BLOCK_KEY1-SECURE_BOOT_DIGEST0"] {
        let read = efuse(name, &[1, 2, 3]).unwrap();
        assert_eq!(read.to_text(), name);
        let mapping = EfuseMapping { efuse: read, status: ProvisioningStatus::NotStarted };
        assert_eq!(mapping.to_text(), name);
    }
    match efuse("key-B-P", &[7]).unwrap() {
        Efuse::Key { block, key_value, purpose } => {
            assert_eq!(block, "B");
            assert_eq!(*key_value, vec![7]);
            assert_eq!(purpose, "P");
        }
        _ => panic!("not a key"),
    }
    assert!(matches!(efuse("keydigest-B-P", &[7]), Ok(Efuse::KeyDigest { .. })));
    assert!(matches!(efuse("KeyDigest-B-P", &[7]), Ok(Efuse::KeyDigest { .. })));
    assert!(matches!(efuse("KEY-B-P", &[7]), Ok(Efuse::KeyDigest { .. })));
}

#[test]
fn invalid_keys_are_reported() {
    for name in ["key", "key-B", "key-B-P-Q", "keydigest-B"] {
        assert_eq!(efuse(name, &[1]).unwrap_err(), Fault::EfuseName { name: name.to_string() });
    }
    assert_eq!(efuse("key-B-P", &[]).unwrap_err(), Fault::EfuseEmpty { name: "key-B-P".to_string() });
    assert_eq!(fault("key-B-P", &[]), "Invalid efuse data for efuse `key-B-P`: empty");
    assert_eq!(efuse("", &[]).unwrap_err(), Fault::EfuseType { ty: "".to_string() });
    assert_eq!(efuse("mac-1", &[]).unwrap_err(), Fault::EfuseType { ty: "mac".to_string() });
    assert_eq!(fault("mac-1", &[]), "Invalid efuse type `mac`");
}

#[test]
fn to_be_the_same_efuse_is_an_equivalence() {
    let all = [
        efuse("param-A-0x1", &[]).unwrap(),
        efuse("param-A-0x2", &[]).unwrap(),
        efuse("param-B-0x1", &[]).unwrap(),
        efuse("key-A-P", &[1]).unwrap(),
        efuse("key-A-Q", &[2]).unwrap(),
        efuse("keydigest-A-P", &[1]).unwrap(),
    ];
    let classes = [0, 0, 1, 2, 2, 3];
    for i in 0..all.len() {
        for j in 0..all.len() {
            assert_eq!(all[i].is_same(&all[j]), classes[i] == classes[j]);
        }
    }
    assert_eq!(all[0].name(), "A");
    assert_eq!(all[3].name(), "A");
    assert_eq!(all[5].name(), "A");
    assert_eq!(all[0].to_text(), "param-A-00000001");
}

#[test]
fn bundle_types_are_told_by_suffixes() {
    assert_eq!(BundleType::of_name("fw.bundle"), Some(BundleType::Complete));
    assert_eq!(BundleType::of_name("fw.bin"), Some(BundleType::BinAppImage));
    assert_eq!(BundleType::of_name("fw.elf"), Some(BundleType::ElfAppImage));
    assert_eq!(BundleType::of_name(".bundle"), Some(BundleType::Complete));
    assert_eq!(BundleType::of_name("fw.bundle.bin"), Some(BundleType::BinAppImage));
    assert_eq!(BundleType::of_name("fw"), None);
    assert_eq!(BundleType::of_name(""), None);
    assert_eq!(BundleType::Complete.suffix(), ".bundle");
}

#[test]
fn faults_in_words() {
    let s = || "x".to_string();
    let y = || "y".to_string();
    let faults: [(BundleError, &str); 13] = [
        (Fault::UnknownSuffix { name: s() }, "Bundle name `x` does not end with a known suffix"),
        (Fault::Archive { reason: s() }, "x"),
        (Fault::NoParams, "specified file not found in archive"),
        (Fault::LoadParams { reason: y() }, "Loading params.toml from the ZIP file failed"),
        (Fault::Params { reason: s() }, "x"),
        (Fault::Load { file: s(), reason: y() }, "Loading `x` from the ZIP file failed"),
        (Fault::PartTable { reason: y() }, "Parsing CSV partition table failed"),
        (Fault::Elf { reason: s() }, "x"),
        (Fault::Bootloader { reason: s() }, "x"),
        (
            Fault::ElfNotApp { partition: s() },
            "Partition `x` is not of type 'App', but an ELF image was provided",
        ),
        (
            Fault::TooLarge { image: s(), partition: y(), image_len: 10, part_len: 9 },
            "Image `x` is too large for partition `y` (10B > 9B)",
        ),
        (Fault::ImageExists { name: s() }, "Image for mapping `x` already exists"),
        (Fault::EfuseExists { efuse: s() }, "Efuse `x` already exists"),
    ];
    for (fault, text) in faults {
        assert_eq!(fault.to_text(), text);
        let caused = matches!(
            fault,
            Fault::LoadParams { .. } | Fault::Load { .. } | Fault::PartTable { .. }
        );
        assert_eq!(fault.cause(), caused.then_some("y"));
    }
    assert_eq!(
        Fault::<String>::ParamsDiffer.to_text(),
        "Cannot merge bundles with different parameters"
    );
}

#[test]
fn bundles_in_text() {
    let bundle = Bundle {
        name: "demo".to_string(),
        params: Params::new(),
        parts_mapping: vec![
            PartitionMapping {
                partition: Some(Partition::pseudo("a", 0x1000, 16)),
                image: Some(Image::new("a".to_string(), vec![0; 3])),
            },
            PartitionMapping { partition: None, image: Some(Image::new("b".to_string(), vec![])) },
        ],
        efuse_mapping: vec![EfuseMapping {
            efuse: efuse("param-A-0x10", &[]).unwrap(),
            status: ProvisioningStatus::NotStarted,
        }],
    };
    let text = "Bundle `demo` {\n  Parameters: Chip: Esp32\n  Partition {\n    a(0x00(0x00) 0x00001000 16B) -> a(3B)\n    (none) -> b(0B)\n  }\n  eFuse {\n    param-A-00000010\n  }\n}\n";
    assert_eq!(bundle.to_text(), text);
}
