use esp_bundle::bundle::Bundle;
use esp_bundle::chip::{Chip, FlashSize, Params};
use esp_bundle::efuse::Efuse;
use esp_bundle::fault::Fault;
use esp_bundle::image::{Image, ImageType, ProvisioningStatus};
use esp_bundle::partition::{PartitionMapping, PartitionSubType, PartitionType};
use esp_bundle::payload::Payload;
use esp_bundle::table::{check_place, PartTable};
use esp_bundle::table_text::check_sound;
use esp_bundle::tools::Tools;
use std::io::{Cursor, Read, Write};
use std::sync::Arc;
use zip::write::SimpleFileOptions;

type Elf2Bin = fn(&[u8], Chip) -> Result<Vec<u8>, String>;
type DefaultBootloader = fn(Chip, Option<FlashSize>) -> Result<Vec<u8>, String>;
type ReadParams = fn(&str) -> Result<Params, String>;

/// An ELF file is made into its bytes in reverse.
fn elf2bin(elf: &[u8], chip: Chip) -> Result<Vec<u8>, String> {
    if elf.starts_with(b"bad") {
        Err(format!("no image for {}", chip.as_tools_str()))
    } else {
        Ok(elf.iter().rev().copied().collect())
    }
}

/// A bootloader is the name of its chip, which ESP32-P4 has none for.
fn default_bootloader(chip: Chip, flash_size: Option<FlashSize>) -> Result<Vec<u8>, String> {
    match (chip, flash_size) {
        (Chip::Esp32p4, _) => Err("no bootloader".to_string()),
        (chip, None) => Ok(chip.as_tools_str().as_bytes().to_vec()),
        (chip, Some(_)) => Ok(format!("{}+", chip.as_tools_str()).into_bytes()),
    }
}

/// Parameters are written by the name of the chip.
fn read_params(text: &str) -> Result<Params, String> {
    match text.trim() {
        "esp32" => Ok(Params::new()),
        "esp32s3" => Ok(Params { chip: Chip::Esp32s3, flash_size: Some(FlashSize::_4Mb) }),
        other => Err(format!("unknown chip {other}")),
    }
}

fn tools() -> Tools<Elf2Bin, DefaultBootloader, ReadParams> {
    Tools::new(elf2bin, default_bootloader, read_params)
}

fn image(name: &str, data: &[u8]) -> Image {
    Image::new(name.to_string(), data.to_vec())
}

fn place(mapping: &PartitionMapping) -> (String, u32, u32) {
    let partition = mapping.partition.as_ref().unwrap();
    (partition.name.clone(), partition.offset, partition.size)
}

fn image_of(mapping: &PartitionMapping) -> Option<(String, Vec<u8>)> {
    mapping.image.as_ref().map(|image| (image.name.clone(), image.data.to_vec()))
}

const TABLE: &str = "# Name, Type, SubType, Offset, Size, Flags
nvs, data, nvs, 0x9000, 0x6000,
app, app, factory, 0x10000, 64K, encrypted
store, 0x40, 0x07, , 4K
";

fn from_table(
    table: &str,
    bootloader: Payload<Image>,
    images: Vec<Image>,
) -> Result<Bundle, esp_bundle::fault::BundleError> {
    assert!(check_place(table, Some(Params::new().chip.boot_addr())));
    Bundle::from_parts(
        "demo".to_string(),
        Params::new(),
        Payload::Provided(table),
        bootloader,
        images,
        Vec::new(),
        &tools(),
    )
}

#[test]
fn the_default_table_is_laid_out_as_documented() {
    let table = PartTable::new(Payload::Default).unwrap().unwrap();
    assert_eq!(table.offset, 0xf000);
    let rows: Vec<_> = table
        .rows
        .iter()
        .map(|row| (row.name.as_str(), row.ty, row.subtype, row.offset, row.size, row.encrypted))
        .collect();
    let app = |code| (PartitionType::App, PartitionSubType::App(code));
    let data = |code| (PartitionType::Data, PartitionSubType::Data(code));
    let expected: Vec<_> = [
        ("ota_0", app(0x10), 0x10000, 0x1e1000),
        ("nvs", data(2), 0x1f1000, 0x8000),
        ("nvs_keys", data(4), 0x1f9000, 0x1000),
        ("phy_init", data(1), 0x1fa000, 0x1000),
        ("extra_0", data(6), 0x1fb000, 0x5000),
        ("ota_1", app(0x11), 0x200000, 0x1e1000),
        ("nvs_bm", data(6), 0x3e1000, 0x8000),
        ("otadata", data(0), 0x3e9000, 0x2000),
        ("extra_1", data(6), 0x3eb000, 0x5000),
    ]
    .into_iter()
    .map(|(name, (ty, subtype), offset, size)| (name, ty, subtype, offset, size, false))
    .collect();
    assert_eq!(rows, expected);
    for row in &table.rows {
        if row.ty == PartitionType::App {
            assert_eq!(row.offset % 0x10000, 0);
            assert_eq!((row.size - 4096) % 0x10000, 0);
        }
        assert!(row.offset + row.size <= 4 * 1024 * 1024);
    }
    assert_eq!(table.image.name, Bundle::PART_TABLE_NAME);
    assert_eq!(table.image.data.len(), 0xc00);
    assert_eq!(table.image.data[..4], [0xaa, 0x50, 0x00, 0x10]);
    assert_eq!(table.image.data[4..8], 0x10000u32.to_le_bytes());
    assert!(check_place(Bundle::DEFAULT_PART_TABLE, Some(0x2000)));
}

#[test]
fn the_default_table_does_not_break_the_reader() {
    assert!(check_sound(Bundle::DEFAULT_PART_TABLE));
}

#[test]
fn no_table_is_no_table() {
    assert!(PartTable::new(Payload::NotProvided).unwrap().is_none());
}

fn table_error(table: &str) -> String {
    esp_idf_part::PartitionTable::try_from_str(table).unwrap_err().to_string()
}

#[test]
fn invalid_tables_are_reported() {
    for table in ["", "nvs, data, nvs, 0x9000, 0x6000,", "app, app, factory, 0x11000, 64K", "a, b"] {
        assert!(check_place(table, None));
        let fault = PartTable::new(Payload::Provided(table)).unwrap_err();
        assert_eq!(fault, Fault::PartTable { reason: table_error(table) });
        assert_eq!(fault.cause(), Some(table_error(table).as_str()));
    }
}

#[test]
fn the_parts_are_put_in_order() {
    let images = vec![image("app", &[1, 2]), image("other", &[3]), image("nvs", &[4])];
    let bundle = from_table(TABLE, Payload::Provided(image("(bootloader)", &[9])), images).unwrap();
    assert_eq!(bundle.name, "demo");
    let parts = &bundle.parts_mapping;
    assert_eq!(parts.len(), 6);
    assert_eq!(place(&parts[0]), ("(bootloader)".to_string(), 0x1000, 0x7000));
    assert_eq!(image_of(&parts[0]), Some(("(bootloader)".to_string(), vec![9])));
    assert_eq!(place(&parts[1]), ("(part-table)".to_string(), 0x8000, 0x1000));
    assert_eq!(parts[1].image.as_ref().unwrap().data.len(), 0xc00);
    assert_eq!(place(&parts[2]), ("nvs".to_string(), 0x9000, 0x6000));
    assert_eq!(image_of(&parts[2]), Some(("nvs".to_string(), vec![4])));
    assert_eq!(place(&parts[3]), ("app".to_string(), 0x10000, 0x10000));
    assert_eq!(image_of(&parts[3]), Some(("app".to_string(), vec![1, 2])));
    assert!(parts[3].partition.as_ref().unwrap().encrypted);
    assert_eq!(place(&parts[4]), ("store".to_string(), 0x20000, 0x1000));
    assert_eq!(parts[4].partition.as_ref().unwrap().ty, PartitionType::Custom(0x40));
    assert_eq!(parts[4].partition.as_ref().unwrap().subtype, PartitionSubType::Custom(7));
    assert_eq!(image_of(&parts[4]), None);
    assert!(parts[5].partition.is_none());
    assert_eq!(image_of(&parts[5]), Some(("other".to_string(), vec![3])));
    assert!(bundle.is_bootable());
}

#[test]
fn the_bootloader_the_table_and_the_first_partition_follow_each_other() {
    let bundle = from_table(TABLE, Payload::Default, Vec::new()).unwrap();
    let (_, boot_offset, boot_size) = place(&bundle.parts_mapping[0]);
    let (_, table_offset, table_size) = place(&bundle.parts_mapping[1]);
    let (_, first_offset, _) = place(&bundle.parts_mapping[2]);
    assert_eq!(boot_offset, Chip::Esp32.boot_addr());
    assert_eq!(boot_offset + boot_size, table_offset);
    assert_eq!(table_offset + table_size, first_offset);
}

#[test]
fn the_last_image_of_a_name_counts_and_none_is_lost() {
    let images = vec![image("app", &[1]), image("x", &[2]), image("app", &[3]), image("x", &[4])];
    let bundle = from_table(TABLE, Payload::NotProvided, images).unwrap();
    let mut names: Vec<_> = bundle.parts_mapping.iter().filter_map(image_of).collect();
    names.retain(|(name, _)| name != "(part-table)");
    assert_eq!(names, vec![("app".to_string(), vec![3]), ("x".to_string(), vec![4])]);
}

#[test]
fn elf_images_go_to_app_partitions_only() {
    let elf = |name: &str| Image::new_elf(name.to_string(), vec![1]);
    let bundle = from_table(TABLE, Payload::NotProvided, vec![elf("app"), elf("loose")]).unwrap();
    assert_eq!(bundle.parts_mapping[2].image.as_ref().unwrap().ty, ImageType::Elf);
    let fault = from_table(TABLE, Payload::NotProvided, vec![elf("store"), elf("nvs")]).unwrap_err();
    assert_eq!(fault, Fault::ElfNotApp { partition: "nvs".to_string() });
    let fault = from_table(TABLE, Payload::NotProvided, vec![elf("store")]).unwrap_err();
    assert_eq!(fault, Fault::ElfNotApp { partition: "store".to_string() });
}

#[test]
fn images_have_to_fit() {
    let fits = vec![image("store", &[0; 4096])];
    assert!(from_table(TABLE, Payload::NotProvided, fits).is_ok());
    let images = vec![image("store", &[0; 4097]), image("app", &[0; 0x10001])];
    let fault = from_table(TABLE, Payload::NotProvided, images).unwrap_err();
    assert_eq!(
        fault,
        Fault::TooLarge {
            image: "app".to_string(),
            partition: "app".to_string(),
            image_len: 0x10001,
            part_len: 0x10000,
        }
    );
    let boot = Payload::Provided(image("(bootloader)", &[0; 0x7001]));
    assert!(matches!(from_table(TABLE, boot, Vec::new()), Err(Fault::TooLarge { .. })));
}

#[test]
fn a_table_is_read_before_a_bootloader_is_made() {
    let params = Params { chip: Chip::Esp32p4, flash_size: None };
    let make = |table: &'static str| {
        Bundle::from_parts(
            "demo".to_string(),
            params,
            Payload::Provided(table),
            Payload::Default,
            Vec::new(),
            Vec::new(),
            &tools(),
        )
    };
    assert_eq!(make("").unwrap_err(), Fault::PartTable { reason: table_error("") });
    assert_eq!(make(TABLE).unwrap_err(), Fault::Bootloader { reason: "no bootloader".to_string() });
}

#[test]
fn efuses_are_still_to_be_programmed() {
    let efuse = Efuse::new("key-B-XTS_AES_128_KEY", Arc::new(vec![5, 6])).unwrap();
    let other = Efuse::new("key-C-OTHER", Arc::new(vec![7])).unwrap();
    let bundle = Bundle::from_parts(
        "demo".to_string(),
        Params::new(),
        Payload::NotProvided,
        Payload::Default,
        Vec::new(),
        vec![efuse, other],
        &tools(),
    )
    .unwrap();
    assert_eq!(bundle.efuse_mapping.len(), 2);
    assert_eq!(bundle.efuse_mapping[0].status, ProvisioningStatus::NotStarted);
    assert_eq!(bundle.get_flash_encrypt_keys(), vec![&[5u8, 6][..]]);
    assert!(bundle.parts_mapping[0].partition.is_none());
    assert_eq!(image_of(&bundle.parts_mapping[0]), Some(("(bootloader)".to_string(), b"esp32".to_vec())));
    assert!(!bundle.has_part_table());
    assert!(!bundle.has_bootloader());
}

fn create(
    name: &str,
    content: Vec<u8>,
    table: bool,
    bootloader: bool,
) -> Option<Result<Bundle, esp_bundle::fault::BundleError>> {
    Bundle::create_checked(name.to_string(), Params::new(), content, table, bootloader, &tools())
}

#[test]
fn binary_app_images_go_to_ota_1() {
    let bundle = create("fw.bin", vec![1, 2, 3], true, true).unwrap().unwrap();
    assert!(bundle.is_bootable());
    assert_eq!(bundle.params, Params::new());
    assert_eq!(bundle.parts_mapping.len(), 11);
    assert_eq!(place(&bundle.parts_mapping[0]), ("(bootloader)".to_string(), 0x1000, 0xe000));
    let app = &bundle.parts_mapping[7];
    assert_eq!(place(app).0, "ota_1");
    assert_eq!(app.image.as_ref().unwrap().ty, ImageType::Binary);
    assert_eq!(image_of(app), Some(("ota_1".to_string(), vec![1, 2, 3])));

    let bundle = create("fw.bin", vec![1], true, false).unwrap().unwrap();
    assert_eq!(bundle.parts_mapping.len(), 10);
    assert!(!bundle.is_bootable());
    let bundle = create("fw.bin", vec![1], false, false).unwrap().unwrap();
    assert_eq!(bundle.parts_mapping.len(), 1);
    assert!(bundle.parts_mapping[0].partition.is_none());
}

#[test]
fn a_bootloader_is_made_for_the_flash_size() {
    let params = Params { chip: Chip::Esp32c3, flash_size: Some(FlashSize::_2Mb) };
    let bundle =
        Bundle::from_bin_app_image("fw".to_string(), params, &[1], true, true, &tools()).unwrap();
    assert_eq!(place(&bundle.parts_mapping[0]), ("(bootloader)".to_string(), 0, 0xf000));
    assert_eq!(image_of(&bundle.parts_mapping[0]).unwrap().1, b"esp32c3+".to_vec());
}

#[test]
fn elf_app_images_are_converted() {
    let bundle = create("fw.elf", vec![1, 2, 3], true, true).unwrap().unwrap();
    let app = bundle.parts_mapping[7].image.as_ref().unwrap();
    assert_eq!(app.ty, ImageType::Elf);
    assert_eq!(*app.data, vec![3, 2, 1]);
    let fault = create("fw.elf", b"bad".to_vec(), true, true).unwrap().unwrap_err();
    assert_eq!(fault, Fault::Elf { reason: "no image for esp32".to_string() });
}

#[test]
fn unknown_suffixes_are_reported() {
    let fault = create("fw.zip", Vec::new(), true, true).unwrap().unwrap_err();
    assert_eq!(fault, Fault::UnknownSuffix { name: "fw.zip".to_string() });
}

fn archive(files: &[(&str, &[u8])]) -> Vec<u8> {
    let mut writer = zip::ZipWriter::new(Cursor::new(Vec::new()));
    for (i, (name, data)) in files.iter().enumerate() {
        let method = if i % 2 == 0 {
            zip::CompressionMethod::Deflated
        } else {
            zip::CompressionMethod::Stored
        };
        let options = SimpleFileOptions::default().compression_method(method);
        if name.ends_with('/') {
            writer.add_directory(*name, options).unwrap();
        } else {
            writer.start_file(*name, options).unwrap();
            writer.write_all(data).unwrap();
        }
    }
    writer.finish().unwrap().into_inner()
}

#[test]
fn zip_bundles_are_unpacked() {
    let content = archive(&[
        ("images/", b""),
        ("images/app", b"fle"),
        ("params.toml", b"esp32s3"),
        ("partition-table.csv", TABLE.as_bytes()),
        ("bootloader.bin", b"boot"),
        ("images/nvs.bin", b"data"),
        ("images/sub/loose.bin.bin", b"x"),
        ("efuses/", b""),
        ("efuses/param-A-0x2", b""),
        ("efuses/key-B-P", b"key"),
        ("readme.txt", b"hello"),
    ]);
    let bundle = create("fw.bundle", content, false, false).unwrap().unwrap();
    assert_eq!(bundle.name, "fw.bundle");
    assert_eq!(bundle.params, Params { chip: Chip::Esp32s3, flash_size: Some(FlashSize::_4Mb) });
    let parts = &bundle.parts_mapping;
    assert_eq!(parts.len(), 6);
    assert_eq!(place(&parts[0]), ("(bootloader)".to_string(), 0, 0x8000));
    assert_eq!(image_of(&parts[0]), Some(("(bootloader)".to_string(), b"boot".to_vec())));
    assert_eq!(image_of(&parts[2]), Some(("nvs".to_string(), b"data".to_vec())));
    assert_eq!(parts[2].image.as_ref().unwrap().ty, ImageType::Binary);
    assert_eq!(image_of(&parts[3]), Some(("app".to_string(), b"elf".to_vec())));
    assert_eq!(parts[3].image.as_ref().unwrap().ty, ImageType::Elf);
    assert_eq!(image_of(&parts[5]), Some(("sub/loose".to_string(), b"x".to_vec())));
    let efuses: Vec<_> = bundle.efuse_mapping.iter().map(|efuse| efuse.to_text()).collect();
    assert_eq!(efuses, vec!["param-A-00000002", "key-B-P"]);
}

#[test]
fn missing_parts_of_zip_bundles_are_supplied() {
    let content = archive(&[("params.toml", b"esp32")]);
    let bundle = create("fw.bundle", content.clone(), true, true).unwrap().unwrap();
    assert_eq!(bundle.parts_mapping.len(), 11);
    assert_eq!(image_of(&bundle.parts_mapping[0]).unwrap().1, b"esp32".to_vec());
    let bundle = create("fw.bundle", content, false, false).unwrap().unwrap();
    assert_eq!(bundle.parts_mapping.len(), 0);
}

/// What reading a text from an archive reports.
fn text_error(content: &[u8], name: &str) -> String {
    let mut zip = zip::ZipArchive::new(Cursor::new(content)).unwrap();
    let mut file = zip.by_name(name).unwrap();
    file.read_to_string(&mut String::new()).unwrap_err().to_string()
}

#[test]
fn faulty_zip_bundles_are_reported() {
    let fault = |content: Vec<u8>| create("fw.bundle", content, true, true).unwrap().unwrap_err();
    let reason = zip::ZipArchive::new(Cursor::new(b"no archive")).unwrap_err().to_string();
    assert_eq!(fault(b"no archive".to_vec()), Fault::Archive { reason });
    let content = archive(&[("params.toml", &[0xff, 0xfe])]);
    let reason = text_error(&content, "params.toml");
    assert_eq!(fault(content), Fault::LoadParams { reason });
    assert_eq!(
        fault(archive(&[("params.toml", b"z80")])),
        Fault::Params { reason: "unknown chip z80".to_string() }
    );
    let content = archive(&[("params.toml", b"esp32"), ("partition-table.csv", &[0xff])]);
    let reason = text_error(&content, "partition-table.csv");
    assert_eq!(fault(content), Fault::Load { file: "partition-table.csv".to_string(), reason });
    assert_eq!(
        fault(archive(&[("params.toml", b"esp32"), ("partition-table.csv", b"x")])),
        Fault::PartTable { reason: table_error("x") }
    );
    assert_eq!(
        fault(archive(&[("params.toml", b"esp32"), ("images/ota_0", b"bad")])),
        Fault::Elf { reason: "no image for esp32".to_string() }
    );
    assert_eq!(
        fault(archive(&[("params.toml", b"esp32"), ("images/nvs", b"elf")])),
        Fault::ElfNotApp { partition: "nvs".to_string() }
    );
    assert_eq!(
        fault(archive(&[("params.toml", b"esp32"), ("efuses/odd", b"")])),
        Fault::EfuseType { ty: "odd".to_string() }
    );
    let both = [("efuses/odd", &b""[..]), ("images/x", b"bad"), ("params.toml", b"esp32")];
    assert!(matches!(fault(archive(&both)), Fault::Elf { .. }));
}

#[test]
fn default_parameters_stand_in_for_missing_ones() {
    let files = [
        ("images/app.bin", &b"app"[..]),
        ("partition-table.csv", TABLE.as_bytes()),
        ("efuses/param-A-0x2", b""),
    ];
    let made = |params: Params, content: Vec<u8>| {
        let name = "fw.bundle".to_string();
        Bundle::create_checked(name, params, content, true, true, &tools()).unwrap().unwrap()
    };
    let params = Params { chip: Chip::Esp32s3, flash_size: Some(FlashSize::_4Mb) };
    let without = made(params, archive(&files));
    assert_eq!(without.params, params);
    assert_eq!(place(&without.parts_mapping[0]), ("(bootloader)".to_string(), 0, 0x8000));
    let mut more = files.to_vec();
    more.push(("params.toml", b"esp32s3"));
    let with = made(Params::new(), archive(&more));
    assert_eq!(with.params, params);
    assert_eq!(without.to_text(), with.to_text());
    assert_eq!(image_of(&without.parts_mapping[0]), image_of(&with.parts_mapping[0]));

    let mut zip = zip::ZipArchive::new(Cursor::new(archive(&files))).unwrap();
    let made = Bundle::from_zip_bundle_checked("fw".to_string(), &mut zip, true, true, &tools());
    assert_eq!(made.unwrap().unwrap_err(), Fault::NoParams);
}

#[test]
fn other_files_in_zip_bundles_do_not_matter() {
    let files = [
        ("params.toml", &b"esp32"[..]),
        ("images/ota_0.bin", b"app"),
        ("images/loose.bin", b"x"),
        ("efuses/param-A-0x2", b""),
    ];
    let mut more = files.to_vec();
    more.insert(0, ("readme.txt", b"hello"));
    more.insert(2, ("images/", b""));
    more.insert(3, ("other/images/ota_1.bin", b"no"));
    more.push(("efuses", b"no"));
    let made = |files: &[(&str, &[u8])]| create("fw.bundle", archive(files), true, true).unwrap();
    assert_eq!(made(&files).unwrap().to_text(), made(&more).unwrap().to_text());
    more.push(("efuses/odd", b"no"));
    assert!(made(&more).is_err());
}

#[test]
fn defaults_do_not_replace_files_of_zip_bundles() {
    let content = archive(&[
        ("params.toml", b"esp32"),
        ("partition-table.csv", TABLE.as_bytes()),
        ("bootloader.bin", b"boot"),
    ]);
    for (table, bootloader) in [(false, false), (false, true), (true, false), (true, true)] {
        let bundle = create("fw.bundle", content.clone(), table, bootloader).unwrap().unwrap();
        assert_eq!(bundle.parts_mapping.len(), 5);
        assert_eq!(image_of(&bundle.parts_mapping[0]).unwrap().1, b"boot".to_vec());
        assert_eq!(place(&bundle.parts_mapping[2]).0, "nvs");
    }
}

#[test]
fn a_bundle_boots_with_an_image_for_an_app_partition_only() {
    let boot = || Payload::Provided(image("(bootloader)", &[9]));
    assert!(!from_table(TABLE, boot(), vec![image("nvs", &[1])]).unwrap().has_app_image());
    assert!(from_table(TABLE, boot(), vec![image("app", &[1])]).unwrap().is_bootable());
    let bundle = from_table(TABLE, Payload::NotProvided, vec![image("app", &[1])]).unwrap();
    assert!(bundle.has_app_image());
    assert!(!bundle.has_bootloader());
}

#[test]
fn damaged_entries_are_reported() {
    let mut content = archive(&[("images/a.bin", b""), ("images/b.bin", b"payload"), ("params.toml", b"esp32")]);
    let at = content.windows(7).position(|bytes| bytes == b"payload").unwrap();
    content[at] = b'P';
    let fault = create("fw.bundle", content, true, true).unwrap().unwrap_err();
    let reason = "Invalid checksum".to_string();
    assert_eq!(fault, Fault::Load { file: "images/b.bin".to_string(), reason });
    assert_eq!(fault.to_text(), "Loading `images/b.bin` from the ZIP file failed");
    assert_eq!(fault.cause(), Some("Invalid checksum"));
}

#[test]
fn damaged_texts_are_reported() {
    let damaged = |files: &[(&str, &[u8])], old: &[u8]| {
        let mut content = archive(files);
        let at = content.windows(old.len()).position(|bytes| bytes == old).unwrap();
        content[at] = b'_';
        create("fw.bundle", content, true, true).unwrap().unwrap_err()
    };
    let reason = || "Invalid checksum".to_string();
    let files = [("images/a.bin", &b""[..]), ("params.toml", b"esp32")];
    let fault = damaged(&files, b"esp32");
    assert_eq!(fault, Fault::LoadParams { reason: reason() });
    assert_eq!(fault.to_text(), "Loading params.toml from the ZIP file failed");
    let files = [("params.toml", &b"esp32"[..]), ("partition-table.csv", TABLE.as_bytes())];
    let fault = damaged(&files, TABLE.as_bytes());
    let file = "partition-table.csv".to_string();
    assert_eq!(fault, Fault::Load { file, reason: reason() });
}

/// Marks a file of an archive as one that takes a password to open.
fn lock(content: &mut [u8], name: &str) {
    let entry = content
        .windows(46 + name.len())
        .position(|entry| entry.starts_with(b"PK\x01\x02") && entry[46..] == *name.as_bytes())
        .unwrap();
    content[entry + 8] |= 1;
}

#[test]
fn files_that_cannot_be_opened_are_reported() {
    let fault = |name: &str| {
        let mut content = archive(&[
            ("params.toml", b"esp32"),
            ("partition-table.csv", TABLE.as_bytes()),
            ("bootloader.bin", b"boot"),
            ("images/app.bin", b"app"),
            ("efuses/param-A-0x2", b""),
        ]);
        lock(&mut content, name);
        let mut zip = zip::ZipArchive::new(Cursor::new(content.clone())).unwrap();
        let reason = zip.by_name(name).err().unwrap().to_string();
        let fault = create("fw.bundle", content, true, true).unwrap().unwrap_err();
        (fault, reason)
    };
    let (found, reason) = fault("params.toml");
    assert_eq!(reason, "unsupported Zip archive: Password required to decrypt file");
    assert_eq!(found.to_text(), reason);
    assert_eq!(found.cause(), None);
    assert_eq!(found, Fault::Archive { reason });
    let (found, reason) = fault("partition-table.csv");
    assert_eq!(found.to_text(), "Loading `params.toml` from the ZIP file failed");
    assert_eq!(found, Fault::Load { file: "params.toml".to_string(), reason });
    for name in ["bootloader.bin", "images/app.bin", "efuses/param-A-0x2"] {
        let (found, reason) = fault(name);
        assert_eq!(found, Fault::Load { file: name.to_string(), reason });
    }
}

#[test]
fn zip_bundles_can_be_made_from_open_archives() {
    let content = archive(&[("params.toml", b"esp32"), ("images/ota_0.bin", b"app")]);
    let mut zip = zip::ZipArchive::new(Cursor::new(content)).unwrap();
    let name = "fw".to_string();
    let bundle = Bundle::from_zip_bundle(name, &mut zip, true, false, &tools()).unwrap();
    assert_eq!(image_of(&bundle.parts_mapping[1]), Some(("ota_0".to_string(), b"app".to_vec())));
}

#[test]
fn tables_without_a_place_are_not_used() {
    let made = |table: &str, bootloader: bool| {
        let files = [("params.toml", &b"esp32"[..]), ("partition-table.csv", table.as_bytes())];
        create("fw.bundle", archive(&files), false, bootloader)
    };
    assert!(made("app, app, factory, 0x10000, 64K", true).is_some());
    assert!(made("app, app, factory, 0, 64K", false).is_none());
    assert!(made("d, data, nvs, 0x1000, 4K\napp, app, factory, 0x10000, 64K", false).is_some());
    assert!(made("d, data, nvs, 0x1000, 4K\napp, app, factory, 0x10000, 64K", true).is_none());
    assert!(made("d, data, nvs, 0x2000, 4K\napp, app, factory, 0x10000, 64K", true).is_some());
    assert!(made("app, app, nvs, 0x10000, 64K", false).is_none());
    assert!(made("app, data, 0x99, 0x10000, 64K", false).is_none());
    assert!(made("app, app, factory, 0xffff0000, 64K", false).is_none());
    assert!(made("app, app, factory, , 99999999999M", false).is_none());
    let many: String = (0..96).map(|i| format!("a{i}, app, ota_0, , 4K\n")).collect();
    assert!(made(&many, false).is_none());
    let fewer: String = (0..95).map(|i| format!("a{i}, app, ota_0, , 4K\n")).collect();
    let bundle = made(&fewer, false).unwrap().unwrap();
    assert_eq!(bundle.parts_mapping.len(), 96);
}

#[test]
fn tables_may_have_quotes_and_a_byte_order_mark() {
    let quoted = "\u{feff}\"nvs\",\"data\", nvs ,\"0x9000\",0x6000\r\n\"app\",app,\" factory \",,64K,encrypted";
    let bundle = from_table(quoted, Payload::NotProvided, Vec::new()).unwrap();
    assert_eq!(place(&bundle.parts_mapping[1]), ("nvs".to_string(), 0x9000, 0x6000));
    assert_eq!(place(&bundle.parts_mapping[2]), ("app".to_string(), 0x10000, 0x10000));
    assert!(bundle.parts_mapping[2].partition.as_ref().unwrap().encrypted);
}

fn reads(table: &str) -> Option<bool> {
    check_place(table, None).then(|| PartTable::new(Payload::Provided(table)).is_ok())
}

#[test]
fn only_tables_that_break_the_reader_are_refused() {
    // Quoted cells may hold commas, quotes and line ends
    assert_eq!(reads("\"a,b\", app, factory, , 64K"), Some(true));
    assert_eq!(reads("\"a\nb\",app,factory,,64K"), Some(true));
    assert_eq!(reads("\"a\"\"b\",\"app\" ,factory,,\"64K"), Some(true));
    assert_eq!(reads("\"a,app,nvs,,64K"), Some(false));
    assert_eq!(reads("a\"b\", app, factory, , 64K"), Some(true));
    assert_eq!(reads("\"a\",app,\"nvs\",,64K"), None);
    assert_eq!(reads("\"a\",app, \"nvs\",,64K"), Some(false));
    // Other blanks and characters
    assert_eq!(reads("\u{e4}, app, factory, , 64K"), Some(true));
    assert_eq!(reads("a,\u{a0}app\u{3000},factory\u{2009},\u{85},\u{2028}64K"), Some(true));
    assert_eq!(reads("a, \u{e4}pp, nvs, , 64K"), Some(false));
    assert_eq!(reads("a, app, f\u{e4}ctory, , 64K"), Some(false));
    assert_eq!(reads("a, app, factory, , \u{e4}K"), Some(false));
    assert_eq!(reads("a, app, factory, , \u{661}4"), Some(false));
    assert_eq!(reads("a, app, factory, , \u{661}K"), None);
    assert_eq!(reads("a, app, factory, , 64\u{212a}"), None);
    assert_eq!(reads("a, app, factory, , \u{1d7ff}m"), None);
    // The partitions are counted where they end
    let high = "a, app, ota_0, 0x80000000, 64K\nb, app, ota_1, 0x10000, 64K\nc, app, ota_2, 0xfff00000, 64K";
    assert_eq!(reads(high), Some(true));
    assert_eq!(reads("a, app, ota_0, 0xfffe0000, 64K\nb, app, ota_1, , 64K"), None);
    assert_eq!(reads("a, data, nvs, 0xfffe0000, 4K\nb, app, ota_1, , 0"), Some(true));
    assert_eq!(reads("a, data, nvs, 0xffff0000, 4K\nb, app, ota_1, , 0"), None);
    let blank = "\n\r\n".repeat(70_000) + "a, app, factory, , 64K";
    assert_eq!(reads(&blank), Some(true));
    // Nothing is read behind a row that is wrong
    assert_eq!(reads("a, b\nb, app, nvs, , 64K"), Some(false));
    assert_eq!(reads("a, app, factory, x, 99999999M"), Some(false));
    assert_eq!(reads("a, app, factory, 99999999M, x"), None);
    assert_eq!(reads("a, app, nvs, , 64K\nb, c"), None);
    assert_eq!(reads("a, data, test"), Some(false));
    assert_eq!(reads("a, data, test, 0x9000, "), Some(false));
    assert_eq!(reads("a, data, test, 0x9000, 4K"), None);
    assert_eq!(reads("a, 5, test, 0x9000, 4K\nb, app, factory, , 64K"), Some(true));
    // A comment goes to the end of its line
    assert_eq!(reads("# a\rb, app, nvs, , 64K\nc, app, factory, , 64K"), Some(true));
    assert_eq!(reads("\ra, app, factory, , 64K\r# b, app, nvs, , 64K\n"), Some(true));
    assert_eq!(reads("a, app, factory, , 64K\r\n#"), Some(false));
    assert_eq!(reads("a, app, factory, , 64K\r"), Some(true));
}

#[test]
fn tables_write_numbers_in_several_ways() {
    let table = "a, 0x0, 0x10, 0b1_0000_0000_0000_0000, 0x1_0000\nb, 1, 2, +131072, 4k\nc, 0o7, 255, , 1m";
    let bundle = from_table(table, Payload::NotProvided, Vec::new()).unwrap();
    assert_eq!(place(&bundle.parts_mapping[1]), ("a".to_string(), 0x10000, 0x10000));
    assert_eq!(place(&bundle.parts_mapping[2]), ("b".to_string(), 0x20000, 4096));
    assert_eq!(place(&bundle.parts_mapping[3]), ("c".to_string(), 0x21000, 1024 * 1024));
    let partition = bundle.parts_mapping[3].partition.as_ref().unwrap();
    assert_eq!(partition.ty, PartitionType::Custom(7));
    assert_eq!(partition.subtype, PartitionSubType::Custom(255));
}
