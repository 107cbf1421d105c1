//! Partition tables: read from their text, and written in binary.

use crate::bundle::Bundle;
use crate::fault::{BundleError, Fault};
use crate::image::{Image, ImageType, ImageView};
use crate::partition::{Partition, PartitionSubType, PartitionType, PartitionView};
use crate::payload::Payload;
use crate::table_text::{check_sound, is_sound};
use crate::text::same_text;
use vstd::prelude::*;
use vstd::string::*;

verus! {

/// A partition table of `esp_idf_part`.
#[verifier::external_type_specification]
#[verifier::external_body]
pub struct ExPartitionTable(esp_idf_part::PartitionTable);

/// What `esp_idf_part` reports of a table that it cannot write.
#[verifier::external_type_specification]
#[verifier::external_body]
pub struct ExPartitionTableError(esp_idf_part::Error);

/// Partitions as contracts speak of them.
pub open spec fn partition_views(partitions: Seq<Partition>) -> Seq<PartitionView> {
    partitions.map_values(|partition: Partition| partition@)
}

/// The partitions that `PartitionTable::try_from_str` reads from a text, or the text of
/// the error that it reports.
pub uninterp spec fn csv_rows(text: Seq<char>) -> Result<Seq<PartitionView>, Seq<char>>;

/// The partitions that a partition table holds.
pub uninterp spec fn table_rows(table: esp_idf_part::PartitionTable) -> Seq<PartitionView>;

/// The bytes that `PartitionTable::to_bin` makes of a table with these partitions.
pub uninterp spec fn table_bytes(rows: Seq<PartitionView>) -> Seq<u8>;

/// A partition of the default table.
pub open spec fn default_row(
    name: Seq<char>,
    subtype: PartitionSubType,
    offset: u32,
    size: u32,
) -> PartitionView {
    PartitionView {
        name,
        ty: if subtype is App {
            PartitionType::App
        } else {
            PartitionType::Data
        },
        subtype,
        offset,
        size,
        encrypted: false,
    }
}

/// The partitions of the default table.
pub open spec fn default_rows() -> Seq<PartitionView> {
    seq![
        default_row("ota_0"@, PartitionSubType::App(0x10), 0x10000, 0x1e1000),
        default_row("nvs"@, PartitionSubType::Data(2), 0x1f1000, 0x8000),
        default_row("nvs_keys"@, PartitionSubType::Data(4), 0x1f9000, 0x1000),
        default_row("phy_init"@, PartitionSubType::Data(1), 0x1fa000, 0x1000),
        default_row("extra_0"@, PartitionSubType::Data(6), 0x1fb000, 0x5000),
        default_row("ota_1"@, PartitionSubType::App(0x11), 0x200000, 0x1e1000),
        default_row("nvs_bm"@, PartitionSubType::Data(6), 0x3e1000, 0x8000),
        default_row("otadata"@, PartitionSubType::Data(0), 0x3e9000, 0x2000),
        default_row("extra_1"@, PartitionSubType::Data(6), 0x3eb000, 0x5000),
    ]
}

/// Whether `PartitionTable::try_from_str` comes back from this text: the default
/// partition table, or any that does not break it.
pub open spec fn is_readable(text: Seq<char>) -> bool {
    text == Bundle::DEFAULT_PART_TABLE@ || is_sound(text)
}

/// `esp_idf_part::PartitionTable::try_from_str`: parses the text of a partition table
/// and validates it, or reports an error, of which the text is kept, and not the errors
/// below it. Both are a function of the text of the table alone, and there is at least
/// one partition, since a table without an app partition is not valid. The partitions of
/// the default partition table are the nine of `default_rows`: it gives the offset of the
/// first, and each of the others begins where the one before it ends.
///
/// The call panics on a subtype that its type does not have, and on numbers that do
/// not fit into 32 bits, alone or added up, where it comes to them. In a readable text
/// it comes to neither.
#[verifier::external_body]
fn try_from_str(text: &str) -> (table: Result<esp_idf_part::PartitionTable, String>)
    requires
        is_readable(text@),
    ensures
        table is Ok <==> csv_rows(text@) is Ok,
        table matches Ok(t) ==> table_rows(t) == csv_rows(text@)->Ok_0 && table_rows(t).len() > 0,
        table matches Err(reason) ==> reason@ == csv_rows(text@)->Err_0,
        text@ == Bundle::DEFAULT_PART_TABLE@ ==> table is Ok && table_rows(table->Ok_0)
            == default_rows(),
{
    esp_idf_part::PartitionTable::try_from_str(text).map_err(|e| e.to_string())
}

/// `esp_idf_part::PartitionTable::partitions`: the partitions of the table in their
/// order, each made into a partition of this library, field by field.
#[verifier::external_body]
fn partitions(table: &esp_idf_part::PartitionTable) -> (partitions: Vec<Partition>)
    ensures
        partition_views(partitions@) == table_rows(*table),
{
    let convert = |p: &esp_idf_part::Partition| Partition {
        name: p.name(),
        ty: match p.ty() {
            esp_idf_part::Type::App => PartitionType::App,
            esp_idf_part::Type::Data => PartitionType::Data,
            esp_idf_part::Type::Custom(code) => PartitionType::Custom(code),
        },
        subtype: match p.subtype() {
            esp_idf_part::SubType::App(ty) => PartitionSubType::App(ty as u8),
            esp_idf_part::SubType::Data(ty) => PartitionSubType::Data(ty as u8),
            esp_idf_part::SubType::Custom(code) => PartitionSubType::Custom(code),
        },
        offset: p.offset(), size: p.size(), encrypted: p.encrypted(),
    };
    table.partitions().iter().map(convert).collect()
}

/// `esp_idf_part::PartitionTable::to_bin`: the table in binary, which is a function of
/// its partitions alone. It has 0xc00 bytes: 32 for each partition, 32 for a checksum,
/// and padding, so that the call panics on more than 95 partitions. Nothing else can
/// go wrong, since the bytes are written to memory.
#[verifier::external_body]
fn to_bin(table: &esp_idf_part::PartitionTable) -> (bytes: Result<Vec<u8>, esp_idf_part::Error>)
    requires
        table_rows(*table).len() <= 95,
    ensures
        bytes is Ok,
        bytes->Ok_0@ == table_bytes(table_rows(*table)),
        bytes->Ok_0@.len() == 0xc00,
{
    table.to_bin()
}

/// A partition table, and where it goes.
#[derive(Debug, Clone)]
pub struct PartTable {
    /// The partitions of the table
    pub rows: Vec<Partition>,
    /// The offset of the partition table
    pub offset: u32,
    /// The image of the partition table
    pub image: Image,
}

/// A partition table as contracts speak of it.
pub struct TableView {
    pub rows: Seq<PartitionView>,
    pub offset: u32,
    pub image: ImageView,
}

impl View for PartTable {
    type V = TableView;

    open spec fn view(&self) -> TableView {
        TableView {
            rows: partition_views(self.rows@),
            offset: self.offset,
            image: self.image@,
        }
    }
}

/// A partition table that may be missing, as contracts speak of it.
pub open spec fn table_view(table: Option<PartTable>) -> Option<TableView> {
    match table {
        Some(table) => Some(table@),
        None => None,
    }
}

impl TableView {
    /// The table of these partitions, which goes right in front of the first of them.
    pub open spec fn of_rows(rows: Seq<PartitionView>) -> Self {
        TableView {
            rows,
            offset: (rows[0].offset - Bundle::PART_TABLE_SIZE) as u32,
            image: ImageView::fresh(
                Bundle::PART_TABLE_NAME@,
                ImageType::Binary,
                table_bytes(rows),
            ),
        }
    }
}

/// The text of the partition table that a payload stands for.
pub open spec fn payload_text(payload: Payload<&str>) -> Option<Seq<char>> {
    match payload {
        Payload::NotProvided => None,
        Payload::Default => Some(Bundle::DEFAULT_PART_TABLE@),
        Payload::Provided(text) => Some(text@),
    }
}

/// Whether a table of these partitions has its place: it can be written in binary, it
/// fits in front of its first partition, and so does what is booted from `boot`.
pub open spec fn rows_have_place(rows: Seq<PartitionView>, boot: Option<u32>) -> bool {
    &&& rows.len() <= 95
    &&& rows[0].offset >= Bundle::PART_TABLE_SIZE
    &&& boot matches Some(addr) ==> rows[0].offset - Bundle::PART_TABLE_SIZE >= addr
}

/// The partitions that a text writes, or what is wrong with it.
pub open spec fn text_rows(text: Seq<char>) -> Result<Seq<PartitionView>, Seq<char>> {
    if text == Bundle::DEFAULT_PART_TABLE@ {
        Ok(default_rows())
    } else {
        csv_rows(text)
    }
}

/// Whether a text can be read and, where it is a partition table, has its place in
/// front of its partitions, behind what is booted from `boot`.
pub open spec fn text_has_place(text: Seq<char>, boot: Option<u32>) -> bool {
    is_readable(text) && (text_rows(text) matches Ok(rows) ==> rows_have_place(rows, boot))
}

/// What reading the text of a partition table comes to.
pub open spec fn table_of_text(text: Option<Seq<char>>) -> Result<
    Option<TableView>,
    Fault<Seq<char>>,
> {
    match text {
        None => Ok(None),
        Some(t) => match text_rows(t) {
            Err(reason) => Err(Fault::PartTable { reason }),
            Ok(rows) => Ok(Some(TableView::of_rows(rows))),
        },
    }
}

/// What came of reading a partition table, as contracts speak of it.
pub open spec fn table_outcome(result: Result<Option<PartTable>, BundleError>) -> Result<
    Option<TableView>,
    Fault<Seq<char>>,
> {
    match result {
        Ok(table) => Ok(table_view(table)),
        Err(e) => Err(e@),
    }
}

impl PartTable {
    /// Read the partition table that the payload stands for.
    pub fn new(payload: Payload<&str>) -> (table: Result<Option<Self>, BundleError>)
        requires
            payload matches Payload::Provided(text) ==> text_has_place(text@, None),
        ensures
            table_outcome(table) == table_of_text(payload_text(payload)),
            table matches Ok(Some(t)) ==> t@.rows.len() > 0 && t@.image.data.len() == 0xc00,
    {
        let default = || -> (text: Result<&str, BundleError>)
            ensures
                text is Ok,
                text->Ok_0@ == Bundle::DEFAULT_PART_TABLE@,
        {
            Ok(Bundle::DEFAULT_PART_TABLE)
        };
        let text = match payload.into_option(default) {
            Ok(Some(text)) => text,
            Ok(None) => {
                return Ok(None);
            },
            Err(e) => {
                return Err(e);
            },
        };
        let table = match try_from_str(text) {
            Ok(table) => table,
            Err(reason) => {
                return Err(Fault::PartTable { reason });
            },
        };
        let rows = partitions(&table);
        assert(partition_views(rows@)[0] == rows@[0]@);
        let offset = rows[0].offset - Bundle::PART_TABLE_SIZE;
        let bytes = to_bin(&table).unwrap();
        let image = Image::new(Bundle::PART_TABLE_NAME.to_string(), bytes);
        Ok(Some(PartTable { rows, offset, image }))
    }
}

/// Whether `text` can be read and has its place.
pub fn check_place(text: &str, boot: Option<u32>) -> (yes: bool)
    ensures
        yes == text_has_place(text@, boot),
{
    if !same_text(text, Bundle::DEFAULT_PART_TABLE) && !check_sound(text) {
        return false;
    }
    match try_from_str(text) {
        Ok(table) => {
            let rows = partitions(&table);
            assert(partition_views(rows@)[0] == rows@[0]@);
            if rows.len() > 95 || rows[0].offset < Bundle::PART_TABLE_SIZE {
                return false;
            }
            match boot {
                Some(addr) => rows[0].offset - Bundle::PART_TABLE_SIZE >= addr,
                None => true,
            }
        },
        Err(_) => true,
    }
}

} // verus!
