//! The text of a partition table: rows of cells between commas, in which a `#` begins a
//! comment and a cell may stand in quotes, and the numbers and codes that the cells
//! write. All of it serves to tell on which texts the partition table reader breaks.

use crate::partition::PartitionSubType;
use crate::text::{
    at_most, chars_of, digit_value, digits_value, lemma_digits_grow, parse_radix, radix_value,
    skip_text,
};
use vstd::prelude::*;
use vstd::string::*;

verus! {

/// The zeros of all decimal digits, each of which nine more digits follow.
pub const ZEROS: &'static str = "\
    \u{30}\u{660}\u{6f0}\u{7c0}\u{966}\u{9e6}\u{a66}\u{ae6}\u{b66}\u{be6}\u{c66}\u{ce6}\
    \u{d66}\u{de6}\u{e50}\u{ed0}\u{f20}\u{1040}\u{1090}\u{17e0}\u{1810}\u{1946}\u{19d0}\
    \u{1a80}\u{1a90}\u{1b50}\u{1bb0}\u{1c40}\u{1c50}\u{a620}\u{a8d0}\u{a900}\u{a9d0}\u{a9f0}\
    \u{aa50}\u{abf0}\u{ff10}\u{104a0}\u{10d30}\u{10d40}\u{11066}\u{110f0}\u{11136}\u{111d0}\
    \u{112f0}\u{11450}\u{114d0}\u{11650}\u{116c0}\u{116d0}\u{116da}\u{11730}\u{118e0}\
    \u{11950}\u{11bf0}\u{11c50}\u{11d50}\u{11da0}\u{11f50}\u{16130}\u{16a60}\u{16ac0}\
    \u{16b50}\u{16d70}\u{1ccf0}\u{1d7ce}\u{1d7d8}\u{1d7e2}\u{1d7ec}\u{1d7f6}\u{1e140}\
    \u{1e2f0}\u{1e4f0}\u{1e5f1}\u{1e950}\u{1fbf0}";

/// How far the scan of a text has come.
#[derive(Debug, Copy, Clone, Eq, PartialEq, Structural)]
pub enum Place {
    /// At the beginning of a row
    RowStart,
    /// At the beginning of a cell
    CellStart,
    /// In a cell without quotes
    Cell,
    /// In a cell between quotes
    Quoted,
    /// Behind a quote in such a cell
    QuoteEnd,
    /// In a comment
    Comment,
}

/// What the scan of a text has found.
pub struct ScanView {
    pub rows: Seq<Seq<Seq<char>>>,
    pub cells: Seq<Seq<char>>,
    pub cell: Seq<char>,
    pub place: Place,
}

impl ScanView {
    /// The scan before it begins.
    pub open spec fn start() -> Self {
        ScanView {
            rows: Seq::empty(),
            cells: Seq::empty(),
            cell: Seq::empty(),
            place: Place::RowStart,
        }
    }

    /// The scan with the row that it is in at its end.
    pub open spec fn with_row(self) -> Self {
        ScanView {
            rows: self.rows.push(self.cells.push(self.cell)),
            cells: Seq::empty(),
            cell: Seq::empty(),
            place: Place::RowStart,
        }
    }

    /// The scan with another character in the cell that it is in.
    pub open spec fn with_char(self, c: char, place: Place) -> Self {
        ScanView { cell: self.cell.push(c), place, ..self }
    }

    /// The scan behind `c`, outside quotes.
    pub open spec fn bare_step(self, c: char) -> Self {
        if c == ',' {
            ScanView {
                cells: self.cells.push(self.cell),
                cell: Seq::empty(),
                place: Place::CellStart,
                ..self
            }
        } else if c == '\n' || c == '\r' {
            self.with_row()
        } else {
            self.with_char(c, Place::Cell)
        }
    }

    /// The scan behind `c`.
    pub open spec fn step(self, c: char) -> Self {
        match self.place {
            Place::RowStart => if c == '\n' || c == '\r' {
                self
            } else if c == '#' {
                ScanView { place: Place::Comment, ..self }
            } else if c == '"' {
                ScanView { place: Place::Quoted, ..self }
            } else {
                self.bare_step(c)
            },
            Place::CellStart => if c == '"' {
                ScanView { place: Place::Quoted, ..self }
            } else {
                self.bare_step(c)
            },
            Place::Cell => self.bare_step(c),
            Place::Quoted => if c == '"' {
                ScanView { place: Place::QuoteEnd, ..self }
            } else {
                self.with_char(c, Place::Quoted)
            },
            Place::QuoteEnd => if c == '"' {
                self.with_char(c, Place::Quoted)
            } else {
                self.bare_step(c)
            },
            Place::Comment => if c == '\n' {
                ScanView { place: Place::RowStart, ..self }
            } else {
                self
            },
        }
    }

    /// The scan of a text.
    pub open spec fn of(text: Seq<char>) -> Self
        decreases text.len(),
    {
        if text.len() == 0 {
            Self::start()
        } else {
            Self::of(text.drop_last()).step(text.last())
        }
    }
}

/// A text without the byte order mark that it may begin with.
pub open spec fn without_mark(text: Seq<char>) -> Seq<char> {
    if text.len() > 0 && text[0] == '\u{feff}' {
        text.skip(1)
    } else {
        text
    }
}

/// The rows of a text, each with its cells. A comment that no line end follows counts as
/// a row with an empty cell.
pub open spec fn rows_of(text: Seq<char>) -> Seq<Seq<Seq<char>>> {
    let scan = ScanView::of(without_mark(text));
    if scan.place == Place::RowStart {
        scan.rows
    } else {
        scan.with_row().rows
    }
}

/// Whether a character is blank.
pub open spec fn is_blank(c: char) -> bool {
    ||| '\t' <= c <= '\r'
    ||| c == ' '
    ||| c == '\u{85}'
    ||| c == '\u{a0}'
    ||| c == '\u{1680}'
    ||| '\u{2000}' <= c <= '\u{200a}'
    ||| c == '\u{2028}'
    ||| c == '\u{2029}'
    ||| c == '\u{202f}'
    ||| c == '\u{205f}'
    ||| c == '\u{3000}'
}

/// `s` without the blanks that it begins and ends with.
pub open spec fn trimmed(s: Seq<char>) -> Seq<char>
    decreases s.len(),
{
    if s.len() > 0 && is_blank(s[0]) {
        trimmed(s.skip(1))
    } else if s.len() > 0 && is_blank(s.last()) {
        trimmed(s.drop_last())
    } else {
        s
    }
}

/// `s` without its underscores.
pub open spec fn joined_digits(s: Seq<char>) -> Seq<char>
    decreases s.len(),
{
    if s.len() == 0 {
        s
    } else if s.last() == '_' {
        joined_digits(s.drop_last())
    } else {
        joined_digits(s.drop_last()).push(s.last())
    }
}

/// The integer that a cell writes: in decimal, or in the base that `0x`, `0b` or `0o`
/// announces, with underscores between the digits.
pub open spec fn int_value(s: Seq<char>) -> Option<nat> {
    if s.len() > 0 && s[0] == '_' {
        None
    } else if s.len() >= 2 && s[0] == '0' && s[1] == 'x' {
        radix_value(joined_digits(s.skip(2)), 16)
    } else if s.len() >= 2 && s[0] == '0' && s[1] == 'b' {
        radix_value(joined_digits(s.skip(2)), 2)
    } else if s.len() >= 2 && s[0] == '0' && s[1] == 'o' {
        radix_value(joined_digits(s.skip(2)), 8)
    } else {
        radix_value(joined_digits(s), 10)
    }
}

/// What a letter behind a size multiplies it by.
pub open spec fn multiplier(c: char) -> nat {
    if c == 'k' || c == 'K' {
        1024
    } else if c == 'm' || c == 'M' {
        1024 * 1024
    } else {
        0
    }
}

/// Whether a character is a decimal digit of some script.
pub open spec fn is_digit(c: char) -> bool {
    exists|i: int|
        0 <= i < ZEROS@.len() && (#[trigger] ZEROS@[i]) as u32 <= c as u32 <= ZEROS@[i] as u32 + 9
}

/// Whether a cell has the form of a size in kilobytes or megabytes: digits, and the
/// letter, the Kelvin sign counting as one.
pub open spec fn is_scaled(s: Seq<char>) -> bool {
    &&& s.len() >= 2
    &&& multiplier(s.last()) > 0 || s.last() == '\u{212a}'
    &&& forall|i: int| 0 <= i < s.len() - 1 ==> is_digit(#[trigger] s[i])
}

/// What a cell for an offset or a size writes.
#[derive(Debug, Copy, Clone, Eq, PartialEq, Structural)]
pub enum Amount {
    /// Nothing
    Missing,
    /// A number of bytes
    Bytes(u32),
    /// A number that does not fit into 32 bits, or that is in other digits
    Beyond,
    /// No number
    Unknown,
}

impl Amount {
    /// What a cell writes.
    pub open spec fn spec_of(s: Seq<char>) -> Self {
        if s.len() == 0 {
            Amount::Missing
        } else if at_most(int_value(s), u32::MAX as nat) is Some {
            Amount::Bytes(int_value(s)->0 as u32)
        } else if is_scaled(s) {
            match digits_value(s.drop_last(), 10) {
                Some(v) => if multiplier(s.last()) > 0 && v * multiplier(s.last()) <= u32::MAX {
                    Amount::Bytes((v * multiplier(s.last())) as u32)
                } else {
                    Amount::Beyond
                },
                None => Amount::Beyond,
            }
        } else {
            Amount::Unknown
        }
    }
}

/// The code of the type that a cell writes.
pub open spec fn type_code(s: Seq<char>) -> Option<nat> {
    if s == "app"@ {
        Some(0)
    } else if s == "data"@ {
        Some(1)
    } else {
        at_most(int_value(s), 255)
    }
}

/// The first of the codes below `count` that `s` names as a subtype of apps.
pub open spec fn app_code(s: Seq<char>, count: nat) -> Option<nat>
    decreases count,
{
    if count == 0 {
        None
    } else {
        let code = (count - 1) as u8;
        match app_code(s, (count - 1) as nat) {
            Some(c) => Some(c),
            None => if PartitionSubType::is_app_code(code) && s == PartitionSubType::app_name(
                code,
            ) {
                Some((count - 1) as nat)
            } else {
                None
            },
        }
    }
}

/// The first of the codes below `count` that `s` names as a subtype of data.
pub open spec fn data_code(s: Seq<char>, count: nat) -> Option<nat>
    decreases count,
{
    if count == 0 {
        None
    } else {
        let code = (count - 1) as u8;
        match data_code(s, (count - 1) as nat) {
            Some(c) => Some(c),
            None => if PartitionSubType::is_data_code(code) && s == PartitionSubType::data_name(
                code,
            ) {
                Some((count - 1) as nat)
            } else {
                None
            },
        }
    }
}

/// The code of the subtype that a cell writes, by a name or by a number.
pub open spec fn subtype_code(s: Seq<char>) -> Option<nat> {
    if app_code(s, 256) is Some {
        app_code(s, 256)
    } else if data_code(s, 256) is Some {
        data_code(s, 256)
    } else {
        at_most(int_value(s), 255)
    }
}

/// What reading rows comes to.
#[derive(Debug, Copy, Clone, Eq, PartialEq, Structural)]
pub enum Reading {
    /// The rows are read, and the last partition ends here
    Ends(u32),
    /// A row is not one of a partition table, and the rows behind it are not read
    Fails,
    /// A row breaks the reader
    Breaks,
}

impl Reading {
    /// What reading a partition with this type, subtype, offset and size comes to,
    /// where the partition before it ends at `end`. Where it has no offset it begins
    /// there, aligned to 64 KB if it is one for an app, and to four bytes otherwise.
    pub open spec fn of_partition(
        end: u32,
        ty: nat,
        subtype: nat,
        offset: Amount,
        size: u32,
    ) -> Self {
        let align: int = if ty == 0 {
            0x10000
        } else {
            4
        };
        let start = match offset {
            Amount::Bytes(n) => n as int,
            _ => if end as int % align == 0 {
                end as int
            } else {
                end + align - end as int % align
            },
        };
        if !(offset is Bytes) && end as int % align != 0 && end + align > u32::MAX {
            Reading::Breaks
        } else if start + size > u32::MAX {
            Reading::Breaks
        } else if ty == 0 && !PartitionSubType::is_app_code(subtype as u8) {
            Reading::Breaks
        } else if ty == 1 && !PartitionSubType::is_data_code(subtype as u8) {
            Reading::Breaks
        } else {
            Reading::Ends((start + size) as u32)
        }
    }

    /// What reading a row comes to, where the partition before it ends at `end`.
    pub open spec fn of_row(end: u32, row: Seq<Seq<char>>) -> Self {
        if row.len() < 4 || type_code(trimmed(row[1])) is None || subtype_code(
            trimmed(row[2]),
        ) is None {
            Reading::Fails
        } else {
            let offset = Amount::spec_of(trimmed(row[3]));
            let size = Amount::spec_of(trimmed(row[4]));
            if offset is Unknown {
                Reading::Fails
            } else if offset is Beyond {
                Reading::Breaks
            } else if row.len() < 5 || size is Missing || size is Unknown {
                Reading::Fails
            } else if size is Beyond {
                Reading::Breaks
            } else {
                Self::of_partition(
                    end,
                    type_code(trimmed(row[1]))->0,
                    subtype_code(trimmed(row[2]))->0,
                    offset,
                    size->Bytes_0,
                )
            }
        }
    }

    /// What reading rows comes to. The first partition begins at 0x9000, unless it has
    /// an offset.
    pub open spec fn of_rows(rows: Seq<Seq<Seq<char>>>) -> Self
        decreases rows.len(),
    {
        if rows.len() == 0 {
            Reading::Ends(0x9000)
        } else {
            match Self::of_rows(rows.drop_last()) {
                Reading::Ends(end) => Self::of_row(end, rows.last()),
                other => other,
            }
        }
    }
}

/// Whether no row of a text breaks the partition table reader: a number that does not
/// fit into 32 bits, alone or added up, and a subtype that its type does not have,
/// unless an earlier row is not one of a partition table.
pub open spec fn is_sound(text: Seq<char>) -> bool {
    !(Reading::of_rows(rows_of(text)) is Breaks)
}

/// What the scan of a text has found.
struct Scan {
    rows: Vec<Vec<Vec<char>>>,
    cells: Vec<Vec<char>>,
    cell: Vec<char>,
    place: Place,
}

/// Cells as contracts speak of them.
pub open spec fn cell_views(cells: Seq<Vec<char>>) -> Seq<Seq<char>> {
    cells.map_values(|cell: Vec<char>| cell@)
}

/// Rows as contracts speak of them.
pub open spec fn row_views(rows: Seq<Vec<Vec<char>>>) -> Seq<Seq<Seq<char>>> {
    rows.map_values(|row: Vec<Vec<char>>| cell_views(row@))
}

impl View for Scan {
    type V = ScanView;

    closed spec fn view(&self) -> ScanView {
        ScanView {
            rows: row_views(self.rows@),
            cells: cell_views(self.cells@),
            cell: self.cell@,
            place: self.place,
        }
    }
}

impl Scan {
    /// The scan before it begins.
    fn start() -> (scan: Self)
        ensures
            scan@ == ScanView::start(),
    {
        let scan = Scan {
            rows: Vec::new(),
            cells: Vec::new(),
            cell: Vec::new(),
            place: Place::RowStart,
        };
        assert(row_views(scan.rows@) =~= Seq::empty());
        assert(cell_views(scan.cells@) =~= Seq::empty());
        assert(scan.cell@ =~= Seq::empty());
        scan
    }

    /// Ends the cell that the scan is in.
    fn end_cell(self) -> (scan: Self)
        ensures
            scan@ == (ScanView {
                cells: self@.cells.push(self@.cell),
                cell: Seq::empty(),
                place: Place::CellStart,
                ..self@
            }),
    {
        let Scan { rows, mut cells, cell, place: _ } = self;
        cells.push(cell);
        let scan = Scan { rows, cells, cell: Vec::new(), place: Place::CellStart };
        assert(scan@.cells =~= self@.cells.push(self@.cell));
        assert(scan@.cell =~= Seq::empty());
        scan
    }

    /// Ends the row that the scan is in.
    fn end_row(self) -> (scan: Self)
        ensures
            scan@ == self@.with_row(),
    {
        let Scan { mut rows, cells, cell: _, place: _ } = self.end_cell();
        rows.push(cells);
        let scan = Scan { rows, cells: Vec::new(), cell: Vec::new(), place: Place::RowStart };
        assert(scan@.rows =~= self@.with_row().rows);
        assert(scan@.cells =~= Seq::empty());
        assert(scan@.cell =~= Seq::empty());
        scan
    }

    /// Goes on to another place.
    fn go(self, place: Place) -> (scan: Self)
        ensures
            scan@ == (ScanView { place, ..self@ }),
    {
        let Scan { rows, cells, cell, place: _ } = self;
        Scan { rows, cells, cell, place }
    }

    /// Takes another character into the cell that the scan is in.
    fn push_char(self, c: char, place: Place) -> (scan: Self)
        ensures
            scan@ == self@.with_char(c, place),
    {
        let Scan { rows, cells, mut cell, place: _ } = self;
        cell.push(c);
        Scan { rows, cells, cell, place }
    }

    /// Goes over `c`, outside quotes.
    fn bare_step(self, c: char) -> (scan: Self)
        ensures
            scan@ == self@.bare_step(c),
    {
        if c == ',' {
            self.end_cell()
        } else if c == '\n' || c == '\r' {
            self.end_row()
        } else {
            self.push_char(c, Place::Cell)
        }
    }

    /// Goes over `c`.
    fn step(self, c: char) -> (scan: Self)
        ensures
            scan@ == self@.step(c),
    {
        match self.place {
            Place::RowStart => {
                if c == '\n' || c == '\r' {
                    self
                } else if c == '#' {
                    self.go(Place::Comment)
                } else if c == '"' {
                    self.go(Place::Quoted)
                } else {
                    self.bare_step(c)
                }
            },
            Place::CellStart => {
                if c == '"' {
                    self.go(Place::Quoted)
                } else {
                    self.bare_step(c)
                }
            },
            Place::Cell => self.bare_step(c),
            Place::Quoted => {
                if c == '"' {
                    self.go(Place::QuoteEnd)
                } else {
                    self.push_char(c, Place::Quoted)
                }
            },
            Place::QuoteEnd => {
                if c == '"' {
                    self.push_char(c, Place::Quoted)
                } else {
                    self.bare_step(c)
                }
            },
            Place::Comment => {
                if c == '\n' {
                    self.go(Place::RowStart)
                } else {
                    self
                }
            },
        }
    }
}

/// The rows of a text.
fn scan_rows(text: &str) -> (rows: Vec<Vec<Vec<char>>>)
    ensures
        row_views(rows@) == rows_of(text@),
{
    let body = if !text.is_empty() && text.get_char(0) == '\u{feff}' {
        skip_text(text, 1)
    } else {
        text
    };
    let chars = chars_of(body);
    let mut scan = Scan::start();
    let mut i: usize = 0;
    assert(chars@.take(0) =~= Seq::<char>::empty());
    while i < chars.len()
        invariant
            i <= chars@.len(),
            scan@ == ScanView::of(chars@.take(i as int)),
        decreases chars@.len() - i,
    {
        proof {
            let next = chars@.take(i + 1);
            assert(next.drop_last() =~= chars@.take(i as int));
            assert(next.last() == chars@[i as int]);
        }
        scan = scan.step(chars[i]);
        i = i + 1;
    }
    assert(chars@.take(i as int) =~= chars@);
    match scan.place {
        Place::RowStart => scan.rows,
        _ => scan.end_row().rows,
    }
}

/// Whether a character is blank.
fn check_blank(c: char) -> (yes: bool)
    ensures
        yes == is_blank(c),
{
    '\t' <= c && c <= '\r' || c == ' ' || c == '\u{85}' || c == '\u{a0}' || c == '\u{1680}'
        || '\u{2000}' <= c && c <= '\u{200a}' || c == '\u{2028}' || c == '\u{2029}' || c
        == '\u{202f}' || c == '\u{205f}' || c == '\u{3000}'
}

/// `chars` without the blanks at their ends.
fn trim(chars: &Vec<char>) -> (inner: Vec<char>)
    ensures
        inner@ == trimmed(chars@),
{
    let mut from: usize = 0;
    let mut to: usize = chars.len();
    assert(chars@.subrange(0, to as int) =~= chars@);
    while from < to && check_blank(chars[from])
        invariant
            from <= to == chars@.len(),
            trimmed(chars@.subrange(from as int, to as int)) == trimmed(chars@),
        decreases to - from,
    {
        assert(chars@.subrange(from as int, to as int).skip(1) =~= chars@.subrange(
            from + 1,
            to as int,
        ));
        from = from + 1;
    }
    while from < to && check_blank(chars[to - 1])
        invariant
            from <= to <= chars@.len(),
            from < to ==> !is_blank(chars@[from as int]),
            trimmed(chars@.subrange(from as int, to as int)) == trimmed(chars@),
        decreases to - from,
    {
        assert(chars@.subrange(from as int, to as int).drop_last() =~= chars@.subrange(
            from as int,
            to - 1,
        ));
        to = to - 1;
    }
    let mut inner: Vec<char> = Vec::new();
    let mut i: usize = from;
    while i < to
        invariant
            from <= i <= to <= chars@.len(),
            inner@ == chars@.subrange(from as int, i as int),
        decreases to - i,
    {
        inner.push(chars[i]);
        i = i + 1;
        assert(inner@ =~= chars@.subrange(from as int, i as int));
    }
    inner
}

/// Whether `chars` are those of `text`.
fn is_text(chars: &Vec<char>, text: &str) -> (same: bool)
    ensures
        same == (chars@ == text@),
{
    let wanted = chars_of(text);
    if wanted.len() != chars.len() {
        return false;
    }
    let mut i: usize = 0;
    while i < chars.len()
        invariant
            i <= chars@.len() == wanted@.len(),
            wanted@ == text@,
            forall|j: int| 0 <= j < i ==> chars@[j] == wanted@[j],
        decreases chars@.len() - i,
    {
        if chars[i] != wanted[i] {
            return false;
        }
        i = i + 1;
    }
    assert(chars@ =~= text@);
    true
}

/// The characters from `from` on that are no underscores.
fn join_digits(chars: &Vec<char>, from: usize) -> (digits: Vec<char>)
    requires
        from <= chars@.len(),
    ensures
        digits@ == joined_digits(chars@.skip(from as int)),
{
    let ghost rest = chars@.skip(from as int);
    let mut digits: Vec<char> = Vec::new();
    let mut i: usize = from;
    assert(digits@ =~= joined_digits(rest.take(0)));
    while i < chars.len()
        invariant
            from <= i <= chars@.len(),
            rest == chars@.skip(from as int),
            digits@ == joined_digits(rest.take(i - from)),
        decreases chars@.len() - i,
    {
        let ghost next = rest.take(i + 1 - from);
        proof {
            assert(next.drop_last() =~= rest.take(i - from));
            assert(next.last() == chars@[i as int]);
        }
        if chars[i] != '_' {
            digits.push(chars[i]);
        }
        i = i + 1;
    }
    assert(rest.take(i - from) =~= rest);
    digits
}

/// The integer that a cell writes, where it is at most `max`.
fn parse_int(chars: &Vec<char>, max: u64) -> (number: Option<u64>)
    requires
        max < 0x1000_0000_0000,
    ensures
        number is Some <==> at_most(int_value(chars@), max as nat) is Some,
        number matches Some(n) ==> n == at_most(int_value(chars@), max as nat)->0,
{
    if chars.len() > 0 && chars[0] == '_' {
        None
    } else if chars.len() >= 2 && chars[0] == '0' && chars[1] == 'x' {
        parse_radix(&join_digits(chars, 2), 16, max)
    } else if chars.len() >= 2 && chars[0] == '0' && chars[1] == 'b' {
        parse_radix(&join_digits(chars, 2), 2, max)
    } else if chars.len() >= 2 && chars[0] == '0' && chars[1] == 'o' {
        parse_radix(&join_digits(chars, 2), 8, max)
    } else {
        assert(chars@.skip(0) =~= chars@);
        parse_radix(&join_digits(chars, 0), 10, max)
    }
}

/// Whether a character is a decimal digit of some script.
fn check_digit(c: char) -> (yes: bool)
    ensures
        yes == is_digit(c),
{
    let zeros = chars_of(ZEROS);
    let mut i: usize = 0;
    while i < zeros.len()
        invariant
            i <= zeros@.len(),
            zeros@ == ZEROS@,
            forall|j: int|
                0 <= j < i ==> !((#[trigger] ZEROS@[j]) as u32 <= c as u32 <= ZEROS@[j] as u32 + 9),
        decreases zeros@.len() - i,
    {
        let zero = zeros[i] as u32;
        if zero <= c as u32 && c as u32 - zero <= 9 {
            assert(ZEROS@[i as int] as u32 <= c as u32 <= ZEROS@[i as int] as u32 + 9);
            return true;
        }
        i = i + 1;
    }
    false
}

/// Whether all of `chars` are decimal digits.
fn all_digits(chars: &Vec<char>) -> (yes: bool)
    ensures
        yes == (digits_value(chars@, 10) is Some),
{
    let mut i: usize = 0;
    while i < chars.len()
        invariant
            i <= chars@.len(),
            digits_value(chars@.take(i as int), 10) is Some,
        decreases chars@.len() - i,
    {
        proof {
            let next = chars@.take(i + 1);
            assert(next.drop_last() =~= chars@.take(i as int));
            assert(next.last() == chars@[i as int]);
            if digits_value(chars@, 10) is Some {
                lemma_digits_grow(chars@, 10, i + 1);
            }
        }
        if !('0' <= chars[i] && chars[i] <= '9') {
            return false;
        }
        i = i + 1;
    }
    assert(chars@.take(i as int) =~= chars@);
    true
}

/// Whether a cell has the form of a size in kilobytes or megabytes.
fn check_scaled(chars: &Vec<char>) -> (yes: bool)
    ensures
        yes == is_scaled(chars@),
{
    let len = chars.len();
    if len < 2 {
        return false;
    }
    let letter = chars[len - 1];
    if !(letter == 'k' || letter == 'K' || letter == 'm' || letter == 'M' || letter
        == '\u{212a}') {
        return false;
    }
    let mut i: usize = 0;
    while i < len - 1
        invariant
            i < len == chars@.len(),
            forall|j: int| 0 <= j < i ==> is_digit(#[trigger] chars@[j]),
        decreases len - i,
    {
        if !check_digit(chars[i]) {
            return false;
        }
        i = i + 1;
    }
    true
}

impl Amount {
    /// What a cell writes.
    fn of(chars: &Vec<char>) -> (amount: Self)
        ensures
            amount == Self::spec_of(chars@),
    {
        if chars.len() == 0 {
            return Self::Missing;
        }
        if let Some(n) = parse_int(chars, u32::MAX as u64) {
            return Self::Bytes(n as u32);
        }
        if !check_scaled(chars) {
            return Self::Unknown;
        }
        let letter = chars[chars.len() - 1];
        let mut front: Vec<char> = chars.clone();
        let _ = front.pop();
        let ghost digits = chars@.drop_last();
        assert(front@ =~= digits);
        let times: u64 = if letter == 'k' || letter == 'K' {
            1024
        } else if letter == 'm' || letter == 'M' {
            1024 * 1024
        } else {
            0
        };
        if times == 0 || !all_digits(&front) {
            return Self::Beyond;
        }
        let ghost value = digits_value(digits, 10)->0;
        proof {
            lemma_digits_grow(digits, 10, 1);
            assert(digits.take(1).drop_last() =~= Seq::<char>::empty());
            assert(digits.take(1).last() == digits[0]);
            assert(digit_value('+', 10) is None);
        }
        match parse_radix(&front, 10, u32::MAX as u64) {
            Some(n) => {
                assert(n * times <= 0xffff_ffff * 0x10_0000) by (nonlinear_arith)
                    requires
                        n <= 0xffff_ffff,
                        times <= 0x10_0000,
                ;
                let count = n * times;
                if count <= u32::MAX as u64 {
                    Self::Bytes(count as u32)
                } else {
                    Self::Beyond
                }
            },
            None => {
                assert(value * times > u32::MAX) by (nonlinear_arith)
                    requires
                        value > u32::MAX,
                        times >= 1,
                ;
                Self::Beyond
            },
        }
    }
}

/// The code of the type that a cell writes.
fn read_type(chars: &Vec<char>) -> (code: Option<u64>)
    ensures
        code is Some <==> type_code(chars@) is Some,
        code matches Some(c) ==> c == type_code(chars@)->0,
{
    if is_text(chars, "app") {
        Some(0)
    } else if is_text(chars, "data") {
        Some(1)
    } else {
        parse_int(chars, 255)
    }
}

/// The code of the subtype that a cell writes.
fn read_subtype(chars: &Vec<char>) -> (code: Option<u8>)
    ensures
        code is Some <==> subtype_code(chars@) is Some,
        code matches Some(c) ==> c == subtype_code(chars@)->0,
{
    let mut code: u16 = 0;
    while code < 256
        invariant
            code <= 256,
            app_code(chars@, code as nat) is None,
        decreases 256 - code,
    {
        let c = code as u8;
        if (c == 0 || 0x10 <= c && c <= 0x20) && is_text(
            chars,
            PartitionSubType::App(c).to_text().as_str(),
        ) {
            proof {
                lemma_app_code(chars@, code as int, 256);
            }
            return Some(c);
        }
        code = code + 1;
    }
    let mut code: u16 = 0;
    while code < 256
        invariant
            code <= 256,
            app_code(chars@, 256) is None,
            data_code(chars@, code as nat) is None,
        decreases 256 - code,
    {
        let c = code as u8;
        if (c <= 6 || 0x80 <= c && c <= 0x83) && is_text(
            chars,
            PartitionSubType::Data(c).to_text().as_str(),
        ) {
            proof {
                lemma_data_code(chars@, code as int, 256);
            }
            return Some(c);
        }
        code = code + 1;
    }
    match parse_int(chars, 255) {
        Some(n) => Some(n as u8),
        None => None,
    }
}

proof fn lemma_app_code(s: Seq<char>, i: int, count: nat)
    requires
        0 <= i < count <= 256,
        app_code(s, i as nat) is None,
        PartitionSubType::is_app_code(i as u8),
        s == PartitionSubType::app_name(i as u8),
    ensures
        app_code(s, count) == Some(i as nat),
    decreases count,
{
    if count > i + 1 {
        lemma_app_code(s, i, (count - 1) as nat);
    }
}

proof fn lemma_data_code(s: Seq<char>, i: int, count: nat)
    requires
        0 <= i < count <= 256,
        data_code(s, i as nat) is None,
        PartitionSubType::is_data_code(i as u8),
        s == PartitionSubType::data_name(i as u8),
    ensures
        data_code(s, count) == Some(i as nat),
    decreases count,
{
    if count > i + 1 {
        lemma_data_code(s, i, (count - 1) as nat);
    }
}

impl Reading {
    /// Reads a partition behind `end`.
    fn read_partition(end: u32, ty: u64, subtype: u8, offset: Amount, size: u32) -> (reading: Self)
        ensures
            reading == Self::of_partition(end, ty as nat, subtype as nat, offset, size),
    {
        let start: u64 = match offset {
            Amount::Bytes(n) => n as u64,
            _ => {
                let align: u64 = if ty == 0 {
                    0x10000
                } else {
                    4
                };
                let over = end as u64 % align;
                if over == 0 {
                    end as u64
                } else if end as u64 + align > u32::MAX as u64 {
                    return Self::Breaks;
                } else {
                    end as u64 + align - over
                }
            },
        };
        let next = start + size as u64;
        if next > u32::MAX as u64 {
            Self::Breaks
        } else if ty == 0 && !(subtype == 0 || 0x10 <= subtype && subtype <= 0x20) {
            Self::Breaks
        } else if ty == 1 && !(subtype <= 6 || 0x80 <= subtype && subtype <= 0x83) {
            Self::Breaks
        } else {
            Self::Ends(next as u32)
        }
    }

    /// Reads a row behind `end`.
    fn read_row(end: u32, row: &Vec<Vec<char>>) -> (reading: Self)
        ensures
            reading == Self::of_row(end, cell_views(row@)),
    {
        let ghost cells = cell_views(row@);
        assert(forall|i: int| 0 <= i < row@.len() ==> cells[i] == (#[trigger] row@[i])@);
        if row.len() < 4 {
            return Self::Fails;
        }
        let ty = match read_type(&trim(&row[1])) {
            Some(ty) => ty,
            None => {
                return Self::Fails;
            },
        };
        let subtype = match read_subtype(&trim(&row[2])) {
            Some(subtype) => subtype,
            None => {
                return Self::Fails;
            },
        };
        let offset = Amount::of(&trim(&row[3]));
        match offset {
            Amount::Unknown => {
                return Self::Fails;
            },
            Amount::Beyond => {
                return Self::Breaks;
            },
            _ => {},
        }
        if row.len() < 5 {
            return Self::Fails;
        }
        match Amount::of(&trim(&row[4])) {
            Amount::Missing | Amount::Unknown => Self::Fails,
            Amount::Beyond => Self::Breaks,
            Amount::Bytes(size) => Self::read_partition(end, ty, subtype, offset, size),
        }
    }
}

proof fn lemma_reading_stops(rows: Seq<Seq<Seq<char>>>, k: int)
    requires
        0 <= k <= rows.len(),
        !(Reading::of_rows(rows.take(k)) is Ends),
    ensures
        Reading::of_rows(rows) == Reading::of_rows(rows.take(k)),
    decreases rows.len(),
{
    if k == rows.len() {
        assert(rows.take(k) =~= rows);
    } else {
        assert(rows.drop_last().take(k) =~= rows.take(k));
        lemma_reading_stops(rows.drop_last(), k);
    }
}

/// Whether no row of a text breaks the partition table reader.
pub fn check_sound(text: &str) -> (sound: bool)
    ensures
        sound == is_sound(text@),
{
    let rows = scan_rows(text);
    let ghost views = row_views(rows@);
    let mut end: u32 = 0x9000;
    let mut i: usize = 0;
    assert(views.take(0) =~= Seq::empty());
    while i < rows.len()
        invariant
            i <= rows@.len(),
            views == row_views(rows@),
            views == rows_of(text@),
            Reading::of_rows(views.take(i as int)) == Reading::Ends(end),
        decreases rows@.len() - i,
    {
        proof {
            let next = views.take(i + 1);
            assert(next.drop_last() =~= views.take(i as int));
            assert(next.last() == cell_views(rows@[i as int]@));
        }
        let reading = Reading::read_row(end, &rows[i]);
        match reading {
            Reading::Ends(next) => {
                end = next;
            },
            _ => {
                proof {
                    lemma_reading_stops(views, i + 1);
                }
                return match reading {
                    Reading::Breaks => false,
                    _ => true,
                };
            },
        }
        i = i + 1;
    }
    assert(views.take(i as int) =~= views);
    true
}

} // verus!
