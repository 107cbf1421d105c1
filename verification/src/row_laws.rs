//! How the text of a partition table is taken apart, and which rows break its reader.

use crate::name_laws::{law_numbers, number_in, number_written};
use crate::partition::PartitionSubType;
use crate::table_text::{
    app_code, data_code, int_value, is_blank, is_scaled, is_sound, joined_digits, rows_of,
    subtype_code, trimmed, type_code, without_mark, Amount, Place, Reading, ScanView,
};
use vstd::prelude::*;
use vstd::string::*;

verus! {

/// Whether a cell can stand between commas as it is.
pub open spec fn is_plain(cell: Seq<char>) -> bool {
    forall|i: int|
        0 <= i < cell.len() ==> #[trigger] cell[i] != ',' && cell[i] != '"' && cell[i] != '\n'
            && cell[i] != '\r'
}

/// Whether cells can stand on a line as they are: there is one at least, the line is not
/// empty, and it is no comment.
pub open spec fn is_plain_row(cells: Seq<Seq<char>>) -> bool {
    &&& cells.len() > 0
    &&& cells.len() == 1 ==> cells[0].len() > 0
    &&& cells[0].len() > 0 ==> cells[0][0] != '#'
    &&& forall|i: int| 0 <= i < cells.len() ==> is_plain(#[trigger] cells[i])
}

/// Cells, with a comma between each two of them.
pub open spec fn line(cells: Seq<Seq<char>>) -> Seq<char>
    decreases cells.len(),
{
    if cells.len() <= 1 {
        cells[0]
    } else {
        line(cells.drop_last()) + seq![','] + cells.last()
    }
}

/// Rows, each on a line of its own.
pub open spec fn lines(rows: Seq<Seq<Seq<char>>>) -> Seq<char>
    decreases rows.len(),
{
    if rows.len() == 0 {
        Seq::empty()
    } else {
        lines(rows.drop_last()) + line(rows.last()) + seq!['\n']
    }
}

/// The scan of more text.
spec fn scan_more(scan: ScanView, text: Seq<char>) -> ScanView
    decreases text.len(),
{
    if text.len() == 0 {
        scan
    } else {
        scan_more(scan, text.drop_last()).step(text.last())
    }
}

proof fn lemma_scan_of(a: Seq<char>, b: Seq<char>)
    ensures
        ScanView::of(a + b) == scan_more(ScanView::of(a), b),
    decreases b.len(),
{
    if b.len() == 0 {
        assert(a + b =~= a);
    } else {
        lemma_scan_of(a, b.drop_last());
        assert((a + b).drop_last() =~= a + b.drop_last());
    }
}

proof fn lemma_scan_more(scan: ScanView, a: Seq<char>, b: Seq<char>)
    ensures
        scan_more(scan, a + b) == scan_more(scan_more(scan, a), b),
    decreases b.len(),
{
    if b.len() == 0 {
        assert(a + b =~= a);
    } else {
        lemma_scan_more(scan, a, b.drop_last());
        assert((a + b).drop_last() =~= a + b.drop_last());
    }
}

proof fn lemma_scan_one(scan: ScanView, c: char)
    ensures
        scan_more(scan, seq![c]) == scan.step(c),
{
    assert(seq![c].drop_last() =~= Seq::<char>::empty());
    assert(scan_more(scan, seq![c].drop_last()) == scan);
}

/// A plain cell is scanned as it is.
proof fn lemma_cell(scan: ScanView, cell: Seq<char>)
    requires
        is_plain(cell),
        scan.cell == Seq::<char>::empty(),
        scan.place == Place::CellStart || (scan.place == Place::RowStart && (cell.len() > 0
            ==> cell[0] != '#')),
    ensures
        scan_more(scan, cell) == (ScanView {
            cell,
            place: if cell.len() == 0 {
                scan.place
            } else {
                Place::Cell
            },
            ..scan
        }),
    decreases cell.len(),
{
    if cell.len() == 0 {
        assert(cell =~= Seq::<char>::empty());
    } else {
        let head = cell.drop_last();
        assert forall|i: int| 0 <= i < head.len() implies #[trigger] head[i] != ',' && head[i]
            != '"' && head[i] != '\n' && head[i] != '\r' by {
            assert(head[i] == cell[i]);
        }
        lemma_cell(scan, head);
        let c = cell.last();
        assert(c == cell[cell.len() - 1]);
        assert(head.push(c) =~= cell);
    }
}

/// A plain line is scanned into its cells.
proof fn lemma_line(scan: ScanView, cells: Seq<Seq<char>>)
    requires
        scan.place == Place::RowStart,
        scan.cell == Seq::<char>::empty(),
        scan.cells == Seq::<Seq<char>>::empty(),
        cells.len() > 0,
        cells[0].len() > 0 ==> cells[0][0] != '#',
        forall|i: int| 0 <= i < cells.len() ==> is_plain(#[trigger] cells[i]),
    ensures
        scan_more(scan, line(cells)) == (ScanView {
            rows: scan.rows,
            cells: cells.drop_last(),
            cell: cells.last(),
            place: if cells.last().len() > 0 {
                Place::Cell
            } else if cells.len() == 1 {
                Place::RowStart
            } else {
                Place::CellStart
            },
        }),
    decreases cells.len(),
{
    if cells.len() == 1 {
        lemma_cell(scan, cells[0]);
        assert(cells.drop_last() =~= Seq::<Seq<char>>::empty());
    } else {
        let head = cells.drop_last();
        let last = cells.last();
        assert forall|i: int| 0 <= i < head.len() implies is_plain(#[trigger] head[i]) by {
            assert(head[i] == cells[i]);
        }
        lemma_line(scan, head);
        let before = scan_more(scan, line(head));
        lemma_scan_more(scan, line(head) + seq![','], last);
        lemma_scan_more(scan, line(head), seq![',']);
        lemma_scan_one(before, ',');
        let comma = before.step(',');
        assert(head.drop_last().push(head.last()) =~= head);
        assert(comma == (ScanView {
            rows: scan.rows,
            cells: head,
            cell: Seq::empty(),
            place: Place::CellStart,
        }));
        assert(is_plain(cells[cells.len() - 1]));
        lemma_cell(comma, last);
    }
}

proof fn lemma_lines(rows: Seq<Seq<Seq<char>>>)
    requires
        forall|i: int| 0 <= i < rows.len() ==> is_plain_row(#[trigger] rows[i]),
    ensures
        ScanView::of(lines(rows)) == (ScanView {
            rows,
            cells: Seq::empty(),
            cell: Seq::empty(),
            place: Place::RowStart,
        }),
    decreases rows.len(),
{
    if rows.len() == 0 {
        assert(rows =~= Seq::<Seq<Seq<char>>>::empty());
    } else {
        let head = rows.drop_last();
        let cells = rows.last();
        assert forall|i: int| 0 <= i < head.len() implies is_plain_row(#[trigger] head[i]) by {
            assert(head[i] == rows[i]);
        }
        assert(is_plain_row(rows[rows.len() - 1]));
        lemma_lines(head);
        let before = ScanView::of(lines(head));
        lemma_line(before, cells);
        lemma_scan_of(lines(head), line(cells));
        lemma_scan_of(lines(head) + line(cells), seq!['\n']);
        let row = ScanView::of(lines(head) + line(cells));
        lemma_scan_one(row, '\n');
        assert(cells.drop_last().push(cells.last()) =~= cells);
        assert(head.push(cells) =~= rows);
    }
}

/// A text of plain lines is taken apart into its rows, and these into the cells between
/// the commas.
pub proof fn law_plain_rows(rows: Seq<Seq<Seq<char>>>)
    requires
        forall|i: int| 0 <= i < rows.len() ==> is_plain_row(#[trigger] rows[i]),
        lines(rows).len() > 0 ==> lines(rows)[0] != '\u{feff}',
    ensures
        rows_of(lines(rows)) == rows,
{
    lemma_lines(rows);
    assert(without_mark(lines(rows)) == lines(rows));
}

/// A comment takes the rest of its line, and is no row.
pub proof fn law_comments(rows: Seq<Seq<Seq<char>>>, comment: Seq<char>, more: Seq<char>)
    requires
        forall|i: int| 0 <= i < rows.len() ==> is_plain_row(#[trigger] rows[i]),
        !comment.contains('\n'),
    ensures
        ScanView::of(lines(rows) + (seq!['#'] + comment + seq!['\n']) + more) == ScanView::of(
            lines(rows) + more,
        ),
{
    let before = ScanView::of(lines(rows));
    let remark = seq!['#'] + comment + seq!['\n'];
    lemma_lines(rows);
    lemma_scan_of(lines(rows), remark);
    lemma_scan_of(lines(rows) + remark, more);
    lemma_scan_of(lines(rows), more);
    lemma_scan_more(before, seq!['#'] + comment, seq!['\n']);
    lemma_scan_more(before, seq!['#'], comment);
    lemma_scan_one(before, '#');
    let inside = before.step('#');
    lemma_comment(inside, comment);
    lemma_scan_one(inside, '\n');
    assert(inside.step('\n') == before);
}

proof fn lemma_comment(scan: ScanView, comment: Seq<char>)
    requires
        scan.place == Place::Comment,
        !comment.contains('\n'),
    ensures
        scan_more(scan, comment) == scan,
    decreases comment.len(),
{
    if comment.len() > 0 {
        let head = comment.drop_last();
        assert forall|i: int| 0 <= i < head.len() implies head[i] != '\n' by {
            assert(comment.contains(comment[i]));
        }
        lemma_comment(scan, head);
        assert(comment.contains(comment[comment.len() - 1]));
    }
}

/// The integer that a cell writes: in decimal, or in the base that `0x`, `0b` or `0o`
/// announces, underscores being left out.
pub open spec fn integer_in(cell: Seq<char>) -> Option<nat> {
    let digits = |s: Seq<char>| s.filter(|c: char| c != '_');
    if cell.len() > 0 && cell[0] == '_' {
        None
    } else if cell.len() >= 2 && cell[0] == '0' && cell[1] == 'x' {
        number_written(digits(cell.skip(2)), 16)
    } else if cell.len() >= 2 && cell[0] == '0' && cell[1] == 'b' {
        number_written(digits(cell.skip(2)), 2)
    } else if cell.len() >= 2 && cell[0] == '0' && cell[1] == 'o' {
        number_written(digits(cell.skip(2)), 8)
    } else {
        number_written(digits(cell), 10)
    }
}

proof fn lemma_joined_digits(s: Seq<char>)
    ensures
        joined_digits(s) == s.filter(|c: char| c != '_'),
    decreases s.len(),
{
    reveal(Seq::filter);
    if s.len() > 0 {
        lemma_joined_digits(s.drop_last());
    }
}

proof fn lemma_integer(cell: Seq<char>)
    ensures
        int_value(cell) == integer_in(cell),
{
    lemma_joined_digits(cell);
    law_numbers(joined_digits(cell), 10);
    if cell.len() >= 2 {
        lemma_joined_digits(cell.skip(2));
        law_numbers(joined_digits(cell.skip(2)), 16);
        law_numbers(joined_digits(cell.skip(2)), 2);
        law_numbers(joined_digits(cell.skip(2)), 8);
    }
}

/// An offset or a size is an integer of 32 bits, or a number of kilobytes or megabytes in
/// decimal; one beyond 32 bits is told from what is no number.
pub proof fn law_amounts(cell: Seq<char>)
    ensures
        cell.len() == 0 <==> Amount::spec_of(cell) is Missing,
        integer_in(cell) is Some && integer_in(cell)->0 < 0x1_0000_0000 ==> Amount::spec_of(cell)
            is Missing || Amount::spec_of(cell) == Amount::Bytes(integer_in(cell)->0 as u32),
        cell.len() >= 2 && !(integer_in(cell) is Some && integer_in(cell)->0 < 0x1_0000_0000)
            && is_scaled(cell) && number_in(cell.drop_last(), 10) is Some ==> {
            let count = number_in(cell.drop_last(), 10)->0;
            let bytes = if cell.last() == 'k' || cell.last() == 'K' {
                count * 1024
            } else {
                count * 1048576
            };
            if cell.last() == '\u{212a}' || bytes >= 0x1_0000_0000 {
                Amount::spec_of(cell) is Beyond
            } else {
                Amount::spec_of(cell) == Amount::Bytes(bytes as u32)
            }
        },
        cell.len() > 0 && !is_scaled(cell) && !(integer_in(cell) is Some && integer_in(cell)->0
            < 0x1_0000_0000) ==> Amount::spec_of(cell) is Unknown,
{
    lemma_integer(cell);
    if cell.len() >= 2 {
        law_numbers(cell.drop_last(), 10);
    }
}

/// What the places of partitions are multiples of: 64 KB for an app, and four bytes for
/// others.
pub open spec fn alignment(ty: nat) -> int {
    if ty == 0 {
        0x10000
    } else {
        4
    }
}

/// Whether `start` is the first place for a partition that is not in front of `end`.
pub open spec fn is_next_start(start: int, end: int, ty: nat) -> bool {
    end <= start < end + alignment(ty) && start % alignment(ty) == 0
}

/// A partition begins at its offset or, where it has none, at the first place behind the
/// one before it that its type allows: a multiple of 64 KB for an app, and of four bytes
/// for others. It ends its size behind that. The reader breaks if and only if one of these
/// places is beyond 32 bits, or the subtype is none of the type.
pub proof fn law_partition_ends(end: u32, ty: nat, subtype: u8, offset: Amount, size: u32)
    requires
        offset is Missing || offset is Bytes,
    ensures
        ({
            let reading = Reading::of_partition(end, ty, subtype as nat, offset, size);
            let known = {
                &&& ty == 0 ==> subtype == 0 || 0x10 <= subtype <= 0x20
                &&& ty == 1 ==> subtype <= 6 || 0x80 <= subtype <= 0x83
            };
            &&& !(reading is Fails)
            &&& offset matches Amount::Bytes(start) ==> {
                &&& reading is Ends <==> known && start + size < 0x1_0000_0000
                &&& reading is Ends ==> reading->Ends_0 == start + size
            }
            &&& offset is Missing ==> exists|start: int|
                {
                    &&& #[trigger] is_next_start(start, end as int, ty)
                    &&& reading is Ends ==> reading->Ends_0 == start + size
                    &&& reading is Ends <==> known && start + size < 0x1_0000_0000 && (start == end
                        || end + alignment(ty) < 0x1_0000_0000)
                }
        }),
{
    let align = alignment(ty);
    if offset is Missing {
        let start = if end as int % align == 0 {
            end as int
        } else {
            end + align - end as int % align
        };
        assert(is_next_start(start, end as int, ty)) by {
            if end as int % align != 0 {
                if ty == 0 {
                    assert((end + 0x10000 - end as int % 0x10000) % 0x10000 == 0);
                } else {
                    assert((end + 4 - end as int % 4) % 4 == 0);
                }
            }
        }
    }
}

/// Rows are read one behind the other, from 0x9000 on, and each begins where the one before
/// it ends. Nothing is read behind a row that is none of a table or that breaks the reader.
/// A text is sound if and only if none of the rows that are read breaks it.
pub proof fn law_rows_are_read(rows: Seq<Seq<Seq<char>>>, row: Seq<Seq<char>>, text: Seq<char>)
    ensures
        Reading::of_rows(Seq::empty()) == Reading::Ends(0x9000),
        match Reading::of_rows(rows) {
            Reading::Ends(end) => Reading::of_rows(rows.push(row)) == Reading::of_row(end, row),
            stopped => Reading::of_rows(rows.push(row)) == stopped,
        },
        is_sound(text) <==> !(Reading::of_rows(rows_of(text)) is Breaks),
{
    assert(rows.push(row).drop_last() =~= rows);
}

/// Whether all characters of a text are blanks.
pub open spec fn are_blanks(text: Seq<char>) -> bool {
    forall|i: int| 0 <= i < text.len() ==> is_blank(#[trigger] text[i])
}

/// Cells are read without the blanks around them, and nothing else of them is left out.
pub proof fn law_blanks(cell: Seq<char>) -> (around: (Seq<char>, Seq<char>))
    ensures
        cell == around.0 + trimmed(cell) + around.1,
        are_blanks(around.0),
        are_blanks(around.1),
        trimmed(cell).len() > 0 ==> !is_blank(trimmed(cell)[0]) && !is_blank(
            trimmed(cell).last(),
        ),
    decreases cell.len(),
{
    if cell.len() > 0 && is_blank(cell[0]) {
        let rest = law_blanks(cell.skip(1));
        let front = seq![cell[0]] + rest.0;
        let tail = cell.skip(1);
        assert(cell =~= seq![cell[0]] + tail);
        assert(seq![cell[0]] + (rest.0 + trimmed(tail) + rest.1) =~= front + trimmed(tail)
            + rest.1);
        assert(trimmed(cell) == trimmed(tail));
        (front, rest.1)
    } else if cell.len() > 0 && is_blank(cell.last()) {
        let rest = law_blanks(cell.drop_last());
        let back = rest.1.push(cell.last());
        let head = cell.drop_last();
        assert(cell =~= head.push(cell.last()));
        assert((rest.0 + trimmed(head) + rest.1).push(cell.last()) =~= rest.0 + trimmed(head)
            + back);
        assert(trimmed(cell) == trimmed(head));
        (rest.0, back)
    } else {
        assert(cell =~= Seq::<char>::empty() + cell + Seq::<char>::empty());
        (Seq::empty(), Seq::empty())
    }
}

/// Whether a code is one of a subtype for apps that is called so.
pub open spec fn is_app_called(code: u8, name: Seq<char>) -> bool {
    (code == 0 || 0x10 <= code <= 0x20) && PartitionSubType::App(code).spec_text() == name
}

/// Whether a code is one of a subtype for data that is called so.
pub open spec fn is_data_called(code: u8, name: Seq<char>) -> bool {
    (code <= 6 || 0x80 <= code <= 0x83) && PartitionSubType::Data(code).spec_text() == name
}

proof fn lemma_app_called(name: Seq<char>, count: nat)
    requires
        count <= 256,
    ensures
        match app_code(name, count) {
            Some(code) => code < count && is_app_called(code as u8, name),
            None => forall|code: u8| code < count ==> !#[trigger] is_app_called(code, name),
        },
    decreases count,
{
    if count > 0 {
        lemma_app_called(name, (count - 1) as nat);
    }
}

proof fn lemma_data_called(name: Seq<char>, count: nat)
    requires
        count <= 256,
    ensures
        match data_code(name, count) {
            Some(code) => code < count && is_data_called(code as u8, name),
            None => forall|code: u8| code < count ==> !#[trigger] is_data_called(code, name),
        },
    decreases count,
{
    if count > 0 {
        lemma_data_called(name, (count - 1) as nat);
    }
}

/// Types and subtypes are read by their names, those of subtypes for apps first, or else
/// by their codes, which are integers of eight bits.
pub proof fn law_codes(cell: Seq<char>)
    ensures
        cell == "app"@ ==> type_code(cell) == Some(0nat),
        cell == "data"@ ==> type_code(cell) == Some(1nat),
        cell != "app"@ && cell != "data"@ ==> type_code(cell) == (if integer_in(cell) is Some
            && integer_in(cell)->0 < 256 {
            integer_in(cell)
        } else {
            None
        }),
        (exists|code: u8| is_app_called(code, cell)) ==> subtype_code(cell) is Some
            && subtype_code(cell)->0 < 256 && is_app_called(subtype_code(cell)->0 as u8, cell),
        !(exists|code: u8| is_app_called(code, cell)) && (exists|code: u8|
            is_data_called(code, cell)) ==> subtype_code(cell) is Some && subtype_code(cell)->0
            < 256 && is_data_called(subtype_code(cell)->0 as u8, cell),
        !(exists|code: u8| is_app_called(code, cell)) && !(exists|code: u8|
            is_data_called(code, cell)) ==> subtype_code(cell) == (if integer_in(cell) is Some
            && integer_in(cell)->0 < 256 {
            integer_in(cell)
        } else {
            None
        }),
{
    reveal_strlit("app");
    reveal_strlit("data");
    assert("app"@.len() != "data"@.len());
    lemma_integer(cell);
    lemma_app_called(cell, 256);
    lemma_data_called(cell, 256);
}

/// A row is one of a partition table if it has a name, a type, a subtype, an offset that
/// may be empty and a size; what comes behind is not looked at. The offset is looked at
/// before the size, and a number beyond 32 bits breaks the reader.
pub proof fn law_row_is_read(end: u32, row: Seq<Seq<char>>)
    ensures
        ({
            let reading = Reading::of_row(end, row);
            let ty = type_code(trimmed(row[1]));
            let subtype = subtype_code(trimmed(row[2]));
            let offset = Amount::spec_of(trimmed(row[3]));
            let size = Amount::spec_of(trimmed(row[4]));
            let begun = row.len() >= 4 && ty is Some && subtype is Some && !(offset is Unknown);
            &&& !begun ==> reading is Fails
            &&& begun && offset is Beyond ==> reading is Breaks
            &&& begun && !(offset is Beyond) && (row.len() == 4 || size is Missing
                || size is Unknown) ==> reading is Fails
            &&& begun && !(offset is Beyond) && row.len() > 4 && size is Beyond
                ==> reading is Breaks
            &&& begun && !(offset is Beyond) && row.len() > 4 && size is Bytes ==> reading
                == Reading::of_partition(end, ty->0, subtype->0, offset, size->Bytes_0)
        }),
{
}

} // verus!
