//! What holds of every walk.
//!
//! The functions of [`crate::grid`] fix one walk for each value. The proofs
//! here state, in closed form, what that walk is for the shapes that tables
//! are made of: scalars, optional values, tagged choices, flat records and
//! lists of flat records.

use crate::grid::{stamp, walk, walk_cell, walk_first, walk_values, Halt, Mark, Place, Walk};
use crate::sheet::{lands, number_of_i64, number_of_u64, passes, Cell, Cells};
use crate::value::Value;
use vstd::prelude::*;

verus! {

/// Whether `value` is offered to the worksheet as one cell.
pub open spec fn is_scalar(value: Value) -> bool {
    match value {
        Value::Bool(_) => true,
        Value::Int(_) => true,
        Value::UInt(_) => true,
        Value::Char(_) => true,
        Value::Text(_) => true,
        Value::TaggedUnit(_) => true,
        _ => false,
    }
}

/// The cell that a scalar is offered as.
pub open spec fn cell_of(value: Value) -> Cell
    recommends
        is_scalar(value),
{
    match value {
        Value::Bool(v) => Cell::Boolean(v),
        Value::Int(v) => Cell::Number(number_of_i64(v)),
        Value::UInt(v) => Cell::Number(number_of_u64(v)),
        Value::Char(c) => Cell::Text(seq![c]),
        Value::Text(text) => Cell::Text(text@),
        Value::TaggedUnit(tag) => Cell::Text(tag@),
        _ => Cell::Text(Seq::empty()),
    }
}

/// The values of keyed entries, without their keys.
pub open spec fn values_of(pairs: Seq<(Value, Value)>) -> Seq<Value> {
    Seq::new(pairs.len(), |i: int| pairs[i].1)
}

/// The fields of a record, in order: the elements of a sequence, or the
/// values of keyed entries.
pub open spec fn fields_of(record: Value) -> Seq<Value> {
    match record {
        Value::Sequence(items) => items@,
        Value::Keyed(pairs) => values_of(pairs@),
        _ => Seq::empty(),
    }
}

/// Whether every one of `fields` is a scalar.
pub open spec fn all_scalar(fields: Seq<Value>) -> bool {
    forall|i: int| 0 <= i < fields.len() ==> is_scalar(#[trigger] fields[i])
}

/// Whether `record` is a sequence or a keyed composite of scalars only.
pub open spec fn is_flat_record(record: Value) -> bool {
    (record is Sequence || record is Keyed) && all_scalar(fields_of(record))
}

/// The cells that a row of scalars is offered as: field `i` in column
/// `at.col + i` of row `at.row`.
pub open spec fn offered(fields: Seq<Value>, at: Place) -> Seq<Mark> {
    Seq::new(
        fields.len(),
        |i: int| Mark { row: at.row, col: at.col + i, cell: cell_of(fields[i]) },
    )
}

/// Tells the cells that a worksheet stores from those it passes over.
pub open spec fn kept() -> spec_fn(Mark) -> bool {
    |mark: Mark| lands(mark.cell, mark.row, mark.col)
}

/// The cells stored for a row of scalars: those of [`offered`] that the
/// worksheet stores, which are all but empty texts.
pub open spec fn row_marks(fields: Seq<Value>, at: Place) -> Seq<Mark> {
    offered(fields, at).filter(kept())
}

/// Whether the worksheet accepts every field of a row of scalars that
/// starts at `at`.
pub open spec fn row_passes(fields: Seq<Value>, at: Place) -> bool {
    forall|i: int|
        0 <= i < fields.len() ==> passes(cell_of(#[trigger] fields[i]), at.row, at.col + i)
}

/// A scalar is walked as its one cell.
pub proof fn lemma_scalar_walk(value: Value, at: Place)
    requires
        is_scalar(value),
    ensures
        walk(value, at) == walk_cell(cell_of(value), at),
{
}

/// Keyed entries are walked as the sequence of their values.
pub proof fn lemma_values_walk(pairs: Seq<(Value, Value)>, n: nat, at: Place)
    requires
        n <= pairs.len(),
    ensures
        walk_values(pairs, n, at) == walk_first(values_of(pairs), n, at),
    decreases n,
{
    if n > 0 {
        lemma_values_walk(pairs, (n - 1) as nat, at);
    }
}

/// The walk of the first `n` fields of a row of scalars, while the worksheet
/// accepts them: field `i` is offered in column `at.col + i`, and the cursor
/// ends `n` columns to the right.
pub proof fn lemma_row_prefix(fields: Seq<Value>, n: nat, at: Place)
    requires
        n <= fields.len(),
        all_scalar(fields),
        row_passes(fields.take(n as int), at),
    ensures
        walk_first(fields, n, at) == (Walk {
            marks: row_marks(fields.take(n as int), at),
            end: Place { row: at.row, col: at.col + n },
            widest: at.col + n,
            halt: None,
        }),
    decreases n,
{
    reveal(Seq::filter);
    if n == 0 {
        assert(offered(fields.take(0), at) =~= Seq::<Mark>::empty());
    } else {
        let m = (n - 1) as nat;
        let shorter = fields.take(m as int);
        let longer = fields.take(n as int);
        assert forall|i: int| 0 <= i < shorter.len() implies passes(
            cell_of(#[trigger] shorter[i]),
            at.row,
            at.col + i,
        ) by {
            assert(shorter[i] == longer[i]);
        }
        lemma_row_prefix(fields, m, at);
        let here = Place { row: at.row, col: at.col + m };
        assert(fields[m as int] == longer[m as int]);
        lemma_scalar_walk(fields[m as int], here);
        let mark = Mark { row: at.row, col: at.col + m, cell: cell_of(fields[m as int]) };
        assert(offered(longer, at) =~= offered(shorter, at).push(mark));
        offered(shorter, at).lemma_filter_push(mark, kept());
        let step = walk_cell(cell_of(fields[m as int]), here);
        if lands(mark.cell, mark.row, mark.col) {
            assert(row_marks(shorter, at) + step.marks =~= row_marks(shorter, at).push(mark));
        } else {
            assert(row_marks(shorter, at) + step.marks =~= row_marks(shorter, at));
        }
    }
}

/// The walk of a row of scalars stops at the first field that the worksheet
/// refuses, with the fields before it stored and the cursor on the refused
/// field's column.
pub proof fn lemma_row_refused(fields: Seq<Value>, k: nat, n: nat, at: Place)
    requires
        k < n <= fields.len(),
        all_scalar(fields),
        row_passes(fields.take(k as int), at),
        !passes(cell_of(fields[k as int]), at.row, at.col + k),
    ensures
        walk_first(fields, n, at) == (Walk {
            marks: row_marks(fields.take(k as int), at),
            end: Place { row: at.row, col: at.col + k },
            widest: at.col + k,
            halt: Some(Halt::Refused),
        }),
    decreases n,
{
    if n == k + 1 {
        lemma_row_prefix(fields, k, at);
        lemma_scalar_walk(fields[k as int], Place { row: at.row, col: at.col + k });
        assert(row_marks(fields.take(k as int), at) + Seq::<Mark>::empty() =~= row_marks(
            fields.take(k as int),
            at,
        ));
    } else {
        lemma_row_refused(fields, k, (n - 1) as nat, at);
    }
}

/// A flat record fills one row. Its walk runs to the end exactly if the
/// worksheet accepts every field in its column; then field `i` is offered
/// in column `at.col + i` of the row of the cursor, in the order of the
/// fields, and the cursor ends at the start of the next row.
pub proof fn law_flat_record(record: Value, at: Place)
    requires
        is_flat_record(record),
    ensures
        walk(record, at).halt is None <==> row_passes(fields_of(record), at),
        walk(record, at).halt is None ==> walk(record, at).marks == row_marks(
            fields_of(record),
            at,
        ) && walk(record, at).end == at.below(),
{
    let fields = fields_of(record);
    let n = fields.len();
    match record {
        Value::Keyed(pairs) => lemma_values_walk(pairs@, n, at),
        _ => {},
    }
    assert(walk(record, at) == walk_first(fields, n, at).close());
    assert(fields.take(n as int) =~= fields);
    if row_passes(fields, at) {
        lemma_row_prefix(fields, n, at);
    } else {
        let k = lemma_first_refused(fields, n, at);
        lemma_row_refused(fields, k, n, at);
    }
}

/// A row that the worksheet does not accept in full has a first field that
/// it refuses.
pub proof fn lemma_first_refused(fields: Seq<Value>, n: nat, at: Place) -> (k: nat)
    requires
        n <= fields.len(),
        !row_passes(fields.take(n as int), at),
    ensures
        k < n,
        row_passes(fields.take(k as int), at),
        !passes(cell_of(fields[k as int]), at.row, at.col + k),
    decreases n,
{
    let longer = fields.take(n as int);
    let i = choose|i: int|
        0 <= i < longer.len() && !passes(cell_of(#[trigger] longer[i]), at.row, at.col + i);
    assert(longer[i] == fields[i]);
    let shorter = fields.take(n - 1);
    if row_passes(shorter, at) {
        if i < n - 1 {
            assert(shorter[i] == fields[i]);
        }
        (n - 1) as nat
    } else {
        lemma_first_refused(fields, (n - 1) as nat, at)
    }
}

/// Whether every one of `records` is a flat record.
pub open spec fn all_flat(records: Seq<Value>) -> bool {
    forall|j: int| 0 <= j < records.len() ==> is_flat_record(#[trigger] records[j])
}

/// The cells stored for each of a list of flat records: those of record `j`
/// in row `at.row + j`, from the first column on.
pub open spec fn rows_of(records: Seq<Value>, at: Place) -> Seq<Seq<Mark>> {
    Seq::new(
        records.len(),
        |j: int| row_marks(fields_of(records[j]), Place { row: at.row + j, col: 0 }),
    )
}

/// Whether the worksheet accepts every field of every record of a list of
/// flat records, record `j` lying in row `at.row + j`.
pub open spec fn rows_pass(records: Seq<Value>, at: Place) -> bool {
    forall|j: int|
        0 <= j < records.len() ==> row_passes(
            fields_of(#[trigger] records[j]),
            Place { row: at.row + j, col: 0 },
        )
}

/// The walk of the first `n` of a list of flat records, while the worksheet
/// accepts them: each record fills the row below the one before it.
pub proof fn lemma_rows_prefix(records: Seq<Value>, n: nat, at: Place)
    requires
        n <= records.len(),
        all_flat(records),
        at.col == 0,
        rows_pass(records.take(n as int), at),
    ensures
        walk_first(records, n, at).halt is None,
        walk_first(records, n, at).marks == rows_of(records.take(n as int), at).flatten(),
        walk_first(records, n, at).end == (Place { row: at.row + n, col: 0 }),
    decreases n,
{
    if n == 0 {
        assert(rows_of(records.take(0), at) =~= Seq::<Seq<Mark>>::empty());
    } else {
        let m = (n - 1) as nat;
        let shorter = records.take(m as int);
        let longer = records.take(n as int);
        assert forall|j: int| 0 <= j < shorter.len() implies row_passes(
            fields_of(#[trigger] shorter[j]),
            Place { row: at.row + j, col: 0 },
        ) by {
            assert(shorter[j] == longer[j]);
        }
        lemma_rows_prefix(records, m, at);
        let here = Place { row: at.row + m, col: 0 };
        assert(records[m as int] == longer[m as int]);
        law_flat_record(records[m as int], here);
        let row = row_marks(fields_of(records[m as int]), here);
        assert(rows_of(longer, at) =~= rows_of(shorter, at).push(row));
        rows_of(shorter, at).lemma_flatten_push(row);
    }
}

/// The walk of a list of flat records stops in the first record that holds
/// a field that the worksheet refuses.
pub proof fn lemma_rows_refused(records: Seq<Value>, k: nat, n: nat, at: Place)
    requires
        k < n <= records.len(),
        all_flat(records),
        at.col == 0,
        rows_pass(records.take(k as int), at),
        !row_passes(fields_of(records[k as int]), Place { row: at.row + k, col: 0 }),
    ensures
        walk_first(records, n, at).halt == Some(Halt::Refused),
    decreases n,
{
    if n == k + 1 {
        lemma_rows_prefix(records, k, at);
        let here = Place { row: at.row + k, col: 0 };
        let record = records[k as int];
        let fields = fields_of(record);
        law_flat_record(record, here);
        match record {
            Value::Keyed(pairs) => lemma_values_walk(pairs@, fields.len(), here),
            _ => {},
        }
        assert(fields.take(fields.len() as int) =~= fields);
        let j = lemma_first_refused(fields, fields.len(), here);
        lemma_row_refused(fields, j, fields.len(), here);
    } else {
        lemma_rows_refused(records, k, (n - 1) as nat, at);
    }
}

/// A list that does not pass in full has a first record that does not.
pub proof fn lemma_first_refused_row(records: Seq<Value>, n: nat, at: Place) -> (k: nat)
    requires
        n <= records.len(),
        !rows_pass(records.take(n as int), at),
    ensures
        k < n,
        rows_pass(records.take(k as int), at),
        !row_passes(fields_of(records[k as int]), Place { row: at.row + k, col: 0 }),
    decreases n,
{
    let longer = records.take(n as int);
    let j = choose|j: int|
        0 <= j < longer.len() && !row_passes(
            fields_of(#[trigger] longer[j]),
            Place { row: at.row + j, col: 0 },
        );
    assert(longer[j] == records[j]);
    let shorter = records.take(n - 1);
    if rows_pass(shorter, at) {
        if j < n - 1 {
            assert(shorter[j] == records[j]);
        }
        (n - 1) as nat
    } else {
        lemma_first_refused_row(records, (n - 1) as nat, at)
    }
}

/// A list of flat records fills one row for each record. Walked from the
/// start of a row, it runs to the end exactly if the worksheet accepts every
/// field; then record `j` lies in row `at.row + j`, its fields from the
/// first column on, and the cursor ends at the start of the row below the
/// one that closing the list passes over.
pub proof fn law_record_rows(list: Value, at: Place)
    requires
        list is Sequence,
        all_flat(fields_of(list)),
        at.col == 0,
    ensures
        walk(list, at).halt is None <==> rows_pass(fields_of(list), at),
        walk(list, at).halt is None ==> walk(list, at).marks == rows_of(
            fields_of(list),
            at,
        ).flatten() && walk(list, at).end == (Place {
            row: at.row + fields_of(list).len() + 1,
            col: 0,
        }),
{
    let records = fields_of(list);
    let n = records.len();
    assert(records.take(n as int) =~= records);
    if rows_pass(records, at) {
        lemma_rows_prefix(records, n, at);
    } else {
        let k = lemma_first_refused_row(records, n, at);
        lemma_rows_refused(records, k, n, at);
    }
}

/// A missing optional value and a unit, named or not, write nothing and
/// leave the cursor where it is.
pub proof fn law_nothing_for_absent(value: Value, at: Place)
    requires
        value is Absent || value is Unit || value is NamedUnit,
    ensures
        walk(value, at) == Walk::idle(at),
        walk(value, at).marks.len() == 0,
        walk(value, at).end == at,
        walk(value, at).halt is None,
{
}

/// An optional value that is there is walked as the value itself, and so is
/// a value wrapped under a type name.
pub proof fn law_wrapping_is_transparent(inner: Value, name: String, at: Place)
    ensures
        walk(Value::Present(Box::new(inner)), at) == walk(inner, at),
        walk(Value::NamedWrapper(name, Box::new(inner)), at) == walk(inner, at),
{
}

/// A tagged choice without content is walked as the text of its tag: where
/// the worksheet stores that text, it is the one cell written, at the
/// cursor, which moves one column to the right.
pub proof fn law_tag_is_text(tag: String, at: Place)
    ensures
        walk(Value::TaggedUnit(tag), at) == walk(Value::Text(tag), at),
        lands(Cell::Text(tag@), at.row, at.col) ==> walk(Value::TaggedUnit(tag), at) == (Walk {
            marks: seq![Mark { row: at.row, col: at.col, cell: Cell::Text(tag@) }],
            end: at.right(),
            widest: at.col + 1,
            halt: None,
        }),
{
}

/// A tagged choice with content is walked as its tag, followed in the same
/// row by its content: where the worksheet accepts the tag, the content is
/// walked from the column to the right of it.
pub proof fn law_tag_leads_content(tag: String, inner: Value, at: Place)
    ensures
        walk(Value::TaggedWrapper(tag, Box::new(inner)), at) == walk(
            Value::TaggedUnit(tag),
            at,
        ).followed_by(walk(inner, walk(Value::TaggedUnit(tag), at).end)),
        passes(Cell::Text(tag@), at.row, at.col) ==> walk(
            Value::TaggedWrapper(tag, Box::new(inner)),
            at,
        ).marks == walk(Value::TaggedUnit(tag), at).marks + walk(inner, at.right()).marks
            && walk(Value::TaggedWrapper(tag, Box::new(inner)), at).end == walk(
            inner,
            at.right(),
        ).end,
{
}

/// A byte blob stops the walk where it starts, as unsupported, and writes
/// no cell.
pub proof fn law_bytes_unsupported(bytes: Vec<u8>, at: Place)
    ensures
        walk(Value::Bytes(bytes), at).halt == Some(Halt::Unsupported),
        walk(Value::Bytes(bytes), at).marks.len() == 0,
        walk(Value::Bytes(bytes), at).end == at,
{
}

/// Whether `(row, col)` comes before `at` in reading order: in a row above,
/// or in the same row further left.
pub open spec fn comes_before(row: int, col: int, at: Place) -> bool {
    row < at.row || (row == at.row && col < at.col)
}

/// Whether each of `marks` comes before the next in reading order.
pub open spec fn in_reading_order(marks: Seq<Mark>) -> bool {
    forall|i: int, j: int|
        0 <= i < j < marks.len() ==> comes_before(
            (#[trigger] marks[i]).row,
            marks[i].col,
            Place { row: (#[trigger] marks[j]).row, col: marks[j].col },
        )
}

/// Whether each of `marks` lies at or after `from` and before `to` in
/// reading order.
pub open spec fn lies_between(marks: Seq<Mark>, from: Place, to: Place) -> bool {
    forall|i: int|
        0 <= i < marks.len() ==> !comes_before((#[trigger] marks[i]).row, marks[i].col, from)
            && comes_before(marks[i].row, marks[i].col, to)
}

/// Whether a walk stores its cells in reading order, none before the place
/// where it starts and all before the place where it ends, which is not
/// before the start.
pub open spec fn reads_forward(walk: Walk, at: Place) -> bool {
    &&& in_reading_order(walk.marks)
    &&& lies_between(walk.marks, at, walk.end)
    &&& !comes_before(walk.end.row, walk.end.col, at)
}

/// Two walks that read forward, the second from where the first ends, read
/// forward together.
pub proof fn lemma_followed_reads_forward(first: Walk, second: Walk, at: Place)
    requires
        reads_forward(first, at),
        reads_forward(second, first.end),
    ensures
        reads_forward(first.followed_by(second), at),
{
    let both = first.followed_by(second);
    if first.halt is None {
        assert forall|i: int| 0 <= i < both.marks.len() implies !comes_before(
            (#[trigger] both.marks[i]).row,
            both.marks[i].col,
            at,
        ) && comes_before(both.marks[i].row, both.marks[i].col, both.end) by {
            if i < first.marks.len() {
                assert(both.marks[i] == first.marks[i]);
            } else {
                assert(both.marks[i] == second.marks[i - first.marks.len()]);
            }
        }
        assert forall|i: int, j: int| 0 <= i < j < both.marks.len() implies comes_before(
            (#[trigger] both.marks[i]).row,
            both.marks[i].col,
            Place { row: (#[trigger] both.marks[j]).row, col: both.marks[j].col },
        ) by {
            let n = first.marks.len();
            if j < n {
                assert(both.marks[i] == first.marks[i]);
                assert(both.marks[j] == first.marks[j]);
            } else if i < n {
                assert(both.marks[i] == first.marks[i]);
                assert(both.marks[j] == second.marks[j - n]);
            } else {
                assert(both.marks[i] == second.marks[i - n]);
                assert(both.marks[j] == second.marks[j - n]);
            }
        }
    }
}

/// Every walk stores its cells in reading order, from the place of the
/// cursor on, and leaves the cursor behind the last of them. So no
/// coordinate is written twice.
pub proof fn law_reading_order(value: Value, at: Place)
    ensures
        reads_forward(walk(value, at), at),
    decreases value, 0nat,
{
    match value {
        Value::Present(inner) => law_reading_order(*inner, at),
        Value::NamedWrapper(_, inner) => law_reading_order(*inner, at),
        Value::TaggedWrapper(tag, inner) => {
            let head = walk_cell(Cell::Text(tag@), at);
            law_reading_order(*inner, head.end);
            lemma_followed_reads_forward(head, walk(*inner, head.end), at);
        },
        Value::Sequence(items) => lemma_first_reads_forward(items@, items@.len(), at),
        Value::Keyed(pairs) => lemma_values_read_forward(pairs@, pairs@.len(), at),
        _ => {},
    }
}

/// [`law_reading_order`] for the first `n` of `items`.
pub proof fn lemma_first_reads_forward(items: Seq<Value>, n: nat, at: Place)
    ensures
        reads_forward(walk_first(items, n, at), at),
        reads_forward(walk_first(items, n, at).close(), at),
    decreases items, n,
{
    if n == 0 || n > items.len() {
    } else {
        let before = walk_first(items, (n - 1) as nat, at);
        lemma_first_reads_forward(items, (n - 1) as nat, at);
        law_reading_order(items[n - 1], before.end);
        lemma_followed_reads_forward(before, walk(items[n - 1], before.end), at);
    }
}

/// [`law_reading_order`] for the values of the first `n` of `pairs`.
pub proof fn lemma_values_read_forward(pairs: Seq<(Value, Value)>, n: nat, at: Place)
    ensures
        reads_forward(walk_values(pairs, n, at), at),
        reads_forward(walk_values(pairs, n, at).close(), at),
    decreases pairs, n,
{
    if n == 0 || n > pairs.len() {
    } else {
        let before = walk_values(pairs, (n - 1) as nat, at);
        lemma_values_read_forward(pairs, (n - 1) as nat, at);
        law_reading_order(pairs[n - 1].1, before.end);
        lemma_followed_reads_forward(before, walk(pairs[n - 1].1, before.end), at);
    }
}

/// Whether every cell of `cells` lies before `at` in reading order.
pub open spec fn all_before(cells: Cells, at: Place) -> bool {
    forall|key: (int, int)| #[trigger] cells.contains_key(key) ==> comes_before(key.0, key.1, at)
}

/// Storing marks leaves every coordinate that is not among them as it was.
pub proof fn lemma_stamp_elsewhere(cells: Cells, marks: Seq<Mark>, key: (int, int))
    requires
        forall|i: int| 0 <= i < marks.len() ==> ((#[trigger] marks[i]).row, marks[i].col) != key,
    ensures
        stamp(cells, marks).contains_key(key) == cells.contains_key(key),
        cells.contains_key(key) ==> stamp(cells, marks)[key] == cells[key],
    decreases marks.len(),
{
    if marks.len() > 0 {
        let rest = marks.drop_last();
        assert forall|i: int| 0 <= i < rest.len() implies ((#[trigger] rest[i]).row, rest[i].col)
            != key by {
            assert(rest[i] == marks[i]);
        }
        lemma_stamp_elsewhere(cells, rest, key);
        assert(marks.last() == marks[marks.len() - 1]);
    }
}

/// Marks stored in reading order are all there afterwards, each at its own
/// coordinate.
pub proof fn lemma_stamp_holds(cells: Cells, marks: Seq<Mark>, i: int)
    requires
        in_reading_order(marks),
        0 <= i < marks.len(),
    ensures
        stamp(cells, marks).contains_key((marks[i].row, marks[i].col)),
        stamp(cells, marks)[(marks[i].row, marks[i].col)] == marks[i].cell,
    decreases marks.len(),
{
    let rest = marks.drop_last();
    let last = marks.len() - 1;
    assert(marks.last() == marks[last]);
    if i < last {
        assert forall|a: int, b: int| 0 <= a < b < rest.len() implies comes_before(
            (#[trigger] rest[a]).row,
            rest[a].col,
            Place { row: (#[trigger] rest[b]).row, col: rest[b].col },
        ) by {
            assert(rest[a] == marks[a]);
            assert(rest[b] == marks[b]);
        }
        assert(rest[i] == marks[i]);
        lemma_stamp_holds(cells, rest, i);
        assert(comes_before(
            marks[i].row,
            marks[i].col,
            Place { row: marks[last].row, col: marks[last].col },
        ));
    }
}

/// Every cell that is there after marks were stored was there before or is
/// one of the marks.
pub proof fn lemma_stamp_source(cells: Cells, marks: Seq<Mark>, key: (int, int))
    requires
        stamp(cells, marks).contains_key(key),
    ensures
        cells.contains_key(key) || exists|i: int|
            0 <= i < marks.len() && ((#[trigger] marks[i]).row, marks[i].col) == key,
    decreases marks.len(),
{
    if marks.len() > 0 {
        let rest = marks.drop_last();
        let last = marks.len() - 1;
        assert(marks.last() == marks[last]);
        if (marks[last].row, marks[last].col) != key {
            lemma_stamp_source(cells, rest, key);
            if !cells.contains_key(key) {
                let i = choose|i: int|
                    0 <= i < rest.len() && ((#[trigger] rest[i]).row, rest[i].col) == key;
                assert(rest[i] == marks[i]);
            }
        }
    }
}

/// Cells are written once. If every cell of a worksheet lies before the
/// cursor, then after the walk of a value every one of them is as it was,
/// every cell that the walk stored is where it was stored, and every cell
/// lies before the cursor again.
pub proof fn law_written_once(cells: Cells, value: Value, at: Place)
    requires
        all_before(cells, at),
    ensures
        forall|key: (int, int)| #[trigger]
            cells.contains_key(key) ==> stamp(cells, walk(value, at).marks).contains_key(key)
                && stamp(cells, walk(value, at).marks)[key] == cells[key],
        forall|i: int|
            0 <= i < walk(value, at).marks.len() ==> stamp(
                cells,
                walk(value, at).marks,
            ).contains_key(
                ((#[trigger] walk(value, at).marks[i]).row, walk(value, at).marks[i].col),
            ) && stamp(cells, walk(value, at).marks)[(
                walk(value, at).marks[i].row,
                walk(value, at).marks[i].col,
            )] == walk(value, at).marks[i].cell,
        all_before(stamp(cells, walk(value, at).marks), walk(value, at).end),
{
    let marks = walk(value, at).marks;
    let end = walk(value, at).end;
    law_reading_order(value, at);
    assert forall|key: (int, int)| #[trigger] cells.contains_key(key) implies stamp(
        cells,
        marks,
    ).contains_key(key) && stamp(cells, marks)[key] == cells[key] by {
        lemma_stamp_elsewhere(cells, marks, key);
    }
    assert forall|i: int| 0 <= i < marks.len() implies stamp(cells, marks).contains_key(
        ((#[trigger] marks[i]).row, marks[i].col),
    ) && stamp(cells, marks)[(marks[i].row, marks[i].col)] == marks[i].cell by {
        lemma_stamp_holds(cells, marks, i);
    }
    assert forall|key: (int, int)| #[trigger]
        stamp(cells, marks).contains_key(key) implies comes_before(key.0, key.1, end) by {
        lemma_stamp_source(cells, marks, key);
    }
}

/// How many composites end in the walk of `value`: the sequences and keyed
/// composites in it, itself included, without the keys of keyed entries.
pub open spec fn composites(value: Value) -> nat
    decreases value, 0nat,
{
    match value {
        Value::Present(inner) => composites(*inner),
        Value::NamedWrapper(_, inner) => composites(*inner),
        Value::TaggedWrapper(_, inner) => composites(*inner),
        Value::Sequence(items) => composites_first(items@, items@.len()) + 1,
        Value::Keyed(pairs) => composites_values(pairs@, pairs@.len()) + 1,
        _ => 0,
    }
}

/// [`composites`] of the first `n` of `items`, taken together.
pub open spec fn composites_first(items: Seq<Value>, n: nat) -> nat
    decreases items, n,
{
    if n == 0 || n > items.len() {
        0
    } else {
        composites_first(items, (n - 1) as nat) + composites(items[n - 1])
    }
}

/// [`composites`] of the values of the first `n` of `pairs`, taken
/// together.
pub open spec fn composites_values(pairs: Seq<(Value, Value)>, n: nat) -> nat
    decreases pairs, n,
{
    if n == 0 || n > pairs.len() {
        0
    } else {
        composites_values(pairs, (n - 1) as nat) + composites(pairs[n - 1].1)
    }
}

/// The cursor moves down one row for each composite that ends, and for
/// nothing else: a walk that runs to its end leaves the cursor as many rows
/// below its start as the value holds composites. Without a composite the
/// cursor stays in its row and moves right only; with one it ends in the
/// first column.
pub proof fn law_rows_count_composites(value: Value, at: Place)
    ensures
        walk(value, at).halt is None ==> walk(value, at).end.row == at.row + composites(value),
        walk(value, at).halt is None && composites(value) == 0 ==> walk(value, at).end.col
            >= at.col,
        walk(value, at).halt is None && composites(value) > 0 ==> walk(value, at).end.col == 0,
    decreases value, 0nat,
{
    match value {
        Value::Present(inner) => law_rows_count_composites(*inner, at),
        Value::NamedWrapper(_, inner) => law_rows_count_composites(*inner, at),
        Value::TaggedWrapper(tag, inner) => {
            let head = walk_cell(Cell::Text(tag@), at);
            law_rows_count_composites(*inner, head.end);
        },
        Value::Sequence(items) => lemma_first_rows(items@, items@.len(), at),
        Value::Keyed(pairs) => lemma_values_rows(pairs@, pairs@.len(), at),
        _ => {},
    }
}

/// [`law_rows_count_composites`] for the first `n` of `items`.
pub proof fn lemma_first_rows(items: Seq<Value>, n: nat, at: Place)
    ensures
        walk_first(items, n, at).halt is None ==> walk_first(items, n, at).end.row == at.row
            + composites_first(items, n),
    decreases items, n,
{
    if n == 0 || n > items.len() {
    } else {
        let before = walk_first(items, (n - 1) as nat, at);
        lemma_first_rows(items, (n - 1) as nat, at);
        law_rows_count_composites(items[n - 1], before.end);
    }
}

/// [`law_rows_count_composites`] for the values of the first `n` of
/// `pairs`.
pub proof fn lemma_values_rows(pairs: Seq<(Value, Value)>, n: nat, at: Place)
    ensures
        walk_values(pairs, n, at).halt is None ==> walk_values(pairs, n, at).end.row == at.row
            + composites_values(pairs, n),
    decreases pairs, n,
{
    if n == 0 || n > pairs.len() {
    } else {
        let before = walk_values(pairs, (n - 1) as nat, at);
        lemma_values_rows(pairs, (n - 1) as nat, at);
        law_rows_count_composites(pairs[n - 1].1, before.end);
    }
}

} // verus!
