//! The serializer: one worksheet and one cursor.

use crate::error::Error;
use crate::grid::{
    lemma_stamp_append, lemma_stamp_cell, lemma_walk_extent, lemma_walk_first_extent,
    lemma_walk_first_prefix, lemma_walk_values_extent, lemma_walk_values_prefix, stamp, walk,
    walk_cell, walk_first, walk_tagged, walk_values, Halt, Place, Walk,
};
use crate::laws::{all_before, law_written_once};
use crate::room::survey;
use crate::sheet::{
    blank_sheet, book_sheets, new_workbook, number_of_i64, number_of_u64, passes,
    push_worksheet, save_to_buffer, sheet_cells, write_boolean, write_i64, write_string,
    write_u64, written, Cell, Cells,
};
use crate::value::Value;
use vstd::prelude::*;

verus! {

/// Serializes values into the cells of one worksheet.
///
/// The cursor starts at the origin. A scalar is written at the cursor, which
/// then moves one column to the right; the end of a composite moves the
/// cursor to the start of the next row.
pub struct XlsxSerializer {
    sheet: rust_xlsxwriter::Worksheet,
    row: u32,
    col: u16,
}

/// `char::to_string`: the text made of the one character.
#[verifier::external_body]
fn char_text(c: char) -> (text: String)
    ensures
        text@ == seq![c],
{
    c.to_string()
}

impl XlsxSerializer {
    /// The cells stored in the worksheet.
    pub closed spec fn cells(&self) -> Cells {
        sheet_cells(self.sheet)
    }

    /// Where the cursor is.
    pub closed spec fn place(&self) -> Place {
        Place { row: self.row as int, col: self.col as int }
    }

    /// Whether `self` is what `before` becomes by `walk`, reported as
    /// `outcome`: the cells of the walk are stored, the cursor is where the
    /// walk ends, and the outcome tells why the walk stopped early, if it
    /// did.
    pub open spec fn follows(&self, before: &Self, walk: Walk, outcome: Result<(), Error>) -> bool {
        &&& self.cells() == stamp(before.cells(), walk.marks)
        &&& self.place() == walk.end
        &&& match walk.halt {
            None => outcome is Ok,
            Some(Halt::Unsupported) => outcome is Err && outcome->Err_0 is UnsupportedShape,
            Some(Halt::Refused) => outcome is Err && outcome->Err_0 is SinkWrite,
        }
    }

    /// Whether `self` is what `before` becomes when `cell` is offered to the
    /// worksheet at the cursor, reported as `outcome`: the worksheet accepts
    /// the cell or not and stores it or not as [`passes`] and [`written`]
    /// say, and the cursor moves one column to the right exactly if the
    /// worksheet accepts. This is [`Self::follows`] for the walk of one
    /// cell.
    pub open spec fn wrote(&self, before: &Self, cell: Cell, outcome: Result<(), Error>) -> bool {
        let at = before.place();
        &&& outcome is Ok <==> passes(cell, at.row, at.col)
        &&& outcome is Err ==> outcome->Err_0 is SinkWrite
        &&& self.cells() == written(before.cells(), cell, at.row, at.col)
        &&& self.place() == if outcome is Ok {
            at.right()
        } else {
            at
        }
        &&& self.follows(before, walk_cell(cell, at), outcome)
    }

    /// Whether every cell of the worksheet lies before the cursor in
    /// reading order. It holds of a fresh serializer, and serializing
    /// keeps it: see [`law_serializer_writes_once`].
    pub open spec fn settled(&self) -> bool {
        all_before(self.cells(), self.place())
    }

    /// A serializer over an empty worksheet, with the cursor at the origin.
    pub fn new() -> (made: Result<XlsxSerializer, Error>)
        ensures
            made is Ok,
            made->Ok_0.cells() == Cells::empty(),
            made->Ok_0.place() == Place::origin(),
            made->Ok_0.settled(),
    {
        Ok(XlsxSerializer { sheet: blank_sheet(), row: 0, col: 0 })
    }

    /// The row of the cursor.
    pub fn row(&self) -> (row: u32)
        ensures
            row == self.place().row,
    {
        self.row
    }

    /// The column of the cursor.
    pub fn col(&self) -> (col: u16)
        ensures
            col == self.place().col,
    {
        self.col
    }

    /// The worksheet, for a write that the serializer has no method for,
    /// such as a floating-point number, which this library cannot hold. The
    /// caller writes at the cursor and hands the worksheet's answer to
    /// [`Self::record_write`], which moves the cursor.
    pub fn sheet_mut(&mut self) -> (sheet: &mut rust_xlsxwriter::Worksheet)
        ensures
            sheet_cells(*sheet) == old(self).cells(),
            final(self).cells() == sheet_cells(*final(sheet)),
            final(self).place() == old(self).place(),
    {
        &mut self.sheet
    }

    /// Accounts for one write that was attempted at the cursor: after a
    /// success the cursor moves one column to the right, after a failure it
    /// stays and the worksheet's error is handed on.
    pub fn record_write(&mut self, put: Result<(), rust_xlsxwriter::XlsxError>) -> (outcome: Result<
        (),
        Error,
    >)
        requires
            put is Ok ==> old(self).place().col < u16::MAX,
        ensures
            final(self).cells() == old(self).cells(),
            put is Ok ==> outcome is Ok && final(self).place() == old(self).place().right(),
            put is Err ==> outcome is Err && outcome->Err_0 == Error::SinkWrite(put->Err_0)
                && final(self).place() == old(self).place(),
    {
        match put {
            Ok(()) => {
                self.col = self.col + 1;
                Ok(())
            },
            Err(e) => Err(Error::SinkWrite(e)),
        }
    }

    /// Writes a boolean cell.
    pub fn serialize_bool(&mut self, v: bool) -> (outcome: Result<(), Error>)
        ensures
            final(self).wrote(old(self), Cell::Boolean(v), outcome),
    {
        let put = write_boolean(&mut self.sheet, self.row, self.col, v);
        proof {
            lemma_stamp_cell(old(self).cells(), Cell::Boolean(v), old(self).place());
        }
        self.record_write(put)
    }

    /// Writes an `i8` as a number cell.
    pub fn serialize_i8(&mut self, v: i8) -> (outcome: Result<(), Error>)
        ensures
            final(self).wrote(old(self), Cell::Number(number_of_i64(v as i64)), outcome),
    {
        self.serialize_i64(v as i64)
    }

    /// Writes an `i16` as a number cell.
    pub fn serialize_i16(&mut self, v: i16) -> (outcome: Result<(), Error>)
        ensures
            final(self).wrote(old(self), Cell::Number(number_of_i64(v as i64)), outcome),
    {
        self.serialize_i64(v as i64)
    }

    /// Writes an `i32` as a number cell.
    pub fn serialize_i32(&mut self, v: i32) -> (outcome: Result<(), Error>)
        ensures
            final(self).wrote(old(self), Cell::Number(number_of_i64(v as i64)), outcome),
    {
        self.serialize_i64(v as i64)
    }

    /// Writes an `i64` as a number cell.
    pub fn serialize_i64(&mut self, v: i64) -> (outcome: Result<(), Error>)
        ensures
            final(self).wrote(old(self), Cell::Number(number_of_i64(v)), outcome),
    {
        let put = write_i64(&mut self.sheet, self.row, self.col, v);
        proof {
            lemma_stamp_cell(old(self).cells(), Cell::Number(number_of_i64(v)), old(self).place());
        }
        self.record_write(put)
    }

    /// Writes a `u8` as a number cell.
    pub fn serialize_u8(&mut self, v: u8) -> (outcome: Result<(), Error>)
        ensures
            final(self).wrote(old(self), Cell::Number(number_of_u64(v as u64)), outcome),
    {
        self.serialize_u64(v as u64)
    }

    /// Writes a `u16` as a number cell.
    pub fn serialize_u16(&mut self, v: u16) -> (outcome: Result<(), Error>)
        ensures
            final(self).wrote(old(self), Cell::Number(number_of_u64(v as u64)), outcome),
    {
        self.serialize_u64(v as u64)
    }

    /// Writes a `u32` as a number cell.
    pub fn serialize_u32(&mut self, v: u32) -> (outcome: Result<(), Error>)
        ensures
            final(self).wrote(old(self), Cell::Number(number_of_u64(v as u64)), outcome),
    {
        self.serialize_u64(v as u64)
    }

    /// Writes a `u64` as a number cell.
    pub fn serialize_u64(&mut self, v: u64) -> (outcome: Result<(), Error>)
        ensures
            final(self).wrote(old(self), Cell::Number(number_of_u64(v)), outcome),
    {
        let put = write_u64(&mut self.sheet, self.row, self.col, v);
        proof {
            lemma_stamp_cell(old(self).cells(), Cell::Number(number_of_u64(v)), old(self).place());
        }
        self.record_write(put)
    }

    /// Writes a character as a text cell of that one character.
    pub fn serialize_char(&mut self, v: char) -> (outcome: Result<(), Error>)
        ensures
            final(self).wrote(old(self), Cell::Text(seq![v]), outcome),
    {
        let text = char_text(v);
        self.serialize_str(text.as_str())
    }

    /// Writes a text cell. Empty text stores no cell and still takes up its
    /// column.
    pub fn serialize_str(&mut self, v: &str) -> (outcome: Result<(), Error>)
        requires
            v@.len() == 0 ==> old(self).place().col < u16::MAX,
        ensures
            final(self).wrote(old(self), Cell::Text(v@), outcome),
    {
        let put = write_string(&mut self.sheet, self.row, self.col, v);
        proof {
            lemma_stamp_cell(old(self).cells(), Cell::Text(v@), old(self).place());
        }
        self.record_write(put)
    }

    /// Refuses a byte blob: nothing is written and the cursor stays.
    pub fn serialize_bytes(&mut self, v: &[u8]) -> (outcome: Result<(), Error>)
        ensures
            final(self).follows(
                old(self),
                Walk::stopped(old(self).place(), Halt::Unsupported),
                outcome,
            ),
            *final(self) == *old(self),
    {
        Err(Error::UnsupportedShape)
    }

    /// Passes over a missing optional value.
    pub fn serialize_none(&mut self) -> (outcome: Result<(), Error>)
        ensures
            final(self).follows(old(self), Walk::idle(old(self).place()), outcome),
            *final(self) == *old(self),
    {
        self.serialize_unit()
    }

    /// Serializes an optional value that is there, as the value itself.
    pub fn serialize_some(&mut self, value: &Value) -> (outcome: Result<(), Error>)
        requires
            walk(*value, old(self).place()).fits(),
        ensures
            final(self).follows(old(self), walk(*value, old(self).place()), outcome),
        decreases *value, 1nat,
    {
        self.serialize(value)
    }

    /// Passes over a unit.
    pub fn serialize_unit(&mut self) -> (outcome: Result<(), Error>)
        ensures
            final(self).follows(old(self), Walk::idle(old(self).place()), outcome),
            *final(self) == *old(self),
    {
        Ok(())
    }

    /// Passes over a unit with a type name.
    pub fn serialize_unit_struct(&mut self, name: &str) -> (outcome: Result<(), Error>)
        ensures
            final(self).follows(old(self), Walk::idle(old(self).place()), outcome),
            *final(self) == *old(self),
    {
        self.serialize_unit()
    }

    /// Writes the tag of a tagged choice without content as a text cell.
    pub fn serialize_unit_variant(&mut self, variant: &str) -> (outcome: Result<(), Error>)
        requires
            variant@.len() == 0 ==> old(self).place().col < u16::MAX,
        ensures
            final(self).wrote(old(self), Cell::Text(variant@), outcome),
    {
        self.serialize_str(variant)
    }

    /// Serializes a value wrapped under a type name, as the value itself.
    pub fn serialize_newtype_struct(&mut self, name: &str, value: &Value) -> (outcome: Result<
        (),
        Error,
    >)
        requires
            walk(*value, old(self).place()).fits(),
        ensures
            final(self).follows(old(self), walk(*value, old(self).place()), outcome),
        decreases *value, 1nat,
    {
        self.serialize(value)
    }

    /// Writes the tag of a tagged choice as a text cell, then serializes its
    /// content in the same row.
    pub fn serialize_newtype_variant(&mut self, variant: &str, value: &Value) -> (outcome: Result<
        (),
        Error,
    >)
        requires
            walk_tagged(variant@, *value, old(self).place()).fits(),
        ensures
            final(self).follows(
                old(self),
                walk_tagged(variant@, *value, old(self).place()),
                outcome,
            ),
        decreases *value, 1nat,
    {
        let ghost head = walk_cell(Cell::Text(variant@), old(self).place());
        let ghost tail = walk(*value, head.end);
        proof {
            lemma_walk_extent(*value, head.end);
        }
        match self.serialize_str(variant) {
            Err(e) => Err(e),
            Ok(()) => {
                let outcome = self.serialize(value);
                proof {
                    lemma_stamp_append(old(self).cells(), head.marks, tail.marks);
                }
                outcome
            },
        }
    }

    /// Serializes one element of a sequence.
    pub fn serialize_element(&mut self, value: &Value) -> (outcome: Result<(), Error>)
        requires
            walk(*value, old(self).place()).fits(),
        ensures
            final(self).follows(old(self), walk(*value, old(self).place()), outcome),
        decreases *value, 1nat,
    {
        self.serialize(value)
    }

    /// Serializes one field of a record.
    pub fn serialize_field(&mut self, value: &Value) -> (outcome: Result<(), Error>)
        requires
            walk(*value, old(self).place()).fits(),
        ensures
            final(self).follows(old(self), walk(*value, old(self).place()), outcome),
        decreases *value, 1nat,
    {
        self.serialize(value)
    }

    /// Passes over the key of a keyed entry.
    pub fn serialize_key(&mut self, key: &Value) -> (outcome: Result<(), Error>)
        ensures
            final(self).follows(old(self), Walk::idle(old(self).place()), outcome),
            *final(self) == *old(self),
    {
        Ok(())
    }

    /// Serializes the value of a keyed entry.
    pub fn serialize_value(&mut self, value: &Value) -> (outcome: Result<(), Error>)
        requires
            walk(*value, old(self).place()).fits(),
        ensures
            final(self).follows(old(self), walk(*value, old(self).place()), outcome),
        decreases *value, 1nat,
    {
        self.serialize(value)
    }

    /// Ends a composite: the cursor moves to the start of the next row.
    pub fn end(&mut self) -> (outcome: Result<(), Error>)
        requires
            old(self).place().row < u32::MAX,
        ensures
            outcome is Ok,
            final(self).cells() == old(self).cells(),
            final(self).place() == old(self).place().below(),
    {
        self.row = self.row + 1;
        self.col = 0;
        Ok(())
    }

    /// Serializes `value` by its shape.
    pub fn serialize(&mut self, value: &Value) -> (outcome: Result<(), Error>)
        requires
            walk(*value, old(self).place()).fits(),
        ensures
            final(self).follows(old(self), walk(*value, old(self).place()), outcome),
        decreases *value, 0nat,
    {
        match value {
            Value::Bool(v) => self.serialize_bool(*v),
            Value::Int(v) => self.serialize_i64(*v),
            Value::UInt(v) => self.serialize_u64(*v),
            Value::Char(v) => self.serialize_char(*v),
            Value::Text(v) => self.serialize_str(v.as_str()),
            Value::Bytes(v) => self.serialize_bytes(v.as_slice()),
            Value::Absent => self.serialize_none(),
            Value::Present(inner) => self.serialize_some(inner),
            Value::Unit => self.serialize_unit(),
            Value::NamedUnit(name) => self.serialize_unit_struct(name.as_str()),
            Value::NamedWrapper(name, inner) => self.serialize_newtype_struct(name.as_str(), inner),
            Value::TaggedUnit(tag) => self.serialize_unit_variant(tag.as_str()),
            Value::TaggedWrapper(tag, inner) => self.serialize_newtype_variant(tag.as_str(), inner),
            Value::Sequence(items) => self.serialize_elements(items),
            Value::Keyed(pairs) => self.serialize_entries(pairs),
        }
    }

    /// Whether the walk of `value` from the cursor fits the cursor: whether
    /// [`Self::serialize`] can be called.
    pub fn has_room(&self, value: &Value) -> (fits: bool)
        ensures
            fits == walk(*value, self.place()).fits(),
    {
        survey(value, self.row, self.col).is_some()
    }

    /// Serializes `value` if its walk fits the cursor, and does nothing
    /// otherwise.
    pub fn try_serialize(&mut self, value: &Value) -> (tried: Option<Result<(), Error>>)
        ensures
            tried is Some <==> walk(*value, old(self).place()).fits(),
            tried is Some ==> final(self).follows(
                old(self),
                walk(*value, old(self).place()),
                tried->Some_0,
            ),
            tried is None ==> *final(self) == *old(self),
    {
        if self.has_room(value) {
            Some(self.serialize(value))
        } else {
            None
        }
    }

    /// Serializes the elements of a sequence in order, then ends it.
    fn serialize_elements(&mut self, items: &Vec<Value>) -> (outcome: Result<(), Error>)
        requires
            walk_first(items@, items@.len(), old(self).place()).close().fits(),
        ensures
            final(self).follows(
                old(self),
                walk_first(items@, items@.len(), old(self).place()).close(),
                outcome,
            ),
        decreases *items, 0nat,
    {
        let ghost start = old(self).place();
        let ghost cells = old(self).cells();
        let ghost whole = walk_first(items@, items@.len(), start);
        let mut i: usize = 0;
        while i < items.len()
            invariant
                i <= items@.len(),
                start == old(self).place(),
                cells == old(self).cells(),
                whole == walk_first(items@, items@.len(), start),
                whole.close().fits(),
                walk_first(items@, i as nat, start).halt is None,
                self.cells() == stamp(cells, walk_first(items@, i as nat, start).marks),
                self.place() == walk_first(items@, i as nat, start).end,
            decreases items@.len() - i,
        {
            let ghost before = walk_first(items@, i as nat, start);
            let ghost step = walk(items@[i as int], before.end);
            proof {
                lemma_walk_first_extent(items@, i as nat, start);
                lemma_walk_extent(items@[i as int], before.end);
                lemma_walk_first_prefix(items@, (i + 1) as nat, items@.len(), start);
                lemma_stamp_append(cells, before.marks, step.marks);
            }
            match self.serialize_element(&items[i]) {
                Err(e) => {
                    return Err(e);
                },
                Ok(()) => {},
            }
            i = i + 1;
        }
        proof {
            lemma_walk_first_extent(items@, items@.len(), start);
        }
        self.end()
    }

    /// Serializes the values of keyed entries in order, then ends the
    /// composite.
    fn serialize_entries(&mut self, pairs: &Vec<(Value, Value)>) -> (outcome: Result<(), Error>)
        requires
            walk_values(pairs@, pairs@.len(), old(self).place()).close().fits(),
        ensures
            final(self).follows(
                old(self),
                walk_values(pairs@, pairs@.len(), old(self).place()).close(),
                outcome,
            ),
        decreases *pairs, 0nat,
    {
        let ghost start = old(self).place();
        let ghost cells = old(self).cells();
        let ghost whole = walk_values(pairs@, pairs@.len(), start);
        let mut i: usize = 0;
        while i < pairs.len()
            invariant
                i <= pairs@.len(),
                start == old(self).place(),
                cells == old(self).cells(),
                whole == walk_values(pairs@, pairs@.len(), start),
                whole.close().fits(),
                walk_values(pairs@, i as nat, start).halt is None,
                self.cells() == stamp(cells, walk_values(pairs@, i as nat, start).marks),
                self.place() == walk_values(pairs@, i as nat, start).end,
            decreases pairs@.len() - i,
        {
            let ghost before = walk_values(pairs@, i as nat, start);
            let ghost step = walk(pairs@[i as int].1, before.end);
            proof {
                lemma_walk_values_extent(pairs@, i as nat, start);
                lemma_walk_extent(pairs@[i as int].1, before.end);
                lemma_walk_values_prefix(pairs@, (i + 1) as nat, pairs@.len(), start);
                lemma_stamp_append(cells, before.marks, step.marks);
            }
            match self.serialize_key(&pairs[i].0) {
                Err(e) => {
                    return Err(e);
                },
                Ok(()) => {},
            }
            match self.serialize_value(&pairs[i].1) {
                Err(e) => {
                    return Err(e);
                },
                Ok(()) => {},
            }
            i = i + 1;
        }
        proof {
            lemma_walk_values_extent(pairs@, pairs@.len(), start);
        }
        self.end()
    }

    /// Releases the worksheet into a workbook of its own: the workbook holds
    /// this one worksheet, with the cells that the serializer stored.
    pub fn into_workbook(self) -> (book: rust_xlsxwriter::Workbook)
        ensures
            book_sheets(book) == seq![self.cells()],
    {
        let ghost cells = self.cells();
        let mut book = new_workbook();
        push_worksheet(&mut book, self.sheet);
        proof {
            assert(book_sheets(book) =~= seq![cells]);
        }
        book
    }

    /// Turns the worksheet into the bytes of a document: the workbook of
    /// [`Self::into_workbook`] is saved, and [`finish_outcome`] says what is
    /// reported for what the workbook gave.
    pub fn finish(self) -> (outcome: Result<Vec<u8>, Error>)
        ensures
            outcome is Err ==> outcome->Err_0 is SinkFinalize,
    {
        let mut book = self.into_workbook();
        let saved = save_to_buffer(&mut book);
        finish_outcome(saved)
    }

} // impl XlsxSerializer

/// What [`XlsxSerializer::finish`] reports for what the workbook gave: the
/// bytes as they are, a failure as [`Error::SinkFinalize`].
pub fn finish_outcome(saved: Result<Vec<u8>, rust_xlsxwriter::XlsxError>) -> (outcome: Result<
    Vec<u8>,
    Error,
>)
    ensures
        match saved {
            Ok(bytes) => outcome is Ok && outcome->Ok_0 == bytes,
            Err(e) => outcome is Err && outcome->Err_0 == Error::SinkFinalize(e),
        },
{
    match saved {
        Ok(bytes) => Ok(bytes),
        Err(e) => Err(Error::SinkFinalize(e)),
    }
}

/// A serializer writes every cell once. If every cell lies before the
/// cursor, then serializing a value leaves every cell that was there as it
/// was, stores every cell of the walk at its own coordinate, and ends with
/// every cell before the cursor again, whether the walk runs to its end or
/// stops early.
pub proof fn law_serializer_writes_once(
    value: Value,
    before: XlsxSerializer,
    after: XlsxSerializer,
    outcome: Result<(), Error>,
)
    requires
        before.settled(),
        after.follows(&before, walk(value, before.place()), outcome),
    ensures
        after.settled(),
        after.place().row >= before.place().row,
        forall|key: (int, int)| #[trigger]
            before.cells().contains_key(key) ==> after.cells().contains_key(key)
                && after.cells()[key] == before.cells()[key],
        forall|i: int|
            0 <= i < walk(value, before.place()).marks.len() ==> after.cells().contains_key(
                (
                    (#[trigger] walk(value, before.place()).marks[i]).row,
                    walk(value, before.place()).marks[i].col,
                ),
            ) && after.cells()[(
                walk(value, before.place()).marks[i].row,
                walk(value, before.place()).marks[i].col,
            )] == walk(value, before.place()).marks[i].cell,
{
    law_written_once(before.cells(), value, before.place());
    lemma_walk_extent(value, before.place());
}

/// Serializing the same value from the same state gives the same state:
/// two serializers that hold the same cells with the cursor at the same
/// place, such as two fresh ones, store the same cells in the same order,
/// end with the same cells and the same cursor, and stop for the same
/// reason.
pub proof fn law_same_value_same_cells(
    value: Value,
    first: XlsxSerializer,
    first_after: XlsxSerializer,
    first_outcome: Result<(), Error>,
    second: XlsxSerializer,
    second_after: XlsxSerializer,
    second_outcome: Result<(), Error>,
)
    requires
        first.cells() == second.cells(),
        first.place() == second.place(),
        first_after.follows(&first, walk(value, first.place()), first_outcome),
        second_after.follows(&second, walk(value, second.place()), second_outcome),
    ensures
        walk(value, first.place()).marks == walk(value, second.place()).marks,
        first_after.cells() == second_after.cells(),
        first_after.place() == second_after.place(),
        first_outcome is Ok <==> second_outcome is Ok,
        first_outcome is Err ==> (first_outcome->Err_0 is UnsupportedShape
            <==> second_outcome->Err_0 is UnsupportedShape) && (first_outcome->Err_0 is SinkWrite
            <==> second_outcome->Err_0 is SinkWrite),
{
}

/// Serializes `value` into a fresh worksheet and returns the document.
///
/// The walk of the value from the origin decides the outcome: a byte blob
/// gives [`Error::UnsupportedShape`], a cell that the worksheet refuses
/// gives [`Error::SinkWrite`], and a walk that reaches its end gives the
/// document, or [`Error::SinkFinalize`] if the workbook cannot be assembled.
pub fn to_xlsx(value: &Value) -> (outcome: Result<Vec<u8>, Error>)
    requires
        walk(*value, Place::origin()).fits(),
    ensures
        match walk(*value, Place::origin()).halt {
            Some(Halt::Unsupported) => outcome is Err && outcome->Err_0 is UnsupportedShape,
            Some(Halt::Refused) => outcome is Err && outcome->Err_0 is SinkWrite,
            None => outcome is Err ==> outcome->Err_0 is SinkFinalize,
        },
{
    match XlsxSerializer::new() {
        Err(e) => Err(e),
        Ok(mut serializer) => {
            match serializer.serialize(value) {
                Err(e) => Err(e),
                Ok(()) => serializer.finish(),
            }
        },
    }
}


/// [`to_xlsx`] for any value: serializes `value` if its walk from the origin
/// fits the cursor, and makes no document otherwise.
pub fn try_to_xlsx(value: &Value) -> (tried: Option<Result<Vec<u8>, Error>>)
    ensures
        tried is Some <==> walk(*value, Place::origin()).fits(),
        tried is Some ==> match walk(*value, Place::origin()).halt {
            Some(Halt::Unsupported) => tried->Some_0 is Err
                && tried->Some_0->Err_0 is UnsupportedShape,
            Some(Halt::Refused) => tried->Some_0 is Err && tried->Some_0->Err_0 is SinkWrite,
            None => tried->Some_0 is Err ==> tried->Some_0->Err_0 is SinkFinalize,
        },
{
    if survey(value, 0, 0).is_some() {
        Some(to_xlsx(value))
    } else {
        None
    }
}

} // verus!
