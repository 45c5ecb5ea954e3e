//! The worksheet of `rust_xlsxwriter`, as far as the serializer relies on it.
//!
//! Nothing in this file is proved. Each item states what the named function
//! of `rust_xlsxwriter` does to the cells of a worksheet in standard memory
//! mode, the mode of every worksheet made by [`blank_sheet`].

use vstd::prelude::*;

verus! {

/// `rust_xlsxwriter::Worksheet`, carried as an opaque value.
#[verifier::external_type_specification]
#[verifier::external_body]
pub struct ExWorksheet(rust_xlsxwriter::Worksheet);

/// `rust_xlsxwriter::Workbook`, carried as an opaque value.
#[verifier::external_type_specification]
#[verifier::external_body]
pub struct ExWorkbook(rust_xlsxwriter::Workbook);

/// `rust_xlsxwriter::XlsxError`, carried as an opaque value.
#[verifier::external_type_specification]
#[verifier::external_body]
pub struct ExXlsxError(rust_xlsxwriter::XlsxError);

/// Rows a worksheet can address: `0 .. ROW_LIMIT`.
pub const ROW_LIMIT: u32 = 1_048_576;

/// Columns a worksheet can address: `0 .. COL_LIMIT`.
pub const COL_LIMIT: u16 = 16_384;

/// Most characters a text cell can hold.
pub const TEXT_LIMIT: usize = 32_767;

/// What one cell of a worksheet holds.
pub enum Cell {
    Boolean(bool),
    /// A number, given by the bits of its IEEE 754 binary64 form.
    Number(u64),
    Text(Seq<char>),
}

/// Cells by `(row, column)`.
pub type Cells = Map<(int, int), Cell>;

/// The cells stored in a worksheet.
pub uninterp spec fn sheet_cells(sheet: rust_xlsxwriter::Worksheet) -> Map<(int, int), Cell>;

/// The cells of each worksheet of a workbook, in the order of the
/// worksheets.
pub uninterp spec fn book_sheets(book: rust_xlsxwriter::Workbook) -> Seq<Map<(int, int), Cell>>;

/// The binary64 bits of the number that a worksheet stores for a signed
/// integer: the integer converted to the nearest binary64 value.
pub uninterp spec fn number_of_i64(v: i64) -> u64;

/// The binary64 bits of the number that a worksheet stores for an unsigned
/// integer: the integer converted to the nearest binary64 value.
pub uninterp spec fn number_of_u64(v: u64) -> u64;

/// Whether `(row, col)` is a coordinate that a worksheet can address.
pub open spec fn in_grid(row: int, col: int) -> bool {
    0 <= row < ROW_LIMIT && 0 <= col < COL_LIMIT
}

/// Whether a worksheet stores `cell` when asked to write it at `(row, col)`.
/// Booleans and numbers need an addressable coordinate; text must also be
/// non-empty and within the length limit.
pub open spec fn lands(cell: Cell, row: int, col: int) -> bool {
    in_grid(row, col) && match cell {
        Cell::Text(text) => 0 < text.len() <= TEXT_LIMIT,
        _ => true,
    }
}

/// Whether a worksheet reports success when asked to write `cell` at
/// `(row, col)`. Empty text is accepted anywhere and stores nothing.
pub open spec fn passes(cell: Cell, row: int, col: int) -> bool {
    lands(cell, row, col) || match cell {
        Cell::Text(text) => text.len() == 0,
        _ => false,
    }
}

/// The cells of a worksheet after it was asked to write `cell` at
/// `(row, col)`.
pub open spec fn written(cells: Cells, cell: Cell, row: int, col: int) -> Cells {
    if lands(cell, row, col) {
        cells.insert((row, col), cell)
    } else {
        cells
    }
}

/// `Worksheet::new`: a worksheet without cells.
#[verifier::external_body]
pub(crate) fn blank_sheet() -> (sheet: rust_xlsxwriter::Worksheet)
    ensures
        sheet_cells(sheet) == Cells::empty(),
{
    rust_xlsxwriter::Worksheet::new()
}

/// `Worksheet::write_boolean`: fails exactly outside the addressable grid,
/// and otherwise stores the boolean at the coordinate, replacing what was
/// there. A failed write leaves the cells as they were.
#[verifier::external_body]
pub(crate) fn write_boolean(
    sheet: &mut rust_xlsxwriter::Worksheet,
    row: u32,
    col: u16,
    v: bool,
) -> (outcome: Result<(), rust_xlsxwriter::XlsxError>)
    ensures
        outcome is Ok <==> passes(Cell::Boolean(v), row as int, col as int),
        sheet_cells(*final(sheet)) == written(
            sheet_cells(*old(sheet)),
            Cell::Boolean(v),
            row as int,
            col as int,
        ),
{
    sheet.write_boolean(row, col, v).map(|_| ())
}

/// `Worksheet::write` for an `i64`: converts the integer to a binary64
/// number and stores it as `write_number` does. Fails exactly outside the
/// addressable grid; a failed write leaves the cells as they were.
#[verifier::external_body]
pub(crate) fn write_i64(sheet: &mut rust_xlsxwriter::Worksheet, row: u32, col: u16, v: i64) -> (outcome:
    Result<(), rust_xlsxwriter::XlsxError>)
    ensures
        outcome is Ok <==> passes(Cell::Number(number_of_i64(v)), row as int, col as int),
        sheet_cells(*final(sheet)) == written(
            sheet_cells(*old(sheet)),
            Cell::Number(number_of_i64(v)),
            row as int,
            col as int,
        ),
{
    sheet.write(row, col, v).map(|_| ())
}

/// `Worksheet::write` for a `u64`: converts the integer to a binary64
/// number and stores it as `write_number` does. Fails exactly outside the
/// addressable grid; a failed write leaves the cells as they were.
#[verifier::external_body]
pub(crate) fn write_u64(sheet: &mut rust_xlsxwriter::Worksheet, row: u32, col: u16, v: u64) -> (outcome:
    Result<(), rust_xlsxwriter::XlsxError>)
    ensures
        outcome is Ok <==> passes(Cell::Number(number_of_u64(v)), row as int, col as int),
        sheet_cells(*final(sheet)) == written(
            sheet_cells(*old(sheet)),
            Cell::Number(number_of_u64(v)),
            row as int,
            col as int,
        ),
{
    sheet.write(row, col, v).map(|_| ())
}

/// `Worksheet::write_string`: empty text is accepted anywhere and stores
/// nothing. Other text fails outside the addressable grid or beyond the
/// length limit, counted in characters, and is otherwise stored at the
/// coordinate, replacing what was there. A failed write leaves the cells as
/// they were.
#[verifier::external_body]
pub(crate) fn write_string(sheet: &mut rust_xlsxwriter::Worksheet, row: u32, col: u16, text: &str) -> (outcome:
    Result<(), rust_xlsxwriter::XlsxError>)
    ensures
        outcome is Ok <==> passes(Cell::Text(text@), row as int, col as int),
        sheet_cells(*final(sheet)) == written(
            sheet_cells(*old(sheet)),
            Cell::Text(text@),
            row as int,
            col as int,
        ),
{
    sheet.write_string(row, col, text).map(|_| ())
}

/// `Workbook::new`: a workbook without worksheets.
#[verifier::external_body]
pub(crate) fn new_workbook() -> (book: rust_xlsxwriter::Workbook)
    ensures
        book_sheets(book).len() == 0,
{
    rust_xlsxwriter::Workbook::new()
}

/// `Workbook::push_worksheet`: adds the worksheet behind those that the
/// workbook holds, with its cells as they are.
#[verifier::external_body]
pub(crate) fn push_worksheet(book: &mut rust_xlsxwriter::Workbook, sheet: rust_xlsxwriter::Worksheet)
    ensures
        book_sheets(*final(book)) == book_sheets(*old(book)).push(sheet_cells(sheet)),
{
    book.push_worksheet(sheet)
}

/// `Workbook::save_to_buffer`: the workbook as the bytes of a document, or
/// the reason why it could not be assembled. The bytes hold the time at
/// which the workbook was made, so nothing is said of them.
#[verifier::external_body]
pub(crate) fn save_to_buffer(book: &mut rust_xlsxwriter::Workbook) -> (saved: Result<
    Vec<u8>,
    rust_xlsxwriter::XlsxError,
>) {
    book.save_to_buffer()
}

} // verus!
