use std::io::Cursor;

use calamine::{open_workbook_from_rs, Data, Reader, Xlsx};
use rust_xlsxwriter::XlsxError;
use xlsx_grid::sheet::{COL_LIMIT, ROW_LIMIT, TEXT_LIMIT};
use xlsx_grid::{to_xlsx, Error, Value, XlsxSerializer};

fn read_back(bytes: Vec<u8>) -> Vec<((u32, u32), Data)> {
    let mut book: Xlsx<_> = open_workbook_from_rs(Cursor::new(bytes)).unwrap();
    let range = book.worksheet_range_at(0).unwrap().unwrap();
    let (r0, c0) = range.start().unwrap_or((0, 0));
    range
        .used_cells()
        .map(|(r, c, v)| ((r as u32 + r0, c as u32 + c0), v.clone()))
        .collect()
}

#[test]
fn limits_are_those_of_a_worksheet() {
    assert_eq!(ROW_LIMIT, 1_048_576);
    assert_eq!(COL_LIMIT, 16_384);
    assert_eq!(TEXT_LIMIT, 32_767);
}

#[test]
fn last_column_is_written_and_the_next_refused() {
    let mut serializer = XlsxSerializer::new().unwrap();
    for _ in 0..16_383 {
        serializer.serialize_unit_variant("").unwrap();
    }
    assert_eq!((serializer.row(), serializer.col()), (0, 16_383));
    serializer.serialize_bool(true).unwrap();
    assert_eq!((serializer.row(), serializer.col()), (0, 16_384));
    assert!(matches!(
        serializer.serialize_bool(true),
        Err(Error::SinkWrite(XlsxError::RowColumnLimitError))
    ));
    assert!(matches!(
        serializer.serialize_i64(1),
        Err(Error::SinkWrite(XlsxError::RowColumnLimitError))
    ));
    assert!(matches!(
        serializer.serialize_u64(1),
        Err(Error::SinkWrite(XlsxError::RowColumnLimitError))
    ));
    assert!(matches!(
        serializer.serialize_str("x"),
        Err(Error::SinkWrite(XlsxError::RowColumnLimitError))
    ));
    assert!(matches!(
        serializer.serialize_char('x'),
        Err(Error::SinkWrite(XlsxError::RowColumnLimitError))
    ));
    assert_eq!((serializer.row(), serializer.col()), (0, 16_384));
    serializer.serialize_str("").unwrap();
    assert_eq!((serializer.row(), serializer.col()), (0, 16_385));
    assert_eq!(
        read_back(serializer.finish().unwrap()),
        vec![((0, 16_383), Data::Bool(true))]
    );
}

#[test]
fn too_wide_record_stops_at_the_first_refused_field() {
    let fields: Vec<Value> = (0..16_386).map(|i| Value::UInt(i)).collect();
    let value = Value::Sequence(fields);
    let mut serializer = XlsxSerializer::new().unwrap();
    assert!(matches!(
        serializer.serialize(&value),
        Err(Error::SinkWrite(XlsxError::RowColumnLimitError))
    ));
    assert_eq!((serializer.row(), serializer.col()), (0, 16_384));
    let cells = read_back(serializer.finish().unwrap());
    assert_eq!(cells.len(), 16_384);
    assert_eq!(cells[16_383], ((0, 16_383), Data::Float(16_383.0)));
    assert!(matches!(to_xlsx(&value), Err(Error::SinkWrite(_))));
}

#[test]
fn last_row_is_written_and_the_next_refused() {
    let mut serializer = XlsxSerializer::new().unwrap();
    for _ in 0..1_048_575 {
        serializer.end().unwrap();
    }
    assert_eq!((serializer.row(), serializer.col()), (1_048_575, 0));
    serializer.serialize_i64(5).unwrap();
    serializer.end().unwrap();
    assert_eq!((serializer.row(), serializer.col()), (1_048_576, 0));
    assert!(matches!(
        serializer.serialize_i64(6),
        Err(Error::SinkWrite(XlsxError::RowColumnLimitError))
    ));
    assert!(matches!(
        serializer.serialize_str("x"),
        Err(Error::SinkWrite(XlsxError::RowColumnLimitError))
    ));
    assert_eq!((serializer.row(), serializer.col()), (1_048_576, 0));
    serializer.serialize_str("").unwrap();
    assert_eq!((serializer.row(), serializer.col()), (1_048_576, 1));
    serializer.end().unwrap();
    assert_eq!((serializer.row(), serializer.col()), (1_048_577, 0));
    assert_eq!(
        read_back(serializer.finish().unwrap()),
        vec![((1_048_575, 0), Data::Float(5.0))]
    );
}

#[test]
fn longest_text_is_written_and_a_longer_one_refused() {
    let longest: String = "é".repeat(32_767);
    let longer: String = "é".repeat(32_768);
    let mut serializer = XlsxSerializer::new().unwrap();
    serializer.serialize_str(&longest).unwrap();
    assert_eq!((serializer.row(), serializer.col()), (0, 1));
    assert!(matches!(
        serializer.serialize_str(&longer),
        Err(Error::SinkWrite(XlsxError::MaxStringLengthExceeded))
    ));
    assert_eq!((serializer.row(), serializer.col()), (0, 1));
    assert!(matches!(
        serializer.serialize(&Value::TaggedUnit(longer.clone())),
        Err(Error::SinkWrite(XlsxError::MaxStringLengthExceeded))
    ));
    assert!(matches!(
        serializer.serialize(&Value::TaggedWrapper(longer, Box::new(Value::Int(1)))),
        Err(Error::SinkWrite(XlsxError::MaxStringLengthExceeded))
    ));
    assert_eq!((serializer.row(), serializer.col()), (0, 1));
    assert_eq!(
        read_back(serializer.finish().unwrap()),
        vec![((0, 0), Data::String(longest))]
    );
}

#[test]
fn recorded_write_moves_the_cursor_only_after_success() {
    let mut serializer = XlsxSerializer::new().unwrap();
    serializer.record_write(Ok(())).unwrap();
    assert_eq!((serializer.row(), serializer.col()), (0, 1));
    let outcome = serializer.record_write(Err(XlsxError::MaxStringLengthExceeded));
    assert!(matches!(
        outcome,
        Err(Error::SinkWrite(XlsxError::MaxStringLengthExceeded))
    ));
    assert_eq!((serializer.row(), serializer.col()), (0, 1));
}

#[test]
fn other_cells_go_through_the_worksheet_at_the_cursor() {
    let mut serializer = XlsxSerializer::new().unwrap();
    serializer.serialize_bool(true).unwrap();
    let (row, col) = (serializer.row(), serializer.col());
    let put = serializer
        .sheet_mut()
        .write_number(row, col, 1.5)
        .map(|_| ());
    serializer.record_write(put).unwrap();
    assert_eq!((serializer.row(), serializer.col()), (0, 2));
    serializer.serialize_i64(2).unwrap();
    assert_eq!(
        read_back(serializer.finish().unwrap()),
        vec![
            ((0, 0), Data::Bool(true)),
            ((0, 1), Data::Float(1.5)),
            ((0, 2), Data::Float(2.0)),
        ]
    );
}
