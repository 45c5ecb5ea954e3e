use std::io::Cursor;

use calamine::{open_workbook_from_rs, Data, Reader, Xlsx};
use xlsx_grid::{to_xlsx, Error, Value, XlsxSerializer};

fn text(s: &str) -> Value {
    Value::Text(s.to_string())
}

fn read_back(bytes: Vec<u8>) -> Vec<((u32, u32), Data)> {
    let mut book: Xlsx<_> = open_workbook_from_rs(Cursor::new(bytes)).unwrap();
    let range = book.worksheet_range_at(0).unwrap().unwrap();
    let (r0, c0) = range.start().unwrap_or((0, 0));
    range
        .used_cells()
        .map(|(r, c, v)| ((r as u32 + r0, c as u32 + c0), v.clone()))
        .collect()
}

fn cells_of(value: &Value) -> Vec<((u32, u32), Data)> {
    read_back(to_xlsx(value).unwrap())
}

#[test]
fn boolean_is_a_boolean_cell() {
    let mut serializer = XlsxSerializer::new().unwrap();
    serializer.serialize_bool(false).unwrap();
    serializer.serialize_bool(true).unwrap();
    assert_eq!((serializer.row(), serializer.col()), (0, 2));
    assert_eq!(
        read_back(serializer.finish().unwrap()),
        vec![((0, 0), Data::Bool(false)), ((0, 1), Data::Bool(true))]
    );
}

#[test]
fn signed_integers_are_number_cells() {
    let mut serializer = XlsxSerializer::new().unwrap();
    serializer.serialize_i8(-128).unwrap();
    serializer.serialize_i16(-32768).unwrap();
    serializer.serialize_i32(i32::MIN).unwrap();
    serializer.serialize_i64(-9_007_199_254_740_993).unwrap();
    serializer.serialize_i64(i64::MAX).unwrap();
    assert_eq!((serializer.row(), serializer.col()), (0, 5));
    assert_eq!(
        read_back(serializer.finish().unwrap()),
        vec![
            ((0, 0), Data::Float(-128.0)),
            ((0, 1), Data::Float(-32768.0)),
            ((0, 2), Data::Float(-2147483648.0)),
            ((0, 3), Data::Float(-9_007_199_254_740_992.0)),
            ((0, 4), Data::Float(9_223_372_036_854_775_808.0)),
        ]
    );
}

#[test]
fn unsigned_integers_are_number_cells() {
    let mut serializer = XlsxSerializer::new().unwrap();
    serializer.serialize_u8(255).unwrap();
    serializer.serialize_u16(65535).unwrap();
    serializer.serialize_u32(u32::MAX).unwrap();
    serializer.serialize_u64(0).unwrap();
    serializer.serialize_u64(u64::MAX).unwrap();
    assert_eq!((serializer.row(), serializer.col()), (0, 5));
    assert_eq!(
        read_back(serializer.finish().unwrap()),
        vec![
            ((0, 0), Data::Float(255.0)),
            ((0, 1), Data::Float(65535.0)),
            ((0, 2), Data::Float(4294967295.0)),
            ((0, 3), Data::Float(0.0)),
            ((0, 4), Data::Float(18_446_744_073_709_551_616.0)),
        ]
    );
}

#[test]
fn character_is_a_text_cell_of_one_character() {
    let mut serializer = XlsxSerializer::new().unwrap();
    serializer.serialize_char('q').unwrap();
    serializer.serialize_char('é').unwrap();
    assert_eq!((serializer.row(), serializer.col()), (0, 2));
    assert_eq!(
        read_back(serializer.finish().unwrap()),
        vec![
            ((0, 0), Data::String("q".to_string())),
            ((0, 1), Data::String("é".to_string())),
        ]
    );
}

#[test]
fn text_is_a_text_cell() {
    let mut serializer = XlsxSerializer::new().unwrap();
    serializer.serialize_str("hello world").unwrap();
    assert_eq!((serializer.row(), serializer.col()), (0, 1));
    assert_eq!(
        read_back(serializer.finish().unwrap()),
        vec![((0, 0), Data::String("hello world".to_string()))]
    );
}

#[test]
fn empty_text_takes_its_column_without_a_cell() {
    let value = Value::Sequence(vec![text(""), text("x"), text(""), Value::Int(1)]);
    let mut serializer = XlsxSerializer::new().unwrap();
    serializer.serialize(&value).unwrap();
    assert_eq!((serializer.row(), serializer.col()), (1, 0));
    assert_eq!(
        read_back(serializer.finish().unwrap()),
        vec![
            ((0, 1), Data::String("x".to_string())),
            ((0, 3), Data::Float(1.0)),
        ]
    );
}

#[test]
fn absent_and_units_leave_the_cursor() {
    let mut serializer = XlsxSerializer::new().unwrap();
    serializer.serialize_bool(true).unwrap();
    serializer.serialize_none().unwrap();
    assert_eq!((serializer.row(), serializer.col()), (0, 1));
    serializer.serialize_unit().unwrap();
    assert_eq!((serializer.row(), serializer.col()), (0, 1));
    serializer.serialize_unit_struct("Marker").unwrap();
    assert_eq!((serializer.row(), serializer.col()), (0, 1));
    serializer.serialize(&Value::Absent).unwrap();
    serializer.serialize(&Value::Unit).unwrap();
    serializer
        .serialize(&Value::NamedUnit("Marker".to_string()))
        .unwrap();
    assert_eq!((serializer.row(), serializer.col()), (0, 1));
    serializer.serialize_i64(7).unwrap();
    assert_eq!(
        read_back(serializer.finish().unwrap()),
        vec![((0, 0), Data::Bool(true)), ((0, 1), Data::Float(7.0))]
    );
}

#[test]
fn present_value_is_the_value_itself() {
    let plain = Value::Sequence(vec![Value::Int(5), text("t")]);
    let wrapped = Value::Sequence(vec![
        Value::Present(Box::new(Value::Int(5))),
        Value::Present(Box::new(Value::Present(Box::new(text("t"))))),
    ]);
    assert_eq!(cells_of(&plain), cells_of(&wrapped));
    assert_eq!(
        cells_of(&wrapped),
        vec![
            ((0, 0), Data::Float(5.0)),
            ((0, 1), Data::String("t".to_string())),
        ]
    );
    let mut serializer = XlsxSerializer::new().unwrap();
    serializer.serialize_some(&Value::Int(5)).unwrap();
    assert_eq!((serializer.row(), serializer.col()), (0, 1));
}

#[test]
fn named_wrapper_is_the_value_itself() {
    let value = Value::NamedWrapper("Meters".to_string(), Box::new(Value::UInt(12)));
    assert_eq!(cells_of(&value), vec![((0, 0), Data::Float(12.0))]);
    let mut serializer = XlsxSerializer::new().unwrap();
    serializer
        .serialize_newtype_struct("Meters", &Value::UInt(12))
        .unwrap();
    assert_eq!((serializer.row(), serializer.col()), (0, 1));
}

#[test]
fn tagged_unit_is_its_tag() {
    let value = Value::TaggedUnit("Red".to_string());
    assert_eq!(
        cells_of(&value),
        vec![((0, 0), Data::String("Red".to_string()))]
    );
    let mut serializer = XlsxSerializer::new().unwrap();
    serializer.serialize_unit_variant("Red").unwrap();
    assert_eq!((serializer.row(), serializer.col()), (0, 1));
}

#[test]
fn tagged_wrapper_is_its_tag_then_its_content() {
    let value = Value::TaggedWrapper("Some".to_string(), Box::new(Value::Int(4)));
    let mut serializer = XlsxSerializer::new().unwrap();
    serializer.serialize(&value).unwrap();
    assert_eq!((serializer.row(), serializer.col()), (0, 2));
    assert_eq!(
        read_back(serializer.finish().unwrap()),
        vec![
            ((0, 0), Data::String("Some".to_string())),
            ((0, 1), Data::Float(4.0)),
        ]
    );
    let mut serializer = XlsxSerializer::new().unwrap();
    serializer
        .serialize_newtype_variant("Pair", &Value::Sequence(vec![Value::Bool(true)]))
        .unwrap();
    assert_eq!((serializer.row(), serializer.col()), (1, 0));
    assert_eq!(
        read_back(serializer.finish().unwrap()),
        vec![
            ((0, 0), Data::String("Pair".to_string())),
            ((0, 1), Data::Bool(true)),
        ]
    );
}

#[test]
fn bytes_are_refused_without_a_cell() {
    let mut serializer = XlsxSerializer::new().unwrap();
    serializer.serialize_i64(1).unwrap();
    let outcome = serializer.serialize_bytes(&[1, 2, 3]);
    assert!(matches!(outcome, Err(Error::UnsupportedShape)));
    assert_eq!((serializer.row(), serializer.col()), (0, 1));
    let outcome = serializer.serialize(&Value::Bytes(vec![]));
    assert!(matches!(outcome, Err(Error::UnsupportedShape)));
    assert_eq!((serializer.row(), serializer.col()), (0, 1));
    assert_eq!(
        read_back(serializer.finish().unwrap()),
        vec![((0, 0), Data::Float(1.0))]
    );
}

#[test]
fn bytes_stop_the_walk_where_they_are() {
    let value = Value::Sequence(vec![
        Value::Int(1),
        Value::Bytes(vec![9]),
        Value::Int(2),
    ]);
    assert!(matches!(to_xlsx(&value), Err(Error::UnsupportedShape)));
    let mut serializer = XlsxSerializer::new().unwrap();
    assert!(matches!(
        serializer.serialize(&value),
        Err(Error::UnsupportedShape)
    ));
    assert_eq!((serializer.row(), serializer.col()), (0, 1));
    assert_eq!(
        read_back(serializer.finish().unwrap()),
        vec![((0, 0), Data::Float(1.0))]
    );
}

#[test]
fn elements_fields_and_entries_share_the_cursor() {
    let mut serializer = XlsxSerializer::new().unwrap();
    serializer.serialize_element(&Value::Int(1)).unwrap();
    serializer.serialize_field(&text("two")).unwrap();
    serializer.serialize_key(&text("dropped")).unwrap();
    serializer.serialize_value(&Value::Bool(true)).unwrap();
    assert_eq!((serializer.row(), serializer.col()), (0, 3));
    serializer.end().unwrap();
    assert_eq!((serializer.row(), serializer.col()), (1, 0));
    serializer.serialize_element(&Value::Int(4)).unwrap();
    assert_eq!(
        read_back(serializer.finish().unwrap()),
        vec![
            ((0, 0), Data::Float(1.0)),
            ((0, 1), Data::String("two".to_string())),
            ((0, 2), Data::Bool(true)),
            ((1, 0), Data::Float(4.0)),
        ]
    );
}

#[test]
fn fresh_serializer_is_empty_at_the_origin() {
    let serializer = XlsxSerializer::new().unwrap();
    assert_eq!((serializer.row(), serializer.col()), (0, 0));
    assert_eq!(read_back(serializer.finish().unwrap()), vec![]);
}

#[test]
fn workbook_holds_the_one_worksheet_with_its_cells() {
    let mut serializer = XlsxSerializer::new().unwrap();
    serializer.serialize_bool(true).unwrap();
    serializer.end().unwrap();
    serializer.serialize_str("below").unwrap();
    let mut book = serializer.into_workbook();
    assert_eq!(book.worksheets().len(), 1);
    assert_eq!(
        read_back(book.save_to_buffer().unwrap()),
        vec![
            ((0, 0), Data::Bool(true)),
            ((1, 0), Data::String("below".to_string())),
        ]
    );
    let mut empty = XlsxSerializer::new().unwrap().into_workbook();
    assert_eq!(empty.worksheets().len(), 1);
    assert_eq!(read_back(empty.save_to_buffer().unwrap()), vec![]);
}
