use rust_xlsxwriter::XlsxError;
use xlsx_grid::error::labelled;
use xlsx_grid::ser::finish_outcome;
use xlsx_grid::{to_xlsx, Error, Value};

#[test]
fn label_comes_before_detail() {
    assert_eq!(labelled("Custom error: ", "boom"), "Custom error: boom");
    assert_eq!(labelled("", ""), "");
    assert_eq!(labelled("a", ""), "a");
    assert_eq!(labelled("", "b"), "b");
}

#[test]
fn unsupported_shape_names_the_bytes() {
    assert_eq!(
        Error::UnsupportedShape.message(),
        "Custom error: Bytes serialization not supported"
    );
}

#[test]
fn custom_message_is_labelled() {
    assert_eq!(
        Error::Custom("boom".to_string()).message(),
        "Custom error: boom"
    );
    assert_eq!(Error::Custom(String::new()).message(), "Custom error: ");
}

#[test]
fn worksheet_failure_carries_its_own_text() {
    let own = XlsxError::RowColumnLimitError.to_string();
    assert!(!own.is_empty());
    assert_eq!(
        Error::SinkWrite(XlsxError::RowColumnLimitError).message(),
        format!("Xlsx error: {}", own)
    );
    let own = XlsxError::ParameterError("width".to_string()).to_string();
    assert!(own.contains("width"));
    assert_eq!(
        Error::SinkWrite(XlsxError::ParameterError("width".to_string())).message(),
        format!("Xlsx error: {}", own)
    );
}

#[test]
fn workbook_failure_carries_its_own_text() {
    let own = XlsxError::SheetnameReused("sheet1".to_string()).to_string();
    assert!(own.contains("sheet1"));
    assert_eq!(
        Error::SinkFinalize(XlsxError::SheetnameReused("sheet1".to_string())).message(),
        format!("Custom error: {}", own)
    );
}

#[test]
fn finished_bytes_are_handed_on() {
    let outcome = finish_outcome(Ok(vec![1, 2, 3]));
    assert!(matches!(outcome, Ok(bytes) if bytes == vec![1, 2, 3]));
}

#[test]
fn workbook_failure_is_a_finalize_error() {
    let outcome = finish_outcome(Err(XlsxError::SheetnameReused("a".to_string())));
    assert!(matches!(
        outcome,
        Err(Error::SinkFinalize(XlsxError::SheetnameReused(name))) if name == "a"
    ));
}

#[test]
fn document_is_a_zip_archive() {
    let bytes = to_xlsx(&Value::Int(1)).unwrap();
    assert!(bytes.len() > 4);
    assert_eq!(&bytes[0..2], &b"PK"[..]);
}

#[test]
fn each_failure_has_its_kind() {
    let blob = Value::Bytes(vec![0]);
    assert!(matches!(to_xlsx(&blob), Err(Error::UnsupportedShape)));
    let long = Value::Text("x".repeat(40_000));
    assert!(matches!(
        to_xlsx(&long),
        Err(Error::SinkWrite(XlsxError::MaxStringLengthExceeded))
    ));
}
