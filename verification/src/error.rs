//! Why a serialization stopped.

use vstd::prelude::*;
use vstd::string::{to_string_from_display_ensures, StringExecFns};

verus! {

/// The ways in which serializing a value can fail.
#[derive(Debug)]
pub enum Error {
    /// A byte blob reached the serializer; cells cannot hold one.
    UnsupportedShape,
    /// The worksheet refused a cell; its own error is carried unchanged.
    SinkWrite(rust_xlsxwriter::XlsxError),
    /// The workbook could not be turned into a document; its own error is
    /// carried unchanged.
    SinkFinalize(rust_xlsxwriter::XlsxError),
    /// A failure described by its caller.
    Custom(String),
}

/// `label` followed by `detail`.
pub fn labelled(label: &str, detail: &str) -> (text: String)
    ensures
        text@ == label@ + detail@,
{
    let mut text = String::from_str(label);
    text.append(detail);
    text
}

impl Error {
    /// Whether `text` describes this error: a label that tells the layer
    /// the failure comes from, followed by the detail. For a failure of the
    /// worksheet or the workbook the detail is that error's own text.
    pub open spec fn described_by(&self, text: Seq<char>) -> bool {
        match self {
            Error::UnsupportedShape => text == "Custom error: "@
                + "Bytes serialization not supported"@,
            Error::SinkWrite(e) => exists|detail: String|
                to_string_from_display_ensures::<rust_xlsxwriter::XlsxError>(e, detail) && text
                    == "Xlsx error: "@ + detail@,
            Error::SinkFinalize(e) => exists|detail: String|
                to_string_from_display_ensures::<rust_xlsxwriter::XlsxError>(e, detail) && text
                    == "Custom error: "@ + detail@,
            Error::Custom(detail) => text == "Custom error: "@ + detail@,
        }
    }

    /// The text that describes this error.
    pub fn message(&self) -> (text: String)
        ensures
            self.described_by(text@),
    {
        match self {
            Error::UnsupportedShape => labelled(
                "Custom error: ",
                "Bytes serialization not supported",
            ),
            Error::SinkWrite(e) => {
                let detail = e.to_string();
                labelled("Xlsx error: ", detail.as_str())
            },
            Error::SinkFinalize(e) => {
                let detail = e.to_string();
                labelled("Custom error: ", detail.as_str())
            },
            Error::Custom(detail) => labelled("Custom error: ", detail.as_str()),
        }
    }
}

} // verus!
