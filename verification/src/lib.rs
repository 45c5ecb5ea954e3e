//! Lays structured values out as rows of typed worksheet cells.
//!
//! A [`Value`] is walked depth first by an [`XlsxSerializer`], which owns one
//! worksheet and a cursor. Every scalar becomes a cell at the cursor, every
//! closed composite starts a new row. What the walk stores, where it ends and
//! when it stops early is fixed by the functions in [`grid`].

pub mod error;
pub mod grid;
pub mod laws;
pub mod room;
pub mod ser;
pub mod sheet;
pub mod value;

pub use error::Error;
pub use ser::{to_xlsx, try_to_xlsx, XlsxSerializer};
pub use value::Value;
