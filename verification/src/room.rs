//! A dry run of the walk: where the cursor would go, without a worksheet.
//!
//! The cursor counts rows in a `u32` and columns in a `u16`. A walk that
//! would carry it past either cannot be made; [`survey`] finds that out
//! before the first cell is written.

use crate::grid::{
    lemma_walk_extent, lemma_walk_first_extent, lemma_walk_first_prefix,
    lemma_walk_values_extent, lemma_walk_values_prefix, walk, walk_cell, walk_first, walk_values,
    Place, Walk,
};
use crate::sheet::{passes, Cell, COL_LIMIT, ROW_LIMIT, TEXT_LIMIT};
use crate::value::Value;
use vstd::prelude::*;
use vstd::string::StrSliceExecFns;

verus! {

/// Where a walk leaves the cursor, and whether it stopped early.
#[derive(Clone, Copy, Debug)]
pub struct Reach {
    pub row: u32,
    pub col: u16,
    pub halted: bool,
}

impl Reach {
    /// Whether this is where `walk` ends.
    pub open spec fn of(self, walk: Walk) -> bool {
        &&& walk.end == (Place { row: self.row as int, col: self.col as int })
        &&& self.halted == (walk.halt is Some)
    }
}

/// Whether `found` is the reach of `walk`, or nothing for a walk that does
/// not fit the cursor.
pub open spec fn surveyed(found: Option<Reach>, walk: Walk) -> bool {
    match found {
        None => !walk.fits(),
        Some(reach) => walk.fits() && reach.of(walk),
    }
}

/// Whether the worksheet accepts `text` at `(row, col)`.
pub fn text_passes(text: &str, row: u32, col: u16) -> (accepted: bool)
    ensures
        accepted == passes(Cell::Text(text@), row as int, col as int),
{
    if text.is_empty() {
        true
    } else {
        row < ROW_LIMIT && col < COL_LIMIT && text.unicode_len() <= TEXT_LIMIT
    }
}

/// The reach of a scalar that the worksheet accepts or not, as `accepted`
/// says.
pub fn survey_cell(accepted: bool, row: u32, col: u16) -> (found: Option<Reach>)
    ensures
        forall|cell: Cell|
            accepted == passes(cell, row as int, col as int) ==> surveyed(
                found,
                #[trigger] walk_cell(cell, Place { row: row as int, col: col as int }),
            ),
{
    if !accepted {
        Some(Reach { row, col, halted: true })
    } else if col == u16::MAX {
        None
    } else {
        Some(Reach { row, col: col + 1, halted: false })
    }
}

/// The reach of the walk of `value` with the cursor starting at
/// `(row, col)`, or nothing if the walk does not fit the cursor.
pub fn survey(value: &Value, row: u32, col: u16) -> (found: Option<Reach>)
    ensures
        surveyed(found, walk(*value, Place { row: row as int, col: col as int })),
    decreases *value, 0nat,
{
    let ghost at = Place { row: row as int, col: col as int };
    match value {
        Value::Bool(v) => {
            assert(passes(Cell::Boolean(*v), row as int, col as int) == (row < ROW_LIMIT && col
                < COL_LIMIT));
            survey_cell(row < ROW_LIMIT && col < COL_LIMIT, row, col)
        },
        Value::Int(_) => survey_cell(row < ROW_LIMIT && col < COL_LIMIT, row, col),
        Value::UInt(_) => survey_cell(row < ROW_LIMIT && col < COL_LIMIT, row, col),
        Value::Char(c) => {
            assert(seq![*c].len() == 1);
            survey_cell(row < ROW_LIMIT && col < COL_LIMIT, row, col)
        },
        Value::Text(text) => survey_cell(text_passes(text.as_str(), row, col), row, col),
        Value::Bytes(_) => Some(Reach { row, col, halted: true }),
        Value::Absent => Some(Reach { row, col, halted: false }),
        Value::Present(inner) => survey(inner, row, col),
        Value::Unit => Some(Reach { row, col, halted: false }),
        Value::NamedUnit(_) => Some(Reach { row, col, halted: false }),
        Value::NamedWrapper(_, inner) => survey(inner, row, col),
        Value::TaggedUnit(tag) => survey_cell(text_passes(tag.as_str(), row, col), row, col),
        Value::TaggedWrapper(tag, inner) => {
            let ghost head = walk_cell(Cell::Text(tag@), at);
            proof {
                lemma_walk_extent(**inner, head.end);
            }
            match survey_cell(text_passes(tag.as_str(), row, col), row, col) {
                None => None,
                Some(reach) => {
                    if reach.halted {
                        Some(reach)
                    } else {
                        survey(inner, reach.row, reach.col)
                    }
                },
            }
        },
        Value::Sequence(items) => survey_elements(items, row, col),
        Value::Keyed(pairs) => survey_entries(pairs, row, col),
    }
}

/// The reach of a sequence: of its elements in order, then of its end.
fn survey_elements(items: &Vec<Value>, row: u32, col: u16) -> (found: Option<Reach>)
    ensures
        surveyed(
            found,
            walk_first(items@, items@.len(), Place { row: row as int, col: col as int }).close(),
        ),
    decreases *items, 0nat,
{
    let ghost start = Place { row: row as int, col: col as int };
    let mut at = Reach { row, col, halted: false };
    let mut i: usize = 0;
    while i < items.len()
        invariant
            i <= items@.len(),
            start == (Place { row: row as int, col: col as int }),
            walk_first(items@, i as nat, start).fits(),
            walk_first(items@, i as nat, start).halt is None,
            at.of(walk_first(items@, i as nat, start)),
        decreases items@.len() - i,
    {
        proof {
            let before = walk_first(items@, i as nat, start);
            lemma_walk_first_extent(items@, i as nat, start);
            lemma_walk_extent(items@[i as int], before.end);
            lemma_walk_first_prefix(items@, (i + 1) as nat, items@.len(), start);
        }
        match survey(&items[i], at.row, at.col) {
            None => {
                return None;
            },
            Some(reach) => {
                if reach.halted {
                    return Some(reach);
                }
                at = reach;
            },
        }
        i = i + 1;
    }
    if at.row == u32::MAX {
        None
    } else {
        Some(Reach { row: at.row + 1, col: 0, halted: false })
    }
}

/// The reach of a keyed composite: of its values in order, then of its
/// end.
fn survey_entries(pairs: &Vec<(Value, Value)>, row: u32, col: u16) -> (found: Option<Reach>)
    ensures
        surveyed(
            found,
            walk_values(pairs@, pairs@.len(), Place { row: row as int, col: col as int }).close(),
        ),
    decreases *pairs, 0nat,
{
    let ghost start = Place { row: row as int, col: col as int };
    let mut at = Reach { row, col, halted: false };
    let mut i: usize = 0;
    while i < pairs.len()
        invariant
            i <= pairs@.len(),
            start == (Place { row: row as int, col: col as int }),
            walk_values(pairs@, i as nat, start).fits(),
            walk_values(pairs@, i as nat, start).halt is None,
            at.of(walk_values(pairs@, i as nat, start)),
        decreases pairs@.len() - i,
    {
        proof {
            let before = walk_values(pairs@, i as nat, start);
            lemma_walk_values_extent(pairs@, i as nat, start);
            lemma_walk_extent(pairs@[i as int].1, before.end);
            lemma_walk_values_prefix(pairs@, (i + 1) as nat, pairs@.len(), start);
        }
        match survey(&pairs[i].1, at.row, at.col) {
            None => {
                return None;
            },
            Some(reach) => {
                if reach.halted {
                    return Some(reach);
                }
                at = reach;
            },
        }
        i = i + 1;
    }
    if at.row == u32::MAX {
        None
    } else {
        Some(Reach { row: at.row + 1, col: 0, halted: false })
    }
}

} // verus!
