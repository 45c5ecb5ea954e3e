//! The walk of a value over the grid, as mathematics.
//!
//! [`walk`] says, for a value and the place where the cursor starts, which
//! cells are stored in which order, where the cursor ends, and whether the
//! walk stops early. The serializer is proved to do exactly this.

use crate::sheet::{lands, number_of_i64, number_of_u64, passes, written, Cell, Cells};
use crate::value::Value;
use vstd::prelude::*;

verus! {

/// A position of the cursor.
pub struct Place {
    pub row: int,
    pub col: int,
}

impl Place {
    /// Where every fresh serializer starts.
    pub open spec fn origin() -> Place {
        Place { row: 0, col: 0 }
    }

    /// One column further in the same row.
    pub open spec fn right(self) -> Place {
        Place { row: self.row, col: self.col + 1 }
    }

    /// The start of the next row.
    pub open spec fn below(self) -> Place {
        Place { row: self.row + 1, col: 0 }
    }
}

/// A cell and the coordinate at which it was stored.
pub struct Mark {
    pub row: int,
    pub col: int,
    pub cell: Cell,
}

/// Why a walk stopped before its value was exhausted.
pub enum Halt {
    /// A byte blob was reached.
    Unsupported,
    /// The worksheet refused a cell.
    Refused,
}

/// What walking a value amounts to.
pub struct Walk {
    /// The cells stored, in the order of their writes.
    pub marks: Seq<Mark>,
    /// Where the cursor is left.
    pub end: Place,
    /// The greatest column the cursor reached on the way.
    pub widest: int,
    /// Why the walk stopped early, if it did.
    pub halt: Option<Halt>,
}

impl Walk {
    /// A walk that does nothing.
    pub open spec fn idle(at: Place) -> Walk {
        Walk { marks: Seq::empty(), end: at, widest: at.col, halt: None }
    }

    /// A walk that stops where it starts.
    pub open spec fn stopped(at: Place, why: Halt) -> Walk {
        Walk { marks: Seq::empty(), end: at, widest: at.col, halt: Some(why) }
    }

    /// This walk followed by `next`, which must start where this one ends.
    /// A walk that stopped early is not continued.
    pub open spec fn followed_by(self, next: Walk) -> Walk {
        if self.halt is Some {
            self
        } else {
            Walk {
                marks: self.marks + next.marks,
                end: next.end,
                widest: if self.widest >= next.widest {
                    self.widest
                } else {
                    next.widest
                },
                halt: next.halt,
            }
        }
    }

    /// This walk as the content of a composite: when it ran to its end, the
    /// cursor moves to the start of the next row.
    pub open spec fn close(self) -> Walk {
        if self.halt is Some {
            self
        } else {
            Walk { marks: self.marks, end: self.end.below(), widest: self.widest, halt: None }
        }
    }

    /// Whether the cursor stays within what a `u32` row and a `u16` column
    /// can count.
    pub open spec fn fits(self) -> bool {
        self.widest <= u16::MAX && self.end.row <= u32::MAX
    }
}

/// The walk of one scalar whose cell is `cell`: the cell is offered to the
/// worksheet at the cursor, and the cursor moves one column to the right
/// unless the worksheet refuses.
pub open spec fn walk_cell(cell: Cell, at: Place) -> Walk {
    if lands(cell, at.row, at.col) {
        Walk {
            marks: seq![Mark { row: at.row, col: at.col, cell }],
            end: at.right(),
            widest: at.col + 1,
            halt: None,
        }
    } else if passes(cell, at.row, at.col) {
        Walk { marks: Seq::empty(), end: at.right(), widest: at.col + 1, halt: None }
    } else {
        Walk::stopped(at, Halt::Refused)
    }
}

/// The walk of `value` with the cursor starting at `at`.
pub open spec fn walk(value: Value, at: Place) -> Walk
    decreases value, 0nat,
{
    match value {
        Value::Bool(v) => walk_cell(Cell::Boolean(v), at),
        Value::Int(v) => walk_cell(Cell::Number(number_of_i64(v)), at),
        Value::UInt(v) => walk_cell(Cell::Number(number_of_u64(v)), at),
        Value::Char(c) => walk_cell(Cell::Text(seq![c]), at),
        Value::Text(text) => walk_cell(Cell::Text(text@), at),
        Value::Bytes(_) => Walk::stopped(at, Halt::Unsupported),
        Value::Absent => Walk::idle(at),
        Value::Present(inner) => walk(*inner, at),
        Value::Unit => Walk::idle(at),
        Value::NamedUnit(_) => Walk::idle(at),
        Value::NamedWrapper(_, inner) => walk(*inner, at),
        Value::TaggedUnit(tag) => walk_cell(Cell::Text(tag@), at),
        Value::TaggedWrapper(tag, inner) => {
            let head = walk_cell(Cell::Text(tag@), at);
            head.followed_by(walk(*inner, head.end))
        },
        Value::Sequence(items) => walk_first(items@, items@.len(), at).close(),
        Value::Keyed(pairs) => walk_values(pairs@, pairs@.len(), at).close(),
    }
}

/// The walk of a tagged choice with content: the tag as a text cell, then
/// the content from where that leaves the cursor.
pub open spec fn walk_tagged(tag: Seq<char>, inner: Value, at: Place) -> Walk {
    let head = walk_cell(Cell::Text(tag), at);
    head.followed_by(walk(inner, head.end))
}

/// The walk of the first `n` of `items`, one after the other.
pub open spec fn walk_first(items: Seq<Value>, n: nat, at: Place) -> Walk
    decreases items, n,
{
    if n == 0 || n > items.len() {
        Walk::idle(at)
    } else {
        let before = walk_first(items, (n - 1) as nat, at);
        before.followed_by(walk(items[n - 1], before.end))
    }
}

/// The walk of the values of the first `n` of `pairs`, one after the other.
/// The keys are passed over.
pub open spec fn walk_values(pairs: Seq<(Value, Value)>, n: nat, at: Place) -> Walk
    decreases pairs, n,
{
    if n == 0 || n > pairs.len() {
        Walk::idle(at)
    } else {
        let before = walk_values(pairs, (n - 1) as nat, at);
        before.followed_by(walk(pairs[n - 1].1, before.end))
    }
}

/// `cells` after the cells of `marks` were stored in order, a later one
/// replacing an earlier one at the same coordinate.
pub open spec fn stamp(cells: Cells, marks: Seq<Mark>) -> Cells
    decreases marks.len(),
{
    if marks.len() == 0 {
        cells
    } else {
        let last = marks.last();
        stamp(cells, marks.drop_last()).insert((last.row, last.col), last.cell)
    }
}

/// Storing the cells of two runs one after the other is storing those of
/// the first and then those of the second.
pub proof fn lemma_stamp_append(cells: Cells, first: Seq<Mark>, second: Seq<Mark>)
    ensures
        stamp(cells, first + second) == stamp(stamp(cells, first), second),
    decreases second.len(),
{
    if second.len() == 0 {
        assert(first + second =~= first);
    } else {
        lemma_stamp_append(cells, first, second.drop_last());
        assert((first + second).drop_last() =~= first + second.drop_last());
        assert((first + second).last() == second.last());
    }
}

/// The walk of one scalar stores what the worksheet stores when it is
/// offered the scalar's cell.
pub proof fn lemma_stamp_cell(cells: Cells, cell: Cell, at: Place)
    ensures
        stamp(cells, walk_cell(cell, at).marks) == written(cells, cell, at.row, at.col),
{
    let marks = walk_cell(cell, at).marks;
    if lands(cell, at.row, at.col) {
        assert(marks.drop_last() =~= Seq::<Mark>::empty());
        assert(stamp(cells, marks.drop_last()) == cells);
    }
}

/// A walk never moves the cursor up or left of the first column, and its
/// widest column is at least the column it starts in and the column it ends
/// in.
pub proof fn lemma_walk_extent(value: Value, at: Place)
    requires
        at.col >= 0,
    ensures
        walk(value, at).end.row >= at.row,
        walk(value, at).widest >= at.col,
        walk(value, at).widest >= walk(value, at).end.col,
        walk(value, at).end.col >= 0,
    decreases value, 0nat,
{
    match value {
        Value::Present(inner) => lemma_walk_extent(*inner, at),
        Value::NamedWrapper(_, inner) => lemma_walk_extent(*inner, at),
        Value::TaggedWrapper(tag, inner) => {
            let head = walk_cell(Cell::Text(tag@), at);
            lemma_walk_extent(*inner, head.end);
        },
        Value::Sequence(items) => lemma_walk_first_extent(items@, items@.len(), at),
        Value::Keyed(pairs) => lemma_walk_values_extent(pairs@, pairs@.len(), at),
        _ => {},
    }
}

/// [`lemma_walk_extent`] for the first `n` of `items`.
pub proof fn lemma_walk_first_extent(items: Seq<Value>, n: nat, at: Place)
    requires
        at.col >= 0,
    ensures
        walk_first(items, n, at).end.row >= at.row,
        walk_first(items, n, at).widest >= at.col,
        walk_first(items, n, at).widest >= walk_first(items, n, at).end.col,
        walk_first(items, n, at).end.col >= 0,
    decreases items, n,
{
    if n == 0 || n > items.len() {
    } else {
        lemma_walk_first_extent(items, (n - 1) as nat, at);
        lemma_walk_extent(items[n - 1], walk_first(items, (n - 1) as nat, at).end);
    }
}

/// [`lemma_walk_extent`] for the values of the first `n` of `pairs`.
pub proof fn lemma_walk_values_extent(pairs: Seq<(Value, Value)>, n: nat, at: Place)
    requires
        at.col >= 0,
    ensures
        walk_values(pairs, n, at).end.row >= at.row,
        walk_values(pairs, n, at).widest >= at.col,
        walk_values(pairs, n, at).widest >= walk_values(pairs, n, at).end.col,
        walk_values(pairs, n, at).end.col >= 0,
    decreases pairs, n,
{
    if n == 0 || n > pairs.len() {
    } else {
        lemma_walk_values_extent(pairs, (n - 1) as nat, at);
        lemma_walk_extent(pairs[n - 1].1, walk_values(pairs, (n - 1) as nat, at).end);
    }
}

/// A longer prefix of `items` reaches at least as far as a shorter one, and
/// is the shorter one if that stopped early.
pub proof fn lemma_walk_first_prefix(items: Seq<Value>, k: nat, n: nat, at: Place)
    requires
        k <= n <= items.len(),
        at.col >= 0,
    ensures
        walk_first(items, k, at).widest <= walk_first(items, n, at).widest,
        walk_first(items, k, at).end.row <= walk_first(items, n, at).end.row,
        walk_first(items, k, at).halt is Some ==> walk_first(items, n, at) == walk_first(
            items,
            k,
            at,
        ),
    decreases n - k,
{
    if k < n {
        lemma_walk_first_prefix(items, k, (n - 1) as nat, at);
        let before = walk_first(items, (n - 1) as nat, at);
        lemma_walk_first_extent(items, (n - 1) as nat, at);
        lemma_walk_extent(items[n - 1], before.end);
    }
}

/// A longer prefix of `pairs` reaches at least as far as a shorter one, and
/// is the shorter one if that stopped early.
pub proof fn lemma_walk_values_prefix(pairs: Seq<(Value, Value)>, k: nat, n: nat, at: Place)
    requires
        k <= n <= pairs.len(),
        at.col >= 0,
    ensures
        walk_values(pairs, k, at).widest <= walk_values(pairs, n, at).widest,
        walk_values(pairs, k, at).end.row <= walk_values(pairs, n, at).end.row,
        walk_values(pairs, k, at).halt is Some ==> walk_values(pairs, n, at) == walk_values(
            pairs,
            k,
            at,
        ),
    decreases n - k,
{
    if k < n {
        lemma_walk_values_prefix(pairs, k, (n - 1) as nat, at);
        let before = walk_values(pairs, (n - 1) as nat, at);
        lemma_walk_values_extent(pairs, (n - 1) as nat, at);
        lemma_walk_extent(pairs[n - 1].1, before.end);
    }
}

} // verus!
