use crate::shapes::ShapeKind;
use vstd::prelude::*;

verus! {

/// One cell of the playfield.  `Shadow` marks the projected landing spot of
/// the active piece; it is transient and repainted on every frame.
#[derive(Clone, Copy, PartialEq, Eq, Structural, Debug)]
pub enum Cell {
    Empty,
    Occupied(ShapeKind),
    Shadow,
}

impl Cell {
    /// A free cell does not block the active piece: empty space, or the
    /// piece's own shadow projection.
    pub open spec fn is_free(self) -> bool {
        !(self is Occupied)
    }

    /// Runtime test for `is_free`.
    pub fn free(&self) -> (r: bool)
        ensures
            r == self.is_free(),
    {
        match self {
            Cell::Occupied(_) => false,
            _ => true,
        }
    }
}

/// The occupied content of a cell: shadow and empty both count as empty.
/// Two playfields with the same occupied content behave alike for every
/// collision question.
pub open spec fn occ_part(c: Cell) -> Cell {
    if c is Occupied {
        c
    } else {
        Cell::Empty
    }
}

/// A shadow cell stripped back to empty space; other cells are unchanged.
pub open spec fn strip_cell(c: Cell) -> Cell {
    if c is Shadow {
        Cell::Empty
    } else {
        c
    }
}

} // verus!
