//! Rectangles of the terminal.

use vstd::prelude::*;

verus! {

/// A rectangle of the terminal, in cells.
#[derive(Clone, Copy, PartialEq, Eq, Debug)]
pub struct Area {
    pub x: u16,
    pub y: u16,
    pub width: u16,
    pub height: u16,
}

/// The rows of an area that lie in the range of a row.
pub open spec fn rows_of(area: Area) -> int {
    if area.y + area.height <= u16::MAX {
        area.height as int
    } else {
        u16::MAX - area.y
    }
}

/// The first `n` rows of an area.
pub open spec fn upper_part(area: Area, n: int) -> Area {
    Area { height: n as u16, ..area }
}

/// The rows of an area behind the first `n`.
pub open spec fn lower_part(area: Area, n: int) -> Area {
    Area { y: (area.y + n) as u16, height: (rows_of(area) - n) as u16, ..area }
}

/// How high a part of a divided rectangle is to be.
#[derive(Clone, Copy, PartialEq, Eq, Debug)]
pub enum Extent {
    /// So many rows or more.
    Min(u16),
    /// So many rows.
    Length(u16),
    /// So many hundredths of the whole.
    Percentage(u16),
}

} // verus!
