//! Points of the coordinate spaces of the display map.

use vstd::prelude::*;

verus! {

/// A row/column point in a coordinate space.
#[derive(Clone, Copy, Debug, PartialEq, Eq, Structural)]
pub struct Point {
    pub row: u32,
    pub column: u32,
}

impl Point {
    pub fn new(row: u32, column: u32) -> (r: Self)
        ensures
            r.row == row,
            r.column == column,
    {
        Point { row, column }
    }

    pub fn row(&self) -> (r: u32)
        ensures
            r == self.row,
    {
        self.row
    }

    pub fn column(&self) -> (r: u32)
        ensures
            r == self.column,
    {
        self.column
    }

    /// The origin.
    pub fn zero() -> (r: Self)
        ensures
            r.row == 0,
            r.column == 0,
    {
        Point { row: 0, column: 0 }
    }
}

/// Position in the raw text buffer (line, column in chars).
#[derive(Clone, Copy, Debug, PartialEq, Eq, Structural)]
pub struct BufferPoint {
    pub row: u32,
    pub column: u32,
}

impl BufferPoint {
    pub fn new(row: u32, column: u32) -> (r: Self)
        ensures
            r.row == row,
            r.column == column,
    {
        BufferPoint { row, column }
    }

    pub fn row(&self) -> (r: u32)
        ensures
            r == self.row,
    {
        self.row
    }

    pub fn column(&self) -> (r: u32)
        ensures
            r == self.column,
    {
        self.column
    }

    /// The origin.
    pub fn zero() -> (r: Self)
        ensures
            r.row == 0,
            r.column == 0,
    {
        BufferPoint { row: 0, column: 0 }
    }
}

/// Position after applying folds (some lines hidden).
#[derive(Clone, Copy, Debug, PartialEq, Eq, Structural)]
pub struct FoldPoint {
    pub row: u32,
    pub column: u32,
}

impl FoldPoint {
    pub fn new(row: u32, column: u32) -> (r: Self)
        ensures
            r.row == row,
            r.column == column,
    {
        FoldPoint { row, column }
    }

    pub fn row(&self) -> (r: u32)
        ensures
            r == self.row,
    {
        self.row
    }

    pub fn column(&self) -> (r: u32)
        ensures
            r == self.column,
    {
        self.column
    }

    /// The origin.
    pub fn zero() -> (r: Self)
        ensures
            r.row == 0,
            r.column == 0,
    {
        FoldPoint { row: 0, column: 0 }
    }
}

/// Position after applying soft wraps (one fold line may span several rows).
#[derive(Clone, Copy, Debug, PartialEq, Eq, Structural)]
pub struct WrapPoint {
    pub row: u32,
    pub column: u32,
}

impl WrapPoint {
    pub fn new(row: u32, column: u32) -> (r: Self)
        ensures
            r.row == row,
            r.column == column,
    {
        WrapPoint { row, column }
    }

    pub fn row(&self) -> (r: u32)
        ensures
            r == self.row,
    {
        self.row
    }

    pub fn column(&self) -> (r: u32)
        ensures
            r == self.column,
    {
        self.column
    }

    /// The origin.
    pub fn zero() -> (r: Self)
        ensures
            r.row == 0,
            r.column == 0,
    {
        WrapPoint { row: 0, column: 0 }
    }
}

/// Final screen position, after all transforms.
#[derive(Clone, Copy, Debug, PartialEq, Eq, Structural)]
pub struct DisplayPoint {
    pub row: u32,
    pub column: u32,
}

impl DisplayPoint {
    pub fn new(row: u32, column: u32) -> (r: Self)
        ensures
            r.row == row,
            r.column == column,
    {
        DisplayPoint { row, column }
    }

    pub fn row(&self) -> (r: u32)
        ensures
            r == self.row,
    {
        self.row
    }

    pub fn column(&self) -> (r: u32)
        ensures
            r == self.column,
    {
        self.column
    }

    /// The origin.
    pub fn zero() -> (r: Self)
        ensures
            r.row == 0,
            r.column == 0,
    {
        DisplayPoint { row: 0, column: 0 }
    }
}

} // verus!
