//! Sizes, positions and rectangular regions of a terminal, in rows and columns.

use vstd::prelude::*;

verus! {

/// Dimensions of a terminal or of a frame: a number of rows and of columns.
#[derive(Debug, Default, Clone, Copy, PartialEq, Eq, Structural, PartialOrd, Ord, Hash)]
pub struct TerminalSize {
    /// Number of rows (height).
    pub rows: usize,
    /// Number of columns (width).
    pub cols: usize,
}

impl TerminalSize {
    /// The size with no rows and no columns.
    pub fn empty() -> (size: Self)
        ensures
            size.rows == 0,
            size.cols == 0,
    {
        Self { rows: 0, cols: 0 }
    }

    /// Whether `position` lies inside a grid of this size.
    pub open spec fn spec_contains(self, position: TerminalPosition) -> bool {
        position.row < self.rows && position.col < self.cols
    }

    /// Whether the size has no cell at all.
    pub open spec fn spec_is_empty(self) -> bool {
        self.rows == 0 || self.cols == 0
    }

    /// The region that starts at the origin and has this size.
    pub open spec fn spec_to_region(self) -> TerminalRegion {
        TerminalRegion { position: TerminalPosition { row: 0, col: 0 }, size: self }
    }

    /// Makes a size from a number of rows and of columns.
    pub fn rows_cols(rows: usize, cols: usize) -> (size: Self)
        ensures
            size.rows == rows,
            size.cols == cols,
    {
        Self { rows, cols }
    }

    /// The number of cells, `rows * cols`.
    pub fn area(self) -> (cells: usize)
        requires
            self.rows * self.cols <= usize::MAX,
        ensures
            cells == self.rows * self.cols,
    {
        self.rows * self.cols
    }

    /// Whether the size has zero rows or zero columns.
    #[verifier::when_used_as_spec(spec_is_empty)]
    pub fn is_empty(self) -> (empty: bool)
        ensures
            empty == self.spec_is_empty(),
    {
        self.rows == 0 || self.cols == 0
    }

    /// Whether `position` falls within the boundaries of this size.
    #[verifier::when_used_as_spec(spec_contains)]
    pub fn contains(self, position: TerminalPosition) -> (inside: bool)
        ensures
            inside == self.spec_contains(position),
    {
        position.row < self.rows && position.col < self.cols
    }

    /// The region of this size whose top-left corner is the origin.
    #[verifier::when_used_as_spec(spec_to_region)]
    pub fn to_region(self) -> (region: TerminalRegion)
        ensures
            region == self.spec_to_region(),
    {
        TerminalRegion { position: TerminalPosition { row: 0, col: 0 }, size: self }
    }
}

/// A position on a terminal, counted from zero at the top-left corner.
#[derive(Debug, Default, Clone, Copy, PartialEq, Eq, Structural, PartialOrd, Ord, Hash)]
pub struct TerminalPosition {
    /// Row, counted from the top.
    pub row: usize,
    /// Column, counted from the left.
    pub col: usize,
}

impl TerminalPosition {
    /// The origin, row 0 and column 0.
    pub fn zero() -> (position: Self)
        ensures
            position.row == 0,
            position.col == 0,
    {
        Self { row: 0, col: 0 }
    }

    /// Row-major order: `self` comes strictly before `other`.
    pub open spec fn spec_precedes(self, other: Self) -> bool {
        self.row < other.row || (self.row == other.row && self.col < other.col)
    }

    /// Componentwise difference, each component stopping at zero.
    pub open spec fn spec_minus(self, other: Self) -> Self {
        TerminalPosition {
            row: if self.row >= other.row { (self.row - other.row) as usize } else { 0 },
            col: if self.col >= other.col { (self.col - other.col) as usize } else { 0 },
        }
    }

    /// Makes a position from a row and a column.
    pub fn row_col(row: usize, col: usize) -> (position: Self)
        ensures
            position.row == row,
            position.col == col,
    {
        Self { row, col }
    }

    /// The first position of the given row.
    pub fn row(row: usize) -> (position: Self)
        ensures
            position.row == row,
            position.col == 0,
    {
        Self { row, col: 0 }
    }

    /// The position of the given column on the first row.
    pub fn col(col: usize) -> (position: Self)
        ensures
            position.row == 0,
            position.col == col,
    {
        Self { row: 0, col }
    }

    /// Whether `self` comes strictly before `other` in row-major order.
    #[verifier::when_used_as_spec(spec_precedes)]
    pub fn precedes(self, other: Self) -> (before: bool)
        ensures
            before == self.spec_precedes(other),
    {
        self.row < other.row || (self.row == other.row && self.col < other.col)
    }
}

impl core::ops::Add for TerminalPosition {
    type Output = Self;

    /// Componentwise sum. The caller keeps both sums within `usize`.
    fn add(self, other: Self) -> (sum: Self) {
        Self { row: self.row + other.row, col: self.col + other.col }
    }
}

impl vstd::std_specs::ops::AddSpecImpl for TerminalPosition {
    open spec fn obeys_add_spec() -> bool {
        true
    }

    open spec fn add_req(self, other: Self) -> bool {
        self.row + other.row <= usize::MAX && self.col + other.col <= usize::MAX
    }

    open spec fn add_spec(self, other: Self) -> Self {
        TerminalPosition {
            row: (self.row + other.row) as usize,
            col: (self.col + other.col) as usize,
        }
    }
}

impl core::ops::AddAssign for TerminalPosition {
    /// Adds `other` to this position, component by component.
    fn add_assign(&mut self, other: Self)
        requires
            old(self).row + other.row <= usize::MAX,
            old(self).col + other.col <= usize::MAX,
        ensures
            final(self).row == old(self).row + other.row,
            final(self).col == old(self).col + other.col,
    {
        self.row = self.row + other.row;
        self.col = self.col + other.col;
    }
}

impl core::ops::SubAssign for TerminalPosition {
    /// Takes `other` off this position, component by component, stopping at zero.
    fn sub_assign(&mut self, other: Self)
        ensures
            *final(self) == old(self).spec_minus(other),
    {
        self.row = if self.row >= other.row {
            self.row - other.row
        } else {
            0
        };
        self.col = if self.col >= other.col {
            self.col - other.col
        } else {
            0
        };
    }
}

impl core::ops::Sub for TerminalPosition {
    type Output = Self;

    /// Componentwise difference; a component that would be negative is zero.
    fn sub(self, other: Self) -> (difference: Self) {
        Self {
            row: if self.row >= other.row { self.row - other.row } else { 0 },
            col: if self.col >= other.col { self.col - other.col } else { 0 },
        }
    }
}

impl vstd::std_specs::ops::SubSpecImpl for TerminalPosition {
    open spec fn obeys_sub_spec() -> bool {
        true
    }

    open spec fn sub_req(self, other: Self) -> bool {
        true
    }

    open spec fn sub_spec(self, other: Self) -> Self {
        self.spec_minus(other)
    }
}

/// A rectangle on a terminal: its top-left position and its size.
#[derive(Debug, Default, Clone, Copy, PartialEq, Eq, Structural, Hash)]
pub struct TerminalRegion {
    /// The top-left position of the region.
    pub position: TerminalPosition,
    /// The dimensions of the region.
    pub size: TerminalSize,
}

impl TerminalRegion {
    /// Whether `position` lies inside the region.
    pub open spec fn spec_contains(self, position: TerminalPosition) -> bool {
        &&& position.row >= self.position.row
        &&& position.col >= self.position.col
        &&& position.row < self.position.row + self.size.rows
        &&& position.col < self.position.col + self.size.cols
    }

    /// Whether the far edges of the region can be written as positions.
    pub open spec fn in_bounds(self) -> bool {
        &&& self.position.row + self.size.rows <= usize::MAX
        &&& self.position.col + self.size.cols <= usize::MAX
    }

    /// Whether the region has zero rows or zero columns.
    pub fn is_empty(self) -> (empty: bool)
        ensures
            empty == self.size.spec_is_empty(),
    {
        self.size.is_empty()
    }

    /// Whether `position` falls within this region.
    #[verifier::when_used_as_spec(spec_contains)]
    pub fn contains(self, position: TerminalPosition) -> (inside: bool)
        ensures
            inside == self.spec_contains(position),
    {
        position.row >= self.position.row && position.col >= self.position.col && position.row
            - self.position.row < self.size.rows && position.col - self.position.col
            < self.size.cols
    }

    /// The top-left position of the region.
    pub fn top_left(self) -> (corner: TerminalPosition)
        ensures
            corner == self.position,
    {
        self.position
    }

    /// The top-right position of the region. An empty region has it at its left edge.
    pub fn top_right(self) -> (corner: TerminalPosition)
        requires
            self.in_bounds(),
        ensures
            corner.row == self.position.row,
            corner.col == self.position.col + if self.size.cols == 0 {
                0
            } else {
                self.size.cols - 1
            },
    {
        let width: usize = if self.size.cols == 0 {
            0
        } else {
            self.size.cols - 1
        };
        TerminalPosition { row: self.position.row, col: self.position.col + width }
    }

    /// The bottom-left position of the region. An empty region has it at its top edge.
    pub fn bottom_left(self) -> (corner: TerminalPosition)
        requires
            self.in_bounds(),
        ensures
            corner.row == self.position.row + if self.size.rows == 0 {
                0
            } else {
                self.size.rows - 1
            },
            corner.col == self.position.col,
    {
        let height: usize = if self.size.rows == 0 {
            0
        } else {
            self.size.rows - 1
        };
        TerminalPosition { row: self.position.row + height, col: self.position.col }
    }

    /// The bottom-right position of the region.
    pub fn bottom_right(self) -> (corner: TerminalPosition)
        requires
            self.in_bounds(),
        ensures
            corner.row == self.position.row + if self.size.rows == 0 {
                0
            } else {
                self.size.rows - 1
            },
            corner.col == self.position.col + if self.size.cols == 0 {
                0
            } else {
                self.size.cols - 1
            },
    {
        let height: usize = if self.size.rows == 0 {
            0
        } else {
            self.size.rows - 1
        };
        let width: usize = if self.size.cols == 0 {
            0
        } else {
            self.size.cols - 1
        };
        TerminalPosition { row: self.position.row + height, col: self.position.col + width }
    }

    /// The top `rows` rows of the region, or all of it where it has no more.
    pub fn take_top(self, rows: usize) -> (part: Self)
        ensures
            part.position == self.position,
            part.size.cols == self.size.cols,
            part.size.rows == if rows < self.size.rows {
                rows
            } else {
                self.size.rows
            },
    {
        let mut part = self;
        if rows < self.size.rows {
            part.size.rows = rows;
        }
        part
    }

    /// The bottom `rows` rows of the region, or all of it where it has no more.
    pub fn take_bottom(self, rows: usize) -> (part: Self)
        requires
            self.in_bounds(),
        ensures
            part.position.col == self.position.col,
            part.size.cols == self.size.cols,
            part.size.rows == if rows < self.size.rows {
                rows
            } else {
                self.size.rows
            },
            part.position.row + part.size.rows == self.position.row + self.size.rows,
    {
        let mut part = self;
        if rows < self.size.rows {
            part.position.row = self.position.row + (self.size.rows - rows);
            part.size.rows = rows;
        }
        part
    }

    /// The leftmost `cols` columns of the region, or all of it where it has no more.
    pub fn take_left(self, cols: usize) -> (part: Self)
        ensures
            part.position == self.position,
            part.size.rows == self.size.rows,
            part.size.cols == if cols < self.size.cols {
                cols
            } else {
                self.size.cols
            },
    {
        let mut part = self;
        if cols < self.size.cols {
            part.size.cols = cols;
        }
        part
    }

    /// The rightmost `cols` columns of the region, or all of it where it has no more.
    pub fn take_right(self, cols: usize) -> (part: Self)
        requires
            self.in_bounds(),
        ensures
            part.position.row == self.position.row,
            part.size.rows == self.size.rows,
            part.size.cols == if cols < self.size.cols {
                cols
            } else {
                self.size.cols
            },
            part.position.col + part.size.cols == self.position.col + self.size.cols,
    {
        let mut part = self;
        if cols < self.size.cols {
            part.position.col = self.position.col + (self.size.cols - cols);
            part.size.cols = cols;
        }
        part
    }

    /// The region without its top `rows` rows; with no more rows than that, no
    /// row is left and the position stays.
    pub fn drop_top(self, rows: usize) -> (rest: Self)
        requires
            self.in_bounds(),
        ensures
            rest.position.col == self.position.col,
            rest.size.cols == self.size.cols,
            rows < self.size.rows ==> rest.position.row == self.position.row + rows
                && rest.size.rows == self.size.rows - rows,
            rows >= self.size.rows ==> rest.position.row == self.position.row && rest.size.rows
                == 0,
    {
        let mut rest = self;
        if rows < self.size.rows {
            rest.position.row = self.position.row + rows;
            rest.size.rows = self.size.rows - rows;
        } else {
            rest.size.rows = 0;
        }
        rest
    }

    /// The region without its bottom `rows` rows; with no more rows than that,
    /// no row is left.
    pub fn drop_bottom(self, rows: usize) -> (rest: Self)
        ensures
            rest.position == self.position,
            rest.size.cols == self.size.cols,
            rest.size.rows == if rows < self.size.rows {
                self.size.rows - rows
            } else {
                0
            },
    {
        let mut rest = self;
        if rows < self.size.rows {
            rest.size.rows = self.size.rows - rows;
        } else {
            rest.size.rows = 0;
        }
        rest
    }

    /// The region without its leftmost `cols` columns; with no more columns
    /// than that, no column is left and the position stays.
    pub fn drop_left(self, cols: usize) -> (rest: Self)
        requires
            self.in_bounds(),
        ensures
            rest.position.row == self.position.row,
            rest.size.rows == self.size.rows,
            cols < self.size.cols ==> rest.position.col == self.position.col + cols
                && rest.size.cols == self.size.cols - cols,
            cols >= self.size.cols ==> rest.position.col == self.position.col && rest.size.cols
                == 0,
    {
        let mut rest = self;
        if cols < self.size.cols {
            rest.position.col = self.position.col + cols;
            rest.size.cols = self.size.cols - cols;
        } else {
            rest.size.cols = 0;
        }
        rest
    }

    /// The region without its rightmost `cols` columns; with no more columns
    /// than that, no column is left.
    pub fn drop_right(self, cols: usize) -> (rest: Self)
        ensures
            rest.position == self.position,
            rest.size.rows == self.size.rows,
            rest.size.cols == if cols < self.size.cols {
                self.size.cols - cols
            } else {
                0
            },
    {
        let mut rest = self;
        if cols < self.size.cols {
            rest.size.cols = self.size.cols - cols;
        } else {
            rest.size.cols = 0;
        }
        rest
    }
}

} // verus!
