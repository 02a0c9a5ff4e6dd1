//! Text coordinates: UTF-16 offsets and row/column points.
//!
//! A `Point` counts its column in UTF-8 bytes, a `PointUtf16` in UTF-16
//! code units. Points are ordered by row first, then by column.
//! Adding a point `b` to `a` treats `b` as a relative motion: when `b`
//! crosses at least one line, the column of `a` is swallowed by the line
//! break and the result takes `b`'s column.

use vstd::prelude::*;

verus! {

/// A UTF-16 code-unit offset.
#[derive(Clone, Copy, Default, Debug, PartialEq, Eq, PartialOrd, Ord, Hash, Structural)]
pub struct OffsetUtf16(pub usize);

impl OffsetUtf16 {
    pub fn zero() -> (r: Self)
        ensures
            r.0 == 0,
    {
        OffsetUtf16(0)
    }

    /// Sum of two offsets.
    pub fn plus(self, rhs: Self) -> (r: Self)
        requires
            self.0 + rhs.0 <= usize::MAX,
        ensures
            r.0 == self.0 + rhs.0,
    {
        OffsetUtf16(self.0 + rhs.0)
    }

    /// Difference of two offsets.
    pub fn minus(self, rhs: Self) -> (r: Self)
        requires
            rhs.0 <= self.0,
        ensures
            r.0 == self.0 - rhs.0,
    {
        OffsetUtf16(self.0 - rhs.0)
    }

    /// Whether the offset equals a plain count of code units.
    pub fn eq_count(&self, other: usize) -> (r: bool)
        ensures
            r == (self.0 == other),
    {
        self.0 == other
    }
}

impl core::ops::Add for OffsetUtf16 {
    type Output = Self;

    fn add(self, rhs: Self) -> (r: Self) {
        OffsetUtf16(self.0 + rhs.0)
    }
}

impl vstd::std_specs::ops::AddSpecImpl for OffsetUtf16 {
    open spec fn obeys_add_spec() -> bool {
        true
    }

    open spec fn add_req(self, rhs: Self) -> bool {
        self.0 + rhs.0 <= usize::MAX
    }

    open spec fn add_spec(self, rhs: Self) -> Self {
        OffsetUtf16((self.0 + rhs.0) as usize)
    }
}

impl core::ops::Sub for OffsetUtf16 {
    type Output = Self;

    fn sub(self, rhs: Self) -> (r: Self) {
        OffsetUtf16(self.0 - rhs.0)
    }
}

impl vstd::std_specs::ops::SubSpecImpl for OffsetUtf16 {
    open spec fn obeys_sub_spec() -> bool {
        true
    }

    open spec fn sub_req(self, rhs: Self) -> bool {
        rhs.0 <= self.0
    }

    open spec fn sub_spec(self, rhs: Self) -> Self {
        OffsetUtf16((self.0 - rhs.0) as usize)
    }
}

/// A row/column position whose column counts UTF-8 bytes.
#[derive(Clone, Copy, Default, Debug, PartialEq, Eq, Hash, Structural)]
pub struct Point {
    pub row: u32,
    pub column: u32,
}

/// Lexicographic "strictly before" on (row, column) pairs.
pub open spec fn rc_lt(r1: u32, c1: u32, r2: u32, c2: u32) -> bool {
    r1 < r2 || (r1 == r2 && c1 < c2)
}

/// Relative motion: `other` applied after `base`.
pub open spec fn rc_add(r1: u32, c1: u32, r2: u32, c2: u32) -> (int, int) {
    if r2 == 0 {
        (r1 as int, c1 + c2)
    } else {
        (r1 + r2, c2 as int)
    }
}

/// Relative motion from `other` to `base` (the inverse of `rc_add`).
pub open spec fn rc_sub(r1: u32, c1: u32, r2: u32, c2: u32) -> (int, int) {
    if r1 == r2 {
        (0, c1 - c2)
    } else {
        (r1 - r2, c1 as int)
    }
}

/// Whether adding the two positions stays within `u32`.
pub open spec fn rc_add_fits(r1: u32, c1: u32, r2: u32, c2: u32) -> bool {
    let (r, c) = rc_add(r1, c1, r2, c2);
    r <= u32::MAX && c <= u32::MAX
}

impl Point {
    pub open spec fn lt_spec(self, other: Self) -> bool {
        rc_lt(self.row, self.column, other.row, other.column)
    }

    pub open spec fn add_spec_fits(self, other: Self) -> bool {
        rc_add_fits(self.row, self.column, other.row, other.column)
    }

    pub open spec fn plus_spec(self, other: Self) -> Self {
        let (r, c) = rc_add(self.row, self.column, other.row, other.column);
        Point { row: r as u32, column: c as u32 }
    }

    pub open spec fn minus_spec(self, other: Self) -> Self {
        let (r, c) = rc_sub(self.row, self.column, other.row, other.column);
        Point { row: r as u32, column: c as u32 }
    }


    pub fn new(row: u32, column: u32) -> (r: Self)
        ensures
            r.row == row,
            r.column == column,
    {
        Point { row, column }
    }

    pub fn zero() -> (r: Self)
        ensures
            r.row == 0,
            r.column == 0,
    {
        Point::new(0, 0)
    }

    pub fn is_zero(&self) -> (r: bool)
        ensures
            r == (self.row == 0 && self.column == 0),
    {
        self.row == 0 && self.column == 0
    }

    /// Whether `self` comes strictly before `other`.
    pub fn lt(&self, other: &Self) -> (r: bool)
        ensures
            r == self.lt_spec(*other),
    {
        self.row < other.row || (self.row == other.row && self.column < other.column)
    }

    /// `self` moved by the relative motion `other`.
    pub fn plus(self, other: Self) -> (r: Self)
        requires
            self.add_spec_fits(other),
        ensures
            r == self.plus_spec(other),
    {
        if other.row == 0 {
            Point::new(self.row, self.column + other.column)
        } else {
            Point::new(self.row + other.row, other.column)
        }
    }

    /// The relative motion that leads from `other` to `self`.
    pub fn minus(self, other: Self) -> (r: Self)
        requires
            !self.lt_spec(other),
        ensures
            r == self.minus_spec(other),
    {
        if self.row == other.row {
            Point::new(0, self.column - other.column)
        } else {
            Point::new(self.row - other.row, self.column)
        }
    }

    /// `self - other`, or zero when `self` comes before `other`.
    pub fn saturating_sub(self, other: Self) -> (r: Self)
        ensures
            self.lt_spec(other) ==> r == Point::zero_spec(),
            !self.lt_spec(other) ==> r == self.minus_spec(other),
    {
        if self.lt(&other) {
            Self::zero()
        } else {
            self.minus(other)
        }
    }

    pub open spec fn zero_spec() -> Self {
        Point { row: 0, column: 0 }
    }
}

impl core::ops::Add for Point {
    type Output = Point;

    fn add(self, other: Self) -> (r: Point) {
        self.plus(other)
    }
}

impl vstd::std_specs::ops::AddSpecImpl for Point {
    open spec fn obeys_add_spec() -> bool {
        true
    }

    open spec fn add_req(self, rhs: Self) -> bool {
        self.add_spec_fits(rhs)
    }

    open spec fn add_spec(self, rhs: Self) -> Self {
        self.plus_spec(rhs)
    }
}

impl core::ops::Sub for Point {
    type Output = Point;

    fn sub(self, other: Self) -> (r: Point) {
        self.minus(other)
    }
}

impl vstd::std_specs::ops::SubSpecImpl for Point {
    open spec fn obeys_sub_spec() -> bool {
        true
    }

    open spec fn sub_req(self, rhs: Self) -> bool {
        !self.lt_spec(rhs)
    }

    open spec fn sub_spec(self, rhs: Self) -> Self {
        self.minus_spec(rhs)
    }
}

/// A row/column position whose column counts UTF-16 code units.
#[derive(Clone, Copy, Default, Debug, PartialEq, Eq, Hash, Structural)]
pub struct PointUtf16 {
    pub row: u32,
    pub column: u32,
}

impl PointUtf16 {
    pub open spec fn lt_spec(self, other: Self) -> bool {
        rc_lt(self.row, self.column, other.row, other.column)
    }

    pub open spec fn add_spec_fits(self, other: Self) -> bool {
        rc_add_fits(self.row, self.column, other.row, other.column)
    }

    pub open spec fn plus_spec(self, other: Self) -> Self {
        let (r, c) = rc_add(self.row, self.column, other.row, other.column);
        PointUtf16 { row: r as u32, column: c as u32 }
    }

    pub open spec fn minus_spec(self, other: Self) -> Self {
        let (r, c) = rc_sub(self.row, self.column, other.row, other.column);
        PointUtf16 { row: r as u32, column: c as u32 }
    }

    pub fn new(row: u32, column: u32) -> (r: Self)
        ensures
            r.row == row,
            r.column == column,
    {
        PointUtf16 { row, column }
    }

    pub fn zero() -> (r: Self)
        ensures
            r.row == 0,
            r.column == 0,
    {
        PointUtf16::new(0, 0)
    }

    /// Whether `self` comes strictly before `other`.
    pub fn lt(&self, other: &Self) -> (r: bool)
        ensures
            r == self.lt_spec(*other),
    {
        self.row < other.row || (self.row == other.row && self.column < other.column)
    }

    /// `self` moved by the relative motion `other`.
    pub fn plus(self, other: Self) -> (r: Self)
        requires
            self.add_spec_fits(other),
        ensures
            r == self.plus_spec(other),
    {
        if other.row == 0 {
            PointUtf16::new(self.row, self.column + other.column)
        } else {
            PointUtf16::new(self.row + other.row, other.column)
        }
    }

    /// The relative motion that leads from `other` to `self`.
    pub fn minus(self, other: Self) -> (r: Self)
        requires
            !self.lt_spec(other),
        ensures
            r == self.minus_spec(other),
    {
        if self.row == other.row {
            PointUtf16::new(0, self.column - other.column)
        } else {
            PointUtf16::new(self.row - other.row, self.column)
        }
    }
}

impl core::ops::Add for PointUtf16 {
    type Output = PointUtf16;

    fn add(self, other: Self) -> (r: PointUtf16) {
        self.plus(other)
    }
}

impl vstd::std_specs::ops::AddSpecImpl for PointUtf16 {
    open spec fn obeys_add_spec() -> bool {
        true
    }

    open spec fn add_req(self, rhs: Self) -> bool {
        self.add_spec_fits(rhs)
    }

    open spec fn add_spec(self, rhs: Self) -> Self {
        self.plus_spec(rhs)
    }
}

impl core::ops::Sub for PointUtf16 {
    type Output = PointUtf16;

    fn sub(self, other: Self) -> (r: PointUtf16) {
        self.minus(other)
    }
}

impl vstd::std_specs::ops::SubSpecImpl for PointUtf16 {
    open spec fn obeys_sub_spec() -> bool {
        true
    }

    open spec fn sub_req(self, rhs: Self) -> bool {
        !self.lt_spec(rhs)
    }

    open spec fn sub_spec(self, rhs: Self) -> Self {
        self.minus_spec(rhs)
    }
}

/// Moving a point by a relative motion never moves it backwards, and taking
/// the start away from the moved point gives back the motion.
pub proof fn lemma_point_add_then_sub(a: Point, b: Point)
    requires
        a.add_spec_fits(b),
    ensures
        !a.plus_spec(b).lt_spec(a),
        a.plus_spec(b).minus_spec(a) == b,
{
}

} // verus!
