//! Directed lines with exact integer position tests.
use vstd::prelude::*;

verus! {

/// Largest magnitude a line endpoint or a tested point may have.
pub const COORD_LIMIT: i64 = 0x1_0000_0000;

/// A coordinate whose magnitude stays within `COORD_LIMIT`.
pub open spec fn coord_ok(v: int) -> bool {
    -COORD_LIMIT <= v <= COORD_LIMIT
}

/// A directed line from `(xi, yi)` to `(xf, yf)`.
#[derive(Clone, Copy, Debug, PartialEq, Eq, Structural)]
pub struct Line {
    pub xi: i64,
    pub yi: i64,
    pub xf: i64,
    pub yf: i64,
}

impl Line {
    /// Both endpoints lie within the coordinate limit.
    pub open spec fn wf(self) -> bool {
        coord_ok(self.xi as int) && coord_ok(self.yi as int) && coord_ok(self.xf as int)
            && coord_ok(self.yf as int)
    }

    /// The determinant whose sign places `(x, y)` relative to the line:
    /// positive below, negative above, zero on it.
    pub open spec fn slope_at(self, x: int, y: int) -> int {
        (self.yf - self.yi) * (self.xf - x) - (self.xf - self.xi) * (self.yf - y)
    }

    pub fn dx(&self) -> (r: i64)
        requires
            self.wf(),
        ensures
            r == self.xf - self.xi,
    {
        self.xf - self.xi
    }

    pub fn dy(&self) -> (r: i64)
        requires
            self.wf(),
        ensures
            r == self.yf - self.yi,
    {
        self.yf - self.yi
    }

    pub fn relative_slope(&self, x: i64, y: i64) -> (r: i128)
        requires
            self.wf(),
            coord_ok(x as int),
            coord_ok(y as int),
        ensures
            r == self.slope_at(x as int, y as int),
    {
        let a = self.dy() as i128;
        let b = (self.xf - x) as i128;
        let c = self.dx() as i128;
        let d = (self.yf - y) as i128;
        assert(-0x4_0000_0000_0000_0000 <= a * b <= 0x4_0000_0000_0000_0000) by (nonlinear_arith)
            requires
                -0x2_0000_0000 <= a <= 0x2_0000_0000,
                -0x2_0000_0000 <= b <= 0x2_0000_0000,
        ;
        assert(-0x4_0000_0000_0000_0000 <= c * d <= 0x4_0000_0000_0000_0000) by (nonlinear_arith)
            requires
                -0x2_0000_0000 <= c <= 0x2_0000_0000,
                -0x2_0000_0000 <= d <= 0x2_0000_0000,
        ;
        a * b - c * d
    }

    /// The point lies strictly below the line.
    pub fn p_below(&self, x: i64, y: i64) -> (r: bool)
        requires
            self.wf(),
            coord_ok(x as int),
            coord_ok(y as int),
        ensures
            r == (self.slope_at(x as int, y as int) > 0),
    {
        self.relative_slope(x, y) > 0
    }

    /// The point lies below the line or on it.
    pub fn p_below_or_collinear(&self, x: i64, y: i64) -> (r: bool)
        requires
            self.wf(),
            coord_ok(x as int),
            coord_ok(y as int),
        ensures
            r == (self.slope_at(x as int, y as int) >= 0),
    {
        self.relative_slope(x, y) >= 0
    }

    /// The point lies strictly above the line.
    pub fn p_above(&self, x: i64, y: i64) -> (r: bool)
        requires
            self.wf(),
            coord_ok(x as int),
            coord_ok(y as int),
        ensures
            r == (self.slope_at(x as int, y as int) < 0),
    {
        self.relative_slope(x, y) < 0
    }

    /// The point lies above the line or on it.
    pub fn p_above_or_collinear(&self, x: i64, y: i64) -> (r: bool)
        requires
            self.wf(),
            coord_ok(x as int),
            coord_ok(y as int),
        ensures
            r == (self.slope_at(x as int, y as int) <= 0),
    {
        self.relative_slope(x, y) <= 0
    }

    /// The point lies on the line.
    pub fn p_collinear(&self, x: i64, y: i64) -> (r: bool)
        requires
            self.wf(),
            coord_ok(x as int),
            coord_ok(y as int),
        ensures
            r == (self.slope_at(x as int, y as int) == 0),
    {
        self.relative_slope(x, y) == 0
    }

    /// Both endpoints of `other` lie on this line.
    pub open spec fn collinear_with(self, other: Line) -> bool {
        self.slope_at(other.xi as int, other.yi as int) == 0
            && self.slope_at(other.xf as int, other.yf as int) == 0
    }

    pub fn line_collinear(&self, line: &Line) -> (r: bool)
        requires
            self.wf(),
            line.wf(),
        ensures
            r == self.collinear_with(*line),
    {
        self.p_collinear(line.xi, line.yi) && self.p_collinear(line.xf, line.yf)
    }
}

} // verus!
