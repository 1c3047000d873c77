//! A set of coordinates inside a fixed rectangular window, kept as one mark
//! per cell of the window.
use vstd::prelude::*;

use crate::Coord;

verus! {

pub struct CoordSet {
    x0: i32,
    y0: i32,
    width: usize,
    height: usize,
    rows: Vec<Vec<bool>>,
}

impl CoordSet {
    pub closed spec fn min_x(&self) -> int {
        self.x0 as int
    }

    pub closed spec fn min_y(&self) -> int {
        self.y0 as int
    }

    pub closed spec fn spec_width(&self) -> int {
        self.width as int
    }

    pub closed spec fn spec_height(&self) -> int {
        self.height as int
    }

    /// Both sets cover the same window.
    pub open spec fn same_window(&self, other: CoordSet) -> bool {
        self.min_x() == other.min_x() && self.min_y() == other.min_y() && self.spec_width()
            == other.spec_width() && self.spec_height() == other.spec_height()
    }

    /// The coordinate lies inside the window.
    pub open spec fn in_window(&self, c: Coord) -> bool {
        self.min_x() <= c.x < self.min_x() + self.spec_width() && self.min_y() <= c.y
            < self.min_y() + self.spec_height()
    }

    pub closed spec fn wf(&self) -> bool {
        &&& self.rows@.len() == self.height
        &&& forall|r: int| 0 <= r < self.height ==> (#[trigger] self.rows@[r])@.len() == self.width
        &&& 0 <= self.x0
        &&& 0 <= self.y0
        &&& self.x0 + self.width <= i32::MAX + 1
        &&& self.y0 + self.height <= i32::MAX + 1
    }

    pub closed spec fn view(&self) -> Set<Coord> {
        Set::new(|c: Coord| self.in_window(c) && self.rows@[c.y - self.y0]@[c.x - self.x0])
    }

    /// An empty set over the window of `width` by `height` cells whose
    /// smallest corner is `(x0, y0)`.
    pub fn new(x0: i32, y0: i32, width: u32, height: u32) -> (r: Self)
        requires
            0 <= x0,
            0 <= y0,
            x0 + width <= i32::MAX + 1,
            y0 + height <= i32::MAX + 1,
        ensures
            r.wf(),
            r@ == Set::<Coord>::empty(),
            r.min_x() == x0,
            r.min_y() == y0,
            r.spec_width() == width,
            r.spec_height() == height,
    {
        let mut row: Vec<bool> = Vec::new();
        let mut i: u32 = 0;
        while i < width
            invariant
                i <= width,
                row@.len() == i,
                forall|k: int| 0 <= k < i ==> !row@[k],
            decreases width - i,
        {
            row.push(false);
            i += 1;
        }
        let mut rows: Vec<Vec<bool>> = Vec::new();
        let mut j: u32 = 0;
        while j < height
            invariant
                j <= height,
                rows@.len() == j,
                forall|k: int| 0 <= k < j ==> (#[trigger] rows@[k])@ == row@,
            decreases height - j,
        {
            rows.push(row.clone());
            j += 1;
        }
        let r = CoordSet { x0, y0, width: width as usize, height: height as usize, rows };
        assert(r@ =~= Set::<Coord>::empty());
        r
    }

    pub fn contains(&self, c: Coord) -> (r: bool)
        requires
            self.wf(),
        ensures
            r == self@.contains(c),
    {
        if self.x0 <= c.x && ((c.x - self.x0) as usize) < self.width && self.y0 <= c.y && ((c.y
            - self.y0) as usize) < self.height {
            self.rows[(c.y - self.y0) as usize][(c.x - self.x0) as usize]
        } else {
            false
        }
    }

    pub fn insert(&mut self, c: Coord)
        requires
            old(self).wf(),
            old(self).in_window(c),
        ensures
            final(self).wf(),
            final(self)@ == old(self)@.insert(c),
            final(self).same_window(*old(self)),
    {
        let r = (c.y - self.y0) as usize;
        let k = (c.x - self.x0) as usize;
        self.rows[r].set(k, true);
        assert(self@ =~= old(self)@.insert(c));
    }
}

} // verus!
