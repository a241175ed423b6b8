use vstd::prelude::*;

verus! {

/// Axis-aligned rectangle: top-left corner `(x, y)`, width `w`, height `h`.
#[derive(Clone, Copy, Debug, PartialEq, Eq, Structural)]
pub struct Rect {
    pub x: i32,
    pub y: i32,
    pub w: u32,
    pub h: u32,
}

/// Whether two rectangles share an area of positive size. An empty
/// rectangle (zero width or height) meets nothing.
pub open spec fn rects_intersect(a: Rect, b: Rect) -> bool {
    &&& a.w > 0 && a.h > 0 && b.w > 0 && b.h > 0
    &&& (a.x as int) < b.x as int + b.w as int
    &&& (b.x as int) < a.x as int + a.w as int
    &&& (a.y as int) < b.y as int + b.h as int
    &&& (b.y as int) < a.y as int + a.h as int
}

/// Whether the point lies inside the rectangle (right and bottom edges excluded).
pub open spec fn rect_contains(r: Rect, px: int, py: int) -> bool {
    &&& r.x as int <= px < r.x as int + r.w as int
    &&& r.y as int <= py < r.y as int + r.h as int
}

impl Rect {
    pub fn new(x: i32, y: i32, w: u32, h: u32) -> (r: Rect)
        ensures
            r == (Rect { x, y, w, h }),
    {
        Rect { x, y, w, h }
    }

    pub fn has_intersection(&self, other: Rect) -> (r: bool)
        ensures
            r == rects_intersect(*self, other),
    {
        if self.w == 0 || self.h == 0 || other.w == 0 || other.h == 0 {
            return false;
        }
        let ax = self.x as i64;
        let ay = self.y as i64;
        let bx = other.x as i64;
        let by = other.y as i64;
        ax < bx + other.w as i64 && bx < ax + self.w as i64 && ay < by + other.h as i64 && by < ay
            + self.h as i64
    }

    pub fn contains_point(&self, px: i32, py: i32) -> (r: bool)
        ensures
            r == rect_contains(*self, px as int, py as int),
    {
        let x = px as i64;
        let y = py as i64;
        self.x as i64 <= x && x < self.x as i64 + self.w as i64 && self.y as i64 <= y && y
            < self.y as i64 + self.h as i64
    }

    /// The middle point: half the width and half the height (rounded down)
    /// from the top-left corner.
    pub fn center(&self) -> (r: (i64, i64))
        ensures
            r.0 == self.x as int + self.w as int / 2,
            r.1 == self.y as int + self.h as int / 2,
    {
        (self.x as i64 + (self.w / 2) as i64, self.y as i64 + (self.h / 2) as i64)
    }

    /// The same size, moved so that its top-left corner is `(x, y)`.
    pub fn reposition(&mut self, x: i32, y: i32)
        ensures
            *final(self) == (Rect { x, y, w: old(self).w, h: old(self).h }),
    {
        self.x = x;
        self.y = y;
    }
}

/// A row-major grid stored in one vector: row `i1`, column `i2` sits at `i1 * width + i2`.
pub struct Vec2d<T> {
    pub cells: Vec<T>,
    pub width: usize,
}

impl<T> Vec2d<T> {
    pub open spec fn flat(&self, i1: int, i2: int) -> int {
        i1 * self.width as int + i2
    }

    /// Whether the flat position of row `i1`, column `i2` lies in the vector.
    pub open spec fn in_bounds(&self, i1: int, i2: int) -> bool {
        &&& 0 <= i1
        &&& 0 <= i2
        &&& self.flat(i1, i2) < self.cells@.len()
    }

    pub fn new(v: Vec<T>, innerSize: usize) -> (r: Vec2d<T>)
        ensures
            r.cells@ == v@,
            r.width == innerSize,
    {
        Vec2d { cells: v, width: innerSize }
    }

    pub fn index(&self, idx1: usize, idx2: usize) -> (r: &T)
        requires
            self.in_bounds(idx1 as int, idx2 as int),
        ensures
            *r == self.cells@[self.flat(idx1 as int, idx2 as int)],
    {
        proof {
            assert(idx1 * self.width <= idx1 * self.width + idx2) by (nonlinear_arith)
                requires
                    0 <= idx2,
            ;
            assert(idx1 * self.width + idx2 < self.cells.len());
        }
        &self.cells[idx1 * self.width + idx2]
    }

    pub fn indexMut(&mut self, idx1: usize, idx2: usize) -> (r: &mut T)
        requires
            old(self).in_bounds(idx1 as int, idx2 as int),
        ensures
            *r == old(self).cells@[old(self).flat(idx1 as int, idx2 as int)],
            final(self).width == old(self).width,
            final(self).cells@ == old(self).cells@.update(
                old(self).flat(idx1 as int, idx2 as int),
                *final(r),
            ),
    {
        proof {
            assert(idx1 * self.width <= idx1 * self.width + idx2) by (nonlinear_arith)
                requires
                    0 <= idx2,
            ;
            assert(idx1 * self.width + idx2 < self.cells.len());
        }
        &mut self.cells[idx1 * self.width + idx2]
    }

    /// The cell at row `idx1`, column `idx2`, or `None` when the flat position
    /// lies outside the vector.
    pub fn get(&self, idx1: usize, idx2: usize) -> (r: Option<&T>)
        ensures
            r.is_some() == (self.flat(idx1 as int, idx2 as int) < self.cells@.len()),
            r matches Some(v) ==> *v == self.cells@[self.flat(idx1 as int, idx2 as int)],
    {
        let len = self.cells.len();
        match idx1.checked_mul(self.width) {
            Some(row) => match row.checked_add(idx2) {
                Some(k) => {
                    if k < len {
                        Some(&self.cells[k])
                    } else {
                        None
                    }
                },
                None => {
                    assert(self.flat(idx1 as int, idx2 as int) > usize::MAX);
                    None
                },
            },
            None => {
                assert(idx1 as int * self.width as int <= self.flat(idx1 as int, idx2 as int));
                None
            },
        }
    }

    /// The cell at row `idx1`, column `idx2` for writing, or `None` when the
    /// flat position lies outside the vector.
    pub fn getMut(&mut self, idx1: usize, idx2: usize) -> (r: Option<&mut T>)
        ensures
            r is Some == (old(self).flat(idx1 as int, idx2 as int) < old(self).cells@.len()),
            final(self).width == old(self).width,
            r is None ==> final(self).cells@ == old(self).cells@,
            r matches Some(v) ==> *v == old(self).cells@[old(self).flat(idx1 as int, idx2 as int)],
            r matches Some(v) ==> final(self).cells@ == old(self).cells@.update(
                old(self).flat(idx1 as int, idx2 as int),
                *final(v),
            ),
    {
        let len = self.cells.len();
        match idx1.checked_mul(self.width) {
            Some(row) => match row.checked_add(idx2) {
                Some(k) => {
                    if k < len {
                        Some(&mut self.cells[k])
                    } else {
                        None
                    }
                },
                None => {
                    assert(self.flat(idx1 as int, idx2 as int) > usize::MAX);
                    None
                },
            },
            None => {
                assert(idx1 as int * self.width as int <= self.flat(idx1 as int, idx2 as int));
                None
            },
        }
    }
}

} // verus!
