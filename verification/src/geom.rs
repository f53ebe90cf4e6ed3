//! Grid coordinates, level sizes and the four cardinal directions.

use vstd::prelude::*;

verus! {

/// Largest width or height a level grid may have. Keeps cell indices well
/// inside `usize` on every machine and coordinate arithmetic free of
/// overflow.
pub const MAX_DIM: u32 = 32767;

/// A grid coordinate. `y` grows downward, as in screen coordinates.
#[derive(Clone, Copy, Debug, PartialEq, Eq, Structural)]
pub struct Coord {
    pub x: i32,
    pub y: i32,
}

/// Width and height of a level grid, fixed for the lifetime of a level.
#[derive(Clone, Copy, Debug, PartialEq, Eq, Structural)]
pub struct Size {
    pub width: u32,
    pub height: u32,
}

/// The four cardinal directions. `North` is toward smaller `y`.
#[derive(Clone, Copy, Debug, PartialEq, Eq, Structural)]
pub enum CardinalDirection {
    North,
    East,
    South,
    West,
}

impl Size {
    /// A size small enough that every cell index fits comfortably in `usize`.
    pub open spec fn wf(self) -> bool {
        0 < self.width <= MAX_DIM && 0 < self.height <= MAX_DIM
    }

    /// Number of cells of a grid of this size.
    pub open spec fn area(self) -> int {
        self.width * self.height
    }

    /// Whether `c` lies inside a grid of this size.
    pub open spec fn contains(self, c: Coord) -> bool {
        0 <= c.x < self.width && 0 <= c.y < self.height
    }

    /// Row-major index of `c` in a grid of this size.
    pub open spec fn index_of(self, c: Coord) -> int {
        c.y * self.width + c.x
    }

    /// The coordinate whose row-major index is `i`.
    pub open spec fn coord_of_index(self, i: int) -> Coord {
        Coord { x: (i % (self.width as int)) as i32, y: (i / (self.width as int)) as i32 }
    }

    pub proof fn lemma_index_of_bounds(self, c: Coord)
        requires
            self.wf(),
            self.contains(c),
        ensures
            0 <= self.index_of(c) < self.area(),
            self.coord_of_index(self.index_of(c)) == c,
    {
        let w = self.width as int;
        let i = c.y * w + c.x;
        assert(c.y * w <= (self.height - 1) * w) by (nonlinear_arith)
            requires
                c.y <= self.height - 1,
                w > 0,
        ;
        assert((self.height - 1) * w + w == self.height * w) by (nonlinear_arith);
        assert(c.y * w >= 0) by (nonlinear_arith)
            requires
                c.y >= 0,
                w > 0,
        ;
        assert(i % w == c.x && i / w == c.y) by (nonlinear_arith)
            requires
                i == c.y * w + c.x,
                0 <= c.x < w,
                c.y >= 0,
        ;
    }

    pub proof fn lemma_coord_of_index_bounds(self, i: int)
        requires
            self.wf(),
            0 <= i < self.area(),
        ensures
            self.contains(self.coord_of_index(i)),
            self.index_of(self.coord_of_index(i)) == i,
    {
        let w = self.width as int;
        assert(0 <= i % w < w && i / w >= 0 && i / w * w + i % w == i) by (nonlinear_arith)
            requires
                w > 0,
                i >= 0,
        ;
        assert(i / w < self.height) by (nonlinear_arith)
            requires
                w > 0,
                i < self.height * w,
                i / w * w + i % w == i,
                0 <= i % w,
        ;
    }

    /// Whether a grid of this size contains `c`, as executable code.
    pub fn coord_in_bounds(&self, c: Coord) -> (r: bool)
        requires
            self.wf(),
        ensures
            r == self.contains(c),
    {
        c.x >= 0 && (c.x as i64) < (self.width as i64) && c.y >= 0 && (c.y as i64) < (
        self.height as i64)
    }

    /// Row-major cell index of an in-bounds coordinate.
    pub fn index(&self, c: Coord) -> (r: usize)
        requires
            self.wf(),
            self.contains(c),
        ensures
            r == self.index_of(c),
            0 <= r < self.area(),
    {
        proof {
            self.lemma_index_of_bounds(c);
            assert(self.area() <= 0x4000_0000) by (nonlinear_arith)
                requires
                    0 < self.width <= MAX_DIM,
                    0 < self.height <= MAX_DIM,
            ;
            assert(c.y * (self.width as int) <= self.index_of(c)) by (nonlinear_arith)
                requires
                    c.x >= 0,
                    self.index_of(c) == c.y * self.width + c.x,
            ;
        }
        (c.y as usize) * (self.width as usize) + (c.x as usize)
    }

    /// Number of cells, as executable code.
    pub fn cell_count(&self) -> (r: usize)
        requires
            self.wf(),
        ensures
            r == self.area(),
    {
        proof {
            assert(self.area() <= 0x4000_0000) by (nonlinear_arith)
                requires
                    0 < self.width <= MAX_DIM,
                    0 < self.height <= MAX_DIM,
            ;
        }
        (self.width as usize) * (self.height as usize)
    }
}

/// Squared Euclidean distance between two coordinates.
pub open spec fn dist2(a: Coord, b: Coord) -> int {
    (a.x - b.x) * (a.x - b.x) + (a.y - b.y) * (a.y - b.y)
}

impl CardinalDirection {
    /// The unit step this direction stands for.
    pub open spec fn delta_spec(self) -> (int, int) {
        match self {
            CardinalDirection::North => (0, -1),
            CardinalDirection::East => (1, 0),
            CardinalDirection::South => (0, 1),
            CardinalDirection::West => (-1, 0),
        }
    }

    /// The coordinate one step from `c` in this direction.
    pub open spec fn step_spec(self, c: Coord) -> Coord {
        Coord { x: (c.x + self.delta_spec().0) as i32, y: (c.y + self.delta_spec().1) as i32 }
    }

    /// One step from `c` in this direction, as executable code.
    pub fn step(&self, c: Coord) -> (r: Coord)
        requires
            -0x4000_0000 < c.x < 0x4000_0000,
            -0x4000_0000 < c.y < 0x4000_0000,
        ensures
            r == self.step_spec(c),
    {
        match self {
            CardinalDirection::North => Coord { x: c.x, y: c.y - 1 },
            CardinalDirection::East => Coord { x: c.x + 1, y: c.y },
            CardinalDirection::South => Coord { x: c.x, y: c.y + 1 },
            CardinalDirection::West => Coord { x: c.x - 1, y: c.y },
        }
    }
}

} // verus!
