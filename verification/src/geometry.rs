use vstd::prelude::*;

verus! {

/// Sub-units in one unit of length. It is the smallest scale at which the
/// speed gained in one tick, 9.8 units per second over a sixtieth of a second,
/// is a whole number.
pub const UNIT: i32 = 300;

/// Ticks in one second.
pub const TICKS_PER_SECOND: u32 = 60;

/// The world is the square of all points whose coordinates lie between
/// `-WORLD_LIMIT` and `WORLD_LIMIT`, in sub-units.
pub const WORLD_LIMIT: i32 = 0x4000_0000;

/// Width and height of the visible screen, in sub-units.
pub const SCREEN_SIZE: (i32, i32) = (300_000, 210_000);

/// Whether `v` is a coordinate of the world.
pub open spec fn in_world(v: int) -> bool {
    -(WORLD_LIMIT as int) <= v <= WORLD_LIMIT as int
}

/// Tells whether `v` is a coordinate of the world.
pub fn is_in_world(v: i64) -> (inside: bool)
    ensures
        inside == in_world(v as int),
{
    -(WORLD_LIMIT as i64) <= v && v <= WORLD_LIMIT as i64
}

/// A point of the plane, in sub-units. `x` grows to the right and `y`
/// downwards.
#[derive(Clone, Copy, Debug, PartialEq, Eq, Structural)]
pub struct Point {
    pub x: i32,
    pub y: i32,
}

impl Point {
    /// Whether the point lies in the world.
    pub open spec fn wf(&self) -> bool {
        in_world(self.x as int) && in_world(self.y as int)
    }

    /// The point moved by `dx` to the right and `dy` downwards.
    pub open spec fn shifted(self, dx: int, dy: int) -> Point {
        Point { x: (self.x + dx) as i32, y: (self.y + dy) as i32 }
    }

    /// Tells whether the point lies in the world.
    pub fn is_in_world(&self) -> (inside: bool)
        ensures
            inside == self.wf(),
    {
        is_in_world(self.x as i64) && is_in_world(self.y as i64)
    }
}

/// An upright rectangle: its top left corner, its width and its height, in
/// sub-units.
#[derive(Clone, Copy, Debug, PartialEq, Eq, Structural)]
pub struct Rect {
    pub x: i32,
    pub y: i32,
    pub w: i32,
    pub h: i32,
}

impl Rect {
    /// A rectangle has a positive width and height and lies in the world.
    pub open spec fn wf(&self) -> bool {
        &&& self.w > 0
        &&& self.h > 0
        &&& in_world(self.x as int)
        &&& in_world(self.y as int)
        &&& in_world(self.x + self.w)
        &&& in_world(self.y + self.h)
    }

    /// Tells whether the rectangle is well formed.
    pub fn is_valid(&self) -> (valid: bool)
        ensures
            valid == self.wf(),
    {
        self.w > 0 && self.h > 0 && is_in_world(self.x as i64) && is_in_world(self.y as i64)
            && is_in_world(self.x as i64 + self.w as i64) && is_in_world(
            self.y as i64 + self.h as i64,
        )
    }

    /// The x coordinate of the right edge.
    pub open spec fn right(&self) -> int {
        self.x + self.w
    }

    /// The y coordinate of the bottom edge.
    pub open spec fn bottom(&self) -> int {
        self.y + self.h
    }

    /// The four corners: top left, top right, bottom left, bottom right.
    pub open spec fn corners(&self) -> Seq<Point> {
        seq![
            Point { x: self.x, y: self.y },
            Point { x: (self.x + self.w) as i32, y: self.y },
            Point { x: self.x, y: (self.y + self.h) as i32 },
            Point { x: (self.x + self.w) as i32, y: (self.y + self.h) as i32 },
        ]
    }

    /// The rectangle moved by `dx` to the right and `dy` downwards.
    pub open spec fn shifted(self, dx: int, dy: int) -> Rect {
        Rect { x: (self.x + dx) as i32, y: (self.y + dy) as i32, w: self.w, h: self.h }
    }

    /// Whether the point `(x, y)` lies in the rectangle, edges included.
    pub open spec fn holds(&self, x: int, y: int) -> bool {
        self.x <= x <= self.right() && self.y <= y <= self.bottom()
    }
}

/// A product is bounded by the product of its factors' bounds.
pub proof fn lemma_product_bound(a: int, b: int, m: int, n: int)
    by (nonlinear_arith)
    requires
        -m <= a <= m,
        -n <= b <= n,
    ensures
        -(m * n) <= a * b <= m * n,
{
}

} // verus!
