use vstd::prelude::*;
use crate::geometry::{in_world, is_in_world, Point, Rect, TICKS_PER_SECOND, UNIT};

verus! {

/// Downward speed gained in one tick, in sub-units per tick: 9.8 units per
/// second, over one sixtieth of a second.
pub const ACCELERATION: i32 = 49;

/// The gain per tick is gravity of 9.8 units per second, spread over the
/// ticks of a second and counted in sub-units.
pub proof fn lemma_gravity_per_tick()
    ensures
        10 * (ACCELERATION * TICKS_PER_SECOND) == 98 * UNIT,
{
}

/// The speed that an entity falling at `speed` has after gravity has acted on
/// it for `dt` ticks: it gains `ACCELERATION` per tick, and where that takes it
/// above `max_speed` it is set to `max_speed`. Gravity never holds back a
/// speed that is upward, and leaves sideways speed alone.
pub open spec fn speed_after_gravity(speed: int, max_speed: int, dt: nat) -> int {
    let gained = speed + ACCELERATION as int * dt as int;
    if gained > max_speed {
        max_speed
    } else {
        gained
    }
}

/// An entity with a velocity of its own on which gravity acts.
pub trait Gravity {
    /// Downward speed, in sub-units per tick.
    spec fn fall_speed(&self) -> int;

    /// The greatest downward speed that gravity leaves the entity with.
    spec fn max_fall_speed(&self) -> int;

    /// Lets gravity act for `dt` ticks.
    fn apply_gravity(&mut self, dt: u32)
        ensures
            final(self).fall_speed() == speed_after_gravity(
                old(self).fall_speed(),
                old(self).max_fall_speed(),
                dt as nat,
            ),
            final(self).max_fall_speed() == old(self).max_fall_speed(),
            final(self).fall_speed() <= final(self).max_fall_speed(),
    ;
}

/// The falling speed after gravity has acted once for each entry of `dts`, in
/// their order, each time for that many ticks.
pub open spec fn speed_after_calls(speed: int, max_speed: int, dts: Seq<nat>) -> int
    decreases dts.len(),
{
    if dts.len() == 0 {
        speed
    } else {
        speed_after_gravity(speed_after_calls(speed, max_speed, dts.drop_last()), max_speed, dts.last())
    }
}

/// However often gravity has acted, and for however long each time, the
/// falling speed it leaves is never above the greatest speed.
pub proof fn lemma_gravity_keeps_limit(speed: int, max_speed: int, dts: Seq<nat>)
    requires
        dts.len() > 0,
    ensures
        speed_after_calls(speed, max_speed, dts) <= max_speed,
{
}

/// Gravity that acts for no time changes nothing on a speed within the
/// limit.
pub proof fn lemma_gravity_without_time(speed: int, max_speed: int)
    requires
        speed <= max_speed,
    ensures
        speed_after_gravity(speed, max_speed, 0) == speed,
{
}

/// Applied a second time with no time passing, gravity leaves what the first
/// application left.
pub proof fn lemma_gravity_settles(speed: int, max_speed: int, dt: nat)
    ensures
        speed_after_gravity(speed_after_gravity(speed, max_speed, dt), max_speed, 0)
            == speed_after_gravity(speed, max_speed, dt),
{
}

/// The downward speed after gravity has acted for `dt` ticks.
pub fn fall_speed_after(speed: i32, max_speed: i32, dt: u32) -> (after: i32)
    ensures
        after == speed_after_gravity(speed as int, max_speed as int, dt as nat),
{
    assert(ACCELERATION as int * dt as int == 49 * dt) by (nonlinear_arith)
        requires
            ACCELERATION == 49,
    ;
    let gained: i64 = speed as i64 + ACCELERATION as i64 * dt as i64;
    if gained > max_speed as i64 {
        max_speed
    } else {
        gained as i32
    }
}

/// Why a floor or a shape could not be built.
#[derive(Clone, Copy, Debug, PartialEq, Eq, Structural)]
pub enum BuildError {
    /// A floor needs two points, a polygon three.
    TooFewPoints,
    /// A width, a height or a radius is zero or negative.
    NotPositive,
    /// Some part of it lies outside the world.
    OutsideWorld,
}

/// Whether every point of `points` lies in the world.
pub open spec fn all_in_world(points: Seq<Point>) -> bool {
    forall|i: int| 0 <= i < points.len() ==> (#[trigger] points[i]).wf()
}

/// Tells whether every point of `points` lies in the world.
pub fn are_all_in_world(points: &Vec<Point>) -> (inside: bool)
    ensures
        inside == all_in_world(points@),
{
    let mut i: usize = 0;
    while i < points.len()
        invariant
            i <= points.len(),
            forall|j: int| 0 <= j < i ==> (#[trigger] points@[j]).wf(),
        decreases points.len() - i,
    {
        if !points[i].is_in_world() {
            return false;
        }
        i += 1;
    }
    true
}

/// The ground: a line through `points` in their order, each pair of
/// neighbours joined by one segment. It does not change once built.
#[derive(Clone, Debug, PartialEq, Eq)]
pub struct Floor {
    pub points: Vec<Point>,
}

impl View for Floor {
    type V = Seq<Point>;

    open spec fn view(&self) -> Seq<Point> {
        self.points@
    }
}

/// What building a floor from `points` fails with, where it fails.
pub open spec fn floor_fault(points: Seq<Point>) -> Option<BuildError> {
    if points.len() < 2 {
        Some(BuildError::TooFewPoints)
    } else if !all_in_world(points) {
        Some(BuildError::OutsideWorld)
    } else {
        None
    }
}

impl Floor {
    /// A floor has at least one segment and lies in the world.
    pub open spec fn wf(&self) -> bool {
        floor_fault(self@) is None
    }

    /// Tells whether the floor is well formed.
    pub fn is_valid(&self) -> (valid: bool)
        ensures
            valid == self.wf(),
    {
        self.points.len() >= 2 && are_all_in_world(&self.points)
    }

    /// The floor that slopes from the bottom left corner of the screen up to
    /// a point 100 units above its bottom right corner.
    pub fn new() -> (floor: Floor)
        ensures
            floor@ == seq![Point { x: 0, y: 210_000 }, Point { x: 300_000, y: 180_000 }],
            floor.wf(),
    {
        let points = vec![Point { x: 0, y: 210_000 }, Point { x: 300_000, y: 180_000 }];
        Floor { points }
    }

    /// The floor through `points`, which must be at least two and lie in the
    /// world.
    pub fn from_points(points: Vec<Point>) -> (built: Result<Floor, BuildError>)
        ensures
            match built {
                Ok(floor) => floor_fault(points@) is None && floor@ == points@ && floor.wf(),
                Err(fault) => floor_fault(points@) == Some(fault),
            },
    {
        if points.len() < 2 {
            Err(BuildError::TooFewPoints)
        } else if !are_all_in_world(&points) {
            Err(BuildError::OutsideWorld)
        } else {
            Ok(Floor { points })
        }
    }
}

/// A square that falls: its rectangle, its velocity in sub-units per tick,
/// the greatest speeds it may reach, and the rectangle's four corners, which
/// always follow the rectangle.
#[derive(Clone, Copy, Debug, PartialEq, Eq)]
pub struct Square {
    pub square: Rect,
    pub velocity_x: i32,
    pub velocity_y: i32,
    pub _max_velocity_x: i32,
    pub max_velocity_y: i32,
    pub corners: [Point; 4],
}

/// What building a square fails with, where it fails.
pub open spec fn square_fault(origin: Point, width: int, height: int) -> Option<BuildError> {
    if width <= 0 || height <= 0 {
        Some(BuildError::NotPositive)
    } else if !(origin.wf() && in_world(origin.x + width) && in_world(origin.y + height)) {
        Some(BuildError::OutsideWorld)
    } else {
        None
    }
}

impl Square {
    /// The rectangle is well formed and the corners are its corners.
    pub open spec fn wf(&self) -> bool {
        self.square.wf() && self.corners@ == self.square.corners()
    }

    /// Tells whether the square is well formed.
    pub fn is_valid(&self) -> (valid: bool)
        ensures
            valid == self.wf(),
    {
        if !self.square.is_valid() {
            return false;
        }
        let rect = &self.square;
        let right: i32 = rect.x + rect.w;
        let bottom: i32 = rect.y + rect.h;
        let valid = self.corners[0].x == rect.x && self.corners[0].y == rect.y && self.corners[1].x
            == right && self.corners[1].y == rect.y && self.corners[2].x == rect.x
            && self.corners[2].y == bottom && self.corners[3].x == right && self.corners[3].y
            == bottom;
        proof {
            if valid {
                assert(self.corners@ =~= rect.corners());
            } else {
                assert(self.corners@[0] == self.corners[0]);
                assert(self.corners@[1] == self.corners[1]);
                assert(self.corners@[2] == self.corners[2]);
                assert(self.corners@[3] == self.corners[3]);
            }
        }
        valid
    }

    /// The square with this one's rectangle moved by `dx` and `dy`, its
    /// corners with it.
    pub open spec fn shifted(self, dx: int, dy: int) -> Square {
        let moved = self.square.shifted(dx, dy);
        Square {
            square: moved,
            corners: [moved.corners()[0], moved.corners()[1], moved.corners()[2], moved.corners()[3]],
            ..self
        }
    }

    /// Whether the square moved by `dx` and `dy` still lies in the world.
    pub open spec fn fits_shifted(self, dx: int, dy: int) -> bool {
        &&& in_world(self.square.x + dx)
        &&& in_world(self.square.y + dy)
        &&& in_world(self.square.x + self.square.w + dx)
        &&& in_world(self.square.y + self.square.h + dy)
    }

    /// A square of side 50 units at rest, 150 units right of the middle of
    /// the screen, with a greatest speed of 15 units per tick.
    pub fn new() -> (square: Square)
        ensures
            square.square == (Rect { x: 187_500, y: 105_000, w: 15_000, h: 15_000 }),
            square.velocity_x == 0,
            square.velocity_y == 0,
            square._max_velocity_x == 4_500,
            square.max_velocity_y == 4_500,
            square.wf(),
    {
        let length: i32 = 15_000;
        let x: i32 = 187_500;
        let y: i32 = 105_000;
        let corners = [
            Point { x, y },
            Point { x: x + length, y },
            Point { x, y: y + length },
            Point { x: x + length, y: y + length },
        ];
        let square = Square {
            square: Rect { x, y, w: length, h: length },
            velocity_x: 0,
            velocity_y: 0,
            _max_velocity_x: 4_500,
            max_velocity_y: 4_500,
            corners,
        };
        assert(square.corners@ =~= square.square.corners());
        square
    }

    /// A square at rest with its top left corner at `origin`, or the reason
    /// why there is none: a width or height that is not positive, else a
    /// part outside the world.
    pub fn from_pose(origin: Point, width: i32, height: i32, max_fall_speed: i32) -> (built: Result<
        Square,
        BuildError,
    >)
        ensures
            match built {
                Ok(square) => {
                    &&& square_fault(origin, width as int, height as int) is None
                    &&& square.square == (Rect { x: origin.x, y: origin.y, w: width, h: height })
                    &&& square.velocity_x == 0
                    &&& square.velocity_y == 0
                    &&& square._max_velocity_x == max_fall_speed
                    &&& square.max_velocity_y == max_fall_speed
                    &&& square.wf()
                },
                Err(fault) => square_fault(origin, width as int, height as int) == Some(fault),
            },
    {
        if width <= 0 || height <= 0 {
            return Err(BuildError::NotPositive);
        }
        if !(origin.is_in_world() && is_in_world(origin.x as i64 + width as i64) && is_in_world(
            origin.y as i64 + height as i64,
        )) {
            return Err(BuildError::OutsideWorld);
        }
        let mut square = Square {
            square: Rect { x: origin.x, y: origin.y, w: width, h: height },
            velocity_x: 0,
            velocity_y: 0,
            _max_velocity_x: max_fall_speed,
            max_velocity_y: max_fall_speed,
            corners: [origin, origin, origin, origin],
        };
        square.update_corners();
        Ok(square)
    }

    /// Tells whether the square moved by `x` and `y` still lies in the world.
    pub fn can_move(&self, x: i32, y: i32) -> (fits: bool)
        requires
            self.square.wf(),
        ensures
            fits == self.fits_shifted(x as int, y as int),
    {
        let left: i64 = self.square.x as i64 + x as i64;
        let top: i64 = self.square.y as i64 + y as i64;
        is_in_world(left) && is_in_world(top) && is_in_world(left + self.square.w as i64)
            && is_in_world(top + self.square.h as i64)
    }

    /// Moves the square by `x` to the right and `y` downwards, corners
    /// included.
    pub fn move_position(&mut self, x: i32, y: i32)
        requires
            old(self).square.wf(),
            old(self).fits_shifted(x as int, y as int),
        ensures
            *final(self) == old(self).shifted(x as int, y as int),
            final(self).wf(),
    {
        self.square.x += x;
        self.square.y += y;
        self.update_corners();
        assert(self.corners@ =~= old(self).shifted(x as int, y as int).corners@);
        assert(self.corners == old(self).shifted(x as int, y as int).corners);
    }

    /// Sets the corners to those of the rectangle.
    pub fn update_corners(&mut self)
        requires
            old(self).square.wf(),
        ensures
            final(self).corners@ == old(self).square.corners(),
            *final(self) == (Square { corners: final(self).corners, ..*old(self) }),
            final(self).wf(),
    {
        self.corners[0].x = self.square.x;
        self.corners[0].y = self.square.y;

        self.corners[1].x = self.square.x + self.square.w;
        self.corners[1].y = self.square.y;

        self.corners[2].x = self.square.x;
        self.corners[2].y = self.square.y + self.square.h;

        self.corners[3].x = self.square.x + self.square.w;
        self.corners[3].y = self.square.y + self.square.h;
        assert(self.corners@ =~= self.square.corners());
    }
}

impl Gravity for Square {
    open spec fn fall_speed(&self) -> int {
        self.velocity_y as int
    }

    open spec fn max_fall_speed(&self) -> int {
        self.max_velocity_y as int
    }

    fn apply_gravity(&mut self, dt: u32)
        ensures
            *final(self) == (Square { velocity_y: final(self).velocity_y, ..*old(self) }),
    {
        self.velocity_y = fall_speed_after(self.velocity_y, self.max_velocity_y, dt);
    }
}

/// The points of `points`, each moved by `dx` to the right and `dy`
/// downwards.
pub open spec fn shift_all(points: Seq<Point>, dx: int, dy: int) -> Seq<Point> {
    Seq::new(points.len(), |i: int| points[i].shifted(dx, dy))
}

/// Whether every point of `points`, moved by `dx` and `dy`, lies in the world.
pub open spec fn all_fit_shifted(points: Seq<Point>, dx: int, dy: int) -> bool {
    forall|i: int|
        0 <= i < points.len() ==> in_world((#[trigger] points[i]).x + dx) && in_world(
            points[i].y + dy,
        )
}

/// A polygon that falls: its corners in their order round the boundary, its
/// velocity in sub-units per tick, and the greatest speeds it may reach.
#[derive(Clone, Debug, PartialEq, Eq)]
pub struct Shape {
    pub corners: Vec<Point>,
    pub velocity_x: i32,
    pub velocity_y: i32,
    pub max_velocity_y: i32,
    pub max_velocity_x: i32,
}

/// A polygon as a value: what a [`Shape`] holds, its corners as a sequence.
pub struct ShapeView {
    pub corners: Seq<Point>,
    pub velocity_x: i32,
    pub velocity_y: i32,
    pub max_velocity_y: i32,
    pub max_velocity_x: i32,
}

impl View for Shape {
    type V = ShapeView;

    open spec fn view(&self) -> ShapeView {
        ShapeView {
            corners: self.corners@,
            velocity_x: self.velocity_x,
            velocity_y: self.velocity_y,
            max_velocity_y: self.max_velocity_y,
            max_velocity_x: self.max_velocity_x,
        }
    }
}

/// What building a polygon with the corners `points` fails with, where it
/// fails.
pub open spec fn shape_fault(points: Seq<Point>) -> Option<BuildError> {
    if points.len() < 3 {
        Some(BuildError::TooFewPoints)
    } else if !all_in_world(points) {
        Some(BuildError::OutsideWorld)
    } else {
        None
    }
}

impl ShapeView {
    /// A polygon has at least three corners and lies in the world.
    pub open spec fn wf(self) -> bool {
        shape_fault(self.corners) is None
    }

    /// A polygon at rest with the given corners and a greatest speed of 15
    /// units per tick.
    pub open spec fn at_rest(corners: Seq<Point>) -> ShapeView {
        ShapeView {
            corners,
            velocity_x: 0,
            velocity_y: 0,
            max_velocity_y: 4_500,
            max_velocity_x: 4_500,
        }
    }

    /// The polygon with every corner moved by `dx` and `dy`.
    pub open spec fn shifted(self, dx: int, dy: int) -> ShapeView {
        ShapeView { corners: shift_all(self.corners, dx, dy), ..self }
    }

    /// Whether the polygon moved by `dx` and `dy` still lies in the world.
    pub open spec fn fits_shifted(self, dx: int, dy: int) -> bool {
        all_fit_shifted(self.corners, dx, dy)
    }
}

impl Shape {
    /// A polygon has at least three corners and lies in the world.
    pub open spec fn wf(&self) -> bool {
        self@.wf()
    }

    /// Tells whether the polygon is well formed.
    pub fn is_valid(&self) -> (valid: bool)
        ensures
            valid == self.wf(),
    {
        self.corners.len() >= 3 && are_all_in_world(&self.corners)
    }

    fn at_rest(corners: Vec<Point>) -> (shape: Shape)
        ensures
            shape@ == ShapeView::at_rest(corners@),
    {
        Shape { corners, velocity_x: 0, velocity_y: 0, max_velocity_x: 4_500, max_velocity_y: 4_500 }
    }

    /// A square of side 50 units near the left edge of the screen, its
    /// corners named row by row.
    pub fn new() -> (shape: Shape)
        ensures
            shape@ == ShapeView::at_rest(
                seq![
                    Point { x: 3_000, y: 105_000 },
                    Point { x: 18_000, y: 105_000 },
                    Point { x: 3_000, y: 120_000 },
                    Point { x: 18_000, y: 120_000 },
                ],
            ),
            shape.wf(),
    {
        let length: i32 = 15_000;
        let x: i32 = 3_000;
        let y: i32 = 105_000;
        let corners = vec![
            Point { x, y },
            Point { x: x + length, y },
            Point { x, y: y + length },
            Point { x: x + length, y: y + length },
        ];
        Shape::at_rest(corners)
    }

    /// A square of side 50 units a quarter of the way across the screen, its
    /// corners named round the boundary.
    pub fn new1() -> (shape: Shape)
        ensures
            shape@ == ShapeView::at_rest(
                seq![
                    Point { x: 75_000, y: 105_000 },
                    Point { x: 90_000, y: 105_000 },
                    Point { x: 90_000, y: 120_000 },
                    Point { x: 75_000, y: 120_000 },
                ],
            ),
            shape.wf(),
    {
        let length: i32 = 15_000;
        let x: i32 = 75_000;
        let y: i32 = 105_000;
        let corners = vec![
            Point { x, y },
            Point { x: x + length, y },
            Point { x: x + length, y: y + length },
            Point { x, y: y + length },
        ];
        Shape::at_rest(corners)
    }

    /// A triangle three quarters of the way across the screen, its point
    /// downwards.
    pub fn new2() -> (shape: Shape)
        ensures
            shape@ == ShapeView::at_rest(
                seq![
                    Point { x: 225_000, y: 105_000 },
                    Point { x: 240_000, y: 105_000 },
                    Point { x: 232_500, y: 112_500 },
                ],
            ),
            shape.wf(),
    {
        let length: i32 = 15_000;
        let x: i32 = 225_000;
        let y: i32 = 105_000;
        let corners = vec![
            Point { x, y },
            Point { x: x + length, y },
            Point { x: x + length / 2, y: y + length / 2 },
        ];
        Shape::at_rest(corners)
    }

    /// A regular hexagon of radius 50 units near the right edge of the
    /// screen, each corner on the nearest point of the grid.
    pub fn new3() -> (shape: Shape)
        ensures
            shape@ == ShapeView::at_rest(
                seq![
                    Point { x: 285_000, y: 105_000 },
                    Point { x: 277_500, y: 117_990 },
                    Point { x: 262_500, y: 117_990 },
                    Point { x: 255_000, y: 105_000 },
                    Point { x: 262_500, y: 92_010 },
                    Point { x: 277_500, y: 92_010 },
                ],
            ),
            shape.wf(),
    {
        let x: i32 = 270_000;
        let y: i32 = 105_000;
        // The corners stand at whole multiples of 60 degrees: their offsets
        // are the radius, its half, and 0.8660254 of it.
        let whole: i32 = 15_000;
        let half: i32 = 7_500;
        let rise: i32 = 12_990;
        let far_left: i32 = x - whole;
        let left: i32 = x - half;
        let top: i32 = y - rise;
        let corners = vec![
            Point { x: x + whole, y },
            Point { x: x + half, y: y + rise },
            Point { x: left, y: y + rise },
            Point { x: far_left, y },
            Point { x: left, y: top },
            Point { x: x + half, y: top },
        ];
        Shape::at_rest(corners)
    }

    /// A polygon at rest with the given corners, or the reason why there is
    /// none: fewer than three corners, else a corner outside the world.
    pub fn from_vertices(vertices: Vec<Point>, max_fall_speed: i32) -> (built: Result<
        Shape,
        BuildError,
    >)
        ensures
            match built {
                Ok(shape) => {
                    &&& shape_fault(vertices@) is None
                    &&& shape@ == (ShapeView {
                        corners: vertices@,
                        velocity_x: 0,
                        velocity_y: 0,
                        max_velocity_y: max_fall_speed,
                        max_velocity_x: max_fall_speed,
                    })
                    &&& shape.wf()
                },
                Err(fault) => shape_fault(vertices@) == Some(fault),
            },
    {
        if vertices.len() < 3 {
            Err(BuildError::TooFewPoints)
        } else if !are_all_in_world(&vertices) {
            Err(BuildError::OutsideWorld)
        } else {
            Ok(
                Shape {
                    corners: vertices,
                    velocity_x: 0,
                    velocity_y: 0,
                    max_velocity_x: max_fall_speed,
                    max_velocity_y: max_fall_speed,
                },
            )
        }
    }

    /// Tells whether the polygon moved by `x` and `y` still lies in the
    /// world.
    pub fn can_move(&self, x: i32, y: i32) -> (fits: bool)
        ensures
            fits == self@.fits_shifted(x as int, y as int),
    {
        let mut i: usize = 0;
        while i < self.corners.len()
            invariant
                i <= self.corners.len(),
                forall|j: int|
                    0 <= j < i ==> in_world((#[trigger] self.corners@[j]).x + x) && in_world(
                        self.corners@[j].y + y,
                    ),
            decreases self.corners.len() - i,
        {
            let corner = self.corners[i];
            if !(is_in_world(corner.x as i64 + x as i64) && is_in_world(corner.y as i64 + y as i64)) {
                return false;
            }
            i += 1;
        }
        true
    }

    /// Moves every corner by `x` to the right and `y` downwards.
    pub fn move_position(&mut self, x: i32, y: i32)
        requires
            old(self)@.fits_shifted(x as int, y as int),
        ensures
            final(self)@ == old(self)@.shifted(x as int, y as int),
            old(self).wf() ==> final(self).wf(),
    {
        if x != 0 || y != 0 {
            let mut i: usize = 0;
            while i < self.corners.len()
                invariant
                    i <= self.corners.len(),
                    self.corners@.len() == old(self).corners@.len(),
                    old(self)@.fits_shifted(x as int, y as int),
                    forall|j: int|
                        0 <= j < i ==> self.corners@[j] == (#[trigger] old(self).corners@[j]).shifted(
                            x as int,
                            y as int,
                        ),
                    forall|j: int|
                        i <= j < self.corners.len() ==> self.corners@[j] == old(self).corners@[j],
                    self.velocity_x == old(self).velocity_x,
                    self.velocity_y == old(self).velocity_y,
                    self.max_velocity_x == old(self).max_velocity_x,
                    self.max_velocity_y == old(self).max_velocity_y,
                decreases self.corners.len() - i,
            {
                let corner = self.corners[i];
                assert(corner == old(self).corners@[i as int]);
                self.corners[i] = Point { x: corner.x + x, y: corner.y + y };
                i += 1;
            }
        }
        assert(self.corners@ =~= shift_all(old(self).corners@, x as int, y as int));
    }
}

impl Gravity for Shape {
    open spec fn fall_speed(&self) -> int {
        self.velocity_y as int
    }

    open spec fn max_fall_speed(&self) -> int {
        self.max_velocity_y as int
    }

    fn apply_gravity(&mut self, dt: u32)
        ensures
            final(self)@ == (ShapeView { velocity_y: final(self).velocity_y, ..old(self)@ }),
    {
        self.velocity_y = fall_speed_after(self.velocity_y, self.max_velocity_y, dt);
    }
}

/// A circle that falls: its centre and radius, its velocity in sub-units per
/// tick, and the greatest speeds it may reach.
#[derive(Clone, Copy, Debug, PartialEq, Eq, Structural)]
pub struct Circle {
    pub center: Point,
    pub radius: i32,
    pub velocity_x: i32,
    pub velocity_y: i32,
    pub max_velocity_x: i32,
    pub max_velocity_y: i32,
}

/// What building a circle fails with, where it fails.
pub open spec fn circle_fault(center: Point, radius: int) -> Option<BuildError> {
    if radius <= 0 {
        Some(BuildError::NotPositive)
    } else if !(in_world(center.x - radius) && in_world(center.x + radius) && in_world(
        center.y - radius,
    ) && in_world(center.y + radius)) {
        Some(BuildError::OutsideWorld)
    } else {
        None
    }
}

impl Circle {
    /// The radius is positive and the whole circle lies in the world.
    pub open spec fn wf(&self) -> bool {
        circle_fault(self.center, self.radius as int) is None
    }

    /// Tells whether the circle is well formed.
    pub fn is_valid(&self) -> (valid: bool)
        ensures
            valid == self.wf(),
    {
        let reach: i64 = self.radius as i64;
        self.radius > 0 && is_in_world(self.center.x as i64 - reach) && is_in_world(
            self.center.x as i64 + reach,
        ) && is_in_world(self.center.y as i64 - reach) && is_in_world(self.center.y as i64 + reach)
    }

    /// The circle with its centre moved by `dx` and `dy`.
    pub open spec fn shifted(self, dx: int, dy: int) -> Circle {
        Circle { center: self.center.shifted(dx, dy), ..self }
    }

    /// Whether the circle with its centre moved by `dx` and `dy` still lies in
    /// the world.
    pub open spec fn fits_shifted(self, dx: int, dy: int) -> bool {
        circle_fault(
            Point { x: (self.center.x + dx) as i32, y: (self.center.y + dy) as i32 },
            self.radius as int,
        ) is None && in_world(self.center.x + dx) && in_world(self.center.y + dy)
    }

    /// Whether a move by `dx` and `dy` is carried out: only one along an
    /// axis is, a move with both parts different from zero leaves the circle
    /// where it is.
    pub open spec fn move_applies(dx: int, dy: int) -> bool {
        dx == 0 || dy == 0
    }

    /// The circle after a move by `dx` and `dy` was asked for.
    pub open spec fn moved(self, dx: int, dy: int) -> Circle {
        if Circle::move_applies(dx, dy) {
            self.shifted(dx, dy)
        } else {
            self
        }
    }

    /// A circle of radius 50 units at rest in the middle of the screen, with
    /// a greatest speed of 15 units per tick.
    pub fn new() -> (circle: Circle)
        ensures
            circle == (Circle {
                center: Point { x: 150_000, y: 105_000 },
                radius: 15_000,
                velocity_x: 0,
                velocity_y: 0,
                max_velocity_x: 4_500,
                max_velocity_y: 4_500,
            }),
            circle.wf(),
    {
        Circle {
            center: Point { x: 150_000, y: 105_000 },
            radius: 15_000,
            velocity_x: 0,
            velocity_y: 0,
            max_velocity_x: 4_500,
            max_velocity_y: 4_500,
        }
    }

    /// A circle at rest round `center`, or the reason why there is none: a
    /// radius that is not positive, else a part outside the world.
    pub fn from_pose(center: Point, radius: i32, max_fall_speed: i32) -> (built: Result<
        Circle,
        BuildError,
    >)
        ensures
            match built {
                Ok(circle) => {
                    &&& circle_fault(center, radius as int) is None
                    &&& circle == (Circle {
                        center,
                        radius,
                        velocity_x: 0,
                        velocity_y: 0,
                        max_velocity_x: max_fall_speed,
                        max_velocity_y: max_fall_speed,
                    })
                    &&& circle.wf()
                },
                Err(fault) => circle_fault(center, radius as int) == Some(fault),
            },
    {
        if radius <= 0 {
            return Err(BuildError::NotPositive);
        }
        let reach: i64 = radius as i64;
        if !(is_in_world(center.x as i64 - reach) && is_in_world(center.x as i64 + reach)
            && is_in_world(center.y as i64 - reach) && is_in_world(center.y as i64 + reach)) {
            return Err(BuildError::OutsideWorld);
        }
        Ok(
            Circle {
                center,
                radius,
                velocity_x: 0,
                velocity_y: 0,
                max_velocity_x: max_fall_speed,
                max_velocity_y: max_fall_speed,
            },
        )
    }

    /// Tells whether a move by `x` and `y` leaves the circle in the world:
    /// one that is not carried out always does.
    pub fn can_move(&self, x: i32, y: i32) -> (fits: bool)
        requires
            self.wf(),
        ensures
            fits == (Circle::move_applies(x as int, y as int) ==> self.fits_shifted(
                x as int,
                y as int,
            )),
    {
        if x == 0 || y == 0 {
            let cx: i64 = self.center.x as i64 + x as i64;
            let cy: i64 = self.center.y as i64 + y as i64;
            let reach: i64 = self.radius as i64;
            is_in_world(cx - reach) && is_in_world(cx + reach) && is_in_world(cy - reach)
                && is_in_world(cy + reach)
        } else {
            true
        }
    }

    /// Moves the centre by `x` to the right and `y` downwards where one of
    /// the two is zero, and leaves the circle where it is otherwise.
    pub fn move_position(&mut self, x: i32, y: i32)
        requires
            old(self).wf(),
            Circle::move_applies(x as int, y as int) ==> old(self).fits_shifted(x as int, y as int),
        ensures
            *final(self) == old(self).moved(x as int, y as int),
            final(self).wf(),
    {
        if x == 0 || y == 0 {
            self.center.x += x;
            self.center.y += y;
        }
    }
}

impl Gravity for Circle {
    open spec fn fall_speed(&self) -> int {
        self.velocity_y as int
    }

    open spec fn max_fall_speed(&self) -> int {
        self.max_velocity_y as int
    }

    fn apply_gravity(&mut self, dt: u32)
        ensures
            *final(self) == (Circle { velocity_y: final(self).velocity_y, ..*old(self) }),
    {
        self.velocity_y = fall_speed_after(self.velocity_y, self.max_velocity_y, dt);
    }
}

} // verus!
