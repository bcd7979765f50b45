use vstd::prelude::*;
use crate::collision::{
    circle_floor_contact, circle_touches_floor, shape_touches_floor, square_floor_contact,
    square_touches_floor,
};
use crate::geometry::{Point, TICKS_PER_SECOND};
use crate::physics::{
    floor_fault, speed_after_gravity, Circle, Floor, Gravity, Shape, ShapeView, Square,
};

verus! {

impl Square {
    /// The velocity with which the square moves in a tick that lets gravity
    /// act for `dt` ticks: none where it touches the floor before it moves,
    /// else its sideways speed and its falling speed after gravity.
    pub open spec fn tick_velocity(self, floor: Seq<Point>, dt: nat) -> (int, int) {
        if square_floor_contact(self.square, floor) {
            (0, 0)
        } else {
            (
                self.velocity_x as int,
                speed_after_gravity(self.velocity_y as int, self.max_velocity_y as int, dt),
            )
        }
    }

    /// Whether the tick leaves the square in the world.
    pub open spec fn step_fits(self, floor: Seq<Point>, dt: nat) -> bool {
        let v = self.tick_velocity(floor, dt);
        self.fits_shifted(v.0, v.1)
    }

    /// The square after the tick: it has the tick's velocity and has moved by
    /// it.
    pub open spec fn after_step(self, floor: Seq<Point>, dt: nat) -> Square {
        let v = self.tick_velocity(floor, dt);
        (Square { velocity_x: v.0 as i32, velocity_y: v.1 as i32, ..self }).shifted(v.0, v.1)
    }

    /// Tells whether the tick leaves the square in the world.
    pub fn can_step(&self, floor: &Floor, dt: u32) -> (fits: bool)
        requires
            self.wf(),
            floor.wf(),
        ensures
            fits == self.step_fits(floor@, dt as nat),
    {
        let mut next = *self;
        next.apply_gravity(dt);
        if square_touches_floor(&next, floor) {
            true
        } else {
            self.can_move(next.velocity_x, next.velocity_y)
        }
    }

    /// One tick: gravity acts for `dt` ticks, then the square is tested
    /// against the floor where it stands, brought to rest if it touches, and
    /// last moved by its velocity.
    pub fn step(&mut self, floor: &Floor, dt: u32)
        requires
            old(self).wf(),
            floor.wf(),
            old(self).step_fits(floor@, dt as nat),
        ensures
            *final(self) == old(self).after_step(floor@, dt as nat),
            final(self).wf(),
    {
        self.apply_gravity(dt);
        if square_touches_floor(self, floor) {
            self.velocity_x = 0;
            self.velocity_y = 0;
        }
        self.move_position(self.velocity_x, self.velocity_y);
    }
}

impl ShapeView {
    /// The velocity with which the polygon moves in a tick that lets gravity
    /// act for `dt` ticks. A polygon is never found to touch the floor.
    pub open spec fn tick_velocity(self, dt: nat) -> (int, int) {
        (
            self.velocity_x as int,
            speed_after_gravity(self.velocity_y as int, self.max_velocity_y as int, dt),
        )
    }

    /// Whether the tick leaves the polygon in the world.
    pub open spec fn step_fits(self, dt: nat) -> bool {
        let v = self.tick_velocity(dt);
        self.fits_shifted(v.0, v.1)
    }

    /// The polygon after the tick.
    pub open spec fn after_step(self, dt: nat) -> ShapeView {
        let v = self.tick_velocity(dt);
        (ShapeView { velocity_y: v.1 as i32, ..self }).shifted(v.0, v.1)
    }
}

impl Shape {
    /// Tells whether the tick leaves the polygon in the world.
    pub fn can_step(&self, dt: u32) -> (fits: bool)
        ensures
            fits == self@.step_fits(dt as nat),
    {
        let fall = crate::physics::fall_speed_after(self.velocity_y, self.max_velocity_y, dt);
        self.can_move(self.velocity_x, fall)
    }

    /// One tick: gravity acts for `dt` ticks, then the polygon is tested
    /// against the floor, which never finds it touching, and moved by its
    /// velocity.
    pub fn step(&mut self, floor: &Floor, dt: u32)
        requires
            old(self).wf(),
            old(self)@.step_fits(dt as nat),
        ensures
            final(self)@ == old(self)@.after_step(dt as nat),
            final(self).wf(),
    {
        self.apply_gravity(dt);
        if shape_touches_floor(self, floor) {
            self.velocity_x = 0;
            self.velocity_y = 0;
        }
        self.move_position(self.velocity_x, self.velocity_y);
    }
}

impl Circle {
    /// The velocity with which the circle is moved in a tick that lets gravity
    /// act for `dt` ticks: none where it touches the floor before it moves,
    /// else its sideways speed and its falling speed after gravity.
    pub open spec fn tick_velocity(self, floor: Seq<Point>, dt: nat) -> (int, int) {
        if circle_floor_contact(self.center, self.radius as int, floor) {
            (0, 0)
        } else {
            (
                self.velocity_x as int,
                speed_after_gravity(self.velocity_y as int, self.max_velocity_y as int, dt),
            )
        }
    }

    /// Whether the tick leaves the circle in the world.
    pub open spec fn step_fits(self, floor: Seq<Point>, dt: nat) -> bool {
        let v = self.tick_velocity(floor, dt);
        Circle::move_applies(v.0, v.1) ==> self.fits_shifted(v.0, v.1)
    }

    /// The circle after the tick: it has the tick's velocity, and has moved by
    /// it where that move is one that a circle carries out.
    pub open spec fn after_step(self, floor: Seq<Point>, dt: nat) -> Circle {
        let v = self.tick_velocity(floor, dt);
        (Circle { velocity_x: v.0 as i32, velocity_y: v.1 as i32, ..self }).moved(v.0, v.1)
    }

    /// Tells whether the tick leaves the circle in the world.
    pub fn can_step(&self, floor: &Floor, dt: u32) -> (fits: bool)
        requires
            self.wf(),
            floor.wf(),
        ensures
            fits == self.step_fits(floor@, dt as nat),
    {
        let mut next = *self;
        next.apply_gravity(dt);
        if circle_touches_floor(&next, floor) {
            true
        } else {
            self.can_move(next.velocity_x, next.velocity_y)
        }
    }

    /// One tick: gravity acts for `dt` ticks, then the circle is tested
    /// against the floor where it stands, brought to rest if it touches, and
    /// last moved by its velocity.
    pub fn step(&mut self, floor: &Floor, dt: u32)
        requires
            old(self).wf(),
            floor.wf(),
            old(self).step_fits(floor@, dt as nat),
        ensures
            *final(self) == old(self).after_step(floor@, dt as nat),
            final(self).wf(),
    {
        self.apply_gravity(dt);
        if circle_touches_floor(self, floor) {
            self.velocity_x = 0;
            self.velocity_y = 0;
        }
        self.move_position(self.velocity_x, self.velocity_y);
    }
}

/// What one tick costs on the clock. The clock counts sixtieths of a
/// nanosecond, in which a tick of a sixtieth of a second is a whole number.
pub const TICK_COST: u64 = 1_000_000_000;

/// How many ticks fall due when a frame of `frame_nanos` nanoseconds is added
/// to a clock that holds `residual`: as many as there are whole ticks in the
/// time gathered.
pub open spec fn ticks_due(residual: int, frame_nanos: int) -> int {
    (residual + TICKS_PER_SECOND as int * frame_nanos) / (TICK_COST as int)
}

/// What the clock holds once those ticks are taken out.
pub open spec fn residual_after(residual: int, frame_nanos: int) -> int {
    (residual + TICKS_PER_SECOND as int * frame_nanos) % (TICK_COST as int)
}

/// Gathers the time of the host's frames and gives it out in whole ticks.
#[derive(Clone, Copy, Debug, PartialEq, Eq, Structural)]
pub struct Clock {
    /// Time gathered and not yet spent, in sixtieths of a nanosecond.
    pub residual: u64,
}

impl Clock {
    /// The clock holds less than one tick.
    pub open spec fn wf(&self) -> bool {
        self.residual < TICK_COST
    }

    /// Tells whether the clock is well formed.
    pub fn is_valid(&self) -> (valid: bool)
        ensures
            valid == self.wf(),
    {
        self.residual < TICK_COST
    }

    /// A clock that holds no time.
    pub fn new() -> (clock: Clock)
        ensures
            clock.residual == 0,
            clock.wf(),
    {
        Clock { residual: 0 }
    }

    /// Adds a frame of `frame_nanos` nanoseconds and takes out the ticks that
    /// fall due.
    pub fn advance(&mut self, frame_nanos: u64) -> (ticks: u64)
        requires
            old(self).wf(),
        ensures
            ticks == ticks_due(old(self).residual as int, frame_nanos as int),
            final(self).residual == residual_after(old(self).residual as int, frame_nanos as int),
            final(self).wf(),
    {
        assert(TICKS_PER_SECOND as int * frame_nanos as int == 60 * frame_nanos) by (nonlinear_arith)
            requires
                TICKS_PER_SECOND == 60,
        ;
        let gathered: u128 = self.residual as u128 + TICKS_PER_SECOND as u128 * frame_nanos as u128;
        let ticks: u128 = gathered / TICK_COST as u128;
        assert(ticks == gathered as int / 1_000_000_000);
        self.residual = (gathered % TICK_COST as u128) as u64;
        ticks as u64
    }
}

/// The floor, the shapes that fall on it, and the clock that paces them.
#[derive(Clone, Debug, PartialEq, Eq)]
pub struct Simulation {
    pub floor: Floor,
    pub squares: Vec<Square>,
    pub shapes: Vec<Shape>,
    pub circles: Vec<Circle>,
    pub clock: Clock,
}

/// A simulation as a value.
pub struct SimulationView {
    pub floor: Seq<Point>,
    pub squares: Seq<Square>,
    pub shapes: Seq<ShapeView>,
    pub circles: Seq<Circle>,
    pub clock: Clock,
}

impl View for Simulation {
    type V = SimulationView;

    open spec fn view(&self) -> SimulationView {
        SimulationView {
            floor: self.floor@,
            squares: self.squares@,
            shapes: Seq::new(self.shapes@.len(), |i: int| self.shapes@[i]@),
            circles: self.circles@,
            clock: self.clock,
        }
    }
}

impl SimulationView {
    /// The floor, every shape and the clock are well formed.
    pub open spec fn wf(self) -> bool {
        &&& floor_fault(self.floor) is None
        &&& forall|i: int| 0 <= i < self.squares.len() ==> (#[trigger] self.squares[i]).wf()
        &&& forall|i: int| 0 <= i < self.shapes.len() ==> (#[trigger] self.shapes[i]).wf()
        &&& forall|i: int| 0 <= i < self.circles.len() ==> (#[trigger] self.circles[i]).wf()
        &&& self.clock.wf()
    }

    /// Whether a tick leaves every shape in the world.
    pub open spec fn step_fits(self, dt: nat) -> bool {
        &&& forall|i: int|
            0 <= i < self.squares.len() ==> (#[trigger] self.squares[i]).step_fits(self.floor, dt)
        &&& forall|i: int| 0 <= i < self.shapes.len() ==> (#[trigger] self.shapes[i]).step_fits(dt)
        &&& forall|i: int|
            0 <= i < self.circles.len() ==> (#[trigger] self.circles[i]).step_fits(self.floor, dt)
    }

    /// The simulation after a tick: every shape after its own tick, the
    /// floor and the clock as they were.
    pub open spec fn after_step(self, dt: nat) -> SimulationView {
        SimulationView {
            squares: Seq::new(self.squares.len(), |i: int| self.squares[i].after_step(self.floor, dt)),
            shapes: Seq::new(self.shapes.len(), |i: int| self.shapes[i].after_step(dt)),
            circles: Seq::new(self.circles.len(), |i: int| self.circles[i].after_step(self.floor, dt)),
            ..self
        }
    }

    /// Whether `n` ticks in a row, each of one tick of gravity, leave every
    /// shape in the world.
    pub open spec fn run_fits(self, n: nat) -> bool
        decreases n,
    {
        n == 0 || (self.step_fits(1) && self.after_step(1).run_fits((n - 1) as nat))
    }

    /// The simulation after `n` ticks in a row, each of one tick of gravity.
    pub open spec fn after_run(self, n: nat) -> SimulationView
        decreases n,
    {
        if n == 0 {
            self
        } else {
            self.after_step(1).after_run((n - 1) as nat)
        }
    }
}

impl Simulation {
    /// The floor, every shape and the clock are well formed.
    pub open spec fn wf(&self) -> bool {
        self@.wf()
    }

    /// Tells whether the floor, every shape and the clock are well formed.
    pub fn is_valid(&self) -> (valid: bool)
        ensures
            valid == self.wf(),
    {
        if !(self.floor.is_valid() && self.clock.is_valid()) {
            return false;
        }
        let mut i: usize = 0;
        while i < self.squares.len()
            invariant
                i <= self.squares.len(),
                forall|j: int| 0 <= j < i ==> (#[trigger] self.squares@[j]).wf(),
            decreases self.squares.len() - i,
        {
            if !self.squares[i].is_valid() {
                assert(!self@.squares[i as int].wf());
                return false;
            }
            i += 1;
        }
        let mut i: usize = 0;
        while i < self.shapes.len()
            invariant
                i <= self.shapes.len(),
                forall|j: int| 0 <= j < i ==> (#[trigger] self@.shapes[j]).wf(),
            decreases self.shapes.len() - i,
        {
            if !self.shapes[i].is_valid() {
                assert(!self@.shapes[i as int].wf());
                return false;
            }
            assert(self@.shapes[i as int].wf());
            i += 1;
        }
        let mut i: usize = 0;
        while i < self.circles.len()
            invariant
                i <= self.circles.len(),
                forall|j: int| 0 <= j < i ==> (#[trigger] self.circles@[j]).wf(),
            decreases self.circles.len() - i,
        {
            if !self.circles[i].is_valid() {
                assert(!self@.circles[i as int].wf());
                return false;
            }
            i += 1;
        }
        true
    }

    /// A simulation of `floor` alone, with a clock that holds no time.
    pub fn new(floor: Floor) -> (simulation: Simulation)
        requires
            floor.wf(),
        ensures
            simulation@ == (SimulationView {
                floor: floor@,
                squares: Seq::empty(),
                shapes: Seq::empty(),
                circles: Seq::empty(),
                clock: Clock { residual: 0 },
            }),
            simulation.wf(),
    {
        let simulation = Simulation {
            floor,
            squares: Vec::new(),
            shapes: Vec::new(),
            circles: Vec::new(),
            clock: Clock::new(),
        };
        assert(simulation@.shapes =~= Seq::empty());
        simulation
    }

    /// Adds a square, after those already there.
    pub fn add_square(&mut self, square: Square)
        requires
            old(self).wf(),
            square.wf(),
        ensures
            final(self)@ == (SimulationView { squares: old(self)@.squares.push(square), ..old(self)@ }),
            final(self).wf(),
    {
        self.squares.push(square);
        assert(self@.shapes =~= old(self)@.shapes);
    }

    /// Adds a polygon, after those already there.
    pub fn add_shape(&mut self, shape: Shape)
        requires
            old(self).wf(),
            shape.wf(),
        ensures
            final(self)@ == (SimulationView { shapes: old(self)@.shapes.push(shape@), ..old(self)@ }),
            final(self).wf(),
    {
        self.shapes.push(shape);
        assert(self@.shapes =~= old(self)@.shapes.push(shape@));
    }

    /// Adds a circle, after those already there.
    pub fn add_circle(&mut self, circle: Circle)
        requires
            old(self).wf(),
            circle.wf(),
        ensures
            final(self)@ == (SimulationView { circles: old(self)@.circles.push(circle), ..old(self)@ }),
            final(self).wf(),
    {
        self.circles.push(circle);
        assert(self@.shapes =~= old(self)@.shapes);
    }

    /// Tells whether a tick leaves every shape in the world.
    pub fn can_step(&self, dt: u32) -> (fits: bool)
        requires
            self.wf(),
        ensures
            fits == self@.step_fits(dt as nat),
    {
        let mut i: usize = 0;
        while i < self.squares.len()
            invariant
                self.wf(),
                i <= self.squares.len(),
                forall|j: int|
                    0 <= j < i ==> (#[trigger] self.squares@[j]).step_fits(self.floor@, dt as nat),
            decreases self.squares.len() - i,
        {
            assert(self@.squares[i as int].wf());
            if !self.squares[i].can_step(&self.floor, dt) {
                assert(!self@.squares[i as int].step_fits(self@.floor, dt as nat));
                return false;
            }
            i += 1;
        }
        let mut i: usize = 0;
        while i < self.shapes.len()
            invariant
                self.wf(),
                i <= self.shapes.len(),
                forall|j: int| 0 <= j < i ==> (#[trigger] self@.shapes[j]).step_fits(dt as nat),
                forall|j: int|
                    0 <= j < self.squares.len() ==> (#[trigger] self.squares@[j]).step_fits(
                        self.floor@,
                        dt as nat,
                    ),
            decreases self.shapes.len() - i,
        {
            if !self.shapes[i].can_step(dt) {
                assert(!self@.shapes[i as int].step_fits(dt as nat));
                return false;
            }
            assert(self@.shapes[i as int].step_fits(dt as nat));
            i += 1;
        }
        let mut i: usize = 0;
        while i < self.circles.len()
            invariant
                self.wf(),
                i <= self.circles.len(),
                forall|j: int|
                    0 <= j < i ==> (#[trigger] self.circles@[j]).step_fits(self.floor@, dt as nat),
                forall|j: int|
                    0 <= j < self.shapes.len() ==> (#[trigger] self@.shapes[j]).step_fits(dt as nat),
                forall|j: int|
                    0 <= j < self.squares.len() ==> (#[trigger] self.squares@[j]).step_fits(
                        self.floor@,
                        dt as nat,
                    ),
            decreases self.circles.len() - i,
        {
            assert(self@.circles[i as int].wf());
            if !self.circles[i].can_step(&self.floor, dt) {
                assert(!self@.circles[i as int].step_fits(self@.floor, dt as nat));
                return false;
            }
            i += 1;
        }
        true
    }

    /// One tick for every shape: gravity acts on it for `dt` ticks, it is
    /// tested against the floor where it stands and brought to rest if it
    /// touches, and then it moves by its velocity.
    pub fn step(&mut self, dt: u32)
        requires
            old(self).wf(),
            old(self)@.step_fits(dt as nat),
        ensures
            final(self)@ == old(self)@.after_step(dt as nat),
            final(self).wf(),
    {
        let ghost before = self@;
        let mut i: usize = 0;
        while i < self.squares.len()
            invariant
                before == old(self)@,
                before.wf(),
                before.step_fits(dt as nat),
                self@.floor == before.floor,
                self@.shapes == before.shapes,
                self@.circles == before.circles,
                self@.clock == before.clock,
                self.squares@.len() == before.squares.len(),
                i <= self.squares.len(),
                forall|j: int|
                    0 <= j < i ==> self.squares@[j] == (#[trigger] before.squares[j]).after_step(
                        before.floor,
                        dt as nat,
                    ),
                forall|j: int| i <= j < self.squares.len() ==> self.squares@[j] == before.squares[j],
            decreases self.squares.len() - i,
        {
            assert(before.squares[i as int].wf());
            assert(before.squares[i as int].step_fits(before.floor, dt as nat));
            self.squares[i].step(&self.floor, dt);
            assert(self@.shapes =~= before.shapes);
            i += 1;
        }
        let mut i: usize = 0;
        while i < self.shapes.len()
            invariant
                before == old(self)@,
                before.wf(),
                before.step_fits(dt as nat),
                self@.floor == before.floor,
                self@.squares == before.after_step(dt as nat).squares,
                self@.circles == before.circles,
                self@.clock == before.clock,
                self.shapes@.len() == before.shapes.len(),
                i <= self.shapes.len(),
                forall|j: int|
                    0 <= j < i ==> self.shapes@[j]@ == (#[trigger] before.shapes[j]).after_step(
                        dt as nat,
                    ),
                forall|j: int| i <= j < self.shapes.len() ==> self.shapes@[j]@ == before.shapes[j],
            decreases self.shapes.len() - i,
        {
            assert(before.shapes[i as int].wf());
            assert(before.shapes[i as int].step_fits(dt as nat));
            self.shapes[i].step(&self.floor, dt);
            i += 1;
        }
        let mut i: usize = 0;
        while i < self.circles.len()
            invariant
                before == old(self)@,
                before.wf(),
                before.step_fits(dt as nat),
                self@.floor == before.floor,
                self@.squares == before.after_step(dt as nat).squares,
                self@.shapes == before.after_step(dt as nat).shapes,
                self@.clock == before.clock,
                self.circles@.len() == before.circles.len(),
                i <= self.circles.len(),
                forall|j: int|
                    0 <= j < i ==> self.circles@[j] == (#[trigger] before.circles[j]).after_step(
                        before.floor,
                        dt as nat,
                    ),
                forall|j: int| i <= j < self.circles.len() ==> self.circles@[j] == before.circles[j],
            decreases self.circles.len() - i,
        {
            assert(before.circles[i as int].wf());
            assert(before.circles[i as int].step_fits(before.floor, dt as nat));
            self.circles[i].step(&self.floor, dt);
            assert(self@.shapes =~= before.after_step(dt as nat).shapes);
            i += 1;
        }
        assert(self@.circles =~= before.after_step(dt as nat).circles);
    }

    /// Takes in a frame of the host that lasted `frame_nanos` nanoseconds:
    /// adds it to the clock and, as long as the clock holds a whole tick,
    /// runs one tick with one tick of gravity and takes it off the clock.
    /// Returns how many ticks it ran, which may be none or several.
    pub fn update(&mut self, frame_nanos: u64) -> (ticks: u64)
        requires
            old(self).wf(),
            old(self)@.run_fits(
                ticks_due(old(self).clock.residual as int, frame_nanos as int) as nat,
            ),
        ensures
            ticks == ticks_due(old(self).clock.residual as int, frame_nanos as int),
            final(self)@ == (SimulationView {
                clock: Clock {
                    residual: residual_after(
                        old(self).clock.residual as int,
                        frame_nanos as int,
                    ) as u64,
                },
                ..old(self)@.after_run(ticks as nat)
            }),
            final(self).wf(),
    {
        let mut clock = self.clock;
        let ticks = clock.advance(frame_nanos);
        let mut done: u64 = 0;
        while done < ticks
            invariant
                done <= ticks,
                self.wf(),
                self@.run_fits((ticks - done) as nat),
                self@.after_run((ticks - done) as nat) == old(self)@.after_run(ticks as nat),
            decreases ticks - done,
        {
            self.step(1);
            done += 1;
        }
        self.clock = clock;
        assert(self@.shapes =~= old(self)@.after_run(ticks as nat).shapes);
        ticks
    }

    /// Takes in a frame as [`Simulation::update`] does, but looks before each
    /// tick whether it leaves every shape in the world, and stops at the first
    /// that does not. Returns the number of ticks that fell due where it ran
    /// them all, and otherwise, as an error, the number it ran before it
    /// stopped. The clock gives up every tick that fell due either way.
    pub fn try_update(&mut self, frame_nanos: u64) -> (outcome: Result<u64, u64>)
        requires
            old(self).wf(),
        ensures
            outcome is Ok <==> old(self)@.run_fits(
                ticks_due(old(self).clock.residual as int, frame_nanos as int) as nat,
            ),
            match outcome {
                Ok(ticks) => ticks == ticks_due(old(self).clock.residual as int, frame_nanos as int),
                Err(ticks) => {
                    &&& ticks < ticks_due(old(self).clock.residual as int, frame_nanos as int)
                    &&& old(self)@.run_fits(ticks as nat)
                    &&& !old(self)@.after_run(ticks as nat).step_fits(1)
                },
            },
            final(self)@ == (SimulationView {
                clock: Clock {
                    residual: residual_after(
                        old(self).clock.residual as int,
                        frame_nanos as int,
                    ) as u64,
                },
                ..old(self)@.after_run(
                    match outcome {
                        Ok(ticks) => ticks,
                        Err(ticks) => ticks,
                    } as nat,
                )
            }),
            final(self).wf(),
    {
        let mut clock = self.clock;
        let ticks = clock.advance(frame_nanos);
        let mut done: u64 = 0;
        let mut blocked = false;
        while done < ticks && !blocked
            invariant
                done <= ticks,
                self.wf(),
                old(self)@.run_fits(done as nat),
                self@ == old(self)@.after_run(done as nat),
                blocked ==> done < ticks && !self@.step_fits(1),
                clock.wf(),
                clock.residual == residual_after(old(self).clock.residual as int, frame_nanos as int),
                ticks == ticks_due(old(self).clock.residual as int, frame_nanos as int),
            decreases ticks - done + if blocked { 0int } else { 1int },
        {
            if self.can_step(1) {
                proof {
                    lemma_run_extends(old(self)@, done as nat);
                }
                self.step(1);
                done += 1;
            } else {
                blocked = true;
            }
        }
        proof {
            if old(self)@.run_fits(ticks as nat) {
                lemma_run_fits_so_far(old(self)@, ticks as nat, done as nat);
            }
        }
        let ghost ran = self@;
        self.clock = clock;
        assert(self@.shapes =~= ran.shapes);
        assert(self@.squares == ran.squares && self@.circles == ran.circles);
        if blocked {
            Err(done)
        } else {
            Ok(done)
        }
    }
}

/// A run of one tick more is the shorter run followed by one tick, and it
/// fits where the shorter run fits and the tick after it does.
pub proof fn lemma_run_extends(state: SimulationView, n: nat)
    ensures
        state.after_run(n + 1) == state.after_run(n).after_step(1),
        state.run_fits(n + 1) == (state.run_fits(n) && state.after_run(n).step_fits(1)),
    decreases n,
{
    if n > 0 {
        lemma_run_extends(state.after_step(1), (n - 1) as nat);
        assert(state.after_run(n + 1) == state.after_step(1).after_run(n));
        assert(state.after_run(n) == state.after_step(1).after_run((n - 1) as nat));
    } else {
        assert(state.after_run(1) == state.after_step(1).after_run(0));
        assert(state.after_step(1).after_run(0) == state.after_step(1));
        assert(state.after_step(1).run_fits(0));
    }
}

/// Where a run of `n` ticks fits, so does every shorter run of `k`, and so
/// does the tick that follows it.
pub proof fn lemma_run_fits_so_far(state: SimulationView, n: nat, k: nat)
    requires
        state.run_fits(n),
        k <= n,
    ensures
        state.run_fits(k),
        k < n ==> state.after_run(k).step_fits(1),
    decreases n - k,
{
    if k < n {
        lemma_run_fits_so_far(state, n, k + 1);
        lemma_run_extends(state, k);
    }
}

/// A frame that lasts exactly `k` ticks makes `k` ticks fall due and leaves
/// on the clock what it held before. A frame of no length makes none fall
/// due.
pub proof fn lemma_frame_of_whole_ticks(residual: int, frame_nanos: int, k: int)
    requires
        0 <= residual < TICK_COST,
        0 <= k,
        TICKS_PER_SECOND * frame_nanos == k * TICK_COST,
    ensures
        ticks_due(residual, frame_nanos) == k,
        residual_after(residual, frame_nanos) == residual,
{
}

/// The ticks that fall due and what stays on the clock make up the time
/// gathered, and less than a tick stays.
pub proof fn lemma_clock_keeps_time(residual: int, frame_nanos: int)
    requires
        0 <= residual,
        0 <= frame_nanos,
    ensures
        ticks_due(residual, frame_nanos) * TICK_COST + residual_after(residual, frame_nanos)
            == residual + TICKS_PER_SECOND * frame_nanos,
        0 <= residual_after(residual, frame_nanos) < TICK_COST,
        0 <= ticks_due(residual, frame_nanos),
{
}

impl Square {
    /// The square after `n` ticks in a row on the same floor.
    pub open spec fn after_steps(self, floor: Seq<Point>, dt: nat, n: nat) -> Square
        decreases n,
    {
        if n == 0 {
            self
        } else {
            self.after_step(floor, dt).after_steps(floor, dt, (n - 1) as nat)
        }
    }
}

impl Circle {
    /// The circle after `n` ticks in a row on the same floor.
    pub open spec fn after_steps(self, floor: Seq<Point>, dt: nat, n: nat) -> Circle
        decreases n,
    {
        if n == 0 {
            self
        } else {
            self.after_step(floor, dt).after_steps(floor, dt, (n - 1) as nat)
        }
    }
}

/// A tick in which the square touches the floor brings it to rest where it
/// stands.
pub proof fn lemma_square_stopped_by_contact(square: Square, floor: Seq<Point>, dt: nat)
    requires
        square.wf(),
        square_floor_contact(square.square, floor),
    ensures
        square.after_step(floor, dt) == (Square { velocity_x: 0, velocity_y: 0, ..square }),
        square.step_fits(floor, dt),
{
    let after = square.after_step(floor, dt);
    assert(after.corners@ =~= square.corners@);
    assert(after.corners == square.corners);
}

/// A square that touches the floor is at rest in the same place after every
/// number of further ticks.
pub proof fn lemma_square_at_rest_stays(square: Square, floor: Seq<Point>, dt: nat, n: nat)
    requires
        square.wf(),
        square_floor_contact(square.square, floor),
        n > 0,
    ensures
        square.after_steps(floor, dt, n) == (Square { velocity_x: 0, velocity_y: 0, ..square }),
    decreases n,
{
    lemma_square_stopped_by_contact(square, floor, dt);
    let rested = square.after_step(floor, dt);
    assert(square.after_steps(floor, dt, n) == rested.after_steps(floor, dt, (n - 1) as nat));
    if n > 1 {
        lemma_square_at_rest_stays(rested, floor, dt, (n - 1) as nat);
    } else {
        assert(rested.after_steps(floor, dt, 0) == rested);
    }
}

/// A tick in which the square does not touch the floor leaves it with its
/// sideways speed and its falling speed after gravity, moved by the two.
pub proof fn lemma_square_falls_without_contact(square: Square, floor: Seq<Point>, dt: nat)
    requires
        !square_floor_contact(square.square, floor),
    ensures
        square.tick_velocity(floor, dt) == (
            square.velocity_x as int,
            speed_after_gravity(square.velocity_y as int, square.max_velocity_y as int, dt),
        ),
        square.after_step(floor, dt).square == square.square.shifted(
            square.velocity_x as int,
            speed_after_gravity(square.velocity_y as int, square.max_velocity_y as int, dt),
        ),
{
}

/// A tick in which the circle touches the floor brings it to rest where it
/// stands.
pub proof fn lemma_circle_stopped_by_contact(circle: Circle, floor: Seq<Point>, dt: nat)
    requires
        circle.wf(),
        circle_floor_contact(circle.center, circle.radius as int, floor),
    ensures
        circle.after_step(floor, dt) == (Circle { velocity_x: 0, velocity_y: 0, ..circle }),
        circle.step_fits(floor, dt),
{
}

/// A circle that touches the floor is at rest in the same place after every
/// number of further ticks.
pub proof fn lemma_circle_at_rest_stays(circle: Circle, floor: Seq<Point>, dt: nat, n: nat)
    requires
        circle.wf(),
        circle_floor_contact(circle.center, circle.radius as int, floor),
        n > 0,
    ensures
        circle.after_steps(floor, dt, n) == (Circle { velocity_x: 0, velocity_y: 0, ..circle }),
    decreases n,
{
    lemma_circle_stopped_by_contact(circle, floor, dt);
    let rested = circle.after_step(floor, dt);
    assert(circle.after_steps(floor, dt, n) == rested.after_steps(floor, dt, (n - 1) as nat));
    if n > 1 {
        lemma_circle_at_rest_stays(rested, floor, dt, (n - 1) as nat);
    } else {
        assert(rested.after_steps(floor, dt, 0) == rested);
    }
}

/// A run of the simulation is a run of each square and each circle on its
/// own: shapes do not act on one another, and floor and clock stay as they
/// are.
pub proof fn lemma_run_is_shape_by_shape(state: SimulationView, n: nat)
    ensures
        state.after_run(n).floor == state.floor,
        state.after_run(n).clock == state.clock,
        state.after_run(n).squares.len() == state.squares.len(),
        state.after_run(n).shapes.len() == state.shapes.len(),
        state.after_run(n).circles.len() == state.circles.len(),
        forall|i: int|
            0 <= i < state.squares.len() ==> state.after_run(n).squares[i] == (
            #[trigger] state.squares[i]).after_steps(state.floor, 1, n),
        forall|i: int|
            0 <= i < state.circles.len() ==> state.after_run(n).circles[i] == (
            #[trigger] state.circles[i]).after_steps(state.floor, 1, n),
    decreases n,
{
    if n > 0 {
        let next = state.after_step(1);
        lemma_run_is_shape_by_shape(next, (n - 1) as nat);
        assert forall|i: int| 0 <= i < state.squares.len() implies state.after_run(n).squares[i]
            == (#[trigger] state.squares[i]).after_steps(state.floor, 1, n) by {
            assert(next.squares[i] == state.squares[i].after_step(state.floor, 1));
            assert(next.after_run((n - 1) as nat).squares[i] == next.squares[i].after_steps(
                next.floor,
                1,
                (n - 1) as nat,
            ));
        }
        assert forall|i: int| 0 <= i < state.circles.len() implies state.after_run(n).circles[i]
            == (#[trigger] state.circles[i]).after_steps(state.floor, 1, n) by {
            assert(next.circles[i] == state.circles[i].after_step(state.floor, 1));
            assert(next.after_run((n - 1) as nat).circles[i] == next.circles[i].after_steps(
                next.floor,
                1,
                (n - 1) as nat,
            ));
        }
    }
}

} // verus!
