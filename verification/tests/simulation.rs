use fallbox::geometry::{Point, Rect, UNIT, WORLD_LIMIT};
use fallbox::physics::{Circle, Floor, Shape, Square};
use fallbox::simulation::{Clock, Simulation, TICK_COST};

fn at(x: i32, y: i32) -> Point {
    Point { x, y }
}

fn units(x: i32, y: i32) -> Point {
    Point { x: x * UNIT, y: y * UNIT }
}

fn level_floor() -> Floor {
    Floor::from_points(vec![units(0, 600), units(1000, 600)]).unwrap()
}

/// A frame of exactly `ticks` ticks, in nanoseconds. An even number of
/// ticks of a sixtieth of a second is a whole number of nanoseconds.
fn frame_of(ticks: u64) -> u64 {
    assert!(ticks % 3 == 0);
    ticks / 3 * 50_000_000
}

#[test]
fn clock_starts_empty() {
    assert_eq!(Clock::new(), Clock { residual: 0 });
    assert_eq!(TICK_COST, 1_000_000_000);
}

#[test]
fn clock_gives_three_ticks_for_a_frame_of_three_ticks() {
    let mut clock = Clock::new();
    // Three sixtieths of a second are 50 milliseconds.
    assert_eq!(clock.advance(50_000_000), 3);
    assert_eq!(clock.residual, 0);
}

#[test]
fn clock_gives_no_tick_for_a_frame_of_no_length() {
    let mut clock = Clock::new();
    assert_eq!(clock.advance(0), 0);
    assert_eq!(clock.residual, 0);
    let mut clock = Clock { residual: 999_999_999 };
    assert_eq!(clock.advance(0), 0);
    assert_eq!(clock.residual, 999_999_999);
}

#[test]
fn clock_carries_what_is_left_into_the_next_frame() {
    let mut clock = Clock::new();
    // Frames of 10 ms: six tenths of a tick each.
    assert_eq!(clock.advance(10_000_000), 0);
    assert_eq!(clock.residual, 600_000_000);
    assert_eq!(clock.advance(10_000_000), 1);
    assert_eq!(clock.residual, 200_000_000);
    assert_eq!(clock.advance(10_000_000), 0);
    assert_eq!(clock.residual, 800_000_000);
    assert_eq!(clock.advance(10_000_000), 1);
    assert_eq!(clock.residual, 400_000_000);
    assert_eq!(clock.advance(10_000_000), 1);
    assert_eq!(clock.residual, 0);
}

#[test]
fn clock_gives_a_tick_at_exactly_one_tick() {
    // One nanosecond short of a sixtieth of a second, then the rest.
    let mut clock = Clock::new();
    assert_eq!(clock.advance(16_666_666), 0);
    assert_eq!(clock.residual, 999_999_960);
    assert_eq!(clock.advance(1), 1);
    assert_eq!(clock.residual, 20);
    let mut clock = Clock { residual: 999_999_940 };
    assert_eq!(clock.advance(1), 1);
    assert_eq!(clock.residual, 0);
}

#[test]
fn clock_runs_sixty_ticks_in_a_second() {
    let mut clock = Clock::new();
    assert_eq!(clock.advance(1_000_000_000), 60);
    assert_eq!(clock.residual, 0);
    let mut total = 0;
    let mut clock = Clock::new();
    for _ in 0..1000 {
        total += clock.advance(1_000_000);
    }
    assert_eq!(total, 60);
    assert_eq!(clock.residual, 0);
}

#[test]
fn clock_takes_the_longest_frame() {
    let mut clock = Clock { residual: 999_999_999 };
    // (999_999_999 + 60 * (2^64 - 1)) / 10^9
    assert_eq!(clock.advance(u64::MAX), 1_106_804_644_423);
    assert_eq!(clock.residual, 573_096_899);
}

#[test]
fn new_simulation_is_empty() {
    let simulation = Simulation::new(level_floor());
    assert_eq!(simulation.floor, level_floor());
    assert!(simulation.squares.is_empty());
    assert!(simulation.shapes.is_empty());
    assert!(simulation.circles.is_empty());
    assert_eq!(simulation.clock, Clock { residual: 0 });
}

#[test]
fn shapes_are_added_in_order() {
    let mut simulation = Simulation::new(level_floor());
    simulation.add_square(Square::new());
    simulation.add_shape(Shape::new2());
    simulation.add_circle(Circle::new());
    simulation.add_shape(Shape::new3());
    let second = Square::from_pose(at(1, 2), 3, 4, 5).unwrap();
    simulation.add_square(second);
    assert_eq!(simulation.squares, vec![Square::new(), second]);
    assert_eq!(simulation.shapes, vec![Shape::new2(), Shape::new3()]);
    assert_eq!(simulation.circles, vec![Circle::new()]);
    assert_eq!(simulation.floor, level_floor());
    assert_eq!(simulation.clock, Clock::new());
}

#[test]
fn square_step_falls_by_the_speed_it_has_after_gravity() {
    let floor = level_floor();
    let mut square = Square::new();
    assert!(square.can_step(&floor, 1));
    square.step(&floor, 1);
    assert_eq!(square.velocity_y, 49);
    assert_eq!(square.square, Rect { x: 187_500, y: 105_049, w: 15_000, h: 15_000 });
    assert_eq!(square.corners[0], at(187_500, 105_049));
    assert_eq!(square.corners[3], at(202_500, 120_049));
    square.step(&floor, 1);
    assert_eq!(square.velocity_y, 98);
    assert_eq!(square.square.y, 105_147);
    square.velocity_x = -30;
    square.step(&floor, 2);
    assert_eq!((square.velocity_x, square.velocity_y), (-30, 196));
    assert_eq!((square.square.x, square.square.y), (187_470, 105_343));
    assert_eq!(square.corners[1], at(202_470, 105_343));
}

#[test]
fn square_step_tests_before_it_moves() {
    // One sub-unit above the floor and falling fast: the test sees no
    // contact, so the square moves into the floor. The next tick stops it.
    let floor = level_floor();
    let mut square = Square::from_pose(at(500 * UNIT, 550 * UNIT - 1), 50 * UNIT, 50 * UNIT, 15 * UNIT).unwrap();
    square.velocity_y = 3_000;
    square.velocity_x = 10;
    square.step(&floor, 1);
    assert_eq!((square.velocity_x, square.velocity_y), (10, 3_049));
    assert_eq!((square.square.x, square.square.y), (500 * UNIT + 10, 550 * UNIT + 3_048));
    square.step(&floor, 1);
    assert_eq!((square.velocity_x, square.velocity_y), (0, 0));
    assert_eq!((square.square.x, square.square.y), (500 * UNIT + 10, 550 * UNIT + 3_048));
}

#[test]
fn square_falling_fast_passes_through_a_thin_floor() {
    // Faster than the square is high: it is above the floor before the tick
    // and below it after, and no test ever sees it touch.
    let floor = level_floor();
    let mut square = Square::from_pose(at(500 * UNIT, 590 * UNIT), 5 * UNIT, 5 * UNIT, 15 * UNIT).unwrap();
    square.velocity_y = 15 * UNIT;
    square.step(&floor, 1);
    assert_eq!(square.square.y, 605 * UNIT);
    assert_eq!(square.velocity_y, 15 * UNIT);
    square.step(&floor, 1);
    assert_eq!(square.square.y, 620 * UNIT);
}

#[test]
fn square_dropped_from_fifty_units_comes_to_rest() {
    // The floor lies 50 units below the bottom edge of the default square.
    let floor = Floor::from_points(vec![units(0, 450), units(1000, 450)]).unwrap();
    let mut square = Square::new();
    assert_eq!(square.max_velocity_y, 15 * UNIT);
    let mut fallen: i32 = 0;
    for tick in 1..=25 {
        assert!(!fallbox::collision::square_touches_floor(&square, &floor));
        square.step(&floor, 1);
        fallen += 49 * tick;
        assert_eq!(square.velocity_y, 49 * tick);
        assert_eq!(square.square.y, 105_000 + fallen);
    }
    // After 25 ticks it has fallen 15_925 sub-units, a little more than the
    // 15_000 to the floor.
    assert_eq!(square.square.y, 120_925);
    assert_eq!(square.velocity_y, 1_225);
    assert!(fallbox::collision::square_touches_floor(&square, &floor));
    square.step(&floor, 1);
    assert_eq!((square.velocity_x, square.velocity_y), (0, 0));
    assert_eq!(square.square, Rect { x: 187_500, y: 120_925, w: 15_000, h: 15_000 });
    let rested = square;
    for _ in 0..100 {
        square.step(&floor, 1);
        assert_eq!(square, rested);
    }
}

#[test]
fn square_step_must_stay_in_the_world() {
    let floor = level_floor();
    let mut square = Square::from_pose(at(0, WORLD_LIMIT - 100), 50, 50, 4_500).unwrap();
    square.velocity_y = 1;
    assert!(square.can_step(&floor, 1));
    square.step(&floor, 1);
    assert_eq!(square.square.y, WORLD_LIMIT - 50);
    assert!(!square.can_step(&floor, 1));
    assert!(!square.can_step(&floor, 0));
    let mut sideways = Square::from_pose(at(WORLD_LIMIT - 60, 0), 50, 50, 4_500).unwrap();
    sideways.velocity_x = 11;
    assert!(!sideways.can_step(&floor, 1));
    sideways.velocity_x = 10;
    assert!(sideways.can_step(&floor, 1));
}

#[test]
fn square_that_touches_can_always_step() {
    let floor = Floor::from_points(vec![at(-WORLD_LIMIT, WORLD_LIMIT), at(WORLD_LIMIT, WORLD_LIMIT)]).unwrap();
    let mut square = Square::from_pose(at(0, WORLD_LIMIT - 50), 50, 50, 4_500).unwrap();
    square.velocity_y = 4_000;
    square.velocity_x = i32::MAX;
    assert!(square.can_step(&floor, 1));
    square.step(&floor, 1);
    assert_eq!(square, Square::from_pose(at(0, WORLD_LIMIT - 50), 50, 50, 4_500).unwrap());
}

#[test]
fn polygon_step_falls_and_never_stops() {
    let floor = level_floor();
    let mut shape = Shape::new2();
    shape.velocity_x = 5;
    assert!(shape.can_step(1));
    shape.step(&floor, 1);
    assert_eq!((shape.velocity_x, shape.velocity_y), (5, 49));
    assert_eq!(shape.corners, vec![at(225_005, 105_049), at(240_005, 105_049), at(232_505, 112_549)]);
    // It falls through the floor at 600 units.
    for _ in 0..200 {
        shape.step(&floor, 1);
    }
    assert_eq!(shape.velocity_y, 4_500);
    assert!(shape.corners[0].y > 700 * UNIT);
    assert_eq!(shape.corners[0].x, 225_000 + 5 * 201);
}

#[test]
fn polygon_step_must_stay_in_the_world() {
    let mut shape = Shape::from_vertices(vec![at(0, 0), at(10, 0), at(5, WORLD_LIMIT - 49)], 4_500).unwrap();
    assert!(shape.can_step(1));
    shape.step(&level_floor(), 1);
    assert_eq!(shape.corners[2], at(5, WORLD_LIMIT));
    assert!(!shape.can_step(1));
    shape.velocity_y = -98;
    assert!(shape.can_step(1));
    assert!(shape.can_step(2));
    assert!(!shape.can_step(3));
}

#[test]
fn circle_step_falls_until_it_touches() {
    let floor = level_floor();
    let mut circle = Circle::new();
    assert!(circle.can_step(&floor, 1));
    circle.step(&floor, 1);
    assert_eq!(circle.velocity_y, 49);
    assert_eq!(circle.center, at(150_000, 105_049));
    let mut ticks = 1;
    while !fallbox::collision::circle_touches_floor(&circle, &floor) {
        circle.step(&floor, 1);
        ticks += 1;
    }
    // The centre starts 250 units above the floor and touches once it is
    // within 50: after n ticks it has fallen 49 n (n + 1) / 2 sub-units.
    assert_eq!(ticks, 49);
    assert_eq!(circle.center.y, 105_000 + 49 * 49 * 50 / 2);
    assert!(circle.center.y >= 550 * UNIT);
    circle.step(&floor, 1);
    assert_eq!((circle.velocity_x, circle.velocity_y), (0, 0));
    let rested = circle;
    for _ in 0..50 {
        circle.step(&floor, 1);
        assert_eq!(circle, rested);
    }
}

#[test]
fn circle_with_slanting_velocity_keeps_its_place() {
    let floor = level_floor();
    let mut circle = Circle::new();
    circle.velocity_x = 7;
    circle.step(&floor, 1);
    assert_eq!((circle.velocity_x, circle.velocity_y), (7, 49));
    assert_eq!(circle.center, at(150_000, 105_000));
    circle.step(&floor, 1);
    assert_eq!((circle.velocity_x, circle.velocity_y), (7, 98));
    assert_eq!(circle.center, at(150_000, 105_000));
}

#[test]
fn circle_moving_sideways_alone_moves() {
    let floor = level_floor();
    let mut circle = Circle::new();
    circle.velocity_x = 7;
    circle.velocity_y = -49;
    circle.step(&floor, 1);
    assert_eq!((circle.velocity_x, circle.velocity_y), (7, 0));
    assert_eq!(circle.center, at(150_007, 105_000));
}

#[test]
fn circle_step_must_stay_in_the_world() {
    let floor = level_floor();
    let mut circle = Circle::from_pose(at(0, WORLD_LIMIT - 60), 50, 4_500).unwrap();
    circle.velocity_y = -39;
    assert!(circle.can_step(&floor, 1));
    circle.velocity_y = -38;
    assert!(!circle.can_step(&floor, 1));
    // A slanting move is not carried out, so it cannot leave the world.
    circle.velocity_x = 1;
    assert!(circle.can_step(&floor, 1));
}

#[test]
fn simulation_step_moves_every_shape() {
    let mut simulation = Simulation::new(level_floor());
    simulation.add_square(Square::new());
    simulation.add_square(Square::from_pose(units(100, 550), 50 * UNIT, 50 * UNIT, 4_500).unwrap());
    simulation.add_shape(Shape::new());
    simulation.add_shape(Shape::new3());
    simulation.add_circle(Circle::new());
    simulation.add_circle(Circle::from_pose(units(300, 600), 50 * UNIT, 4_500).unwrap());
    assert!(simulation.can_step(1));
    simulation.step(1);

    let mut falling = Square::new();
    falling.step(&level_floor(), 1);
    assert_eq!(simulation.squares[0], falling);
    assert_eq!(simulation.squares[0].square.y, 105_049);
    // The second square stood on the floor: it stays, at rest.
    assert_eq!(simulation.squares[1], Square::from_pose(units(100, 550), 50 * UNIT, 50 * UNIT, 4_500).unwrap());

    assert_eq!(simulation.shapes[0].corners[0], at(3_000, 105_049));
    assert_eq!(simulation.shapes[0].velocity_y, 49);
    assert_eq!(simulation.shapes[1].corners[5], at(277_500, 92_059));
    assert_eq!(simulation.circles[0].center, at(150_000, 105_049));
    assert_eq!(simulation.circles[0].velocity_y, 49);
    assert_eq!(simulation.circles[1], Circle::from_pose(units(300, 600), 50 * UNIT, 4_500).unwrap());
    assert_eq!(simulation.floor, level_floor());
    assert_eq!(simulation.clock, Clock::new());
}

#[test]
fn simulation_step_with_longer_gravity() {
    let mut simulation = Simulation::new(level_floor());
    simulation.add_square(Square::new());
    simulation.add_circle(Circle::new());
    simulation.step(3);
    assert_eq!(simulation.squares[0].velocity_y, 147);
    assert_eq!(simulation.squares[0].square.y, 105_147);
    assert_eq!(simulation.circles[0].center.y, 105_147);
    simulation.step(0);
    assert_eq!(simulation.squares[0].velocity_y, 147);
    assert_eq!(simulation.squares[0].square.y, 105_294);
}

#[test]
fn simulation_cannot_step_when_one_shape_would_leave_the_world() {
    let mut simulation = Simulation::new(level_floor());
    simulation.add_square(Square::new());
    simulation.add_circle(Circle::new());
    assert!(simulation.can_step(1));
    let mut low = Shape::from_vertices(vec![at(0, 0), at(10, 0), at(5, WORLD_LIMIT - 48)], 4_500).unwrap();
    simulation.add_shape(low.clone());
    assert!(!simulation.can_step(1));
    assert!(simulation.can_step(0));
    low.velocity_y = -1;
    simulation.shapes[0] = low;
    assert!(simulation.can_step(1));

    let mut simulation = Simulation::new(level_floor());
    simulation.add_circle(Circle::new());
    let mut edge = Square::from_pose(at(WORLD_LIMIT - 50, 0), 50, 50, 4_500).unwrap();
    edge.velocity_x = 1;
    simulation.add_square(edge);
    assert!(!simulation.can_step(1));

    let mut simulation = Simulation::new(level_floor());
    simulation.add_square(Square::new());
    let mut edge = Circle::from_pose(at(0, -WORLD_LIMIT + 50), 50, 4_500).unwrap();
    edge.velocity_y = -50;
    simulation.add_circle(edge);
    assert!(!simulation.can_step(1));
    assert!(simulation.can_step(2));
}

#[test]
fn update_runs_three_ticks_for_a_frame_of_three_ticks() {
    let mut simulation = Simulation::new(level_floor());
    simulation.add_square(Square::new());
    simulation.add_shape(Shape::new1());
    simulation.add_circle(Circle::new());
    let mut by_hand = simulation.clone();
    assert_eq!(simulation.update(frame_of(3)), 3);
    // Each of the three ticks lets gravity act for one tick.
    by_hand.step(1);
    by_hand.step(1);
    by_hand.step(1);
    assert_eq!(simulation, by_hand);
    assert_eq!(simulation.squares[0].velocity_y, 3 * 49);
    assert_eq!(simulation.squares[0].square.y, 105_000 + 49 + 98 + 147);
    assert_eq!(simulation.circles[0].center.y, 105_000 + 49 + 98 + 147);
    assert_eq!(simulation.shapes[0].corners[0].y, 105_000 + 49 + 98 + 147);
    assert_eq!(simulation.clock.residual, 0);
}

#[test]
fn update_runs_no_tick_for_a_frame_of_no_length() {
    let mut simulation = Simulation::new(level_floor());
    simulation.add_square(Square::new());
    simulation.add_circle(Circle::new());
    let before = simulation.clone();
    assert_eq!(simulation.update(0), 0);
    assert_eq!(simulation, before);
}

#[test]
fn update_keeps_part_of_a_tick_for_later() {
    let mut simulation = Simulation::new(level_floor());
    simulation.add_square(Square::new());
    assert_eq!(simulation.update(10_000_000), 0);
    assert_eq!(simulation.squares[0], Square::new());
    assert_eq!(simulation.clock.residual, 600_000_000);
    assert_eq!(simulation.update(10_000_000), 1);
    assert_eq!(simulation.squares[0].square.y, 105_049);
    assert_eq!(simulation.clock.residual, 200_000_000);
    assert_eq!(simulation.update(40_000_000), 2);
    assert_eq!(simulation.squares[0].square.y, 105_049 + 98 + 147);
    assert_eq!(simulation.clock.residual, 600_000_000);
}

#[test]
fn update_drops_a_square_to_rest_on_the_floor() {
    let floor = Floor::from_points(vec![units(0, 450), units(1000, 450)]).unwrap();
    let mut simulation = Simulation::new(floor);
    simulation.add_square(Square::new());
    // 24 ticks: still falling.
    assert_eq!(simulation.update(frame_of(24)), 24);
    assert_eq!(simulation.squares[0].velocity_y, 24 * 49);
    assert_eq!(simulation.squares[0].square.y, 105_000 + 49 * 24 * 25 / 2);
    // The 25th tick carries it into the floor, the 26th stops it.
    assert_eq!(simulation.update(frame_of(3)), 3);
    assert_eq!((simulation.squares[0].velocity_x, simulation.squares[0].velocity_y), (0, 0));
    assert_eq!(simulation.squares[0].square.y, 120_925);
    let rested = simulation.squares[0];
    assert_eq!(simulation.update(1_000_000_000), 60);
    assert_eq!(simulation.squares[0], rested);
    assert_eq!(simulation.squares[0].corners[2], at(187_500, 135_925));
}

#[test]
fn try_update_runs_every_tick_that_fits() {
    let mut simulation = Simulation::new(level_floor());
    simulation.add_square(Square::new());
    simulation.add_shape(Shape::new1());
    simulation.add_circle(Circle::new());
    let mut plain = simulation.clone();
    assert_eq!(simulation.try_update(frame_of(3)), Ok(3));
    assert_eq!(plain.update(frame_of(3)), 3);
    assert_eq!(simulation, plain);
    assert_eq!(simulation.try_update(0), Ok(0));
    assert_eq!(simulation, plain);
    assert_eq!(simulation.try_update(10_000_000), Ok(0));
    assert_eq!(simulation.clock.residual, 600_000_000);
    assert_eq!(simulation.try_update(10_000_000), Ok(1));
    assert_eq!(simulation.clock.residual, 200_000_000);
    assert_eq!(simulation.squares[0].velocity_y, 4 * 49);
}

#[test]
fn try_update_stops_at_the_edge_of_the_world() {
    // The polygon's lowest corner is 100 sub-units above the edge: it falls
    // 49 in the first tick and would fall 98 in the second.
    let mut simulation = Simulation::new(level_floor());
    simulation.add_square(Square::new());
    simulation
        .add_shape(Shape::from_vertices(vec![at(0, 0), at(10, 0), at(5, WORLD_LIMIT - 100)], 4_500).unwrap());
    assert_eq!(simulation.try_update(frame_of(3)), Err(1));
    assert_eq!(simulation.shapes[0].corners[2], at(5, WORLD_LIMIT - 51));
    assert_eq!(simulation.shapes[0].velocity_y, 49);
    assert_eq!(simulation.squares[0].square.y, 105_049);
    assert_eq!(simulation.clock.residual, 0);
    assert!(!simulation.can_step(1));
    // Nothing moves from here on, and the clock still takes the frames in.
    let stuck = simulation.clone();
    assert_eq!(simulation.try_update(frame_of(3)), Err(0));
    assert_eq!(simulation, stuck);
    assert_eq!(simulation.try_update(10_000_000), Ok(0));
    assert_eq!(simulation.clock.residual, 600_000_000);
    assert_eq!(simulation.try_update(10_000_000), Err(0));
    assert_eq!(simulation.clock.residual, 200_000_000);
}

#[test]
fn validity_of_a_clock() {
    assert!(Clock::new().is_valid());
    assert!(Clock { residual: 999_999_999 }.is_valid());
    assert!(!Clock { residual: 1_000_000_000 }.is_valid());
    assert!(!Clock { residual: u64::MAX }.is_valid());
}

#[test]
fn validity_of_a_simulation() {
    let mut simulation = Simulation::new(level_floor());
    assert!(simulation.is_valid());
    simulation.add_square(Square::new());
    simulation.add_shape(Shape::new());
    simulation.add_shape(Shape::new3());
    simulation.add_circle(Circle::new());
    assert!(simulation.is_valid());

    let mut broken = simulation.clone();
    broken.clock.residual = TICK_COST;
    assert!(!broken.is_valid());

    let mut broken = simulation.clone();
    broken.floor.points.pop();
    assert!(!broken.is_valid());

    let mut broken = simulation.clone();
    broken.squares[0].corners[2].x += 1;
    assert!(!broken.is_valid());

    let mut broken = simulation.clone();
    broken.shapes[1].corners[4].y = WORLD_LIMIT + 1;
    assert!(!broken.is_valid());

    let mut broken = simulation.clone();
    broken.circles[0].radius = 0;
    assert!(!broken.is_valid());
}
