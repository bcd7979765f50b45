use vstd::prelude::*;
use crate::geometry::{lemma_product_bound, Point, Rect};
use crate::physics::{Circle, Floor, Shape, Square};

verus! {

/// The smaller of two numbers.
pub open spec fn smaller(a: int, b: int) -> int {
    if a <= b {
        a
    } else {
        b
    }
}

/// The larger of two numbers.
pub open spec fn larger(a: int, b: int) -> int {
    if a >= b {
        a
    } else {
        b
    }
}

/// Whether the segment from `p1` to `p2` lies wholly to the left of, to the
/// right of, above or below the upright region between `left` and `right`,
/// `top` and `bottom`. Such a segment cannot meet the region.
pub open spec fn segment_clear_of(
    p1: Point,
    p2: Point,
    left: int,
    top: int,
    right: int,
    bottom: int,
) -> bool {
    ||| larger(p1.x as int, p2.x as int) < left
    ||| smaller(p1.x as int, p2.x as int) > right
    ||| larger(p1.y as int, p2.y as int) < top
    ||| smaller(p1.y as int, p2.y as int) > bottom
}

/// The squared length of the segment from `p1` to `p2`.
pub open spec fn length_squared(p1: Point, p2: Point) -> int {
    (p2.x - p1.x) * (p2.x - p1.x) + (p2.y - p1.y) * (p2.y - p1.y)
}

/// How far along the segment from `p1` to `p2` the point `c` lies: the dot
/// product of `p2 - p1` and `c - p1`. Divided by the squared length of the
/// segment it is 0 at `p1` and 1 at `p2`.
pub open spec fn along(p1: Point, p2: Point, c: Point) -> int {
    (p2.x - p1.x) * (c.x - p1.x) + (p2.y - p1.y) * (c.y - p1.y)
}

/// The x coordinate of the foot of the perpendicular from `c` on the line
/// through `p1` and `p2`, multiplied by the squared length of the segment,
/// which makes it a whole number.
pub open spec fn foot_x_scaled(p1: Point, p2: Point, c: Point) -> int {
    p1.x * length_squared(p1, p2) + (p2.x - p1.x) * along(p1, p2, c)
}

/// The y coordinate of the same foot, multiplied in the same way.
pub open spec fn foot_y_scaled(p1: Point, p2: Point, c: Point) -> int {
    p1.y * length_squared(p1, p2) + (p2.y - p1.y) * along(p1, p2, c)
}

/// Whether the foot of the perpendicular from `c` on the line through `p1`
/// and `p2` lies in `rect`, edges included.
pub open spec fn foot_in_rect(rect: Rect, p1: Point, p2: Point, c: Point) -> bool {
    let scale = length_squared(p1, p2);
    &&& rect.x * scale <= foot_x_scaled(p1, p2, c) <= rect.right() * scale
    &&& rect.y * scale <= foot_y_scaled(p1, p2, c) <= rect.bottom() * scale
}

/// Whether a square with the rectangle `rect` counts as touching the segment
/// from `p1` to `p2`. A segment clear of the rectangle never does. One that
/// is upright or level does whenever it is not clear of it. A slanted one does
/// where the perpendicular from one of the four corners meets its line inside
/// the rectangle, which is a rule of thumb and no exact test.
pub open spec fn square_contact(rect: Rect, p1: Point, p2: Point) -> bool {
    &&& !segment_clear_of(p1, p2, rect.x as int, rect.y as int, rect.right(), rect.bottom())
    &&& {
        ||| p1.x == p2.x
        ||| p1.y == p2.y
        ||| foot_in_rect(rect, p1, p2, rect.corners()[0])
        ||| foot_in_rect(rect, p1, p2, rect.corners()[1])
        ||| foot_in_rect(rect, p1, p2, rect.corners()[2])
        ||| foot_in_rect(rect, p1, p2, rect.corners()[3])
    }
}

/// Whether the square touches segment `i` of the floor.
pub open spec fn square_contact_at(rect: Rect, floor: Seq<Point>, i: int) -> bool {
    square_contact(rect, floor[i], floor[i + 1])
}

/// Whether the square touches some segment of the floor.
pub open spec fn square_floor_contact(rect: Rect, floor: Seq<Point>) -> bool {
    exists|i: int| 0 <= i < floor.len() - 1 && #[trigger] square_contact_at(rect, floor, i)
}

/// The squared distance between `a` and `b`.
pub open spec fn distance_squared(a: Point, b: Point) -> int {
    (a.x - b.x) * (a.x - b.x) + (a.y - b.y) * (a.y - b.y)
}

/// Whether the point of the segment from `p1` to `p2` that is nearest to
/// `center` is no further from it than `radius`. That point is `p1` where the
/// centre lies before the segment, `p2` where it lies beyond it, and the foot
/// of the perpendicular between the two; in the last case both sides of the
/// comparison are multiplied by the squared length of the segment.
pub open spec fn nearest_point_within(center: Point, radius: int, p1: Point, p2: Point) -> bool {
    let scale = length_squared(p1, p2);
    let t = along(p1, p2, center);
    if t <= 0 {
        distance_squared(center, p1) <= radius * radius
    } else if t >= scale {
        distance_squared(center, p2) <= radius * radius
    } else {
        distance_squared(center, p1) * scale - t * t <= radius * radius * scale
    }
}

/// Whether a circle counts as touching the segment from `p1` to `p2`. A
/// segment clear of the square round the circle never does. One that is
/// upright or level does whenever it is not clear of that square. A slanted
/// one does where its nearest point is within the radius.
pub open spec fn circle_contact(center: Point, radius: int, p1: Point, p2: Point) -> bool {
    &&& !segment_clear_of(
        p1,
        p2,
        center.x - radius,
        center.y - radius,
        center.x + radius,
        center.y + radius,
    )
    &&& {
        ||| p1.x == p2.x
        ||| p1.y == p2.y
        ||| nearest_point_within(center, radius, p1, p2)
    }
}

/// Whether the circle touches segment `i` of the floor.
pub open spec fn circle_contact_at(center: Point, radius: int, floor: Seq<Point>, i: int) -> bool {
    circle_contact(center, radius, floor[i], floor[i + 1])
}

/// Whether the circle touches some segment of the floor.
pub open spec fn circle_floor_contact(center: Point, radius: int, floor: Seq<Point>) -> bool {
    exists|i: int|
        0 <= i < floor.len() - 1 && #[trigger] circle_contact_at(center, radius, floor, i)
}

/// Tells whether the segment from `p1` to `p2` is clear of the region.
fn is_segment_clear_of(p1: Point, p2: Point, left: i64, top: i64, right: i64, bottom: i64) -> (clear:
    bool)
    ensures
        clear == segment_clear_of(p1, p2, left as int, top as int, right as int, bottom as int),
{
    let (low_x, high_x) = if p1.x <= p2.x {
        (p1.x, p2.x)
    } else {
        (p2.x, p1.x)
    };
    let (low_y, high_y) = if p1.y <= p2.y {
        (p1.y, p2.y)
    } else {
        (p2.y, p1.y)
    };
    (high_x as i64) < left || low_x as i64 > right || (high_y as i64) < top || low_y as i64 > bottom
}

/// Tells whether the foot of the perpendicular from `c` on the line through
/// `p1` and `p2` lies in `rect`.
fn is_foot_in_rect(rect: &Rect, p1: Point, p2: Point, c: Point) -> (inside: bool)
    requires
        rect.wf(),
        p1.wf(),
        p2.wf(),
        c.wf(),
    ensures
        inside == foot_in_rect(*rect, p1, p2, c),
{
    let dx: i128 = p2.x as i128 - p1.x as i128;
    let dy: i128 = p2.y as i128 - p1.y as i128;
    let cx: i128 = c.x as i128 - p1.x as i128;
    let cy: i128 = c.y as i128 - p1.y as i128;
    let right: i128 = rect.x as i128 + rect.w as i128;
    let bottom: i128 = rect.y as i128 + rect.h as i128;
    proof {
        let d: int = 0x8000_0000;
        lemma_product_bound(dx as int, dx as int, d, d);
        lemma_product_bound(dy as int, dy as int, d, d);
        lemma_product_bound(dx as int, cx as int, d, d);
        lemma_product_bound(dy as int, cy as int, d, d);
        let s: int = 2 * d * d;
        let scale = dx * dx + dy * dy;
        let t = dx * cx + dy * cy;
        lemma_product_bound(p1.x as int, scale, 0x4000_0000, s);
        lemma_product_bound(p1.y as int, scale, 0x4000_0000, s);
        lemma_product_bound(dx as int, t, d, s);
        lemma_product_bound(dy as int, t, d, s);
        lemma_product_bound(rect.x as int, scale, 0x4000_0000, s);
        lemma_product_bound(rect.y as int, scale, 0x4000_0000, s);
        lemma_product_bound(right as int, scale, 0x4000_0000, s);
        lemma_product_bound(bottom as int, scale, 0x4000_0000, s);
    }
    let scale: i128 = dx * dx + dy * dy;
    let t: i128 = dx * cx + dy * cy;
    let foot_x: i128 = p1.x as i128 * scale + dx * t;
    let foot_y: i128 = p1.y as i128 * scale + dy * t;
    rect.x as i128 * scale <= foot_x && foot_x <= right * scale && rect.y as i128 * scale <= foot_y
        && foot_y <= bottom * scale
}

/// Tells whether the square touches the segment from `p1` to `p2`.
pub fn square_touches_segment(square: &Square, p1: Point, p2: Point) -> (touching: bool)
    requires
        square.wf(),
        p1.wf(),
        p2.wf(),
    ensures
        touching == square_contact(square.square, p1, p2),
{
    let rect = &square.square;
    let right: i64 = rect.x as i64 + rect.w as i64;
    let bottom: i64 = rect.y as i64 + rect.h as i64;
    if is_segment_clear_of(p1, p2, rect.x as i64, rect.y as i64, right, bottom) {
        return false;
    }
    if p1.x == p2.x || p1.y == p2.y {
        return true;
    }
    let mut k: usize = 0;
    while k < 4
        invariant
            k <= 4,
            square.wf(),
            rect == &square.square,
            p1.wf(),
            p2.wf(),
            !segment_clear_of(p1, p2, rect.x as int, rect.y as int, rect.right(), rect.bottom()),
            forall|j: int| 0 <= j < k ==> !foot_in_rect(*rect, p1, p2, #[trigger] rect.corners()[j]),
        decreases 4 - k,
    {
        assert(square.corners@[k as int] == rect.corners()[k as int]);
        if is_foot_in_rect(rect, p1, p2, square.corners[k]) {
            return true;
        }
        k += 1;
    }
    false
}

/// Tells whether the square touches the floor: whether any segment of the
/// floor counts as touching its rectangle.
pub fn square_touches_floor(square: &Square, floor: &Floor) -> (touching: bool)
    requires
        square.wf(),
        floor.wf(),
    ensures
        touching == square_floor_contact(square.square, floor@),
{
    let mut i: usize = 0;
    while i + 1 < floor.points.len()
        invariant
            square.wf(),
            floor.wf(),
            i + 1 <= floor.points.len(),
            forall|j: int| 0 <= j < i ==> !#[trigger] square_contact_at(square.square, floor@, j),
        decreases floor.points.len() - i,
    {
        if square_touches_segment(square, floor.points[i], floor.points[i + 1]) {
            assert(square_contact_at(square.square, floor@, i as int));
            return true;
        }
        i += 1;
    }
    false
}

/// Tells whether the nearest point of the segment is within the radius.
fn is_nearest_point_within(circle: &Circle, p1: Point, p2: Point) -> (within: bool)
    requires
        circle.wf(),
        p1.wf(),
        p2.wf(),
    ensures
        within == nearest_point_within(circle.center, circle.radius as int, p1, p2),
{
    let center = circle.center;
    let dx: i128 = p2.x as i128 - p1.x as i128;
    let dy: i128 = p2.y as i128 - p1.y as i128;
    let cx: i128 = center.x as i128 - p1.x as i128;
    let cy: i128 = center.y as i128 - p1.y as i128;
    let ex: i128 = center.x as i128 - p2.x as i128;
    let ey: i128 = center.y as i128 - p2.y as i128;
    let r: i128 = circle.radius as i128;
    proof {
        let d: int = 0x8000_0000;
        lemma_product_bound(dx as int, dx as int, d, d);
        lemma_product_bound(dy as int, dy as int, d, d);
        lemma_product_bound(dx as int, cx as int, d, d);
        lemma_product_bound(dy as int, cy as int, d, d);
        lemma_product_bound(cx as int, cx as int, d, d);
        lemma_product_bound(cy as int, cy as int, d, d);
        lemma_product_bound(ex as int, ex as int, d, d);
        lemma_product_bound(ey as int, ey as int, d, d);
        lemma_product_bound(r as int, r as int, 0x4000_0000, 0x4000_0000);
        let s: int = 2 * d * d;
        let scale = dx * dx + dy * dy;
        let t = dx * cx + dy * cy;
        lemma_product_bound(cx * cx + cy * cy, scale, s, s);
        lemma_product_bound(t, t, s, s);
        lemma_product_bound(r * r, scale, 0x1000_0000_0000_0000, s);
    }
    let scale: i128 = dx * dx + dy * dy;
    let t: i128 = dx * cx + dy * cy;
    if t <= 0 {
        cx * cx + cy * cy <= r * r
    } else if t >= scale {
        ex * ex + ey * ey <= r * r
    } else {
        (cx * cx + cy * cy) * scale - t * t <= r * r * scale
    }
}

/// Tells whether the circle touches the segment from `p1` to `p2`.
pub fn circle_touches_segment(circle: &Circle, p1: Point, p2: Point) -> (touching: bool)
    requires
        circle.wf(),
        p1.wf(),
        p2.wf(),
    ensures
        touching == circle_contact(circle.center, circle.radius as int, p1, p2),
{
    let cx: i64 = circle.center.x as i64;
    let cy: i64 = circle.center.y as i64;
    let r: i64 = circle.radius as i64;
    if is_segment_clear_of(p1, p2, cx - r, cy - r, cx + r, cy + r) {
        return false;
    }
    if p1.x == p2.x || p1.y == p2.y {
        return true;
    }
    is_nearest_point_within(circle, p1, p2)
}

/// Tells whether the circle touches the floor: whether any segment of the
/// floor counts as touching it.
pub fn circle_touches_floor(circle: &Circle, floor: &Floor) -> (touching: bool)
    requires
        circle.wf(),
        floor.wf(),
    ensures
        touching == circle_floor_contact(circle.center, circle.radius as int, floor@),
{
    let mut i: usize = 0;
    while i + 1 < floor.points.len()
        invariant
            circle.wf(),
            floor.wf(),
            i + 1 <= floor.points.len(),
            forall|j: int|
                0 <= j < i ==> !#[trigger] circle_contact_at(
                    circle.center,
                    circle.radius as int,
                    floor@,
                    j,
                ),
        decreases floor.points.len() - i,
    {
        if circle_touches_segment(circle, floor.points[i], floor.points[i + 1]) {
            assert(circle_contact_at(circle.center, circle.radius as int, floor@, i as int));
            return true;
        }
        i += 1;
    }
    false
}

/// Tells whether the polygon touches the floor. No test of a polygon against
/// the floor exists yet: the answer is `false` for every polygon and every
/// floor, also where the two overlap.
pub fn shape_touches_floor(shape: &Shape, floor: &Floor) -> (touching: bool)
    ensures
        !touching,
{
    false
}

/// The scaled foot is the foot of the perpendicular: it lies on the line
/// through `p1` and `p2`, and the line from `c` to it stands at a right angle
/// on the segment.
pub proof fn lemma_foot_is_perpendicular(p1: Point, p2: Point, c: Point)
    ensures
        (foot_x_scaled(p1, p2, c) - p1.x * length_squared(p1, p2)) * (p2.y - p1.y) == (
        foot_y_scaled(p1, p2, c) - p1.y * length_squared(p1, p2)) * (p2.x - p1.x),
        (c.x * length_squared(p1, p2) - foot_x_scaled(p1, p2, c)) * (p2.x - p1.x) + (c.y
            * length_squared(p1, p2) - foot_y_scaled(p1, p2, c)) * (p2.y - p1.y) == 0,
{
    let dx = p2.x - p1.x;
    let dy = p2.y - p1.y;
    let cx = c.x - p1.x;
    let cy = c.y - p1.y;
    let scale = dx * dx + dy * dy;
    let t = dx * cx + dy * cy;
    let px = p1.x as int;
    let py = p1.y as int;
    assert(((px * scale + dx * t) - px * scale) * dy == ((py * scale + dy * t) - py * scale) * dx)
        by (nonlinear_arith);
    assert(((cx + px) * scale - (px * scale + dx * t)) * dx + ((cy + py) * scale - (py * scale + dy
        * t)) * dy == 0) by (nonlinear_arith)
        requires
            scale == dx * dx + dy * dy,
            t == dx * cx + dy * cy,
    ;
}

/// A square that lies wholly above every point of the floor touches it
/// nowhere.
pub proof fn lemma_square_above_floor(rect: Rect, floor: Seq<Point>)
    requires
        forall|i: int| 0 <= i < floor.len() ==> rect.bottom() < (#[trigger] floor[i]).y,
    ensures
        !square_floor_contact(rect, floor),
{
    assert forall|i: int| 0 <= i < floor.len() - 1 implies !#[trigger] square_contact_at(
        rect,
        floor,
        i,
    ) by {
        assert(rect.bottom() < floor[i].y);
        assert(rect.bottom() < floor[i + 1].y);
    }
}

/// A square that lies wholly above a level segment does not touch it.
pub proof fn lemma_square_above_level_segment(rect: Rect, p1: Point, p2: Point)
    requires
        p1.y == p2.y,
        rect.bottom() < p1.y,
    ensures
        !square_contact(rect, p1, p2),
{
}

/// A square whose bottom edge lies on a level segment, and shares some x
/// with it, touches that segment.
pub proof fn lemma_square_on_level_segment(rect: Rect, p1: Point, p2: Point)
    requires
        rect.w > 0,
        rect.h > 0,
        p1.y == p2.y,
        rect.bottom() == p1.y,
        smaller(p1.x as int, p2.x as int) <= rect.right(),
        rect.x <= larger(p1.x as int, p2.x as int),
    ensures
        square_contact(rect, p1, p2),
{
}

/// A square that touches one segment of the floor touches the floor.
pub proof fn lemma_square_contact_with_segment(rect: Rect, floor: Seq<Point>, i: int)
    requires
        0 <= i < floor.len() - 1,
        square_contact(rect, floor[i], floor[i + 1]),
    ensures
        square_floor_contact(rect, floor),
{
    assert(square_contact_at(rect, floor, i));
}

/// Over a level segment, with its centre between the segment's ends, a
/// circle touches exactly where the centre is no further from the segment's
/// height than the radius. A distance equal to the radius counts as touching.
pub proof fn lemma_circle_over_level_segment(center: Point, radius: int, p1: Point, p2: Point)
    requires
        radius > 0,
        p1.y == p2.y,
        smaller(p1.x as int, p2.x as int) <= center.x <= larger(p1.x as int, p2.x as int),
    ensures
        circle_contact(center, radius, p1, p2) <==> (p1.y - radius <= center.y <= p1.y + radius),
{
}

/// A circle that touches one segment of the floor touches the floor.
pub proof fn lemma_circle_contact_with_segment(
    center: Point,
    radius: int,
    floor: Seq<Point>,
    i: int,
)
    requires
        0 <= i < floor.len() - 1,
        circle_contact(center, radius, floor[i], floor[i + 1]),
    ensures
        circle_floor_contact(center, radius, floor),
{
    assert(circle_contact_at(center, radius, floor, i));
}

/// On a floor of one segment, touching the floor is touching that segment.
pub proof fn lemma_single_segment_floor(rect: Rect, center: Point, radius: int, p1: Point, p2: Point)
    ensures
        square_floor_contact(rect, seq![p1, p2]) == square_contact(rect, p1, p2),
        circle_floor_contact(center, radius, seq![p1, p2]) == circle_contact(center, radius, p1, p2),
{
    let floor = seq![p1, p2];
    assert(floor[0] == p1 && floor[1] == p2);
    assert(square_contact_at(rect, floor, 0) == square_contact(rect, p1, p2));
    assert(circle_contact_at(center, radius, floor, 0) == circle_contact(center, radius, p1, p2));
}

/// Four factors multiplied in pairs give the same whichever way they are
/// paired.
proof fn lemma_products_regrouped(x: int, y: int, z: int, w: int)
    by (nonlinear_arith)
    ensures
        (x * y) * (z * w) == (x * w) * (z * y),
        (x * x) * (y * y) == (x * y) * (x * y),
{
}

/// Whether a square or a circle touches is settled by where it is and where
/// the floor's points are: its velocity has no part in it, and asking again
/// of the same places gives the same answer.
pub proof fn lemma_contact_is_settled_by_place(
    a: Square,
    b: Square,
    c: Circle,
    d: Circle,
    floor: Seq<Point>,
    again: Seq<Point>,
)
    requires
        a.square == b.square,
        c.center == d.center,
        c.radius == d.radius,
        floor =~= again,
    ensures
        square_floor_contact(a.square, floor) == square_floor_contact(b.square, again),
        circle_floor_contact(c.center, c.radius as int, floor) == circle_floor_contact(
            d.center,
            d.radius as int,
            again,
        ),
{
}

/// Whether the point that lies `a` parts of `b` along the segment from `p1`
/// to `p2` is no further from `center` than `radius`. Both sides of the
/// comparison are multiplied by the square of `b`.
pub open spec fn segment_point_within(
    center: Point,
    radius: int,
    p1: Point,
    p2: Point,
    a: int,
    b: int,
) -> bool {
    let ex = a * (p2.x - p1.x) - b * (center.x - p1.x);
    let ey = a * (p2.y - p1.y) - b * (center.y - p1.y);
    ex * ex + ey * ey <= radius * radius * (b * b)
}

/// The squared distance to a point of the segment, written out in the
/// segment's squared length, the centre's place along it and its squared
/// distance from the start.
proof fn lemma_distance_expanded(a: int, b: int, dx: int, dy: int, ux: int, uy: int)
    ensures
        (a * dx - b * ux) * (a * dx - b * ux) + (a * dy - b * uy) * (a * dy - b * uy) == (a * a) * (
        dx * dx + dy * dy) - 2 * ((a * b) * (dx * ux + dy * uy)) + (b * b) * (ux * ux + uy * uy),
{
    let x = a * dx;
    let y = b * ux;
    let z = a * dy;
    let w = b * uy;
    assert((x - y) * (x - y) == x * x - 2 * (x * y) + y * y) by (nonlinear_arith);
    assert((z - w) * (z - w) == z * z - 2 * (z * w) + w * w) by (nonlinear_arith);
    lemma_products_regrouped(a, dx, a, dx);
    lemma_products_regrouped(a, dy, a, dy);
    lemma_products_regrouped(b, ux, b, ux);
    lemma_products_regrouped(b, uy, b, uy);
    assert(x * y == (a * b) * (dx * ux)) by (nonlinear_arith)
        requires
            x == a * dx,
            y == b * ux,
    ;
    assert(z * w == (a * b) * (dy * uy)) by (nonlinear_arith)
        requires
            z == a * dy,
            w == b * uy,
    ;
    let aa = a * a;
    let bb = b * b;
    let ab = a * b;
    assert(aa * (dx * dx + dy * dy) == aa * (dx * dx) + aa * (dy * dy)) by (nonlinear_arith);
    assert(bb * (ux * ux + uy * uy) == bb * (ux * ux) + bb * (uy * uy)) by (nonlinear_arith);
    assert(ab * (dx * ux + dy * uy) == ab * (dx * ux) + ab * (dy * uy)) by (nonlinear_arith);
}

/// Before the start of the segment no point of it is nearer than the start.
proof fn lemma_start_is_nearest(a: int, b: int, scale: int, t: int, gap: int, f: int, rr: int)
    by (nonlinear_arith)
    requires
        f == (a * a) * scale - 2 * ((a * b) * t) + (b * b) * gap,
        0 <= a <= b,
        0 < b,
        0 <= scale,
        t <= 0,
        f <= rr * (b * b),
    ensures
        gap <= rr,
{
    assert((a * a) * scale >= 0);
    assert((a * b) * t <= 0);
    assert((b * b) * (gap - rr) <= 0);
    assert(b * b > 0);
}

/// Beyond the end of the segment no point of it is nearer than the end.
proof fn lemma_end_is_nearest(a: int, b: int, scale: int, t: int, gap: int, f: int, rr: int)
    by (nonlinear_arith)
    requires
        f == (a * a) * scale - 2 * ((a * b) * t) + (b * b) * gap,
        0 <= a <= b,
        0 < b,
        0 <= scale <= t,
        f <= rr * (b * b),
    ensures
        gap - 2 * t + scale <= rr,
{
    assert(f - (b * b) * (gap - 2 * t + scale) == (b - a) * (2 * (b * t) - scale * (a + b)));
    assert(2 * (b * t) - scale * (a + b) >= 2 * (b * scale) - scale * (a + b));
    assert(2 * (b * scale) - scale * (a + b) == scale * (b - a));
    assert(scale * (b - a) >= 0);
    assert((b - a) * (2 * (b * t) - scale * (a + b)) >= 0);
    assert((b * b) * (gap - 2 * t + scale - rr) <= 0);
    assert(b * b > 0);
}

/// Between the ends no point of the segment is nearer than the foot of the
/// perpendicular.
proof fn lemma_foot_is_nearest(a: int, b: int, scale: int, t: int, gap: int, f: int, rr: int)
    requires
        f == (a * a) * scale - 2 * ((a * b) * t) + (b * b) * gap,
        0 < b,
        0 < scale,
        f <= rr * (b * b),
    ensures
        gap * scale - t * t <= rr * scale,
{
    let x = a * scale;
    let y = b * t;
    let bb = b * b;
    let excess = gap * scale - t * t;
    assert((x - y) * (x - y) >= 0) by (nonlinear_arith);
    assert((x - y) * (x - y) == x * x - 2 * (x * y) + y * y) by (nonlinear_arith);
    assert(((a * a) * scale) * scale == x * x) by (nonlinear_arith)
        requires
            x == a * scale,
    ;
    assert(((a * b) * t) * scale == x * y) by (nonlinear_arith)
        requires
            x == a * scale,
            y == b * t,
    ;
    assert(bb * (t * t) == y * y) by (nonlinear_arith)
        requires
            y == b * t,
            bb == b * b,
    ;
    assert(bb * excess == (bb * gap) * scale - bb * (t * t)) by (nonlinear_arith)
        requires
            excess == gap * scale - t * t,
    ;
    assert(f * scale == ((a * a) * scale) * scale - 2 * (((a * b) * t) * scale) + (bb * gap)
        * scale) by (nonlinear_arith)
        requires
            f == (a * a) * scale - 2 * ((a * b) * t) + bb * gap,
    ;
    assert(f * scale - bb * excess == (x - y) * (x - y));
    assert(f * scale <= (rr * bb) * scale) by (nonlinear_arith)
        requires
            f <= rr * bb,
            0 < scale,
    ;
    assert((rr * bb) * scale == bb * (rr * scale)) by (nonlinear_arith);
    assert(bb * excess <= bb * (rr * scale));
    assert(excess <= rr * scale) by (nonlinear_arith)
        requires
            bb * excess <= bb * (rr * scale),
            bb == b * b,
            0 < b,
    ;
}

/// The foot of the perpendicular is a point of the segment at the distance
/// that the test compares with the radius.
proof fn lemma_foot_is_reached(scale: int, t: int, gap: int, rr: int)
    by (nonlinear_arith)
    requires
        0 < scale,
        gap * scale - t * t <= rr * scale,
    ensures
        (t * t) * scale - 2 * ((t * scale) * t) + (scale * scale) * gap <= rr * (scale * scale),
{
    assert((t * t) * scale - 2 * ((t * scale) * t) + (scale * scale) * gap == scale * (gap * scale
        - t * t));
    assert(scale * (gap * scale - t * t) <= scale * (rr * scale));
}

/// The test of a slanted segment is exact: the nearest point is found
/// within the radius exactly where some point of the segment, at a whole
/// fraction `a / b` of the way from `p1` to `p2`, is within the radius.
pub proof fn lemma_nearest_point_is_exact(center: Point, radius: int, p1: Point, p2: Point)
    ensures
        nearest_point_within(center, radius, p1, p2) <==> exists|a: int, b: int|
            0 <= a <= b && 0 < b && #[trigger] segment_point_within(center, radius, p1, p2, a, b),
{
    let dx = p2.x - p1.x;
    let dy = p2.y - p1.y;
    let ux = center.x - p1.x;
    let uy = center.y - p1.y;
    let scale = length_squared(p1, p2);
    let t = along(p1, p2, center);
    let gap = ux * ux + uy * uy;
    let rr = radius * radius;
    assert(dx * dx >= 0 && dy * dy >= 0) by (nonlinear_arith);
    assert(gap == distance_squared(center, p1));
    assert(distance_squared(center, p2) == gap - 2 * t + scale) by (nonlinear_arith)
        requires
            distance_squared(center, p2) == (ux - dx) * (ux - dx) + (uy - dy) * (uy - dy),
            gap == ux * ux + uy * uy,
            scale == dx * dx + dy * dy,
            t == dx * ux + dy * uy,
    ;
    if nearest_point_within(center, radius, p1, p2) {
        if t <= 0 {
            lemma_distance_expanded(0, 1, dx, dy, ux, uy);
            assert(segment_point_within(center, radius, p1, p2, 0, 1));
        } else if t >= scale {
            lemma_distance_expanded(1, 1, dx, dy, ux, uy);
            assert(segment_point_within(center, radius, p1, p2, 1, 1));
        } else {
            lemma_distance_expanded(t, scale, dx, dy, ux, uy);
            lemma_foot_is_reached(scale, t, gap, rr);
            assert(segment_point_within(center, radius, p1, p2, t, scale));
        }
    }
    if exists|a: int, b: int|
        0 <= a <= b && 0 < b && #[trigger] segment_point_within(center, radius, p1, p2, a, b) {
        let (a, b) = choose|a: int, b: int|
            0 <= a <= b && 0 < b && #[trigger] segment_point_within(center, radius, p1, p2, a, b);
        lemma_distance_expanded(a, b, dx, dy, ux, uy);
        let f = (a * a) * scale - 2 * ((a * b) * t) + (b * b) * gap;
        if t <= 0 {
            lemma_start_is_nearest(a, b, scale, t, gap, f, rr);
        } else if t >= scale {
            lemma_end_is_nearest(a, b, scale, t, gap, f, rr);
        } else {
            lemma_foot_is_nearest(a, b, scale, t, gap, f, rr);
        }
    }
}

} // verus!
