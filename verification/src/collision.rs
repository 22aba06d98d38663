//! Collision of the helicopter's circular hitbox with the tunnel walls.
//!
//! Each wall is a polyline. The hitbox touches an edge of it when the
//! helicopter is strictly between the edge's ends horizontally, passes a cheap
//! test on its height, and is nearer than its radius to the edge's line, by a
//! signed distance measured along the edge's normal. The normal is divided by
//! the squared length of the edge, not by its length, so an edge's reach grows
//! with its length: the test is an approximation, and it is stated here as it
//! is computed.

use crate::fixed::{
    between, clamp, div_toward_zero, magnitude, max, min, sat_add, sat_sub, spec_max, spec_min, ONE,
    ONE_SQUARED,
};
use crate::tunnel::{ceiling_line, ground_line, Tunnel};
use crate::vector::V2;
use crate::vehicle::Vehicle;
use vstd::prelude::*;

verus! {

/// The radius of the helicopter's hitbox: 0.03.
pub const HELI_RADIUS: i64 = 30_000;

/// The signed distance of `point` from the line through `start` and `end`,
/// along the normal that points to the left of the direction from `start` to
/// `end`; `None` where `start` and `end` coincide and there is no normal.
pub open spec fn signed_distance(start: V2, end: V2, point: V2) -> Option<i64> {
    match end.minus(start).turned_left().spec_normalized() {
        Some(normal) => Some(normal.spec_dot(point.minus(start))),
        None => None,
    }
}

/// Whether a distance exists and is less than `radius`. A distance that does
/// not exist is less than nothing.
pub open spec fn nearer_than(distance: Option<i64>, radius: i64) -> bool {
    distance matches Some(d) && d < radius
}

/// Whether the hitbox at `position` touches the ground edge from `start` to
/// `end`.
pub open spec fn touches_ground_edge(start: V2, end: V2, position: V2, radius: i64) -> bool {
    &&& start.x < position.x < end.x
    &&& clamp(position.y - radius) < spec_max(start.y, end.y)
    &&& nearer_than(signed_distance(start, end, position), radius)
}

/// Whether the hitbox at `position` touches the ceiling edge from `start` to
/// `end`. The distance is taken from `end` to `start`, so that the normal
/// points down into the tunnel.
pub open spec fn touches_ceiling_edge(start: V2, end: V2, position: V2, radius: i64) -> bool {
    &&& start.x < position.x < end.x
    &&& clamp(position.y + radius) > spec_min(start.y, end.y)
    &&& nearer_than(signed_distance(end, start, position), radius)
}

/// Whether the hitbox touches the `i`-th edge of the ground polyline.
pub open spec fn ground_hit_at(line: Seq<V2>, i: int, position: V2, radius: i64) -> bool {
    touches_ground_edge(line[i], line[i + 1], position, radius)
}

/// Whether the hitbox touches the `i`-th edge of the ceiling polyline.
pub open spec fn ceiling_hit_at(line: Seq<V2>, i: int, position: V2, radius: i64) -> bool {
    touches_ceiling_edge(line[i], line[i + 1], position, radius)
}

/// Whether the hitbox touches any edge of the ground polyline.
pub open spec fn touches_ground(line: Seq<V2>, position: V2, radius: i64) -> bool {
    exists|i: int| 0 <= i < line.len() - 1 && #[trigger] ground_hit_at(line, i, position, radius)
}

/// Whether the hitbox touches any edge of the ceiling polyline.
pub open spec fn touches_ceiling(line: Seq<V2>, position: V2, radius: i64) -> bool {
    exists|i: int| 0 <= i < line.len() - 1 && #[trigger] ceiling_hit_at(line, i, position, radius)
}

/// Whether the hitbox touches the ground or the ceiling of the tunnel.
pub open spec fn collides(tube: Seq<crate::tunnel::TunnelSegment>, position: V2, radius: i64) -> bool {
    touches_ground(ground_line(tube), position, radius) || touches_ceiling(
        ceiling_line(tube),
        position,
        radius,
    )
}

/// The signed distance of `point` from the line through the segment's ends.
pub fn segment_point_distance(segment: (V2, V2), point: V2) -> (d: Option<i64>)
    ensures
        d == signed_distance(segment.0, segment.1, point),
{
    let (start, end) = segment;
    match (end - start).turn_left().normalized() {
        Some(normal) => Some(normal.dot(point - start)),
        None => None,
    }
}

/// Whether the distance exists and is less than `radius`.
pub fn is_nearer_than(distance: Option<i64>, radius: i64) -> (r: bool)
    ensures
        r == nearer_than(distance, radius),
{
    match distance {
        Some(d) => d < radius,
        None => false,
    }
}

/// Whether the hitbox touches any edge of the ground polyline.
pub fn hits_ground(line: &Vec<V2>, position: V2, radius: i64) -> (hit: bool)
    ensures
        hit == touches_ground(line@, position, radius),
{
    if line.len() < 2 {
        return false;
    }
    let edges: usize = line.len() - 1;
    let mut i: usize = 0;
    while i < edges
        invariant
            edges == line@.len() - 1,
            i <= edges,
            forall|j: int| 0 <= j < i ==> !#[trigger] ground_hit_at(line@, j, position, radius),
        decreases edges - i,
    {
        let start: V2 = line[i];
        let end: V2 = line[i + 1];
        if between(start.x, end.x, position.x) && sat_sub(position.y, radius) < max(
            start.y,
            end.y,
        ) && is_nearer_than(segment_point_distance((start, end), position), radius) {
            assert(ground_hit_at(line@, i as int, position, radius));
            return true;
        }
        i += 1;
    }
    false
}

/// Whether the hitbox touches any edge of the ceiling polyline.
pub fn hits_ceiling(line: &Vec<V2>, position: V2, radius: i64) -> (hit: bool)
    ensures
        hit == touches_ceiling(line@, position, radius),
{
    if line.len() < 2 {
        return false;
    }
    let edges: usize = line.len() - 1;
    let mut i: usize = 0;
    while i < edges
        invariant
            edges == line@.len() - 1,
            i <= edges,
            forall|j: int| 0 <= j < i ==> !#[trigger] ceiling_hit_at(line@, j, position, radius),
        decreases edges - i,
    {
        let start: V2 = line[i];
        let end: V2 = line[i + 1];
        if between(start.x, end.x, position.x) && sat_add(position.y, radius) > min(
            start.y,
            end.y,
        ) && is_nearer_than(segment_point_distance((end, start), position), radius) {
            assert(ceiling_hit_at(line@, i as int, position, radius));
            return true;
        }
        i += 1;
    }
    false
}

/// Whether the helicopter, as a circle of the given radius, touches the
/// ground or the ceiling of the tunnel.
pub fn is_collided(vehicle: &Vehicle, tunnel: &Tunnel, radius: i64) -> (hit: bool)
    ensures
        hit == collides(tunnel@, vehicle.position, radius),
{
    let ground: Vec<V2> = tunnel.ground();
    let ceiling: Vec<V2> = tunnel.ceiling();
    let hit_ground: bool = hits_ground(&ground, vehicle.position, radius);
    let hit_ceiling: bool = hits_ceiling(&ceiling, vehicle.position, radius);
    hit_ground || hit_ceiling
}

/// Whether both coordinates of the point lie within 1000.0 of zero, far
/// enough from the ends of the number range that no distance to another such
/// point saturates.
pub open spec fn in_reach(p: V2) -> bool {
    -1000 * ONE <= p.x <= 1000 * ONE && -1000 * ONE <= p.y <= 1000 * ONE
}

/// What the signed distance from a level edge comes to: the height of the
/// point above the edge, multiplied by the quotient of the edge's signed
/// length by its square.
pub open spec fn level_edge_distance(length: int, height: int) -> int {
    div_toward_zero(div_toward_zero(length * ONE_SQUARED, length * length) * height, ONE as int)
}

/// The signed distance from a level edge is `level_edge_distance` of the
/// edge's signed length and of the point's height above the edge.
pub proof fn lemma_level_edge_distance(start: V2, end: V2, point: V2)
    requires
        start.y == end.y,
        start.x != end.x,
        in_reach(start),
        in_reach(end),
        in_reach(point),
    ensures
        signed_distance(start, end, point) == Some(
            level_edge_distance(end.x - start.x, point.y - start.y) as i64,
        ),
        i64::MIN < level_edge_distance(end.x - start.x, point.y - start.y) <= i64::MAX,
{
    let dx = end.x - start.x;
    let w = point.y - start.y;
    let n = dx * dx;
    let normal = end.minus(start).turned_left();
    assert(normal == V2 { x: 0, y: dx as i64 });
    assert(normal.norm_squared() == n) by (nonlinear_arith)
        requires
            normal.norm_squared() == 0 * 0 + dx * dx,
            n == dx * dx,
    ;
    assert(n > 0) by (nonlinear_arith)
        requires
            dx != 0,
            n == dx * dx,
    ;
    let k = div_toward_zero(dx * ONE_SQUARED, n);
    lemma_unit_normal_bound(dx);
    assert(div_toward_zero(0 * ONE_SQUARED, n) == 0) by (nonlinear_arith)
        requires
            n > 0,
    ;
    assert(normal.spec_normalized() == Some(V2 { x: 0, y: k as i64 }));
    assert(-2_000_000_000_000_000_000_000 <= k * w <= 2_000_000_000_000_000_000_000)
        by (nonlinear_arith)
        requires
            -ONE_SQUARED <= k <= ONE_SQUARED,
            -2_000_000_000 <= w <= 2_000_000_000,
    ;
    assert(0 * (point.x - start.x) + k * w == k * w);
}

/// Reversing a level edge negates the signed distance from it. So a hitbox
/// whose distance from the edge is at least its radius is nearer than the
/// radius seen from one end of the edge and not seen from the other: which
/// way the edge runs decides whether a hit is registered.
pub proof fn lemma_reversed_level_edge(start: V2, end: V2, point: V2, radius: i64)
    requires
        start.y == end.y,
        start.x != end.x,
        in_reach(start),
        in_reach(end),
        in_reach(point),
    ensures
        signed_distance(start, end, point) matches Some(d) && signed_distance(end, start, point)
            == Some((-d) as i64),
        signed_distance(start, end, point) matches Some(d) && radius > 0 && (d >= radius || -d
            >= radius) ==> nearer_than(signed_distance(start, end, point), radius) != nearer_than(
            signed_distance(end, start, point),
            radius,
        ),
{
    let dx = end.x - start.x;
    let w = point.y - start.y;
    let n = dx * dx;
    lemma_level_edge_distance(start, end, point);
    lemma_level_edge_distance(end, start, point);
    assert((-dx) * (-dx) == n) by (nonlinear_arith)
        requires
            n == dx * dx,
    ;
    assert(n > 0) by (nonlinear_arith)
        requires
            dx != 0,
            n == dx * dx,
    ;
    let k = div_toward_zero(dx * ONE_SQUARED, n);
    assert(div_toward_zero((-dx) * ONE_SQUARED, n) == -k);
    assert((-k) * w == -(k * w)) by (nonlinear_arith);
}

/// The quotient of a length by its square is at most 1.0 squared, whatever
/// its sign.
proof fn lemma_unit_normal_bound(dx: int)
    requires
        dx != 0,
    ensures
        -ONE_SQUARED <= div_toward_zero(dx * ONE_SQUARED, dx * dx) <= ONE_SQUARED,
{
    let n = dx * dx;
    let a = if dx >= 0 {
        dx
    } else {
        -dx
    };
    assert(a * a == n && n > 0 && a <= n) by (nonlinear_arith)
        requires
            n == dx * dx,
            dx != 0,
            a == dx || a == -dx,
            a > 0,
    ;
    assert(0 <= (a * ONE_SQUARED) / n <= ONE_SQUARED) by (nonlinear_arith)
        requires
            0 <= a <= n,
            n > 0,
    ;
}

/// Swapping the ends of an edge negates the signed distance up to rounding:
/// the two distances add up to less than two units and the part of a unit
/// that the edge's extent makes, which is less than one unit for an edge whose
/// width and height together stay below 1.0. On a slanted edge rounding
/// forbids an exact law.
pub proof fn lemma_reversed_edge(start: V2, end: V2, point: V2)
    requires
        start != end,
        in_reach(start),
        in_reach(end),
        in_reach(point),
    ensures
        signed_distance(start, end, point) is Some,
        signed_distance(end, start, point) is Some,
        ({
            let forth = signed_distance(start, end, point).unwrap();
            let back = signed_distance(end, start, point).unwrap();
            let extent = magnitude(end.x - start.x) + magnitude(end.y - start.y);
            -(2 * ONE + extent) < (forth + back) * ONE < 2 * ONE + extent
        }),
{
    let dx = end.x - start.x;
    let dy = end.y - start.y;
    let ux = point.x - start.x;
    let uy = point.y - start.y;
    let s = ONE as int;
    let s2 = ONE_SQUARED as int;
    let n = dy * dy + dx * dx;
    let mx = magnitude(dx);
    let my = magnitude(dy);
    assert(n > 0 && mx <= n && my <= n && n == (-dy) * (-dy) + dx * dx && n == dy * dy + (-dx) * (
    -dx)) by (nonlinear_arith)
        requires
            n == dy * dy + dx * dx,
            dx != 0 || dy != 0,
            mx == dx || mx == -dx,
            my == dy || my == -dy,
            mx >= 0,
            my >= 0,
    ;
    let forth_normal = end.minus(start).turned_left();
    let back_normal = start.minus(end).turned_left();
    assert(forth_normal == V2 { x: (-dy) as i64, y: dx as i64 });
    assert(back_normal == V2 { x: dy as i64, y: (-dx) as i64 });
    assert(forth_normal.norm_squared() == n);
    assert(back_normal.norm_squared() == n);
    let a = div_toward_zero((-dy) * s2, n);
    let b = div_toward_zero(dx * s2, n);
    lemma_rounded_quotient((-dy) * s2, n);
    lemma_rounded_quotient(dx * s2, n);
    lemma_rounded_quotient(dy * s2, n);
    lemma_rounded_quotient((-dx) * s2, n);
    let ra = (-dy) * s2 - a * n;
    let rb = dx * s2 - b * n;
    assert(-s2 <= a <= s2 && -s2 <= b <= s2) by (nonlinear_arith)
        requires
            -n < ra < n,
            -n < rb < n,
            ra == (-dy) * s2 - a * n,
            rb == dx * s2 - b * n,
            -n <= dy <= n,
            -n <= dx <= n,
            n > 0,
            s2 > 0,
    ;
    assert(div_toward_zero(dy * s2, n) == -a);
    assert(div_toward_zero((-dx) * s2, n) == -b);
    assert(forth_normal.spec_normalized() == Some(V2 { x: a as i64, y: b as i64 }));
    assert(back_normal.spec_normalized() == Some(V2 { x: (-a) as i64, y: (-b) as i64 }));
    let total = a * ux + b * uy;
    let reversed = (-a) * (ux - dx) + (-b) * (uy - dy);
    let drift = a * dx + b * dy;
    assert(reversed == drift - total) by (nonlinear_arith)
        requires
            total == a * ux + b * uy,
            reversed == (-a) * (ux - dx) + (-b) * (uy - dy),
            drift == a * dx + b * dy,
    ;
    assert(-4_000_000_000 * s2 <= total <= 4_000_000_000 * s2 && -4_000_000_000 * s2 <= reversed
        <= 4_000_000_000 * s2) by (nonlinear_arith)
        requires
            total == a * ux + b * uy,
            reversed == (-a) * (ux - dx) + (-b) * (uy - dy),
            -s2 <= a <= s2,
            -s2 <= b <= s2,
            -2_000_000_000 <= ux <= 2_000_000_000,
            -2_000_000_000 <= uy <= 2_000_000_000,
            -2_000_000_000 <= ux - dx <= 2_000_000_000,
            -2_000_000_000 <= uy - dy <= 2_000_000_000,
            s2 > 0,
    ;
    let forth = div_toward_zero(total, s);
    let back = div_toward_zero(reversed, s);
    lemma_rounded_quotient(total, s);
    lemma_rounded_quotient(reversed, s);
    assert(signed_distance(start, end, point) == Some(forth as i64));
    assert(signed_distance(end, start, point) == Some(back as i64));
    let across = a * dx;
    let along = b * dy;
    let area = dy * dx;
    assert(ra * dx == -(area * s2) - across * n) by (nonlinear_arith)
        requires
            ra == (-dy) * s2 - a * n,
            across == a * dx,
            area == dy * dx,
    ;
    assert(rb * dy == area * s2 - along * n) by (nonlinear_arith)
        requires
            rb == dx * s2 - b * n,
            along == b * dy,
            area == dy * dx,
    ;
    assert(drift * n == across * n + along * n) by (nonlinear_arith)
        requires
            drift == across + along,
    ;
    let slack_x = (n - 1) * mx;
    let slack_y = (n - 1) * my;
    assert(-slack_x <= ra * dx <= slack_x) by (nonlinear_arith)
        requires
            -(n - 1) <= ra <= n - 1,
            -mx <= dx <= mx,
            mx >= 0,
            slack_x == (n - 1) * mx,
    ;
    assert(-slack_y <= rb * dy <= slack_y) by (nonlinear_arith)
        requires
            -(n - 1) <= rb <= n - 1,
            -my <= dy <= my,
            my >= 0,
            slack_y == (n - 1) * my,
    ;
    assert(-(mx + my) < drift < mx + my) by (nonlinear_arith)
        requires
            -slack_x - slack_y <= drift * n <= slack_x + slack_y,
            slack_x == (n - 1) * mx,
            slack_y == (n - 1) * my,
            n > 0,
            mx >= 0,
            my >= 0,
            mx + my >= 1,
    ;
}

/// The point at the same place across the line of height zero.
pub open spec fn mirrored(p: V2) -> V2 {
    V2 { x: p.x, y: clamp(-p.y) }
}

/// Mirroring an edge and a point across the line of height zero negates the
/// signed distance exactly: what was to the left of the edge is to its right
/// in the mirror image. So the ground test on a mirrored ceiling measures the
/// ceiling from its start to its end, where the ceiling test measures it from
/// its end to its start; the two agree up to the rounding that
/// `lemma_reversed_edge` bounds.
pub proof fn lemma_mirrored_edge(start: V2, end: V2, point: V2)
    requires
        in_reach(start),
        in_reach(end),
        in_reach(point),
    ensures
        signed_distance(start, end, point) is None ==> signed_distance(
            mirrored(start),
            mirrored(end),
            mirrored(point),
        ) is None,
        signed_distance(start, end, point) matches Some(d) ==> signed_distance(
            mirrored(start),
            mirrored(end),
            mirrored(point),
        ) == Some((-d) as i64),
{
    let dx = end.x - start.x;
    let dy = end.y - start.y;
    let ux = point.x - start.x;
    let uy = point.y - start.y;
    let s = ONE as int;
    let s2 = ONE_SQUARED as int;
    let n = dy * dy + dx * dx;
    let normal = end.minus(start).turned_left();
    let mirror_normal = mirrored(end).minus(mirrored(start)).turned_left();
    assert(normal == V2 { x: (-dy) as i64, y: dx as i64 });
    assert(mirror_normal == V2 { x: dy as i64, y: dx as i64 });
    assert(n == (-dy) * (-dy) + dx * dx) by (nonlinear_arith)
        requires
            n == dy * dy + dx * dx,
    ;
    assert(normal.norm_squared() == n);
    assert(mirror_normal.norm_squared() == n);
    if n == 0 {
    } else {
        let mx = magnitude(dx);
        let my = magnitude(dy);
        assert(n > 0 && mx <= n && my <= n) by (nonlinear_arith)
            requires
                n == dy * dy + dx * dx,
                n != 0,
                mx == dx || mx == -dx,
                my == dy || my == -dy,
                mx >= 0,
                my >= 0,
        ;
        let a = div_toward_zero((-dy) * s2, n);
        let b = div_toward_zero(dx * s2, n);
        lemma_rounded_quotient((-dy) * s2, n);
        lemma_rounded_quotient(dx * s2, n);
        lemma_rounded_quotient(dy * s2, n);
        assert(-s2 <= a <= s2 && -s2 <= b <= s2) by (nonlinear_arith)
            requires
                -n < (-dy) * s2 - a * n < n,
                -n < dx * s2 - b * n < n,
                -n <= dy <= n,
                -n <= dx <= n,
                n > 0,
                s2 > 0,
        ;
        assert(div_toward_zero(dy * s2, n) == -a);
        assert(normal.spec_normalized() == Some(V2 { x: a as i64, y: b as i64 }));
        assert(mirror_normal.spec_normalized() == Some(V2 { x: (-a) as i64, y: b as i64 }));
        let total = a * ux + b * uy;
        let mirror_total = (-a) * ux + b * (-uy);
        assert(mirror_total == -total) by (nonlinear_arith)
            requires
                total == a * ux + b * uy,
                mirror_total == (-a) * ux + b * (-uy),
        ;
        assert(-4_000_000_000 * s2 <= total <= 4_000_000_000 * s2) by (nonlinear_arith)
            requires
                total == a * ux + b * uy,
                -s2 <= a <= s2,
                -s2 <= b <= s2,
                -2_000_000_000 <= ux <= 2_000_000_000,
                -2_000_000_000 <= uy <= 2_000_000_000,
                s2 > 0,
        ;
        lemma_rounded_quotient(total, s);
        let d = div_toward_zero(total, s);
        assert(div_toward_zero(mirror_total, s) == -d);
        assert(signed_distance(start, end, point) == Some(d as i64));
        assert(mirrored(point).minus(mirrored(start)) == V2 { x: ux as i64, y: (-uy) as i64 });
        assert(signed_distance(mirrored(start), mirrored(end), mirrored(point)) == Some(
            (-d) as i64,
        ));
    }
}

/// The quotient rounded toward zero misses the dividend by less than the
/// divisor.
proof fn lemma_rounded_quotient(v: int, n: int)
    requires
        n > 0,
    ensures
        -n < v - div_toward_zero(v, n) * n < n,
{
    if v >= 0 {
        vstd::arithmetic::div_mod::lemma_fundamental_div_mod(v, n);
        assert((v / n) * n == n * (v / n)) by (nonlinear_arith);
    } else {
        vstd::arithmetic::div_mod::lemma_fundamental_div_mod(-v, n);
        assert((-((-v) / n)) * n == -(n * ((-v) / n))) by (nonlinear_arith);
    }
}

} // verus!
