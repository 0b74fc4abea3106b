//! Ray against rectangle, and moving rectangle against rectangle.

use crate::math::{lemma_product_fits, Frac, Point, Ratio, Ray, Size, Vector, DEN_LIMIT};
use vstd::prelude::*;

verus! {

/// What a query found, in exact terms.
pub struct Contact {
    /// The time of contact along the ray, as a fraction of its direction.
    pub time: Frac,
    /// Where the ray is at that time.
    pub point_x: Frac,
    pub point_y: Frac,
    /// The unit axis vector that opposes the ray's travel, or zero on a tie.
    pub normal_x: int,
    pub normal_y: int,
}

/// A point with exact ratios for coordinates.
#[derive(Debug, Clone, Copy, PartialEq, Eq, Structural)]
pub struct RatioPoint {
    pub x: Ratio,
    pub y: Ratio,
}

/// Collision information.
#[derive(Debug, Clone, Copy, PartialEq, Eq, Structural)]
pub struct Collision {
    pub contact_time: Ratio,
    pub contact_point: RatioPoint,
    pub contact_normal: Vector,
}

impl View for Collision {
    type V = Contact;

    open spec fn view(&self) -> Contact {
        Contact {
            time: self.contact_time@,
            point_x: self.contact_point.x@,
            point_y: self.contact_point.y@,
            normal_x: self.contact_normal.x as int,
            normal_y: self.contact_normal.y as int,
        }
    }
}

/// The time at which something that starts at `origin` and covers `dir` per
/// unit of time reaches `edge`: `(edge - origin) / dir`, with the sign moved
/// to the numerator. A zero `dir` gives an infinity, or no number at all when
/// `origin` lies on the edge.
pub open spec fn time_to(edge: int, origin: int, dir: int) -> Frac {
    if dir > 0 {
        Frac { num: edge - origin, den: dir }
    } else if dir < 0 {
        Frac { num: origin - edge, den: -dir }
    } else {
        Frac { num: edge - origin, den: 0 }
    }
}

/// The earlier of the two times at which the slab `[lo, hi]` is crossed.
pub open spec fn near_time(origin: int, dir: int, lo: int, hi: int) -> Frac {
    let a = time_to(lo, origin, dir);
    let b = time_to(hi, origin, dir);
    if a.gt(b) {
        b
    } else {
        a
    }
}

/// The later of the two times at which the slab `[lo, hi]` is crossed.
pub open spec fn far_time(origin: int, dir: int, lo: int, hi: int) -> Frac {
    let a = time_to(lo, origin, dir);
    let b = time_to(hi, origin, dir);
    if a.gt(b) {
        a
    } else {
        b
    }
}

/// Whether one of the two crossing times of the slab is not a number.
pub open spec fn slab_undefined(origin: int, dir: int, lo: int, hi: int) -> bool {
    time_to(lo, origin, dir).undefined() || time_to(hi, origin, dir).undefined()
}

/// The component of the normal on an axis along which the ray moves by `dir`.
pub open spec fn opposing(dir: int) -> int {
    if dir < 0 {
        1
    } else {
        -1
    }
}

/// Where a point that starts at `origin` and covers `dir` per unit of time
/// is at `time`.
pub open spec fn position_at(origin: int, dir: int, time: Frac) -> Frac {
    Frac { num: origin * time.den + time.num * dir, den: time.den }
}

/// The slab method: a ray from `(ox, oy)` with direction `(dx, dy)` against
/// the rectangle with corners `(lo_x, lo_y)` and `(hi_x, hi_y)`.
///
/// Per axis, the times at which the ray reaches the two edges are put in
/// order. There is no contact if one of them is not a number, if the ray
/// leaves one slab before it enters the other, or if the later of the two
/// exits lies in the past. Otherwise the contact is at the later of the two
/// entries, and the normal opposes the ray on the axis of that entry.
#[verifier::opaque]
pub open spec fn slab_hit(
    ox: int,
    oy: int,
    dx: int,
    dy: int,
    lo_x: int,
    lo_y: int,
    hi_x: int,
    hi_y: int,
) -> Option<Contact> {
    let near_x = near_time(ox, dx, lo_x, hi_x);
    let far_x = far_time(ox, dx, lo_x, hi_x);
    let near_y = near_time(oy, dy, lo_y, hi_y);
    let far_y = far_time(oy, dy, lo_y, hi_y);
    if slab_undefined(ox, dx, lo_x, hi_x) || slab_undefined(oy, dy, lo_y, hi_y) {
        None
    } else if near_x.gt(far_y) || near_y.gt(far_x) {
        None
    } else if far_x.larger(far_y).negative() {
        None
    } else {
        let time = near_x.larger(near_y);
        Some(
            Contact {
                time: time,
                point_x: position_at(ox, dx, time),
                point_y: position_at(oy, dy, time),
                normal_x: if near_x.gt(near_y) {
                    opposing(dx)
                } else {
                    0
                },
                normal_y: if near_y.gt(near_x) {
                    opposing(dy)
                } else {
                    0
                },
            },
        )
    }
}

/// What `ray_vs_rect` returns.
pub open spec fn ray_hit(ray: Ray, position: Point, size: Size) -> Option<Contact> {
    slab_hit(
        ray.origin.x as int,
        ray.origin.y as int,
        ray.direction.x as int,
        ray.direction.y as int,
        position.x as int,
        position.y as int,
        position.x + size.w,
        position.y + size.h,
    )
}

/// Coordinates up to this size, in absolute value, are accepted by the slab
/// computation.
const COORD_LIMIT: i128 = 0x80_0000_0000;

/// Directions up to this size, in absolute value, are accepted by the slab
/// computation.
const DIR_LIMIT: i128 = 0x8000_0000_0000_0000;

fn time_of(edge: i128, origin: i128, dir: i128) -> (t: Ratio)
    requires
        -COORD_LIMIT <= edge <= COORD_LIMIT,
        -COORD_LIMIT <= origin <= COORD_LIMIT,
        -DIR_LIMIT <= dir <= DIR_LIMIT,
    ensures
        t@ == time_to(edge as int, origin as int, dir as int),
        t.comparable(),
{
    if dir > 0 {
        Ratio { num: edge - origin, den: dir }
    } else if dir < 0 {
        Ratio { num: origin - edge, den: -dir }
    } else {
        Ratio { num: edge - origin, den: 0 }
    }
}

fn place_at(origin: i128, dir: i128, time: Ratio) -> (p: Ratio)
    requires
        -COORD_LIMIT <= origin <= COORD_LIMIT,
        -DIR_LIMIT <= dir <= DIR_LIMIT,
        time.comparable(),
    ensures
        p@ == position_at(origin as int, dir as int, time@),
{
    proof {
        lemma_product_fits(origin as int, time.den as int);
        assert(-0x100_0000_0000_0000_0000_0000_0000 <= time.num * dir
            <= 0x100_0000_0000_0000_0000_0000_0000) by (nonlinear_arith)
            requires
                -0x100_0000_0000 <= time.num <= 0x100_0000_0000,
                -0x8000_0000_0000_0000 <= dir <= 0x8000_0000_0000_0000,
        ;
    }
    Ratio { num: origin * time.den + time.num * dir, den: time.den }
}

fn slab(
    ox: i128,
    oy: i128,
    dx: i128,
    dy: i128,
    lo_x: i128,
    lo_y: i128,
    hi_x: i128,
    hi_y: i128,
) -> (r: Option<Collision>)
    requires
        -COORD_LIMIT <= ox <= COORD_LIMIT,
        -COORD_LIMIT <= oy <= COORD_LIMIT,
        -COORD_LIMIT <= lo_x <= COORD_LIMIT,
        -COORD_LIMIT <= lo_y <= COORD_LIMIT,
        -COORD_LIMIT <= hi_x <= COORD_LIMIT,
        -COORD_LIMIT <= hi_y <= COORD_LIMIT,
        -DIR_LIMIT <= dx <= DIR_LIMIT,
        -DIR_LIMIT <= dy <= DIR_LIMIT,
    ensures
        match r {
            Some(c) => slab_hit(
                ox as int,
                oy as int,
                dx as int,
                dy as int,
                lo_x as int,
                lo_y as int,
                hi_x as int,
                hi_y as int,
            ) == Some(c@) && c.contact_time.comparable(),
            None => slab_hit(
                ox as int,
                oy as int,
                dx as int,
                dy as int,
                lo_x as int,
                lo_y as int,
                hi_x as int,
                hi_y as int,
            ) is None,
        },
{
    reveal(slab_hit);
    let mut near_x = time_of(lo_x, ox, dx);
    let mut far_x = time_of(hi_x, ox, dx);
    let mut near_y = time_of(lo_y, oy, dy);
    let mut far_y = time_of(hi_y, oy, dy);
    if near_x.is_undefined() || far_x.is_undefined() || near_y.is_undefined()
        || far_y.is_undefined() {
        return None;
    }
    if far_x.less(near_x) {
        let t = near_x;
        near_x = far_x;
        far_x = t;
    }
    if far_y.less(near_y) {
        let t = near_y;
        near_y = far_y;
        far_y = t;
    }
    if far_y.less(near_x) || far_x.less(near_y) {
        return None;
    }
    let far = if far_x.less(far_y) {
        far_y
    } else {
        far_x
    };
    if far.num < 0 {
        return None;
    }
    let time = if near_x.less(near_y) {
        near_y
    } else {
        near_x
    };
    let normal_x: i32 = if near_y.less(near_x) {
        if dx < 0 {
            1
        } else {
            -1
        }
    } else {
        0
    };
    let normal_y: i32 = if near_x.less(near_y) {
        if dy < 0 {
            1
        } else {
            -1
        }
    } else {
        0
    };
    Some(
        Collision {
            contact_time: time,
            contact_point: RatioPoint { x: place_at(ox, dx, time), y: place_at(oy, dy, time) },
            contact_normal: Vector { x: normal_x, y: normal_y },
        },
    )
}

/// Query if a ray intersects a rect.
///
/// The rectangle has its minimum corner at `position`. The contact time is
/// the larger of the two times at which the ray enters the rectangle's slabs,
/// in units of the ray's direction; it may be negative or infinite.
pub fn ray_vs_rect(ray: Ray, position: Point, size: Size) -> (r: Option<Collision>)
    ensures
        match r {
            Some(c) => ray_hit(ray, position, size) == Some(c@),
            None => ray_hit(ray, position, size) is None,
        },
{
    slab(
        ray.origin.x as i128,
        ray.origin.y as i128,
        ray.direction.x as i128,
        ray.direction.y as i128,
        position.x as i128,
        position.y as i128,
        position.x as i128 + size.w as i128,
        position.y as i128 + size.h as i128,
    )
}

/// The same value in units half as large: `num / (2 * den)`.
pub open spec fn halved(f: Frac) -> Frac {
    Frac { num: f.num, den: 2 * f.den }
}

/// What `dynrect_vs_rect` returns.
///
/// The moving rectangle's center is cast, with direction `velocity *
/// timestep`, against the static rectangle grown by half the moving
/// rectangle's size on every side. Both are taken in half grid units, so that
/// the center is a whole number. A contact counts only if its time lies in
/// `[0, 1)`.
pub open spec fn sweep_hit(
    position1: Point,
    size1: Size,
    velocity: Vector,
    position2: Point,
    size2: Size,
    timestep: i32,
) -> Option<Contact> {
    match slab_hit(
        2 * position1.x + size1.w,
        2 * position1.y + size1.h,
        2 * (velocity.x * timestep),
        2 * (velocity.y * timestep),
        2 * position2.x - size1.w,
        2 * position2.y - size1.h,
        2 * position2.x + 2 * size2.w + size1.w,
        2 * position2.y + 2 * size2.h + size1.h,
    ) {
        Some(c) => if c.time.in_unit() {
            Some(
                Contact {
                    time: c.time,
                    point_x: halved(c.point_x),
                    point_y: halved(c.point_y),
                    normal_x: c.normal_x,
                    normal_y: c.normal_y,
                },
            )
        } else {
            None
        },
        None => None,
    }
}

/// The displacement of something that moves at `speed` for `timestep`.
pub fn travel(speed: i32, timestep: i32) -> (d: i128)
    ensures
        d == speed * timestep,
        -0x4000_0000_0000_0000 <= d <= 0x4000_0000_0000_0000,
{
    assert(-0x4000_0000_0000_0000 <= speed * timestep <= 0x4000_0000_0000_0000)
        by (nonlinear_arith)
        requires
            -0x8000_0000 <= speed <= 0x7fff_ffff,
            -0x8000_0000 <= timestep <= 0x7fff_ffff,
    ;
    speed as i128 * timestep as i128
}

fn halve(r: Ratio) -> (h: Ratio)
    requires
        0 <= r.den <= DEN_LIMIT,
    ensures
        h@ == halved(r@),
{
    Ratio { num: r.num, den: 2 * r.den }
}

/// Query if a moving rect intersects a stationary rect.
///
/// Both rectangles have their minimum corner at their position. The moving
/// one covers `velocity * timestep` during the step; a contact at the very end
/// of the step, or outside it, is no collision.
pub fn dynrect_vs_rect(
    position1: Point,
    size1: Size,
    velocity: Vector,
    position2: Point,
    size2: Size,
    timestep: i32,
) -> (r: Option<Collision>)
    ensures
        match r {
            Some(c) => sweep_hit(position1, size1, velocity, position2, size2, timestep) == Some(
                c@,
            ),
            None => sweep_hit(position1, size1, velocity, position2, size2, timestep) is None,
        },
{
    reveal(slab_hit);
    let dx = 2 * travel(velocity.x, timestep);
    let dy = 2 * travel(velocity.y, timestep);
    let result = slab(
        2 * (position1.x as i128) + size1.w as i128,
        2 * (position1.y as i128) + size1.h as i128,
        dx,
        dy,
        2 * (position2.x as i128) - size1.w as i128,
        2 * (position2.y as i128) - size1.h as i128,
        2 * (position2.x as i128) + 2 * (size2.w as i128) + size1.w as i128,
        2 * (position2.y as i128) + 2 * (size2.h as i128) + size1.h as i128,
    );
    match result {
        Some(c) => {
            if 0 <= c.contact_time.num && c.contact_time.num < c.contact_time.den {
                Some(
                    Collision {
                        contact_time: c.contact_time,
                        contact_point: RatioPoint {
                            x: halve(c.contact_point.x),
                            y: halve(c.contact_point.y),
                        },
                        contact_normal: c.contact_normal,
                    },
                )
            } else {
                None
            }
        },
        None => None,
    }
}

/// The normal of a contact is a unit vector along one axis, or zero.
pub proof fn lemma_normal_is_axis(
    ox: int,
    oy: int,
    dx: int,
    dy: int,
    lo_x: int,
    lo_y: int,
    hi_x: int,
    hi_y: int,
)
    ensures
        match slab_hit(ox, oy, dx, dy, lo_x, lo_y, hi_x, hi_y) {
            Some(hit) => {
                &&& -1 <= hit.normal_x <= 1
                &&& -1 <= hit.normal_y <= 1
                &&& hit.normal_x == 0 || hit.normal_y == 0
            },
            None => true,
        },
{
    reveal(slab_hit);
}

/// What every contact of a swept query looks like: its time lies in `[0, 1)`
/// and is a ratio over the distance covered on one axis, and its normal is a
/// unit vector along one axis, or zero.
pub proof fn lemma_sweep_hit_shape(
    position1: Point,
    size1: Size,
    velocity: Vector,
    position2: Point,
    size2: Size,
    timestep: i32,
)
    ensures
        match sweep_hit(position1, size1, velocity, position2, size2, timestep) {
            Some(hit) => {
                &&& hit.time.in_unit()
                &&& hit.time.den <= 0x8000_0000_0000_0000
                &&& -1 <= hit.normal_x <= 1
                &&& -1 <= hit.normal_y <= 1
                &&& hit.normal_x == 0 || hit.normal_y == 0
            },
            None => true,
        },
{
    reveal(slab_hit);
    assert(-0x4000_0000_0000_0000 <= velocity.x * timestep <= 0x4000_0000_0000_0000)
        by (nonlinear_arith)
        requires
            -0x8000_0000 <= velocity.x <= 0x7fff_ffff,
            -0x8000_0000 <= timestep <= 0x7fff_ffff,
    ;
    assert(-0x4000_0000_0000_0000 <= velocity.y * timestep <= 0x4000_0000_0000_0000)
        by (nonlinear_arith)
        requires
            -0x8000_0000 <= velocity.y <= 0x7fff_ffff,
            -0x8000_0000 <= timestep <= 0x7fff_ffff,
    ;
}

/// Whether, at `time`, something that starts at `origin` and covers `dir`
/// per unit of time is between `lo` and `hi`, the two included.
pub open spec fn within(origin: int, dir: int, lo: int, hi: int, time: Frac) -> bool {
    lo * time.den <= position_at(origin, dir, time).num <= hi * time.den
}

/// A time between the two crossings of a slab puts the ray inside the slab.
pub proof fn lemma_inside_slab(origin: int, dir: int, lo: int, hi: int, time: Frac)
    requires
        lo <= hi,
        !slab_undefined(origin, dir, lo, hi),
        time.finite(),
        !time.lt(near_time(origin, dir, lo, hi)),
        !far_time(origin, dir, lo, hi).lt(time),
    ensures
        within(origin, dir, lo, hi, time),
{
    let n = time.num;
    let d = time.den;
    if dir > 0 {
        assert((hi - origin) * dir >= (lo - origin) * dir) by (nonlinear_arith)
            requires
                hi >= lo,
                dir > 0,
        ;
        assert(lo * d <= origin * d + n * dir <= hi * d) by (nonlinear_arith)
            requires
                (lo - origin) * d <= n * dir,
                n * dir <= (hi - origin) * d,
        ;
    } else if dir < 0 {
        if hi > lo {
            assert((origin - hi) * (-dir) < (origin - lo) * (-dir)) by (nonlinear_arith)
                requires
                    hi > lo,
                    dir < 0,
            ;
        }
        assert(lo * d <= origin * d + n * dir <= hi * d) by (nonlinear_arith)
            requires
                (origin - hi) * d <= n * (-dir),
                n * (-dir) <= (origin - lo) * d,
        ;
    } else {
        assert(lo - origin <= 0) by (nonlinear_arith)
            requires
                !(n * 0 < (lo - origin) * d),
                d > 0,
        ;
        assert(hi - origin >= 0) by (nonlinear_arith)
            requires
                !((hi - origin) * d < n * 0),
                d > 0,
        ;
        assert(lo * d <= origin * d + n * dir <= hi * d) by (nonlinear_arith)
            requires
                lo <= origin <= hi,
                d > 0,
                dir == 0,
        ;
    }
}

/// Before it enters a slab the ray is outside of it.
pub proof fn lemma_outside_slab(origin: int, dir: int, lo: int, hi: int, time: Frac)
    requires
        lo <= hi,
        !slab_undefined(origin, dir, lo, hi),
        time.finite(),
        time.lt(near_time(origin, dir, lo, hi)),
    ensures
        !within(origin, dir, lo, hi, time),
{
    let n = time.num;
    let d = time.den;
    if dir > 0 {
        assert((hi - origin) * dir >= (lo - origin) * dir) by (nonlinear_arith)
            requires
                hi >= lo,
                dir > 0,
        ;
        assert(origin * d + n * dir < lo * d) by (nonlinear_arith)
            requires
                n * dir < (lo - origin) * d,
        ;
    } else if dir < 0 {
        if hi > lo {
            assert((origin - hi) * (-dir) < (origin - lo) * (-dir)) by (nonlinear_arith)
                requires
                    hi > lo,
                    dir < 0,
            ;
        }
        assert(origin * d + n * dir > hi * d) by (nonlinear_arith)
            requires
                n * (-dir) < (origin - hi) * d,
        ;
    } else {
        assert(lo - origin > 0) by (nonlinear_arith)
            requires
                n * 0 < (lo - origin) * d,
                d > 0,
        ;
        assert(origin * d + n * dir < lo * d) by (nonlinear_arith)
            requires
                origin < lo,
                d > 0,
                dir == 0,
        ;
    }
}

/// After it has left a slab the ray is outside of it.
pub proof fn lemma_outside_slab_after(origin: int, dir: int, lo: int, hi: int, time: Frac)
    requires
        lo <= hi,
        !slab_undefined(origin, dir, lo, hi),
        time.finite(),
        far_time(origin, dir, lo, hi).lt(time),
    ensures
        !within(origin, dir, lo, hi, time),
{
    let n = time.num;
    let d = time.den;
    if dir > 0 {
        assert((hi - origin) * dir >= (lo - origin) * dir) by (nonlinear_arith)
            requires
                hi >= lo,
                dir > 0,
        ;
        assert(origin * d + n * dir > hi * d) by (nonlinear_arith)
            requires
                (hi - origin) * d < n * dir,
        ;
    } else if dir < 0 {
        if hi > lo {
            assert((origin - hi) * (-dir) < (origin - lo) * (-dir)) by (nonlinear_arith)
                requires
                    hi > lo,
                    dir < 0,
            ;
        }
        assert(origin * d + n * dir < lo * d) by (nonlinear_arith)
            requires
                (origin - lo) * d < n * (-dir),
        ;
    } else {
        assert(hi - origin < 0) by (nonlinear_arith)
            requires
                (hi - origin) * d < n * 0,
                d > 0,
        ;
        assert(origin * d + n * dir > hi * d) by (nonlinear_arith)
            requires
                origin > hi,
                d > 0,
                dir == 0,
        ;
    }
}

/// Nothing lies between a time and an earlier one: if `later` is no earlier
/// than `first`, and `last` no earlier than `later`, then `last` is no earlier
/// than `first`.
pub proof fn lemma_times_in_order(first: Frac, later: Frac, last: Frac)
    requires
        first.den >= 0,
        last.den >= 0,
        !first.undefined(),
        !last.undefined(),
        later.finite(),
        !later.lt(first),
        !last.lt(later),
    ensures
        !last.lt(first),
{
    if first.den > 0 && last.den > 0 {
        assert(!(last.num * first.den < first.num * last.den)) by (nonlinear_arith)
            requires
                first.den > 0,
                last.den > 0,
                later.den > 0,
                !(later.num * first.den < first.num * later.den),
                !(last.num * later.den < later.num * last.den),
        ;
    } else if first.den == 0 && last.den > 0 {
        assert(first.num <= 0) by (nonlinear_arith)
            requires
                !(later.num * 0 < first.num * later.den),
                later.den > 0,
        ;
        assert(first.num * last.den <= 0) by (nonlinear_arith)
            requires
                first.num <= 0,
                last.den > 0,
        ;
    } else if first.den > 0 && last.den == 0 {
        assert(last.num >= 0) by (nonlinear_arith)
            requires
                !(last.num * later.den < later.num * 0),
                later.den > 0,
        ;
        assert(last.num * first.den >= 0) by (nonlinear_arith)
            requires
                last.num >= 0,
                first.den > 0,
        ;
    } else {
        assert(first.num <= 0) by (nonlinear_arith)
            requires
                !(later.num * 0 < first.num * later.den),
                later.den > 0,
        ;
        assert(last.num >= 0) by (nonlinear_arith)
            requires
                !(last.num * later.den < later.num * 0),
                later.den > 0,
        ;
    }
}

/// On each axis the ray enters the slab no later than it leaves it.
pub proof fn lemma_near_before_far(origin: int, dir: int, lo: int, hi: int)
    ensures
        !far_time(origin, dir, lo, hi).lt(near_time(origin, dir, lo, hi)),
{
}

/// The slab method finds a point of the rectangle: at a contact with a finite
/// time the ray is inside the rectangle, edges included.
pub proof fn lemma_contact_in_rectangle(
    ox: int,
    oy: int,
    dx: int,
    dy: int,
    lo_x: int,
    lo_y: int,
    hi_x: int,
    hi_y: int,
)
    requires
        lo_x <= hi_x,
        lo_y <= hi_y,
    ensures
        match slab_hit(ox, oy, dx, dy, lo_x, lo_y, hi_x, hi_y) {
            Some(hit) => {
                &&& hit.point_x == position_at(ox, dx, hit.time)
                &&& hit.point_y == position_at(oy, dy, hit.time)
                &&& hit.time.finite() ==> within(ox, dx, lo_x, hi_x, hit.time) && within(
                    oy,
                    dy,
                    lo_y,
                    hi_y,
                    hit.time,
                )
            },
            None => true,
        },
{
    reveal(slab_hit);
    match slab_hit(ox, oy, dx, dy, lo_x, lo_y, hi_x, hi_y) {
        Some(hit) => {
            if hit.time.finite() {
                lemma_near_before_far(ox, dx, lo_x, hi_x);
                lemma_near_before_far(oy, dy, lo_y, hi_y);
                lemma_inside_slab(ox, dx, lo_x, hi_x, hit.time);
                lemma_inside_slab(oy, dy, lo_y, hi_y, hit.time);
            }
        },
        None => {},
    }
}

/// The contact is the first: at no earlier time is the ray inside the
/// rectangle.
pub proof fn lemma_outside_before_contact(
    ox: int,
    oy: int,
    dx: int,
    dy: int,
    lo_x: int,
    lo_y: int,
    hi_x: int,
    hi_y: int,
    earlier: Frac,
)
    requires
        lo_x <= hi_x,
        lo_y <= hi_y,
        earlier.finite(),
        slab_hit(ox, oy, dx, dy, lo_x, lo_y, hi_x, hi_y) matches Some(hit) && earlier.lt(hit.time),
    ensures
        !(within(ox, dx, lo_x, hi_x, earlier) && within(oy, dy, lo_y, hi_y, earlier)),
{
    reveal(slab_hit);
    let near_x = near_time(ox, dx, lo_x, hi_x);
    let near_y = near_time(oy, dy, lo_y, hi_y);
    if near_x.lt(near_y) {
        lemma_outside_slab(oy, dy, lo_y, hi_y, earlier);
    } else {
        lemma_outside_slab(ox, dx, lo_x, hi_x, earlier);
    }
}

/// Where the slab method finds no contact, and no crossing time is
/// undefined, there is none from now on: at no time from zero on is the ray
/// inside the rectangle.
pub proof fn lemma_miss_is_never_inside(
    ox: int,
    oy: int,
    dx: int,
    dy: int,
    lo_x: int,
    lo_y: int,
    hi_x: int,
    hi_y: int,
    at: Frac,
)
    requires
        lo_x <= hi_x,
        lo_y <= hi_y,
        slab_hit(ox, oy, dx, dy, lo_x, lo_y, hi_x, hi_y) is None,
        !slab_undefined(ox, dx, lo_x, hi_x),
        !slab_undefined(oy, dy, lo_y, hi_y),
        at.finite(),
        !at.negative(),
    ensures
        !(within(ox, dx, lo_x, hi_x, at) && within(oy, dy, lo_y, hi_y, at)),
{
    reveal(slab_hit);
    let near_x = near_time(ox, dx, lo_x, hi_x);
    let far_x = far_time(ox, dx, lo_x, hi_x);
    let near_y = near_time(oy, dy, lo_y, hi_y);
    let far_y = far_time(oy, dy, lo_y, hi_y);
    if within(ox, dx, lo_x, hi_x, at) && within(oy, dy, lo_y, hi_y, at) {
        if at.lt(near_x) {
            lemma_outside_slab(ox, dx, lo_x, hi_x, at);
        }
        if at.lt(near_y) {
            lemma_outside_slab(oy, dy, lo_y, hi_y, at);
        }
        if far_x.lt(at) {
            lemma_outside_slab_after(ox, dx, lo_x, hi_x, at);
        }
        if far_y.lt(at) {
            lemma_outside_slab_after(oy, dy, lo_y, hi_y, at);
        }
        if near_x.gt(far_y) {
            lemma_times_in_order(near_x, at, far_y);
        } else if near_y.gt(far_x) {
            lemma_times_in_order(near_y, at, far_x);
        } else {
            let far = far_x.larger(far_y);
            assert(far.negative());
            assert(far.num * at.den < 0 && at.num * far.den >= 0) by (nonlinear_arith)
                requires
                    far.num < 0,
                    far.den >= 0,
                    at.num >= 0,
                    at.den > 0,
            ;
            assert(far.lt(at));
        }
    }
}

/// What does not move does not run into anything: a rectangle whose velocity
/// is zero, or that is given no time, collides with nothing.
pub proof fn lemma_no_motion_no_collision(
    position1: Point,
    size1: Size,
    velocity: Vector,
    position2: Point,
    size2: Size,
    timestep: i32,
)
    requires
        (velocity.x == 0 && velocity.y == 0) || timestep == 0,
    ensures
        sweep_hit(position1, size1, velocity, position2, size2, timestep) is None,
{
    reveal(slab_hit);
    assert(velocity.x * timestep == 0) by (nonlinear_arith)
        requires
            velocity.x == 0 || timestep == 0,
    ;
    assert(velocity.y * timestep == 0) by (nonlinear_arith)
        requires
            velocity.y == 0 || timestep == 0,
    ;
}

/// A contact moved by `(by_x, by_y)`: the same time and normal, and a contact
/// point moved by that vector.
pub open spec fn translated(hit: Option<Contact>, by_x: int, by_y: int) -> Option<Contact> {
    match hit {
        Some(c) => Some(
            Contact {
                time: c.time,
                point_x: Frac { num: c.point_x.num + by_x * c.point_x.den, den: c.point_x.den },
                point_y: Frac { num: c.point_y.num + by_y * c.point_y.den, den: c.point_y.den },
                normal_x: c.normal_x,
                normal_y: c.normal_y,
            },
        ),
        None => None,
    }
}

/// Moving the ray's origin and the rectangle by the same vector moves the
/// contact by that vector and changes nothing else.
pub proof fn lemma_slab_translation(
    ox: int,
    oy: int,
    dx: int,
    dy: int,
    lo_x: int,
    lo_y: int,
    hi_x: int,
    hi_y: int,
    by_x: int,
    by_y: int,
)
    ensures
        slab_hit(
            ox + by_x,
            oy + by_y,
            dx,
            dy,
            lo_x + by_x,
            lo_y + by_y,
            hi_x + by_x,
            hi_y + by_y,
        ) == translated(slab_hit(ox, oy, dx, dy, lo_x, lo_y, hi_x, hi_y), by_x, by_y),
{
    reveal(slab_hit);
    assert(time_to(lo_x + by_x, ox + by_x, dx) == time_to(lo_x, ox, dx));
    assert(time_to(hi_x + by_x, ox + by_x, dx) == time_to(hi_x, ox, dx));
    assert(time_to(lo_y + by_y, oy + by_y, dy) == time_to(lo_y, oy, dy));
    assert(time_to(hi_y + by_y, oy + by_y, dy) == time_to(hi_y, oy, dy));
    let near_x = near_time(ox, dx, lo_x, hi_x);
    let near_y = near_time(oy, dy, lo_y, hi_y);
    let time = near_x.larger(near_y);
    assert((ox + by_x) * time.den == ox * time.den + by_x * time.den) by (nonlinear_arith);
    assert((oy + by_y) * time.den == oy * time.den + by_y * time.den) by (nonlinear_arith);
}

/// Where the ray and the rectangle are does not matter to `ray_vs_rect`, only
/// where they are to each other: with the ray's origin and the rectangle
/// moved by the same vector, the time and the normal stay, and the contact
/// point moves along.
pub proof fn lemma_ray_translation(
    ray: Ray,
    position: Point,
    size: Size,
    moved_ray: Ray,
    moved_position: Point,
    by_x: int,
    by_y: int,
)
    requires
        moved_ray.origin.x == ray.origin.x + by_x,
        moved_ray.origin.y == ray.origin.y + by_y,
        moved_ray.direction == ray.direction,
        moved_position.x == position.x + by_x,
        moved_position.y == position.y + by_y,
    ensures
        ray_hit(moved_ray, moved_position, size) == translated(
            ray_hit(ray, position, size),
            by_x,
            by_y,
        ),
{
    lemma_slab_translation(
        ray.origin.x as int,
        ray.origin.y as int,
        ray.direction.x as int,
        ray.direction.y as int,
        position.x as int,
        position.y as int,
        position.x + size.w,
        position.y + size.h,
        by_x,
        by_y,
    );
}

} // verus!

