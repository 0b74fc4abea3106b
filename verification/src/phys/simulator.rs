//! The per-tick driver: broad phase, narrow phase, and integration.

use crate::ecs::component::{Collider, RigidBody, Transform};
use crate::math::{clamp, clamp_to_grid, Frac, Point, Ratio, Size, Vector};
use crate::phys::query::{
    dynrect_vs_rect, lemma_contact_in_rectangle, lemma_no_motion_no_collision,
    lemma_sweep_hit_shape, near_time, opposing, slab_hit, sweep_hit, travel, Contact,
};
use crate::phys::tree::{
    corner_marks, max, min, sweep_envelope, CollisionEvent, CollisionTree, Envelope, IndexState,
    TreeObject, TreeObjectSource,
};
use hecs::Entity;
use vstd::prelude::*;

verus! {

/// One entity with the three components that the simulator works on.
#[derive(Debug, Clone, Copy, PartialEq)]
pub struct Body {
    pub entity: Entity,
    pub transform: Transform,
    pub rigid_body: RigidBody,
    pub collider: Collider,
}

/// The size of a number, without its sign.
pub open spec fn abs(v: int) -> int {
    if v < 0 {
        -v
    } else {
        v
    }
}

/// The part of `speed` that a contact at `time` cancels: `speed * (1 -
/// time)`, rounded up to a whole unit, so that what is left never carries the
/// body past the contact.
pub open spec fn cancelled(speed: int, time: Frac) -> int {
    (speed * (time.den - time.num) + time.den - 1) / time.den
}

/// One component of the velocity after a contact: the cancelled part of its
/// size is added along the normal, and the sum kept on the grid.
pub open spec fn corrected(speed: int, normal: int, time: Frac) -> int {
    clamp_to_grid(speed + normal * cancelled(abs(speed), time))
}

/// The velocity after a contact.
pub open spec fn respond(velocity: Vector, hit: Contact) -> Vector {
    Vector {
        x: corrected(velocity.x as int, hit.normal_x, hit.time) as i32,
        y: corrected(velocity.y as int, hit.normal_y, hit.time) as i32,
    }
}

/// Where a body's collider lies in the world.
pub open spec fn collider_position(body: Body) -> Point {
    Point {
        x: clamp_to_grid(body.transform.position.x + body.collider.offset.x) as i32,
        y: clamp_to_grid(body.transform.position.y + body.collider.offset.y) as i32,
    }
}

/// The source under which a body appears in the tree and in events.
pub open spec fn body_source(body: Body) -> TreeObjectSource {
    TreeObjectSource::Entity { handle: body.entity }
}

/// The narrow phase of one body against its candidates, in their order: the
/// velocity that is left, and the events.
///
/// Each environment collider that the body would hit with the velocity it has
/// at that moment corrects the velocity and gives an event. Colliders of other
/// entities are passed over.
pub open spec fn resolve(
    position: Point,
    size: Size,
    velocity: Vector,
    source: TreeObjectSource,
    candidates: Seq<TreeObject>,
    timestep: i32,
) -> (Vector, Seq<CollisionEvent>)
    decreases candidates.len(),
{
    if candidates.len() == 0 {
        (velocity, Seq::empty())
    } else {
        let (v, events) = resolve(
            position,
            size,
            velocity,
            source,
            candidates.drop_last(),
            timestep,
        );
        let other = candidates.last();
        if other.source is Environment {
            match sweep_hit(position, size, v, other.position, other.size, timestep) {
                Some(hit) => (
                    respond(v, hit),
                    events.push(CollisionEvent { source1: source, source2: other.source }),
                ),
                None => (v, events),
            }
        } else {
            (v, events)
        }
    }
}

/// One tick of one body, given its candidates: the narrow phase, then the
/// position moves by the velocity that is left, then the velocity grows by
/// the acceleration; each sum is kept on the grid.
pub open spec fn advance(body: Body, candidates: Seq<TreeObject>, timestep: i32) -> (
    Body,
    Seq<CollisionEvent>,
) {
    let (v, events) = resolve(
        collider_position(body),
        body.collider.size,
        body.rigid_body.velocity,
        body_source(body),
        candidates,
        timestep,
    );
    (
        Body {
            entity: body.entity,
            transform: Transform {
                position: Point {
                    x: clamp_to_grid(body.transform.position.x + v.x * timestep) as i32,
                    y: clamp_to_grid(body.transform.position.y + v.y * timestep) as i32,
                },
                scale: body.transform.scale,
            },
            rigid_body: RigidBody {
                velocity: Vector {
                    x: clamp_to_grid(v.x + body.rigid_body.acceleration.x * timestep) as i32,
                    y: clamp_to_grid(v.y + body.rigid_body.acceleration.y * timestep) as i32,
                },
                acceleration: body.rigid_body.acceleration,
            },
            collider: body.collider,
        },
        events,
    )
}

fn cancel(speed: i32, time: Ratio) -> (c: i128)
    requires
        time@.in_unit(),
        time.den <= 0x1_0000_0000_0000_0000,
    ensures
        c == cancelled(abs(speed as int), time@),
        0 <= c <= abs(speed as int),
{
    let size: i128 = if speed < 0 {
        -(speed as i128)
    } else {
        speed as i128
    };
    let rest: i128 = time.den - time.num;
    proof {
        assert(0 <= size * rest <= 0x8000_0000 * 0x1_0000_0000_0000_0000) by (nonlinear_arith)
            requires
                0 <= size <= 0x8000_0000,
                0 <= rest <= 0x1_0000_0000_0000_0000,
        ;
        let den = time.den as int;
        let a = size as int * rest as int;
        assert(a <= size * den) by (nonlinear_arith)
            requires
                a == size * rest,
                0 <= rest <= den,
                0 <= size,
        ;
        assert((a + den - 1) / den <= size) by (nonlinear_arith)
            requires
                0 <= a <= size * den,
                den > 0,
        ;
        assert(0 <= (a + den - 1) / den) by (nonlinear_arith)
            requires
                0 <= a,
                den > 0,
        ;
    }
    (size * rest + time.den - 1) / time.den
}

fn correct(speed: i32, normal: i32, time: Ratio) -> (v: i32)
    requires
        time@.in_unit(),
        time.den <= 0x1_0000_0000_0000_0000,
        -1 <= normal <= 1,
    ensures
        v == corrected(speed as int, normal as int, time@),
{
    let c = cancel(speed, time);
    assert(normal * c == if normal == 0 {
        0
    } else if normal == 1 {
        c as int
    } else {
        -c
    }) by (nonlinear_arith)
        requires
            -1 <= normal <= 1,
    ;
    if normal == 0 {
        clamp(speed as i128)
    } else if normal == 1 {
        clamp(speed as i128 + c)
    } else {
        clamp(speed as i128 - c)
    }
}

/// The narrow phase of one body against its candidates; the events are
/// appended to `events`.
fn narrow_phase(
    position: Point,
    size: Size,
    velocity: Vector,
    source: TreeObjectSource,
    candidates: &Vec<TreeObject>,
    timestep: i32,
    events: &mut Vec<CollisionEvent>,
) -> (left: Vector)
    ensures
        left == resolve(position, size, velocity, source, candidates@, timestep).0,
        final(events)@ == old(events)@ + resolve(
            position,
            size,
            velocity,
            source,
            candidates@,
            timestep,
        ).1,
{
    let mut v = velocity;
    let mut i: usize = 0;
    assert(candidates@.take(0) =~= Seq::<TreeObject>::empty());
    assert(events@ + Seq::<CollisionEvent>::empty() =~= events@);
    while i < candidates.len()
        invariant
            i <= candidates.len(),
            v == resolve(position, size, velocity, source, candidates@.take(i as int), timestep).0,
            events@ == old(events)@ + resolve(
                position,
                size,
                velocity,
                source,
                candidates@.take(i as int),
                timestep,
            ).1,
        decreases candidates.len() - i,
    {
        let other = candidates[i];
        proof {
            let next = candidates@.take(i + 1);
            assert(next.drop_last() =~= candidates@.take(i as int));
            assert(next.last() == other);
        }
        let ghost before = events@;
        match other.source {
            TreeObjectSource::Environment => {
                let hit = dynrect_vs_rect(position, size, v, other.position, other.size, timestep);
                if let Some(collision) = hit {
                    proof {
                        lemma_sweep_hit_shape(
                            position,
                            size,
                            v,
                            other.position,
                            other.size,
                            timestep,
                        );
                    }
                    v = Vector {
                        x: correct(v.x, collision.contact_normal.x, collision.contact_time),
                        y: correct(v.y, collision.contact_normal.y, collision.contact_time),
                    };
                    events.push(CollisionEvent { source1: source, source2: other.source });
                    assert(events@ =~= old(events)@ + resolve(
                        position,
                        size,
                        velocity,
                        source,
                        candidates@.take(i + 1),
                        timestep,
                    ).1);
                }
            },
            TreeObjectSource::Entity { .. } => {},
        }
        i += 1;
    }
    assert(candidates@.take(candidates@.len() as int) =~= candidates@);
    v
}

/// The body after one tick, given its candidates; the events are appended to
/// `events`.
fn step(
    body: Body,
    candidates: &Vec<TreeObject>,
    timestep: i32,
    events: &mut Vec<CollisionEvent>,
) -> (moved: Body)
    ensures
        moved == advance(body, candidates@, timestep).0,
        final(events)@ == old(events)@ + advance(body, candidates@, timestep).1,
{
    let position = body.transform.position.offset_by(body.collider.offset);
    let source = TreeObjectSource::Entity { handle: body.entity };
    let v = narrow_phase(
        position,
        body.collider.size,
        body.rigid_body.velocity,
        source,
        candidates,
        timestep,
        events,
    );
    let acceleration = body.rigid_body.acceleration;
    Body {
        entity: body.entity,
        transform: Transform {
            position: Point {
                x: clamp(body.transform.position.x as i128 + travel(v.x, timestep)),
                y: clamp(body.transform.position.y as i128 + travel(v.y, timestep)),
            },
            scale: body.transform.scale,
        },
        rigid_body: RigidBody {
            velocity: Vector {
                x: clamp(v.x as i128 + travel(acceleration.x, timestep)),
                y: clamp(v.y as i128 + travel(acceleration.y, timestep)),
            },
            acceleration: acceleration,
        },
        collider: body.collider,
    }
}

/// The collider that stands for a body that has moved, for the rest of the
/// tick.
pub open spec fn transient(moved: Body) -> TreeObject {
    TreeObject {
        position: collider_position(moved),
        size: moved.collider.size,
        source: body_source(moved),
    }
}

/// The state of the index once the first `count` of the bodies have moved and
/// have left their transient colliders in it.
pub open spec fn with_transients(state: IndexState, moved: Seq<Body>, count: nat) -> IndexState
    decreases count,
{
    if count == 0 {
        state
    } else {
        with_transients(state, moved, (count - 1) as nat).add(transient(moved[count - 1]))
    }
}

/// The events of the first `count` bodies, body after body.
pub open spec fn events_of(
    bodies: Seq<Body>,
    picks: Seq<Seq<TreeObject>>,
    timestep: i32,
    count: nat,
) -> Seq<CollisionEvent>
    decreases count,
{
    if count == 0 {
        Seq::empty()
    } else {
        events_of(bodies, picks, timestep, (count - 1) as nat) + advance(
            bodies[count - 1],
            picks[count - 1],
            timestep,
        ).1
    }
}

/// The box in which a body looks for candidates.
pub open spec fn search_area(body: Body, timestep: i32) -> Envelope {
    sweep_envelope(
        collider_position(body),
        body.collider.size,
        body.rigid_body.velocity,
        timestep,
    )
}

/// What one tick does, given for each body the candidates of its broad phase
/// in the order in which they came (`picks`): body `i` finds the colliders of
/// the index, and the transient ones of the bodies before it, that lie in its
/// search area; it becomes what `advance` makes of it; and the events are
/// those of all bodies, body after body.
pub open spec fn ticked(
    state: IndexState,
    before: Seq<Body>,
    timestep: i32,
    picks: Seq<Seq<TreeObject>>,
    after: Seq<Body>,
    events: Seq<CollisionEvent>,
) -> bool {
    &&& picks.len() == before.len()
    &&& after.len() == before.len()
    &&& forall|i: int|
        0 <= i < before.len() ==> with_transients(state, after, i as nat).lists(
            search_area(before[i], timestep),
            #[trigger] picks[i],
        )
    &&& forall|i: int|
        0 <= i < before.len() ==> (#[trigger] after[i]) == advance(
            before[i],
            picks[i],
            timestep,
        ).0
    &&& events == events_of(before, picks, timestep, before.len())
}

/// Transient colliders depend only on the bodies that have moved so far.
proof fn lemma_with_transients_prefix(state: IndexState, a: Seq<Body>, b: Seq<Body>, count: nat)
    requires
        count <= a.len(),
        count <= b.len(),
        forall|i: int| 0 <= i < count ==> a[i] == b[i],
    ensures
        with_transients(state, a, count) == with_transients(state, b, count),
    decreases count,
{
    if count > 0 {
        lemma_with_transients_prefix(state, a, b, (count - 1) as nat);
    }
}

/// The events of the first bodies depend only on their candidates.
proof fn lemma_events_of_prefix(
    bodies: Seq<Body>,
    a: Seq<Seq<TreeObject>>,
    b: Seq<Seq<TreeObject>>,
    timestep: i32,
    count: nat,
)
    requires
        count <= a.len(),
        count <= b.len(),
        forall|i: int| 0 <= i < count ==> a[i] == b[i],
    ensures
        events_of(bodies, a, timestep, count) == events_of(bodies, b, timestep, count),
    decreases count,
{
    if count > 0 {
        lemma_events_of_prefix(bodies, a, b, timestep, (count - 1) as nat);
    }
}

/// With transient colliders the index holds what it held, and under the next
/// identifiers, in order, the transient colliders.
proof fn lemma_with_transients_holds(state: IndexState, moved: Seq<Body>, count: nat)
    requires
        state.valid(),
        state.next_id + count <= u64::MAX,
        count <= moved.len(),
    ensures
        with_transients(state, moved, count).next_id == state.next_id + count,
        with_transients(state, moved, count).valid(),
        forall|id: u64|
            id < state.next_id ==> (#[trigger] with_transients(
                state,
                moved,
                count,
            ).colliders.contains_key(id) <==> state.colliders.contains_key(id)),
        forall|id: u64|
            state.colliders.contains_key(id) ==> #[trigger] with_transients(
                state,
                moved,
                count,
            ).colliders[id] == state.colliders[id],
        forall|id: u64|
            state.next_id <= id ==> (#[trigger] with_transients(
                state,
                moved,
                count,
            ).colliders.contains_key(id) <==> id < state.next_id + count),
    decreases count,
{
    if count > 0 {
        lemma_with_transients_holds(state, moved, (count - 1) as nat);
    }
}

/// On one axis: a rectangle of extent `w1` at `p1`, moving by `travel`, that
/// at the time `num / den` of the step touches a rectangle of extent `w2` at
/// `p2`, has that rectangle in the span it sweeps.
proof fn lemma_axis_in_reach(p1: int, w1: int, travel: int, p2: int, w2: int, num: int, den: int)
    requires
        0 <= num < den,
        0 <= w1,
        0 <= w2,
        (2 * p2 - w1) * den <= (2 * p1 + w1) * den + num * (2 * travel),
        (2 * p1 + w1) * den + num * (2 * travel) <= (2 * p2 + 2 * w2 + w1) * den,
    ensures
        p2 <= max(p1 + w1, p1 + travel + w1),
        p2 + w2 >= min(p1, p1 + travel),
{
    if travel >= 0 {
        assert(p2 <= p1 + travel + w1) by (nonlinear_arith)
            requires
                (2 * p2 - w1) * den <= (2 * p1 + w1) * den + num * (2 * travel),
                0 <= num < den,
                travel >= 0,
        ;
        assert(p2 + w2 >= p1) by (nonlinear_arith)
            requires
                (2 * p1 + w1) * den + num * (2 * travel) <= (2 * p2 + 2 * w2 + w1) * den,
                0 <= num < den,
                travel >= 0,
        ;
    } else {
        assert(p2 <= p1 + w1) by (nonlinear_arith)
            requires
                (2 * p2 - w1) * den <= (2 * p1 + w1) * den + num * (2 * travel),
                0 <= num < den,
                travel < 0,
        ;
        assert(p2 + w2 >= p1 + travel) by (nonlinear_arith)
            requires
                (2 * p1 + w1) * den + num * (2 * travel) <= (2 * p2 + 2 * w2 + w1) * den,
                0 <= num < den,
                travel < 0,
        ;
    }
}

/// The broad phase misses nothing: a collider that a moving rectangle would
/// hit during the step has a point in common with the box that the broad
/// phase searches, however fast the rectangle and however thin the collider.
pub proof fn lemma_hit_is_in_reach(
    position: Point,
    size: Size,
    velocity: Vector,
    other: TreeObject,
    timestep: i32,
)
    requires
        sweep_hit(position, size, velocity, other.position, other.size, timestep) is Some,
    ensures
        other.envelope().intersects(sweep_envelope(position, size, velocity, timestep)),
{
    lemma_contact_in_rectangle(
        2 * position.x + size.w,
        2 * position.y + size.h,
        2 * (velocity.x * timestep),
        2 * (velocity.y * timestep),
        2 * other.position.x - size.w,
        2 * other.position.y - size.h,
        2 * other.position.x + 2 * other.size.w + size.w,
        2 * other.position.y + 2 * other.size.h + size.h,
    );
    let hit = slab_hit(
        2 * position.x + size.w,
        2 * position.y + size.h,
        2 * (velocity.x * timestep),
        2 * (velocity.y * timestep),
        2 * other.position.x - size.w,
        2 * other.position.y - size.h,
        2 * other.position.x + 2 * other.size.w + size.w,
        2 * other.position.y + 2 * other.size.h + size.h,
    )->Some_0;
    lemma_axis_in_reach(
        position.x as int,
        size.w as int,
        velocity.x * timestep,
        other.position.x as int,
        other.size.w as int,
        hit.time.num,
        hit.time.den,
    );
    lemma_axis_in_reach(
        position.y as int,
        size.h as int,
        velocity.y * timestep,
        other.position.y as int,
        other.size.h as int,
        hit.time.num,
        hit.time.den,
    );
}

/// What is left of a speed after a contact covers no more than the way to
/// the contact: with `gap` the way to the contact in half units, and `2 *
/// speed * timestep` the way of the whole step in half units.
proof fn lemma_rest_of_speed(speed: int, timestep: int, gap: int)
    requires
        speed > 0,
        timestep > 0,
        0 <= gap < 2 * (speed * timestep),
    ensures
        0 <= cancelled(speed, Frac { num: gap, den: 2 * (speed * timestep) }) <= speed,
        2 * ((speed - cancelled(speed, Frac { num: gap, den: 2 * (speed * timestep) }))
            * timestep) <= gap,
{
    let den = 2 * (speed * timestep);
    let a = speed * (den - gap);
    let c = (a + den - 1) / den;
    assert(a >= 0 && a <= speed * den) by (nonlinear_arith)
        requires
            a == speed * (den - gap),
            0 <= gap < den,
            speed > 0,
    ;
    assert(0 <= c <= speed && c * den >= a) by (nonlinear_arith)
        requires
            c == (a + den - 1) / den,
            0 <= a <= speed * den,
            den > 0,
    ;
    assert(2 * ((speed - c) * timestep) <= gap) by (nonlinear_arith)
        requires
            c * den >= speed * (den - gap),
            den == 2 * (speed * timestep),
            speed > 0,
            timestep > 0,
            0 <= c <= speed,
    ;
}

/// On one axis: a rectangle of extent `w1` at `p1` that, moving at `speed`,
/// first meets a rectangle of extent `w2` at `p2` on this axis, and is
/// corrected, ends the step on its own side of that rectangle.
proof fn lemma_axis_stops(p1: int, w1: int, speed: int, timestep: int, p2: int, w2: int)
    requires
        timestep > 0,
        0 <= w1,
        0 <= w2,
        i32::MIN <= speed <= i32::MAX,
        near_time(
            2 * p1 + w1,
            2 * (speed * timestep),
            2 * p2 - w1,
            2 * p2 + 2 * w2 + w1,
        ).in_unit(),
    ensures
        ({
            let time = near_time(
                2 * p1 + w1,
                2 * (speed * timestep),
                2 * p2 - w1,
                2 * p2 + 2 * w2 + w1,
            );
            let normal = opposing(2 * (speed * timestep));
            let left = corrected(speed, normal, time);
            &&& normal == -1 ==> p1 + w1 + left * timestep <= p2
            &&& normal == 1 ==> p1 + left * timestep >= p2 + w2
        }),
{
    let origin = 2 * p1 + w1;
    let dir = 2 * (speed * timestep);
    let lo = 2 * p2 - w1;
    let hi = 2 * p2 + 2 * w2 + w1;
    let time = near_time(origin, dir, lo, hi);
    if speed > 0 {
        assert(speed * timestep > 0) by (nonlinear_arith)
            requires
                speed > 0,
                timestep > 0,
        ;
        assert((hi - origin) * dir >= (lo - origin) * dir) by (nonlinear_arith)
            requires
                hi >= lo,
                dir > 0,
        ;
        assert(time == Frac { num: lo - origin, den: dir });
        lemma_rest_of_speed(speed, timestep, lo - origin);
        let c = cancelled(speed, time);
        assert(-1 * c == -c);
        assert((speed - c) * timestep * 2 == 2 * ((speed - c) * timestep)) by (nonlinear_arith);
    } else if speed < 0 {
        assert(speed * timestep < 0) by (nonlinear_arith)
            requires
                speed < 0,
                timestep > 0,
        ;
        if hi > lo {
            assert((origin - hi) * (-dir) < (origin - lo) * (-dir)) by (nonlinear_arith)
                requires
                    hi > lo,
                    dir < 0,
            ;
        }
        assert(time.num == origin - hi && time.den == -dir);
        assert(-dir == 2 * ((-speed) * timestep)) by (nonlinear_arith)
            requires
                dir == 2 * (speed * timestep),
        ;
        lemma_rest_of_speed(-speed, timestep, origin - hi);
        let c = cancelled(-speed, time);
        assert(time == Frac { num: origin - hi, den: 2 * ((-speed) * timestep) });
        assert(1 * c == c);
        assert(((-speed) - c) * timestep == -((speed + c) * timestep)) by (nonlinear_arith);
    } else {
        assert(speed * timestep == 0) by (nonlinear_arith)
            requires
                speed == 0,
        ;
    }
}

/// A body that hits a collider stops at it: when time runs forwards, the
/// velocity that a contact leaves ends the step with the body on its own side
/// of the collider, on the axis of the contact.
pub proof fn lemma_stops_at_contact(
    position: Point,
    size: Size,
    velocity: Vector,
    other: TreeObject,
    timestep: i32,
)
    requires
        timestep > 0,
        sweep_hit(position, size, velocity, other.position, other.size, timestep) is Some,
    ensures
        ({
            let hit = sweep_hit(
                position,
                size,
                velocity,
                other.position,
                other.size,
                timestep,
            )->Some_0;
            let left = respond(velocity, hit);
            &&& hit.normal_x == -1 ==> position.x + size.w + left.x * timestep
                <= other.position.x
            &&& hit.normal_x == 1 ==> position.x + left.x * timestep >= other.position.x
                + other.size.w
            &&& hit.normal_y == -1 ==> position.y + size.h + left.y * timestep
                <= other.position.y
            &&& hit.normal_y == 1 ==> position.y + left.y * timestep >= other.position.y
                + other.size.h
        }),
{
    reveal(slab_hit);
    let hit = sweep_hit(position, size, velocity, other.position, other.size, timestep)->Some_0;
    if hit.normal_x != 0 {
        lemma_axis_stops(
            position.x as int,
            size.w as int,
            velocity.x as int,
            timestep as int,
            other.position.x as int,
            other.size.w as int,
        );
    }
    if hit.normal_y != 0 {
        lemma_axis_stops(
            position.y as int,
            size.h as int,
            velocity.y as int,
            timestep as int,
            other.position.y as int,
            other.size.h as int,
        );
    }
}

/// Whether `inner` is what is left of `outer` after some slowing down: no
/// component has changed its direction or grown.
pub open spec fn slowed(inner: Vector, outer: Vector) -> bool {
    &&& (0 <= inner.x <= outer.x || outer.x <= inner.x <= 0)
    &&& (0 <= inner.y <= outer.y || outer.y <= inner.y <= 0)
}

/// A contact cancels no more than there is: between nothing and the whole
/// speed.
pub proof fn lemma_cancelled_bounds(speed: int, time: Frac)
    requires
        speed >= 0,
        time.in_unit(),
    ensures
        0 <= cancelled(speed, time) <= speed,
{
    let den = time.den;
    let a = speed * (den - time.num);
    assert(0 <= a <= speed * den) by (nonlinear_arith)
        requires
            a == speed * (den - time.num),
            0 <= time.num < den,
            speed >= 0,
    ;
    assert(0 <= (a + den - 1) / den <= speed) by (nonlinear_arith)
        requires
            0 <= a <= speed * den,
            den > 0,
    ;
}

/// When time runs forwards, a contact only slows a body down.
pub proof fn lemma_contact_slows(
    position: Point,
    size: Size,
    velocity: Vector,
    other: TreeObject,
    timestep: i32,
)
    requires
        timestep >= 0,
        sweep_hit(position, size, velocity, other.position, other.size, timestep) is Some,
    ensures
        slowed(
            respond(
                velocity,
                sweep_hit(position, size, velocity, other.position, other.size, timestep)->Some_0,
            ),
            velocity,
        ),
{
    reveal(slab_hit);
    let hit = sweep_hit(position, size, velocity, other.position, other.size, timestep)->Some_0;
    lemma_cancelled_bounds(abs(velocity.x as int), hit.time);
    lemma_cancelled_bounds(abs(velocity.y as int), hit.time);
    let cx = cancelled(abs(velocity.x as int), hit.time);
    let cy = cancelled(abs(velocity.y as int), hit.time);
    if timestep == 0 {
        lemma_no_motion_no_collision(
            position,
            size,
            velocity,
            other.position,
            other.size,
            timestep,
        );
    }
    lemma_normal_opposes_velocity(position, size, velocity, other, timestep);
    assert(-1 * cx == -cx && 1 * cx == cx && 0 * cx == 0);
    assert(-1 * cy == -cy && 1 * cy == cy && 0 * cy == 0);
}

/// When time runs forwards, the narrow phase only slows a body down.
pub proof fn lemma_resolve_slows(
    position: Point,
    size: Size,
    velocity: Vector,
    source: TreeObjectSource,
    candidates: Seq<TreeObject>,
    timestep: i32,
)
    requires
        timestep >= 0,
    ensures
        slowed(resolve(position, size, velocity, source, candidates, timestep).0, velocity),
    decreases candidates.len(),
{
    if candidates.len() > 0 {
        lemma_resolve_slows(position, size, velocity, source, candidates.drop_last(), timestep);
        let v = resolve(position, size, velocity, source, candidates.drop_last(), timestep).0;
        let other = candidates.last();
        if other.source is Environment && sweep_hit(
            position,
            size,
            v,
            other.position,
            other.size,
            timestep,
        ) is Some {
            lemma_contact_slows(position, size, v, other, timestep);
        }
    }
}

/// A body that has slowed down sweeps no more than it would have swept.
pub proof fn lemma_slowed_sweeps_less(
    position: Point,
    size: Size,
    inner: Vector,
    outer: Vector,
    timestep: i32,
    other: TreeObject,
)
    requires
        timestep >= 0,
        slowed(inner, outer),
        other.envelope().intersects(sweep_envelope(position, size, inner, timestep)),
    ensures
        other.envelope().intersects(sweep_envelope(position, size, outer, timestep)),
{
    assert(0 <= inner.x * timestep <= outer.x * timestep || outer.x * timestep <= inner.x
        * timestep <= 0) by (nonlinear_arith)
        requires
            0 <= inner.x <= outer.x || outer.x <= inner.x <= 0,
            timestep >= 0,
    ;
    assert(0 <= inner.y * timestep <= outer.y * timestep || outer.y * timestep <= inner.y
        * timestep <= 0) by (nonlinear_arith)
        requires
            0 <= inner.y <= outer.y || outer.y <= inner.y <= 0,
            timestep >= 0,
    ;
}

/// The broad phase does not change the outcome: when time runs forwards, a
/// collider outside the box that the broad phase searches, put anywhere among
/// the candidates, changes neither the velocity that is left nor the events.
pub proof fn lemma_unreached_collider_changes_nothing(
    position: Point,
    size: Size,
    velocity: Vector,
    source: TreeObjectSource,
    candidates: Seq<TreeObject>,
    timestep: i32,
    at: int,
    unreached: TreeObject,
)
    requires
        timestep >= 0,
        0 <= at <= candidates.len(),
        !unreached.envelope().intersects(sweep_envelope(position, size, velocity, timestep)),
    ensures
        resolve(position, size, velocity, source, candidates.insert(at, unreached), timestep)
            == resolve(position, size, velocity, source, candidates, timestep),
    decreases candidates.len() - at,
{
    let with = candidates.insert(at, unreached);
    if at == candidates.len() {
        assert(with.drop_last() =~= candidates);
        assert(with.last() == unreached);
        let v = resolve(position, size, velocity, source, candidates, timestep).0;
        lemma_resolve_slows(position, size, velocity, source, candidates, timestep);
        if sweep_hit(position, size, v, unreached.position, unreached.size, timestep) is Some {
            lemma_hit_is_in_reach(position, size, v, unreached, timestep);
            lemma_slowed_sweeps_less(position, size, v, velocity, timestep, unreached);
        }
    } else {
        assert(with.drop_last() =~= candidates.drop_last().insert(at, unreached));
        assert(with.last() == candidates.last());
        lemma_unreached_collider_changes_nothing(
            position,
            size,
            velocity,
            source,
            candidates.drop_last(),
            timestep,
            at,
            unreached,
        );
    }
}

/// The narrow phase can be taken in two parts: the candidates that come
/// first, then the others, starting from the velocity that the first left.
pub proof fn lemma_resolve_in_parts(
    position: Point,
    size: Size,
    velocity: Vector,
    source: TreeObjectSource,
    first: Seq<TreeObject>,
    others: Seq<TreeObject>,
    timestep: i32,
)
    ensures
        ({
            let whole = resolve(position, size, velocity, source, first + others, timestep);
            let head = resolve(position, size, velocity, source, first, timestep);
            let tail = resolve(position, size, head.0, source, others, timestep);
            whole == (tail.0, head.1 + tail.1)
        }),
    decreases others.len(),
{
    let head = resolve(position, size, velocity, source, first, timestep);
    if others.len() == 0 {
        assert(first + others =~= first);
        assert(head.1 + Seq::<CollisionEvent>::empty() =~= head.1);
    } else {
        lemma_resolve_in_parts(
            position,
            size,
            velocity,
            source,
            first,
            others.drop_last(),
            timestep,
        );
        assert((first + others).drop_last() =~= first + others.drop_last());
        assert((first + others).last() == others.last());
        let tail = resolve(position, size, head.0, source, others, timestep);
        let shorter = resolve(position, size, head.0, source, others.drop_last(), timestep);
        assert(head.1 + tail.1 =~= resolve(
            position,
            size,
            velocity,
            source,
            first + others,
            timestep,
        ).1) by {
            if tail.1.len() > shorter.1.len() {
                assert(head.1 + shorter.1.push(tail.1.last()) =~= (head.1 + shorter.1).push(
                    tail.1.last(),
                ));
            }
        }
    }
}

/// When time runs forwards, the normal of a contact points against the
/// velocity on its axis.
pub proof fn lemma_normal_opposes_velocity(
    position: Point,
    size: Size,
    velocity: Vector,
    other: TreeObject,
    timestep: i32,
)
    requires
        timestep > 0,
        sweep_hit(position, size, velocity, other.position, other.size, timestep) is Some,
    ensures
        ({
            let hit = sweep_hit(
                position,
                size,
                velocity,
                other.position,
                other.size,
                timestep,
            )->Some_0;
            &&& hit.normal_x == -1 ==> velocity.x >= 0
            &&& hit.normal_x == 1 ==> velocity.x < 0
            &&& hit.normal_y == -1 ==> velocity.y >= 0
            &&& hit.normal_y == 1 ==> velocity.y < 0
        }),
{
    reveal(slab_hit);
    let hit = sweep_hit(position, size, velocity, other.position, other.size, timestep)->Some_0;
    assert(hit.normal_x == -1 ==> velocity.x >= 0) by (nonlinear_arith)
        requires
            hit.normal_x == -1 ==> 2 * (velocity.x * timestep) >= 0,
            timestep > 0,
    ;
    assert(hit.normal_x == 1 ==> velocity.x < 0) by (nonlinear_arith)
        requires
            hit.normal_x == 1 ==> 2 * (velocity.x * timestep) < 0,
            timestep > 0,
    ;
    assert(hit.normal_y == -1 ==> velocity.y >= 0) by (nonlinear_arith)
        requires
            hit.normal_y == -1 ==> 2 * (velocity.y * timestep) >= 0,
            timestep > 0,
    ;
    assert(hit.normal_y == 1 ==> velocity.y < 0) by (nonlinear_arith)
        requires
            hit.normal_y == 1 ==> 2 * (velocity.y * timestep) < 0,
            timestep > 0,
    ;
}

/// No collider that stopped a body is crossed: when time runs forwards, the
/// velocity that the whole narrow phase leaves ends the step with the body on
/// its own side of every environment collider that it hit, on the axis of
/// that contact, whatever the candidates after it did to the velocity.
pub proof fn lemma_hit_collider_is_not_crossed(
    position: Point,
    size: Size,
    velocity: Vector,
    source: TreeObjectSource,
    candidates: Seq<TreeObject>,
    timestep: i32,
    at: int,
)
    requires
        timestep > 0,
        0 <= at < candidates.len(),
        candidates[at].source is Environment,
        sweep_hit(
            position,
            size,
            resolve(position, size, velocity, source, candidates.take(at), timestep).0,
            candidates[at].position,
            candidates[at].size,
            timestep,
        ) is Some,
    ensures
        ({
            let other = candidates[at];
            let before = resolve(position, size, velocity, source, candidates.take(at), timestep).0;
            let hit = sweep_hit(
                position,
                size,
                before,
                other.position,
                other.size,
                timestep,
            )->Some_0;
            let left = resolve(position, size, velocity, source, candidates, timestep).0;
            &&& hit.normal_x == -1 ==> position.x + size.w + left.x * timestep
                <= other.position.x
            &&& hit.normal_x == 1 ==> position.x + left.x * timestep >= other.position.x
                + other.size.w
            &&& hit.normal_y == -1 ==> position.y + size.h + left.y * timestep
                <= other.position.y
            &&& hit.normal_y == 1 ==> position.y + left.y * timestep >= other.position.y
                + other.size.h
        }),
{
    let other = candidates[at];
    let first = candidates.take(at + 1);
    let others = candidates.skip(at + 1);
    let before = resolve(position, size, velocity, source, candidates.take(at), timestep).0;
    let hit = sweep_hit(position, size, before, other.position, other.size, timestep)->Some_0;
    let stopped = respond(before, hit);
    let left = resolve(position, size, velocity, source, candidates, timestep).0;
    assert(first.drop_last() =~= candidates.take(at));
    assert(first.last() == other);
    assert(resolve(position, size, velocity, source, first, timestep).0 == stopped);
    assert(first + others =~= candidates);
    lemma_resolve_in_parts(position, size, velocity, source, first, others, timestep);
    lemma_resolve_slows(position, size, stopped, source, others, timestep);
    lemma_contact_slows(position, size, before, other, timestep);
    lemma_normal_opposes_velocity(position, size, before, other, timestep);
    lemma_stops_at_contact(position, size, before, other, timestep);
    assert(hit.normal_x == -1 ==> left.x * timestep <= stopped.x * timestep) by (nonlinear_arith)
        requires
            hit.normal_x == -1 ==> 0 <= left.x <= stopped.x,
            timestep > 0,
    ;
    assert(hit.normal_x == 1 ==> left.x * timestep >= stopped.x * timestep) by (nonlinear_arith)
        requires
            hit.normal_x == 1 ==> stopped.x <= left.x <= 0,
            timestep > 0,
    ;
    assert(hit.normal_y == -1 ==> left.y * timestep <= stopped.y * timestep) by (nonlinear_arith)
        requires
            hit.normal_y == -1 ==> 0 <= left.y <= stopped.y,
            timestep > 0,
    ;
    assert(hit.normal_y == 1 ==> left.y * timestep >= stopped.y * timestep) by (nonlinear_arith)
        requires
            hit.normal_y == 1 ==> stopped.y <= left.y <= 0,
            timestep > 0,
    ;
}

/// A body at rest is not stopped by anything: with zero velocity no candidate
/// gives an event, and the velocity stays zero.
pub proof fn lemma_rest_resolves_to_rest(
    position: Point,
    size: Size,
    source: TreeObjectSource,
    candidates: Seq<TreeObject>,
    timestep: i32,
)
    ensures
        resolve(position, size, Vector { x: 0, y: 0 }, source, candidates, timestep) == (
            Vector { x: 0, y: 0 },
            Seq::<CollisionEvent>::empty(),
        ),
    decreases candidates.len(),
{
    if candidates.len() > 0 {
        lemma_rest_resolves_to_rest(position, size, source, candidates.drop_last(), timestep);
        let other = candidates.last();
        lemma_no_motion_no_collision(
            position,
            size,
            Vector { x: 0, y: 0 },
            other.position,
            other.size,
            timestep,
        );
    }
}

/// A body at rest, whatever its acceleration and its candidates, gives no
/// event in its tick; it stays where it is, and leaves the tick with the
/// velocity `acceleration * timestep`, kept on the grid.
pub proof fn lemma_tick_from_rest(body: Body, candidates: Seq<TreeObject>, timestep: i32)
    requires
        body.rigid_body.velocity == (Vector { x: 0, y: 0 }),
    ensures
        advance(body, candidates, timestep).1 == Seq::<CollisionEvent>::empty(),
        advance(body, candidates, timestep).0.transform == body.transform,
        advance(body, candidates, timestep).0.rigid_body.velocity.x == clamp_to_grid(
            body.rigid_body.acceleration.x * timestep,
        ),
        advance(body, candidates, timestep).0.rigid_body.velocity.y == clamp_to_grid(
            body.rigid_body.acceleration.y * timestep,
        ),
{
    lemma_rest_resolves_to_rest(
        collider_position(body),
        body.collider.size,
        body_source(body),
        candidates,
        timestep,
    );
    assert(0 * timestep == 0);
}

/// In a tick, a body that was at rest gives no event and stays where it is,
/// and its velocity afterwards is its acceleration times the timestep, kept on
/// the grid.
pub proof fn lemma_rest_in_tick(
    state: IndexState,
    before: Seq<Body>,
    timestep: i32,
    picks: Seq<Seq<TreeObject>>,
    after: Seq<Body>,
    events: Seq<CollisionEvent>,
    at: int,
)
    requires
        ticked(state, before, timestep, picks, after, events),
        0 <= at < before.len(),
        before[at].rigid_body.velocity == (Vector { x: 0, y: 0 }),
    ensures
        advance(before[at], picks[at], timestep).1 == Seq::<CollisionEvent>::empty(),
        after[at].transform == before[at].transform,
        after[at].rigid_body.velocity.x == clamp_to_grid(
            before[at].rigid_body.acceleration.x * timestep,
        ),
        after[at].rigid_body.velocity.y == clamp_to_grid(
            before[at].rigid_body.acceleration.y * timestep,
        ),
{
    lemma_tick_from_rest(before[at], picks[at], timestep);
    assert(after[at] == advance(before[at], picks[at], timestep).0);
}

/// A tick in which every body was at rest gives no event at all.
pub proof fn lemma_rest_gives_no_event(
    state: IndexState,
    before: Seq<Body>,
    timestep: i32,
    picks: Seq<Seq<TreeObject>>,
    after: Seq<Body>,
    events: Seq<CollisionEvent>,
)
    requires
        ticked(state, before, timestep, picks, after, events),
        forall|i: int|
            0 <= i < before.len() ==> (#[trigger] before[i]).rigid_body.velocity == (Vector {
                x: 0,
                y: 0,
            }),
    ensures
        events == Seq::<CollisionEvent>::empty(),
{
    lemma_no_events_from_rest(before, picks, timestep, before.len());
}

/// The bodies at rest among the first `count` give no event.
proof fn lemma_no_events_from_rest(
    bodies: Seq<Body>,
    picks: Seq<Seq<TreeObject>>,
    timestep: i32,
    count: nat,
)
    requires
        count <= bodies.len(),
        forall|i: int|
            0 <= i < count ==> (#[trigger] bodies[i]).rigid_body.velocity == (Vector {
                x: 0,
                y: 0,
            }),
    ensures
        events_of(bodies, picks, timestep, count) == Seq::<CollisionEvent>::empty(),
    decreases count,
{
    if count > 0 {
        lemma_no_events_from_rest(bodies, picks, timestep, (count - 1) as nat);
        lemma_tick_from_rest(bodies[count - 1], picks[count - 1], timestep);
        assert(events_of(bodies, picks, timestep, count) =~= Seq::<CollisionEvent>::empty());
    }
}

/// Simulates physics.
pub struct Simulator {
    tree: CollisionTree,
    /// Whether a tick leaves markers at the corners of the colliders.
    show_hitboxes: bool,
    /// The markers of the last tick.
    markers: Vec<Point>,
}

impl View for Simulator {
    type V = IndexState;

    closed spec fn view(&self) -> IndexState {
        self.tree@
    }
}

/// Whether every collider is an environment collider.
pub open spec fn only_environment(state: IndexState) -> bool {
    forall|id: u64| #[trigger]
        state.colliders.contains_key(id) ==> state.colliders[id].source is Environment
}

impl Simulator {
    /// Whether the simulator is between two ticks: its tree is consistent
    /// and holds environment colliders only.
    pub closed spec fn wf(&self) -> bool {
        &&& self.tree.wf()
        &&& only_environment(self.tree@)
    }

    /// Between two ticks the simulator holds environment colliders only, and
    /// every identifier in use was issued before the next one.
    pub proof fn lemma_between_ticks(&self)
        requires
            self.wf(),
        ensures
            only_environment(self@),
            self@.valid(),
    {
        self.tree.lemma_wf_valid();
    }

    /// Whether `count` bodies can be given a tick: each takes one identifier.
    pub fn has_room(&self, count: usize) -> (room: bool)
        ensures
            room == (self@.next_id + count <= u64::MAX),
    {
        self.tree.has_room(count)
    }

    /// Whether a tick leaves markers at the corners of the colliders.
    pub closed spec fn shows_hitboxes(&self) -> bool {
        self.show_hitboxes
    }

    /// The markers that the last tick left.
    pub closed spec fn marked(&self) -> Seq<Point> {
        self.markers@
    }

    /// Create a new simulator. It holds no collider and shows no hitboxes.
    pub fn new() -> (simulator: Self)
        ensures
            simulator.wf(),
            simulator@.colliders == Map::<u64, TreeObject>::empty(),
            simulator@.next_id == 0,
            !simulator.shows_hitboxes(),
            simulator.marked() == Seq::<Point>::empty(),
    {
        Self::default()
    }

    /// Choose whether the ticks to come leave markers at the corners of the
    /// colliders. The markers are for the eye only: nothing else depends on
    /// them.
    pub fn show_hitboxes(&mut self, show: bool)
        requires
            old(self).wf(),
        ensures
            final(self).wf(),
            final(self)@ == old(self)@,
            final(self).shows_hitboxes() == show,
            final(self).marked() == old(self).marked(),
    {
        self.show_hitboxes = show;
    }

    /// The markers that the last tick left: the four corners of each collider
    /// that the tree held when all bodies had moved.
    pub fn markers(&self) -> (markers: &Vec<Point>)
        ensures
            markers@ == self.marked(),
    {
        &self.markers
    }

    /// Add an environment collider to the simulator.
    pub fn add_environment_collider(&mut self, position: Point, size: Size) -> (id: u64)
        requires
            old(self).wf(),
            old(self)@.next_id < u64::MAX,
        ensures
            final(self).wf(),
            id == old(self)@.next_id,
            final(self)@ == old(self)@.add(
                (TreeObject {
                    position: position,
                    size: size,
                    source: TreeObjectSource::Environment,
                }),
            ),
            final(self).shows_hitboxes() == old(self).shows_hitboxes(),
            final(self).marked() == old(self).marked(),
    {
        self.tree.add_collider(position, size, TreeObjectSource::Environment)
    }

    /// Execute the simulator: one tick for every body, in the order of
    /// `bodies`.
    ///
    /// Each body looks for candidates, is corrected and moved, and leaves a
    /// transient collider for the bodies after it. When all have moved, the
    /// transient colliders are taken out again. Because a body sees the
    /// colliders of the bodies before it where they have moved to, and because
    /// each contact changes the velocity that the next candidate is tested
    /// with, the outcome depends on the order of the bodies and on the order
    /// in which the tree hands out the candidates.
    pub fn execute(&mut self, bodies: &mut Vec<Body>, timestep: i32) -> (events: Vec<
        CollisionEvent,
    >)
        requires
            old(self).wf(),
            old(self)@.next_id + old(bodies)@.len() <= u64::MAX,
        ensures
            final(self).wf(),
            final(self)@.colliders == old(self)@.colliders,
            final(self)@.next_id == old(self)@.next_id + old(bodies)@.len(),
            exists|picks: Seq<Seq<TreeObject>>|
                ticked(old(self)@, old(bodies)@, timestep, picks, final(bodies)@, events@),
            final(self).shows_hitboxes() == old(self).shows_hitboxes(),
            if old(self).shows_hitboxes() {
                exists|shown: Seq<TreeObject>|
                    with_transients(old(self)@, final(bodies)@, old(bodies)@.len()).holds(shown)
                        && final(self).marked() == corner_marks(shown)
            } else {
                final(self).marked() == Seq::<Point>::empty()
            },
    {
        let ghost state = self.tree@;
        let ghost before = bodies@;
        proof {
            self.tree.lemma_wf_valid();
        }
        let ghost mut picks: Seq<Seq<TreeObject>> = Seq::empty();
        let mut events: Vec<CollisionEvent> = Vec::new();
        let mut insertions: Vec<u64> = Vec::new();
        let count = bodies.len();
        let mut i: usize = 0;
        while i < count
            invariant
                i <= count,
                count == before.len(),
                bodies@.len() == count,
                state.valid(),
                state.next_id + count <= u64::MAX,
                self.tree.wf(),
                self.show_hitboxes == old(self).show_hitboxes,
                self.tree@ == with_transients(state, bodies@, i as nat),
                picks.len() == i,
                insertions@.len() == i,
                forall|j: int| 0 <= j < i ==> (#[trigger] insertions@[j]) == state.next_id + j,
                forall|j: int| i <= j < count ==> (#[trigger] bodies@[j]) == before[j],
                forall|j: int|
                    0 <= j < i ==> with_transients(state, bodies@, j as nat).lists(
                        search_area(before[j], timestep),
                        #[trigger] picks[j],
                    ),
                forall|j: int|
                    0 <= j < i ==> (#[trigger] bodies@[j]) == advance(
                        before[j],
                        picks[j],
                        timestep,
                    ).0,
                events@ == events_of(before, picks, timestep, i as nat),
            decreases count - i,
        {
            let body = bodies[i];
            let ghost earlier = bodies@;
            let ghost earlier_picks = picks;
            let candidates = self.tree.broad_phase(
                body.transform.position.offset_by(body.collider.offset),
                body.collider.size,
                body.rigid_body.velocity,
                timestep,
            );
            let moved = step(body, &candidates, timestep, &mut events);
            bodies[i] = moved;
            proof {
                picks = picks.push(candidates@);
                lemma_with_transients_holds(state, earlier, i as nat);
                lemma_with_transients_prefix(state, earlier, bodies@, i as nat);
                assert forall|j: int| 0 <= j < i + 1 implies with_transients(
                    state,
                    bodies@,
                    j as nat,
                ).lists(search_area(before[j], timestep), #[trigger] picks[j]) by {
                    lemma_with_transients_prefix(state, earlier, bodies@, j as nat);
                    if j < i {
                        assert(picks[j] == earlier_picks[j]);
                    }
                }
                lemma_events_of_prefix(before, earlier_picks, picks, timestep, i as nat);
            }
            let id = self.tree.add_collider(
                moved.transform.position.offset_by(moved.collider.offset),
                moved.collider.size,
                TreeObjectSource::Entity { handle: moved.entity },
            );
            insertions.push(id);
            i += 1;
        }
        let ghost full = self.tree@;
        proof {
            lemma_with_transients_holds(state, bodies@, count as nat);
        }
        let ghost mut shown: Seq<TreeObject> = Seq::empty();
        if self.show_hitboxes {
            self.markers = self.tree.draw_collider_corners();
            proof {
                shown = choose|shown: Seq<TreeObject>|
                    full.holds(shown) && self.markers@ == corner_marks(shown);
            }
        } else {
            self.markers = Vec::new();
        }
        let ghost after = bodies@;
        let mut k: usize = 0;
        while k < count
            invariant
                k <= count,
                insertions@.len() == count,
                self.show_hitboxes == old(self).show_hitboxes,
                bodies@ == after,
                full == with_transients(state, after, count as nat),
                if self.show_hitboxes {
                    full.holds(shown) && self.markers@ == corner_marks(shown)
                } else {
                    self.markers@ == Seq::<Point>::empty()
                },
                state.valid(),
                state.next_id + count <= u64::MAX,
                full.next_id == state.next_id + count,
                forall|j: int|
                    0 <= j < count ==> (#[trigger] insertions@[j]) == state.next_id + j,
                self.tree.wf(),
                self.tree@.next_id == full.next_id,
                forall|id: u64|
                    (#[trigger] self.tree@.colliders.contains_key(id)) <==> (
                    full.colliders.contains_key(id) && !(state.next_id <= id < state.next_id + k)),
                forall|id: u64| #[trigger]
                    self.tree@.colliders.contains_key(id) ==> self.tree@.colliders[id]
                        == full.colliders[id],
            decreases count - k,
        {
            self.tree.remove_collider(insertions[k]);
            k += 1;
        }
        proof {
            assert(self.tree@.colliders =~= state.colliders) by {
                assert forall|id: u64| #[trigger]
                    self.tree@.colliders.contains_key(id) <==> state.colliders.contains_key(
                        id,
                    ) by {
                    if id < state.next_id {
                        assert(full.colliders.contains_key(id) <==> state.colliders.contains_key(
                            id,
                        ));
                    } else {
                        assert(full.colliders.contains_key(id) <==> id < state.next_id + count);
                    }
                }
            }
            assert(ticked(state, before, timestep, picks, bodies@, events@));
        }
        events
    }
}

impl Default for Simulator {
    fn default() -> (simulator: Self)
        ensures
            simulator.wf(),
            simulator@.colliders == Map::<u64, TreeObject>::empty(),
            simulator@.next_id == 0,
            !simulator.shows_hitboxes(),
            simulator.marked() == Seq::<Point>::empty(),
    {
        Self { tree: CollisionTree::new(), show_hitboxes: false, markers: Vec::new() }
    }
}

} // verus!
