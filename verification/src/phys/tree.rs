//! The spatial index over axis-aligned rectangles.

use crate::math::{clamp, clamp_to_grid, Point, Size, Vector};
use crate::phys::query::travel;
use crate::phys::rects::{
    entry_touches, rect_tree_entries, rect_tree_insert, rect_tree_locate, rect_tree_new,
    rect_tree_remove, storable, Entry, RectTree, RECT_LIMIT,
};
use hecs::Entity;
use rustc_hash::FxHasher;
use std::collections::HashMap;
use std::hash::BuildHasherDefault;
use vstd::prelude::*;

verus! {

/// The handle of an entity in the entity store; carried, never looked into.
#[verifier::external_type_specification]
#[verifier::external_body]
pub struct ExEntity(Entity);

/// The state of the hasher that the map of colliders is built with.
#[verifier::external_type_specification]
#[verifier::external_body]
pub struct ExFxHasher(FxHasher);

/// The builder of the hashers that the map of colliders is kept with.
#[verifier::external_type_specification]
#[verifier::external_body]
#[verifier::reject_recursive_types(H)]
pub struct ExBuildHasherDefault<H>(BuildHasherDefault<H>);

/// Tree object source.
#[derive(Copy, Clone, PartialEq, Debug)]
pub enum TreeObjectSource {
    /// A permanent static obstacle.
    Environment,
    /// A live body, for the length of one tick.
    Entity { handle: Entity },
}

/// An object that is insertable into the collision tree.
#[derive(Copy, Clone, PartialEq, Debug)]
pub struct TreeObject {
    /// The minimum corner of the rectangle.
    pub position: Point,
    pub size: Size,
    pub source: TreeObjectSource,
}

/// A collision between two sources.
#[derive(Copy, Clone, PartialEq, Debug)]
pub struct CollisionEvent {
    pub source1: TreeObjectSource,
    pub source2: TreeObjectSource,
}

/// An axis-aligned box by its two corners, edges included.
pub struct Envelope {
    pub lo_x: int,
    pub lo_y: int,
    pub hi_x: int,
    pub hi_y: int,
}

impl Envelope {
    /// Whether the two boxes have a point in common.
    pub open spec fn intersects(self, other: Envelope) -> bool {
        &&& self.lo_x <= other.hi_x
        &&& self.lo_y <= other.hi_y
        &&& self.hi_x >= other.lo_x
        &&& self.hi_y >= other.lo_y
    }
}

/// The smaller of two numbers.
pub open spec fn min(a: int, b: int) -> int {
    if a <= b {
        a
    } else {
        b
    }
}

/// The larger of two numbers.
pub open spec fn max(a: int, b: int) -> int {
    if a >= b {
        a
    } else {
        b
    }
}

/// The box that holds a rectangle both where it is and where it will be after
/// moving by `velocity * timestep`.
pub open spec fn sweep_envelope(
    position: Point,
    size: Size,
    velocity: Vector,
    timestep: i32,
) -> Envelope {
    let end_x = position.x + velocity.x * timestep;
    let end_y = position.y + velocity.y * timestep;
    Envelope {
        lo_x: min(position.x as int, end_x),
        lo_y: min(position.y as int, end_y),
        hi_x: max(position.x + size.w, end_x + size.w),
        hi_y: max(position.y + size.h, end_y + size.h),
    }
}

impl TreeObject {
    /// The box that the object fills: from its position to its position plus
    /// its size.
    pub open spec fn envelope(self) -> Envelope {
        Envelope {
            lo_x: self.position.x as int,
            lo_y: self.position.y as int,
            hi_x: self.position.x + self.size.w,
            hi_y: self.position.y + self.size.h,
        }
    }

    /// The four corners of the object, around it from its position, each
    /// kept on the grid.
    pub open spec fn corner_points(self) -> Seq<Point> {
        let lo_x = self.position.x;
        let lo_y = self.position.y;
        let hi_x = clamp_to_grid(self.position.x + self.size.w) as i32;
        let hi_y = clamp_to_grid(self.position.y + self.size.h) as i32;
        seq![
            Point { x: lo_x, y: lo_y },
            Point { x: hi_x, y: lo_y },
            Point { x: hi_x, y: hi_y },
            Point { x: lo_x, y: hi_y },
        ]
    }

    /// The four corners of the object.
    pub fn corners(&self) -> (points: [Point; 4])
        ensures
            points@ == self.corner_points(),
    {
        let lo_x = self.position.x;
        let lo_y = self.position.y;
        let hi_x = clamp(self.position.x as i128 + self.size.w as i128);
        let hi_y = clamp(self.position.y as i128 + self.size.h as i128);
        let points = [
            Point { x: lo_x, y: lo_y },
            Point { x: hi_x, y: lo_y },
            Point { x: hi_x, y: hi_y },
            Point { x: lo_x, y: hi_y },
        ];
        assert(points@ =~= self.corner_points());
        points
    }

    /// The entry under which the object is kept when its identifier is `id`.
    pub open spec fn entry(self, id: u64) -> Entry {
        (
            self.position.x as i128,
            self.position.y as i128,
            (self.position.x + self.size.w) as i128,
            (self.position.y + self.size.h) as i128,
            id,
        )
    }

    fn to_entry(&self, id: u64) -> (e: Entry)
        ensures
            e == self.entry(id),
            storable(e),
    {
        (
            self.position.x as i128,
            self.position.y as i128,
            self.position.x as i128 + self.size.w as i128,
            self.position.y as i128 + self.size.h as i128,
            id,
        )
    }
}

/// The corners of the given colliders, collider after collider: the markers
/// that show where the hitboxes are.
pub open spec fn corner_marks(shown: Seq<TreeObject>) -> Seq<Point>
    decreases shown.len(),
{
    if shown.len() == 0 {
        Seq::empty()
    } else {
        corner_marks(shown.drop_last()) + shown.last().corner_points()
    }
}

/// What a collision tree holds: its colliders by identifier, and the
/// identifier that it will issue next.
pub struct IndexState {
    pub colliders: Map<u64, TreeObject>,
    pub next_id: nat,
}

impl IndexState {
    /// The state after a collider was added.
    pub open spec fn add(self, object: TreeObject) -> IndexState {
        IndexState {
            colliders: self.colliders.insert(self.next_id as u64, object),
            next_id: self.next_id + 1,
        }
    }

    /// The state after an identifier was generated.
    pub open spec fn skip(self) -> IndexState {
        IndexState { colliders: self.colliders, next_id: self.next_id + 1 }
    }

    /// The state after the collider `id` was removed, if there was one.
    pub open spec fn remove(self, id: u64) -> IndexState {
        IndexState { colliders: self.colliders.remove(id), next_id: self.next_id }
    }

    /// The identifiers of the colliders that have a point in common with
    /// `area`.
    pub open spec fn matching(self, area: Envelope) -> Set<u64> {
        Set::new(
            |id: u64|
                self.colliders.contains_key(id) && self.colliders[id].envelope().intersects(area),
        )
    }

    /// Whether `picked` lists the colliders that have a point in common with
    /// `area`, each once, in some order.
    pub open spec fn lists(self, area: Envelope, picked: Seq<TreeObject>) -> bool {
        exists|ids: Seq<u64>|
            {
                &&& ids.no_duplicates()
                &&& ids.len() == picked.len()
                &&& ids.to_set() == self.matching(area)
                &&& forall|i: int|
                    0 <= i < ids.len() ==> picked[i] == self.colliders[#[trigger] ids[i]]
            }
    }

    /// Whether `held` lists all the colliders, each once, in some order.
    pub open spec fn holds(self, held: Seq<TreeObject>) -> bool {
        exists|ids: Seq<u64>|
            {
                &&& ids.no_duplicates()
                &&& ids.len() == held.len()
                &&& ids.to_set() == self.colliders.dom()
                &&& forall|i: int|
                    0 <= i < ids.len() ==> held[i] == self.colliders[#[trigger] ids[i]]
            }
    }

    /// Every identifier in use was issued before `next_id`.
    pub open spec fn valid(self) -> bool {
        &&& self.next_id <= u64::MAX
        &&& forall|id: u64| #[trigger] self.colliders.contains_key(id) ==> id < self.next_id
    }
}

/// One change to a collision tree.
pub enum Change {
    /// A collider is added.
    Add { object: TreeObject },
    /// The collider with this identifier is removed, if there is one.
    Remove { id: u64 },
    /// An identifier is generated and given to no collider.
    Generate,
}

impl Change {
    /// Whether the change issues an identifier.
    pub open spec fn issues(self) -> bool {
        self is Add || self is Generate
    }
}

impl IndexState {
    /// The state after one change.
    pub open spec fn apply(self, change: Change) -> IndexState {
        match change {
            Change::Add { object } => self.add(object),
            Change::Remove { id } => self.remove(id),
            Change::Generate => self.skip(),
        }
    }

    /// The state after a sequence of changes.
    pub open spec fn after(self, changes: Seq<Change>) -> IndexState
        decreases changes.len(),
    {
        if changes.len() == 0 {
            self
        } else {
            self.after(changes.drop_last()).apply(changes.last())
        }
    }

    /// The identifier that the change at `at` issues, if it issues one: the
    /// next identifier of the state that the changes before it lead to.
    pub open spec fn issued(self, changes: Seq<Change>, at: int) -> nat {
        self.after(changes.take(at)).next_id
    }
}

/// No change lowers the next identifier, and one that issues an identifier
/// raises it.
pub proof fn lemma_next_id_grows(state: IndexState, changes: Seq<Change>, at: int)
    requires
        0 <= at < changes.len(),
    ensures
        state.issued(changes, at) <= state.issued(changes, at + 1),
        changes[at].issues() ==> state.issued(changes, at) < state.issued(changes, at + 1),
{
    assert(changes.take(at + 1).drop_last() =~= changes.take(at));
    assert(changes.take(at + 1).last() == changes[at]);
}

/// The identifiers of one tree grow: whatever is added, removed or generated
/// in between, a change that comes after one that issued an identifier finds
/// a larger one to issue. So no identifier is issued twice.
pub proof fn lemma_identifiers_increase(
    state: IndexState,
    changes: Seq<Change>,
    first: int,
    second: int,
)
    requires
        0 <= first < second < changes.len(),
        changes[first].issues(),
    ensures
        state.issued(changes, first) < state.issued(changes, second),
    decreases second - first,
{
    if first + 1 == second {
        lemma_next_id_grows(state, changes, first);
    } else {
        lemma_identifiers_increase(state, changes, first, second - 1);
        lemma_next_id_grows(state, changes, second - 1);
    }
}

/// Adding a collider and removing it under the identifier it was given
/// leaves the colliders as they were: a broad phase finds what it found
/// before the two and nothing under that identifier, and a second removal
/// finds nothing to remove.
pub proof fn lemma_add_then_remove(state: IndexState, object: TreeObject, area: Envelope)
    requires
        state.valid(),
        state.next_id < u64::MAX,
    ensures
        state.add(object).colliders.contains_key(state.next_id as u64),
        state.add(object).remove(state.next_id as u64).colliders == state.colliders,
        state.add(object).remove(state.next_id as u64).matching(area) == state.matching(area),
        !state.add(object).remove(state.next_id as u64).matching(area).contains(
            state.next_id as u64,
        ),
        !state.add(object).remove(state.next_id as u64).colliders.contains_key(
            state.next_id as u64,
        ),
{
    let id = state.next_id as u64;
    assert(!state.colliders.contains_key(id));
    assert(state.add(object).remove(id).colliders =~= state.colliders);
}

/// The map from identifier to collider, hashed with `FxHasher`.
pub type Colliders = HashMap<u64, TreeObject, BuildHasherDefault<FxHasher>>;

/// `HashMap::insert` on a map hashed with `FxHasher`: afterwards the key maps
/// to the value, and every other key to what it mapped to before.
#[verifier::external_body]
fn colliders_insert(map: &mut Colliders, id: u64, object: TreeObject)
    ensures
        final(map)@ == old(map)@.insert(id, object),
{
    map.insert(id, object);
}

/// `HashMap::remove` on a map hashed with `FxHasher`: the key is gone, the
/// other keys stay, and the value that the key mapped to is returned, if it
/// mapped to one.
#[verifier::external_body]
fn colliders_remove(map: &mut Colliders, id: u64) -> (removed: Option<TreeObject>)
    ensures
        final(map)@ == old(map)@.remove(id),
        removed == if old(map)@.contains_key(id) {
            Some(old(map)@[id])
        } else {
            None
        },
{
    map.remove(&id)
}

/// `HashMap::get` on a map hashed with `FxHasher`: the value that the key
/// maps to, if it maps to one.
#[verifier::external_body]
fn colliders_get(map: &Colliders, id: u64) -> (found: Option<TreeObject>)
    ensures
        found == if map@.contains_key(id) {
            Some(map@[id])
        } else {
            None
        },
{
    map.get(&id).copied()
}

/// How often the R-tree has to hold `entry` for the given colliders: once if
/// it is the entry of the collider with its identifier, else not at all.
pub open spec fn kept(colliders: Map<u64, TreeObject>, entry: Entry) -> nat {
    if colliders.contains_key(entry.4) && colliders[entry.4].entry(entry.4) == entry {
        1
    } else {
        0
    }
}

/// A tree of colliders.
pub struct CollisionTree {
    inner: RectTree,
    colliders: Colliders,
    next_id: u64,
}

impl View for CollisionTree {
    type V = IndexState;

    closed spec fn view(&self) -> IndexState {
        IndexState { colliders: self.colliders@, next_id: self.next_id as nat }
    }
}

impl CollisionTree {
    /// Whether the tree is consistent: the rectangles in the R-tree are those
    /// of the colliders, each once.
    pub closed spec fn wf(&self) -> bool {
        &&& self@.valid()
        &&& forall|e: Entry|
            (#[trigger] rect_tree_entries(self.inner).count(e)) == kept(self.colliders@, e)
    }

    /// In a consistent tree every identifier in use was issued before the
    /// next one.
    pub proof fn lemma_wf_valid(&self)
        requires
            self.wf(),
        ensures
            self@.valid(),
    {
    }

    /// Create a new collision tree.
    pub fn new() -> (tree: Self)
        ensures
            tree.wf(),
            tree@.colliders == Map::<u64, TreeObject>::empty(),
            tree@.next_id == 0,
    {
        Self::default()
    }

    /// Whether `count` more identifiers can be issued.
    pub fn has_room(&self, count: usize) -> (room: bool)
        ensures
            room == (self@.next_id + count <= u64::MAX),
    {
        count as u64 <= u64::MAX - self.next_id
    }

    /// Generate a new id.
    pub fn generate_id(&mut self) -> (id: u64)
        requires
            old(self).wf(),
            old(self)@.next_id < u64::MAX,
        ensures
            final(self).wf(),
            id == old(self)@.next_id,
            final(self)@ == old(self)@.skip(),
    {
        let id = self.next_id;
        self.next_id += 1;
        assert forall|k: u64| #[trigger] self@.colliders.contains_key(k) implies k
            < self@.next_id by {
            assert(old(self)@.colliders.contains_key(k));
        }
        id
    }

    /// Add a collider to the tree.
    pub fn add_collider(
        &mut self,
        position: Point,
        size: Size,
        source: TreeObjectSource,
    ) -> (id: u64)
        requires
            old(self).wf(),
            old(self)@.next_id < u64::MAX,
        ensures
            final(self).wf(),
            id == old(self)@.next_id,
            final(self)@ == old(self)@.add(
                (TreeObject { position: position, size: size, source: source }),
            ),
    {
        let id = self.generate_id();
        let ghost before = *self;
        let object = TreeObject { position: position, size: size, source: source };
        let entry = object.to_entry(id);
        colliders_insert(&mut self.colliders, id, object);
        rect_tree_insert(&mut self.inner, entry);
        proof {
            broadcast use vstd::multiset::group_multiset_axioms;
            assert(!before.colliders@.contains_key(id));
            assert forall|e: Entry|
                (#[trigger] rect_tree_entries(self.inner).count(e)) == kept(
                    self.colliders@,
                    e,
                ) by {
                let was = rect_tree_entries(before.inner).count(e);
                assert(was == kept(before.colliders@, e));
                if e == entry {
                    assert(rect_tree_entries(self.inner).count(e) == 1);
                } else {
                    assert(rect_tree_entries(self.inner).count(e) == was);
                }
            }
        }
        id
    }

    /// Remove a collider from the tree.
    ///
    /// An identifier that is not in use, or no longer, leaves the tree as it
    /// is and gives `None`.
    pub fn remove_collider(&mut self, id: u64) -> (removed: Option<TreeObject>)
        requires
            old(self).wf(),
        ensures
            final(self).wf(),
            final(self)@ == old(self)@.remove(id),
            removed == if old(self)@.colliders.contains_key(id) {
                Some(old(self)@.colliders[id])
            } else {
                None
            },
    {
        let removed = colliders_remove(&mut self.colliders, id);
        if let Some(object) = removed {
            let entry = object.to_entry(id);
            rect_tree_remove(&mut self.inner, entry);
        }
        proof {
            broadcast use vstd::multiset::group_multiset_axioms;
            assert forall|k: u64| #[trigger]
                self@.colliders.contains_key(k) implies k < self@.next_id by {
                assert(old(self)@.colliders.contains_key(k));
            }
            assert forall|e: Entry|
                (#[trigger] rect_tree_entries(self.inner).count(e)) == kept(
                    self.colliders@,
                    e,
                ) by {
                let was = rect_tree_entries(old(self).inner).count(e);
                assert(was == kept(old(self).colliders@, e));
                match removed {
                    Some(object) => {
                        if e == object.entry(id) {
                            assert(rect_tree_entries(self.inner).count(e) == 0);
                        } else {
                            assert(rect_tree_entries(self.inner).count(e) == was);
                        }
                    },
                    None => {},
                }
            }
        }
        removed
    }

    /// Broad phase: every collider that has a point in common with the box
    /// around the rectangle's place now and its place after the timestep.
    pub fn broad_phase(
        &self,
        position: Point,
        size: Size,
        velocity: Vector,
        timestep: i32,
    ) -> (picked: Vec<TreeObject>)
        requires
            self.wf(),
        ensures
            self@.lists(sweep_envelope(position, size, velocity, timestep), picked@),
    {
        let move_x = travel(velocity.x, timestep);
        let move_y = travel(velocity.y, timestep);
        let start_x = position.x as i128;
        let start_y = position.y as i128;
        let end_x = start_x + move_x;
        let end_y = start_y + move_y;
        let (lo_x, hi_x) = if start_x <= end_x {
            (start_x, end_x + size.w as i128)
        } else {
            (end_x, start_x + size.w as i128)
        };
        let (lo_y, hi_y) = if start_y <= end_y {
            (start_y, end_y + size.h as i128)
        } else {
            (end_y, start_y + size.h as i128)
        };
        self.select(lo_x, lo_y, hi_x, hi_y)
    }

    /// Every collider in the tree, each once, in some order.
    pub fn colliders(&self) -> (held: Vec<TreeObject>)
        requires
            self.wf(),
        ensures
            self@.holds(held@),
    {
        let held = self.select(-RECT_LIMIT, -RECT_LIMIT, RECT_LIMIT, RECT_LIMIT);
        proof {
            let everywhere = Envelope {
                lo_x: -RECT_LIMIT as int,
                lo_y: -RECT_LIMIT as int,
                hi_x: RECT_LIMIT as int,
                hi_y: RECT_LIMIT as int,
            };
            assert(self@.matching(everywhere) =~= self@.colliders.dom());
        }
        held
    }

    /// Draw collider corners: the four corners of every collider in the
    /// tree, collider after collider, as the points to draw.
    pub fn draw_collider_corners(&self) -> (corners: Vec<Point>)
        requires
            self.wf(),
        ensures
            exists|shown: Seq<TreeObject>|
                self@.holds(shown) && corners@ == corner_marks(shown),
    {
        let held = self.colliders();
        let mut corners: Vec<Point> = Vec::new();
        let mut i: usize = 0;
        assert(held@.take(0) =~= Seq::<TreeObject>::empty());
        while i < held.len()
            invariant
                i <= held.len(),
                corners@ == corner_marks(held@.take(i as int)),
            decreases held.len() - i,
        {
            let points = held[i].corners();
            proof {
                assert(held@.take(i + 1).drop_last() =~= held@.take(i as int));
                assert(held@.take(i + 1).last() == held@[i as int]);
            }
            let ghost drawn = corners@;
            corners.push(points[0]);
            corners.push(points[1]);
            corners.push(points[2]);
            corners.push(points[3]);
            assert(corners@ =~= drawn + held@[i as int].corner_points());
            i += 1;
        }
        assert(held@.take(held@.len() as int) =~= held@);
        corners
    }

    /// Every collider that has a point in common with the given box.
    fn select(&self, lo_x: i128, lo_y: i128, hi_x: i128, hi_y: i128) -> (picked: Vec<TreeObject>)
        requires
            self.wf(),
            lo_x <= hi_x,
            lo_y <= hi_y,
        ensures
            self@.lists(
                (Envelope {
                    lo_x: lo_x as int,
                    lo_y: lo_y as int,
                    hi_x: hi_x as int,
                    hi_y: hi_y as int,
                }),
                picked@,
            ),
    {
        let ghost area = Envelope {
            lo_x: lo_x as int,
            lo_y: lo_y as int,
            hi_x: hi_x as int,
            hi_y: hi_y as int,
        };
        let entries = rect_tree_locate(&self.inner, lo_x, lo_y, hi_x, hi_y);
        let ghost touching = |e: Entry|
            entry_touches(e, lo_x as int, lo_y as int, hi_x as int, hi_y as int);
        proof {
            broadcast use vstd::seq_lib::group_to_multiset_ensures;
            broadcast use vstd::multiset::group_multiset_axioms;
            assert forall|e: Entry| entries@.to_multiset().contains(e) implies entries@.to_multiset(
            ).count(e) == 1 by {
                assert(rect_tree_entries(self.inner).filter(touching).count(e) > 0);
                assert(rect_tree_entries(self.inner).count(e) <= 1);
            }
            entries@.lemma_multiset_has_no_duplicates_conv();
        }
        let mut picked: Vec<TreeObject> = Vec::new();
        let mut i: usize = 0;
        while i < entries.len()
            invariant
                i <= entries.len(),
                self.wf(),
                picked@.len() == i,
                entries@.to_multiset() == rect_tree_entries(self.inner).filter(touching),
                forall|j: int|
                    0 <= j < i ==> self.colliders@.contains_key(#[trigger] entries@[j].4)
                        && picked@[j] == self.colliders@[entries@[j].4],
            decreases entries.len() - i,
        {
            let entry = entries[i];
            proof {
                broadcast use vstd::seq_lib::group_to_multiset_ensures;
                broadcast use vstd::multiset::group_multiset_axioms;
                assert(entries@.contains(entry));
                assert(entries@.to_multiset().count(entry) > 0);
                assert(rect_tree_entries(self.inner).filter(touching).count(entry) > 0);
                assert(rect_tree_entries(self.inner).count(entry) > 0);
            }
            let found = colliders_get(&self.colliders, entry.4);
            assert(found is Some);
            if let Some(object) = found {
                picked.push(object);
            }
            i += 1;
        }
        proof {
            broadcast use vstd::seq_lib::group_to_multiset_ensures;
            broadcast use vstd::multiset::group_multiset_axioms;
            let ids = Seq::new(entries@.len(), |j: int| entries@[j].4);
            let stored = rect_tree_entries(self.inner);
            assert forall|a: int, b: int|
                0 <= a < ids.len() && 0 <= b < ids.len() && a != b implies ids[a] != ids[b] by {
                if ids[a] == ids[b] {
                    assert(entries@.contains(entries@[a]));
                    assert(entries@.contains(entries@[b]));
                    assert(stored.filter(touching).count(entries@[a]) > 0);
                    assert(stored.filter(touching).count(entries@[b]) > 0);
                    assert(stored.count(entries@[a]) > 0);
                    assert(stored.count(entries@[b]) > 0);
                    assert(entries@[a] == entries@[b]);
                }
            }
            assert forall|id: u64|
                ids.to_set().contains(id) <==> self@.matching(area).contains(id) by {
                if ids.to_set().contains(id) {
                    let j = choose|j: int| 0 <= j < ids.len() && ids[j] == id;
                    assert(entries@.contains(entries@[j]));
                    assert(stored.filter(touching).count(entries@[j]) > 0);
                    assert(touching(entries@[j]));
                    assert(stored.count(entries@[j]) > 0);
                }
                if self@.matching(area).contains(id) {
                    let e = self.colliders@[id].entry(id);
                    assert(stored.count(e) == 1);
                    assert(touching(e));
                    assert(stored.filter(touching).count(e) == 1);
                    assert(entries@.contains(e));
                    let j = choose|j: int| 0 <= j < entries@.len() && entries@[j] == e;
                    assert(ids[j] == id);
                }
            }
            assert(ids.to_set() =~= self@.matching(area));
            assert(self@.lists(area, picked@)) by {
                assert(ids.no_duplicates());
                assert(ids.len() == picked@.len());
                assert(forall|j: int|
                    0 <= j < ids.len() ==> picked@[j] == self@.colliders[#[trigger] ids[j]]);
            }
        }
        picked
    }
}

impl Default for CollisionTree {
    fn default() -> (tree: Self)
        ensures
            tree.wf(),
            tree@.colliders == Map::<u64, TreeObject>::empty(),
            tree@.next_id == 0,
    {
        Self { inner: rect_tree_new(), colliders: HashMap::default(), next_id: 0 }
    }
}

} // verus!
