//! The R-tree that the collision tree keeps its rectangles in.

use rstar::primitives::{GeomWithData, Rectangle};
use rstar::{RTree, AABB};
use vstd::multiset::Multiset;
use vstd::prelude::*;

verus! {

/// One stored rectangle: its lower corner, its upper corner and the
/// identifier it was stored under, as `(lo_x, lo_y, hi_x, hi_y, id)`.
pub type Entry = (i128, i128, i128, i128, u64);

/// Coordinates up to this size, in absolute value, are stored.
pub const RECT_LIMIT: i128 = 0x100_0000_0000;

/// An `rstar::RTree` of rectangles with whole-number corners, each tagged with
/// an identifier. What it holds is known only through the functions below.
#[verifier::external_body]
pub struct RectTree {
    inner: RTree<GeomWithData<Rectangle<[i128; 2]>, u64>>,
}

/// The entries that a tree holds, each as often as it was inserted and not
/// yet removed.
pub uninterp spec fn rect_tree_entries(tree: RectTree) -> Multiset<Entry>;

/// Whether the corners are in order and small enough to be stored.
pub open spec fn storable(entry: Entry) -> bool {
    &&& -RECT_LIMIT <= entry.0 <= entry.2 <= RECT_LIMIT
    &&& -RECT_LIMIT <= entry.1 <= entry.3 <= RECT_LIMIT
}

/// Whether the rectangle of `entry` and the rectangle with the given corners
/// have a point in common, edges included.
pub open spec fn entry_touches(entry: Entry, lo_x: int, lo_y: int, hi_x: int, hi_y: int) -> bool {
    &&& entry.0 <= hi_x
    &&& entry.1 <= hi_y
    &&& entry.2 >= lo_x
    &&& entry.3 >= lo_y
}

/// `rstar::RTree::new`: a tree that holds nothing.
#[verifier::external_body]
pub(crate) fn rect_tree_new() -> (tree: RectTree)
    ensures
        rect_tree_entries(tree) == Multiset::<Entry>::empty(),
{
    RectTree { inner: RTree::new() }
}

/// `rstar::RTree::insert`: the tree holds the entry once more than before,
/// and everything else as before. With its corners in order the rectangle is
/// stored as given, and within `RECT_LIMIT` the areas and distances that the
/// tree computes on insertion stay far inside `i128`.
#[verifier::external_body]
pub(crate) fn rect_tree_insert(tree: &mut RectTree, entry: Entry)
    requires
        storable(entry),
    ensures
        rect_tree_entries(*final(tree)) == rect_tree_entries(*old(tree)).insert(entry),
{
    let rect = Rectangle::from_corners([entry.0, entry.1], [entry.2, entry.3]);
    tree.inner.insert(GeomWithData::new(rect, entry.4));
}

/// `rstar::RTree::remove`: removes one element equal to the given one, if
/// there is any, and says whether it did; everything else stays.
#[verifier::external_body]
pub(crate) fn rect_tree_remove(tree: &mut RectTree, entry: Entry) -> (found: bool)
    requires
        storable(entry),
    ensures
        found == (rect_tree_entries(*old(tree)).count(entry) > 0),
        rect_tree_entries(*final(tree)) == rect_tree_entries(*old(tree)).remove(entry),
{
    let rect = Rectangle::from_corners([entry.0, entry.1], [entry.2, entry.3]);
    tree.inner.remove(&GeomWithData::new(rect, entry.4)).is_some()
}

/// `rstar::RTree::locate_in_envelope_intersecting`: every stored entry whose
/// rectangle has a point in common with the given one, as often as it is
/// stored, in an order that the shape of the tree decides.
#[verifier::external_body]
pub(crate) fn rect_tree_locate(
    tree: &RectTree,
    lo_x: i128,
    lo_y: i128,
    hi_x: i128,
    hi_y: i128,
) -> (found: Vec<Entry>)
    requires
        lo_x <= hi_x,
        lo_y <= hi_y,
    ensures
        found@.to_multiset() == rect_tree_entries(*tree).filter(
            |e: Entry| entry_touches(e, lo_x as int, lo_y as int, hi_x as int, hi_y as int),
        ),
{
    let query = AABB::from_corners([lo_x, lo_y], [hi_x, hi_y]);
    tree.inner.locate_in_envelope_intersecting(&query).map(
        |g| {
            let (lo, hi) = (g.geom().lower(), g.geom().upper());
            (lo[0], lo[1], hi[0], hi[1], g.data)
        },
    ).collect()
}

} // verus!
