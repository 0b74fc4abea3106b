use beyond_engine::{CollisionTree, Point, Size, TreeObject, TreeObjectSource, Vector};

fn entity(bits: u64) -> hecs::Entity {
    hecs::Entity::from_bits(bits).expect("valid bits")
}

fn still() -> Vector {
    Vector::new(0, 0)
}

#[test]
fn identifiers_start_at_zero_and_increase() {
    let mut tree = CollisionTree::new();
    let a = tree.add_collider(Point::new(0, 0), Size::new(1, 1), TreeObjectSource::Environment);
    let b = tree.add_collider(Point::new(5, 5), Size::new(1, 1), TreeObjectSource::Environment);
    assert_eq!(a, 0);
    assert_eq!(b, 1);
    assert!(tree.remove_collider(a).is_some());
    let c = tree.add_collider(Point::new(0, 0), Size::new(1, 1), TreeObjectSource::Environment);
    assert_eq!(c, 2);
    assert!(tree.remove_collider(b).is_some());
    assert!(tree.remove_collider(c).is_some());
    let d = tree.generate_id();
    assert_eq!(d, 3);
    let e = tree.add_collider(Point::new(0, 0), Size::new(1, 1), TreeObjectSource::Environment);
    assert_eq!(e, 4);
}

#[test]
fn identifiers_never_repeat() {
    let mut tree = CollisionTree::new();
    let mut seen = Vec::new();
    for round in 0..50 {
        let id = tree.add_collider(
            Point::new(round, -round),
            Size::new(3, 3),
            TreeObjectSource::Environment,
        );
        if let Some(last) = seen.last() {
            assert!(id > *last);
        }
        seen.push(id);
        if round % 3 == 0 {
            assert!(tree.remove_collider(id).is_some());
        }
    }
}

#[test]
fn added_collider_is_found_by_broad_phase() {
    let mut tree = CollisionTree::new();
    tree.add_collider(Point::new(10, 10), Size::new(5, 5), TreeObjectSource::Environment);
    let found = tree.broad_phase(Point::new(0, 0), Size::new(20, 20), still(), 1);
    assert_eq!(
        found,
        vec![TreeObject {
            position: Point::new(10, 10),
            size: Size::new(5, 5),
            source: TreeObjectSource::Environment,
        }]
    );
}

#[test]
fn removed_collider_is_not_found_again() {
    let mut tree = CollisionTree::new();
    let keep =
        tree.add_collider(Point::new(0, 0), Size::new(4, 4), TreeObjectSource::Environment);
    let id = tree.add_collider(Point::new(10, 10), Size::new(5, 5), TreeObjectSource::Environment);
    let removed = tree.remove_collider(id).expect("it was there");
    assert_eq!(removed.position, Point::new(10, 10));
    assert_eq!(removed.size, Size::new(5, 5));
    assert_eq!(removed.source, TreeObjectSource::Environment);
    let found = tree.broad_phase(Point::new(-100, -100), Size::new(1000, 1000), still(), 1);
    assert_eq!(found.len(), 1);
    assert_eq!(found[0].position, Point::new(0, 0));
    assert_eq!(tree.remove_collider(id), None);
    assert!(tree.remove_collider(keep).is_some());
    assert_eq!(tree.remove_collider(keep), None);
    assert!(tree.broad_phase(Point::new(-100, -100), Size::new(1000, 1000), still(), 1).is_empty());
}

#[test]
fn removing_an_unknown_identifier_finds_nothing() {
    let mut tree = CollisionTree::new();
    assert_eq!(tree.remove_collider(0), None);
    tree.add_collider(Point::new(0, 0), Size::new(1, 1), TreeObjectSource::Environment);
    assert_eq!(tree.remove_collider(17), None);
    assert_eq!(tree.broad_phase(Point::new(0, 0), Size::new(1, 1), still(), 1).len(), 1);
}

#[test]
fn equal_colliders_are_kept_apart_by_their_identifiers() {
    let mut tree = CollisionTree::new();
    let a = tree.add_collider(Point::new(1, 1), Size::new(2, 2), TreeObjectSource::Environment);
    let b = tree.add_collider(Point::new(1, 1), Size::new(2, 2), TreeObjectSource::Environment);
    assert_eq!(tree.broad_phase(Point::new(0, 0), Size::new(5, 5), still(), 1).len(), 2);
    assert!(tree.remove_collider(a).is_some());
    assert_eq!(tree.broad_phase(Point::new(0, 0), Size::new(5, 5), still(), 1).len(), 1);
    assert!(tree.remove_collider(b).is_some());
    assert_eq!(tree.broad_phase(Point::new(0, 0), Size::new(5, 5), still(), 1).len(), 0);
}

#[test]
fn broad_phase_leaves_out_what_is_out_of_reach() {
    let mut tree = CollisionTree::new();
    tree.add_collider(Point::new(100, 0), Size::new(10, 10), TreeObjectSource::Environment);
    tree.add_collider(Point::new(0, 100), Size::new(10, 10), TreeObjectSource::Environment);
    let found = tree.broad_phase(Point::new(0, 0), Size::new(10, 10), still(), 1);
    assert!(found.is_empty());
}

#[test]
fn broad_phase_counts_touching_edges() {
    let mut tree = CollisionTree::new();
    tree.add_collider(Point::new(10, 0), Size::new(10, 10), TreeObjectSource::Environment);
    let found = tree.broad_phase(Point::new(0, 0), Size::new(10, 10), still(), 1);
    assert_eq!(found.len(), 1);
    let found = tree.broad_phase(Point::new(0, 0), Size::new(9, 10), still(), 1);
    assert!(found.is_empty());
}

#[test]
fn broad_phase_covers_the_whole_sweep() {
    let mut tree = CollisionTree::new();
    tree.add_collider(Point::new(50, 0), Size::new(1, 10), TreeObjectSource::Environment);
    tree.add_collider(Point::new(-50, 0), Size::new(1, 10), TreeObjectSource::Environment);
    let right = tree.broad_phase(Point::new(0, 0), Size::new(10, 10), Vector::new(100, 0), 1);
    assert_eq!(right.len(), 1);
    assert_eq!(right[0].position, Point::new(50, 0));
    let left = tree.broad_phase(Point::new(0, 0), Size::new(10, 10), Vector::new(-10, 0), 10);
    assert_eq!(left.len(), 1);
    assert_eq!(left[0].position, Point::new(-50, 0));
    let short = tree.broad_phase(Point::new(0, 0), Size::new(10, 10), Vector::new(39, 0), 1);
    assert!(short.is_empty());
    let reach = tree.broad_phase(Point::new(0, 0), Size::new(10, 10), Vector::new(40, 0), 1);
    assert_eq!(reach.len(), 1);
}

#[test]
fn broad_phase_keeps_the_source() {
    let mut tree = CollisionTree::new();
    let handle = entity((1 << 32) | 7);
    tree.add_collider(
        Point::new(0, 0),
        Size::new(10, 10),
        TreeObjectSource::Entity { handle: handle },
    );
    let found = tree.broad_phase(Point::new(5, 5), Size::new(1, 1), still(), 1);
    assert_eq!(found.len(), 1);
    assert_eq!(found[0].source, TreeObjectSource::Entity { handle: handle });
}

#[test]
fn zero_size_collider_is_a_point() {
    let mut tree = CollisionTree::new();
    tree.add_collider(Point::new(3, 3), Size::new(0, 0), TreeObjectSource::Environment);
    assert_eq!(tree.broad_phase(Point::new(3, 3), Size::new(0, 0), still(), 1).len(), 1);
    assert_eq!(tree.broad_phase(Point::new(4, 3), Size::new(0, 0), still(), 1).len(), 0);
}

#[test]
fn many_colliders_are_all_found_and_all_removed() {
    let mut tree = CollisionTree::new();
    let mut ids = Vec::new();
    for i in 0..200 {
        ids.push(tree.add_collider(
            Point::new(i * 10, (i % 7) * 10),
            Size::new(5, 5),
            TreeObjectSource::Environment,
        ));
    }
    let all = tree.broad_phase(Point::new(-10, -10), Size::new(5000, 5000), still(), 1);
    assert_eq!(all.len(), 200);
    let some = tree.broad_phase(Point::new(0, 0), Size::new(95, 100), still(), 1);
    assert_eq!(some.len(), 10);
    for id in ids {
        assert!(tree.remove_collider(id).is_some());
    }
    let none = tree.broad_phase(Point::new(-10, -10), Size::new(5000, 5000), still(), 1);
    assert!(none.is_empty());
}

#[test]
fn colliders_at_the_edges_of_the_grid_are_stored() {
    let mut tree = CollisionTree::new();
    let a = tree.add_collider(
        Point::new(i32::MIN, i32::MIN),
        Size::new(u32::MAX, u32::MAX),
        TreeObjectSource::Environment,
    );
    let b = tree.add_collider(
        Point::new(i32::MAX, i32::MAX),
        Size::new(u32::MAX, u32::MAX),
        TreeObjectSource::Environment,
    );
    for i in 0..20 {
        tree.add_collider(
            Point::new(i32::MAX - i, i32::MIN + i),
            Size::new(u32::MAX, 1),
            TreeObjectSource::Environment,
        );
    }
    let found = tree.broad_phase(
        Point::new(i32::MIN, i32::MIN),
        Size::new(u32::MAX, u32::MAX),
        Vector::new(i32::MAX, i32::MAX),
        i32::MAX,
    );
    assert_eq!(found.len(), 22);
    assert!(tree.remove_collider(a).is_some());
    assert!(tree.remove_collider(b).is_some());
}

#[test]
fn room_for_identifiers_is_reported() {
    let tree = CollisionTree::new();
    assert!(tree.has_room(0));
    assert!(tree.has_room(1_000_000));
}

#[test]
fn corners_go_around_the_rectangle() {
    let object = TreeObject {
        position: Point::new(1, 2),
        size: Size::new(10, 20),
        source: TreeObjectSource::Environment,
    };
    assert_eq!(
        object.corners(),
        [Point::new(1, 2), Point::new(11, 2), Point::new(11, 22), Point::new(1, 22)]
    );
}

#[test]
fn corners_are_kept_on_the_grid() {
    let object = TreeObject {
        position: Point::new(i32::MAX - 1, 0),
        size: Size::new(10, u32::MAX),
        source: TreeObjectSource::Environment,
    };
    assert_eq!(
        object.corners(),
        [
            Point::new(i32::MAX - 1, 0),
            Point::new(i32::MAX, 0),
            Point::new(i32::MAX, i32::MAX),
            Point::new(i32::MAX - 1, i32::MAX)
        ]
    );
}

#[test]
fn all_colliders_are_listed() {
    let mut tree = CollisionTree::new();
    assert!(tree.colliders().is_empty());
    let a = tree.add_collider(
        Point::new(i32::MIN, i32::MIN),
        Size::new(0, 0),
        TreeObjectSource::Environment,
    );
    tree.add_collider(
        Point::new(i32::MAX, i32::MAX),
        Size::new(u32::MAX, u32::MAX),
        TreeObjectSource::Environment,
    );
    tree.add_collider(Point::new(0, 0), Size::new(1, 1), TreeObjectSource::Environment);
    let mut positions: Vec<i32> = tree.colliders().iter().map(|c| c.position.x).collect();
    positions.sort();
    assert_eq!(positions, vec![i32::MIN, 0, i32::MAX]);
    tree.remove_collider(a);
    assert_eq!(tree.colliders().len(), 2);
}

#[test]
fn collider_corners_are_drawn_collider_after_collider() {
    let mut tree = CollisionTree::new();
    assert!(tree.draw_collider_corners().is_empty());
    tree.add_collider(Point::new(0, 0), Size::new(10, 20), TreeObjectSource::Environment);
    assert_eq!(
        tree.draw_collider_corners(),
        vec![Point::new(0, 0), Point::new(10, 0), Point::new(10, 20), Point::new(0, 20)]
    );
    tree.add_collider(Point::new(100, 100), Size::new(1, 1), TreeObjectSource::Environment);
    let corners = tree.draw_collider_corners();
    assert_eq!(corners.len(), 8);
    let first = corners[0];
    assert!(first == Point::new(0, 0) || first == Point::new(100, 100));
    assert_eq!(corners[2], Point::new(first.x + if first.x == 0 { 10 } else { 1 }, corners[2].y));
    assert!(corners.contains(&Point::new(101, 101)));
    assert!(corners.contains(&Point::new(10, 20)));
}
