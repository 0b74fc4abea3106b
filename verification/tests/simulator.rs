use beyond_engine::{
    Body, Collider, CollisionEvent, Point, RigidBody, Simulator, Size, Transform,
    TreeObjectSource, Vector,
};

fn handle_of(id: u32) -> hecs::Entity {
    hecs::Entity::from_bits((1u64 << 32) | id as u64).expect("valid bits")
}

fn body(id: u32, position: (i32, i32), velocity: (i32, i32), acceleration: (i32, i32)) -> Body {
    Body {
        entity: handle_of(id),
        transform: Transform::new(Point::new(position.0, position.1), Vector::new(1, 1)),
        rigid_body: RigidBody::new(
            Vector::new(velocity.0, velocity.1),
            Vector::new(acceleration.0, acceleration.1),
        ),
        collider: Collider::new(Point::new(0, 0), Size::new(10, 10)),
    }
}

#[test]
fn free_body_moves_by_its_velocity_then_gains_its_acceleration() {
    let mut simulator = Simulator::new();
    let mut bodies = vec![body(1, (0, 0), (3, -4), (1, 2))];
    let events = simulator.execute(&mut bodies, 5);
    assert!(events.is_empty());
    assert_eq!(bodies[0].transform.position, Point::new(15, -20));
    assert_eq!(bodies[0].rigid_body.velocity, Vector::new(8, 6));
    assert_eq!(bodies[0].rigid_body.acceleration, Vector::new(1, 2));
    assert_eq!(bodies[0].transform.scale, Vector::new(1, 1));
}

#[test]
fn body_at_rest_gains_acceleration_times_timestep_without_event() {
    let mut simulator = Simulator::new();
    simulator.add_environment_collider(Point::new(0, 10), Size::new(10, 10));
    simulator.add_environment_collider(Point::new(5, 5), Size::new(10, 10));
    let mut bodies = vec![body(1, (0, 0), (0, 0), (2, 9))];
    let events = simulator.execute(&mut bodies, 3);
    assert!(events.is_empty());
    assert_eq!(bodies[0].transform.position, Point::new(0, 0));
    assert_eq!(bodies[0].rigid_body.velocity, Vector::new(6, 27));
}

#[test]
fn body_is_stopped_at_the_wall_and_reports_the_collision() {
    let mut simulator = Simulator::new();
    simulator.add_environment_collider(Point::new(15, 0), Size::new(10, 10));
    let mut bodies = vec![body(1, (0, 0), (10, 0), (0, 0))];
    let events = simulator.execute(&mut bodies, 1);
    assert_eq!(
        events,
        vec![CollisionEvent {
            source1: TreeObjectSource::Entity { handle: handle_of(1) },
            source2: TreeObjectSource::Environment,
        }]
    );
    assert_eq!(bodies[0].rigid_body.velocity, Vector::new(5, 0));
    assert_eq!(bodies[0].transform.position, Point::new(5, 0));
}

#[test]
fn cancelled_speed_is_rounded_up() {
    let mut simulator = Simulator::new();
    simulator.add_environment_collider(Point::new(15, 0), Size::new(10, 10));
    let mut bodies = vec![body(1, (0, 0), (3, 0), (0, 0))];
    let events = simulator.execute(&mut bodies, 3);
    assert_eq!(events.len(), 1);
    assert_eq!(bodies[0].rigid_body.velocity, Vector::new(1, 0));
    assert_eq!(bodies[0].transform.position, Point::new(3, 0));
}

#[test]
fn falling_body_lands_on_the_floor() {
    let mut simulator = Simulator::new();
    simulator.add_environment_collider(Point::new(-100, 50), Size::new(200, 10));
    let mut bodies = vec![body(1, (0, 0), (0, 0), (0, 4))];
    let mut events = 0;
    for _ in 0..20 {
        events += simulator.execute(&mut bodies, 1).len();
        assert!(bodies[0].transform.position.y + 10 <= 50);
    }
    assert!(events > 0);
    assert!(bodies[0].transform.position.y >= 30);
    assert_eq!(bodies[0].transform.position.x, 0);
}

#[test]
fn no_transient_collider_is_left_after_a_tick() {
    let mut simulator = Simulator::new();
    let wall = simulator.add_environment_collider(Point::new(1000, 1000), Size::new(10, 10));
    assert_eq!(wall, 0);
    let mut bodies = vec![
        body(1, (0, 0), (1, 0), (0, 0)),
        body(2, (0, 0), (1, 0), (0, 0)),
        body(3, (500, 0), (0, 0), (0, 0)),
    ];
    let events = simulator.execute(&mut bodies, 1);
    assert!(events.is_empty());
    let events = simulator.execute(&mut bodies, 1);
    assert!(events.is_empty());
    let next = simulator.add_environment_collider(Point::new(2000, 2000), Size::new(10, 10));
    assert_eq!(next, 7);
    let mut probe = vec![body(9, (980, 1000), (20, 0), (0, 0))];
    let events = simulator.execute(&mut probe, 1);
    assert_eq!(events.len(), 1);
}

#[test]
fn entities_do_not_collide_with_each_other() {
    let mut simulator = Simulator::new();
    let mut bodies = vec![body(1, (20, 0), (0, 0), (0, 0)), body(2, (0, 0), (30, 0), (0, 0))];
    let events = simulator.execute(&mut bodies, 1);
    assert!(events.is_empty());
    assert_eq!(bodies[1].transform.position, Point::new(30, 0));
    assert_eq!(bodies[1].rigid_body.velocity, Vector::new(30, 0));
}

#[test]
fn collider_offset_moves_the_collider() {
    let mut simulator = Simulator::new();
    simulator.add_environment_collider(Point::new(15, 0), Size::new(10, 10));
    let mut shifted = body(1, (0, 0), (10, 0), (0, 0));
    shifted.collider = Collider::new(Point::new(0, 100), Size::new(10, 10));
    let mut bodies = vec![shifted];
    let events = simulator.execute(&mut bodies, 1);
    assert!(events.is_empty());
    assert_eq!(bodies[0].transform.position, Point::new(10, 0));
}

#[test]
fn each_wall_in_the_way_gives_an_event() {
    let mut simulator = Simulator::new();
    simulator.add_environment_collider(Point::new(15, 0), Size::new(10, 5));
    simulator.add_environment_collider(Point::new(15, 5), Size::new(10, 5));
    let mut bodies = vec![body(1, (0, 0), (10, 0), (0, 0))];
    let events = simulator.execute(&mut bodies, 1);
    assert!(!events.is_empty());
    assert!(events.len() <= 2);
    assert!(bodies[0].transform.position.x <= 5);
}

#[test]
fn sums_are_kept_on_the_grid() {
    let mut simulator = Simulator::new();
    let mut bodies = vec![body(1, (i32::MAX - 1, 0), (i32::MAX, 0), (i32::MAX, i32::MIN))];
    let events = simulator.execute(&mut bodies, i32::MAX);
    assert!(events.is_empty());
    assert_eq!(bodies[0].transform.position, Point::new(i32::MAX, 0));
    assert_eq!(bodies[0].rigid_body.velocity, Vector::new(i32::MAX, i32::MIN));
}

#[test]
fn empty_tick_changes_nothing() {
    let mut simulator = Simulator::new();
    let mut bodies: Vec<Body> = Vec::new();
    assert!(simulator.execute(&mut bodies, 1).is_empty());
    assert_eq!(simulator.add_environment_collider(Point::new(0, 0), Size::new(1, 1)), 0);
    assert!(simulator.has_room(10));
}

#[test]
fn components_keep_their_arguments() {
    let transform = Transform::new(Point::new(1, 2), Vector::new(3, 4));
    assert_eq!(transform.position, Point::new(1, 2));
    assert_eq!(transform.scale, Vector::new(3, 4));
    let rigid_body = RigidBody::new(Vector::new(5, 6), Vector::new(7, 8));
    assert_eq!(rigid_body.velocity, Vector::new(5, 6));
    assert_eq!(rigid_body.acceleration, Vector::new(7, 8));
    let collider = Collider::new(Point::new(9, 10), Size::new(11, 12));
    assert_eq!(collider.offset, Point::new(9, 10));
    assert_eq!(collider.size, Size::new(11, 12));
}

#[test]
fn markers_are_left_only_where_asked_for() {
    let mut simulator = Simulator::new();
    simulator.add_environment_collider(Point::new(100, 100), Size::new(10, 20));
    let mut bodies = vec![body(1, (0, 0), (1, 0), (0, 0))];
    simulator.execute(&mut bodies, 1);
    assert!(simulator.markers().is_empty());
    simulator.show_hitboxes(true);
    simulator.execute(&mut bodies, 1);
    let mut markers = simulator.markers().clone();
    markers.sort_by_key(|p| (p.x, p.y));
    assert_eq!(
        markers,
        vec![
            Point::new(2, 0),
            Point::new(2, 10),
            Point::new(12, 0),
            Point::new(12, 10),
            Point::new(100, 100),
            Point::new(100, 120),
            Point::new(110, 100),
            Point::new(110, 120),
        ]
    );
    simulator.show_hitboxes(false);
    simulator.execute(&mut bodies, 1);
    assert!(simulator.markers().is_empty());
}

#[test]
fn markers_do_not_change_the_outcome() {
    let mut plain = Simulator::new();
    let mut shown = Simulator::new();
    shown.show_hitboxes(true);
    for simulator in [&mut plain, &mut shown] {
        simulator.add_environment_collider(Point::new(15, 0), Size::new(10, 10));
    }
    let mut a = vec![body(1, (0, 0), (10, 0), (0, 1)), body(2, (0, 50), (3, 3), (0, 0))];
    let mut b = a.clone();
    for _ in 0..5 {
        assert_eq!(plain.execute(&mut a, 1), shown.execute(&mut b, 1));
        assert_eq!(a, b);
    }
}

#[test]
fn a_wall_that_is_hit_is_never_crossed() {
    for speed in 1..60 {
        for timestep in 1..6 {
            for gap in 0..40 {
                let mut simulator = Simulator::new();
                simulator.add_environment_collider(Point::new(10 + gap, -5), Size::new(3, 20));
                let mut bodies = vec![body(1, (0, 0), (speed, 0), (0, 0))];
                let events = simulator.execute(&mut bodies, timestep);
                let reached = speed * timestep > gap;
                assert_eq!(!events.is_empty(), reached);
                assert!(bodies[0].transform.position.x + 10 <= 10 + gap);
                if !reached {
                    assert_eq!(bodies[0].transform.position.x, speed * timestep);
                }
            }
        }
    }
}

#[test]
fn a_wall_on_the_left_is_never_crossed_either() {
    for speed in 1..60 {
        for gap in 0..40 {
            let mut simulator = Simulator::new();
            simulator.add_environment_collider(Point::new(-3 - gap, -5), Size::new(3, 20));
            let mut bodies = vec![body(1, (0, 0), (-speed, 0), (0, 0))];
            let events = simulator.execute(&mut bodies, 2);
            assert_eq!(!events.is_empty(), speed * 2 > gap);
            assert!(bodies[0].transform.position.x >= -gap);
        }
    }
}

#[test]
fn colliders_out_of_reach_do_not_change_a_tick() {
    let mut near = Simulator::new();
    let mut both = Simulator::new();
    for simulator in [&mut near, &mut both] {
        simulator.add_environment_collider(Point::new(15, 0), Size::new(10, 10));
    }
    for i in 0..30 {
        both.add_environment_collider(Point::new(200 + 20 * i, -300 + 20 * i), Size::new(5, 5));
    }
    let mut a = vec![body(1, (0, 0), (10, 3), (0, 1))];
    let mut b = a.clone();
    for _ in 0..4 {
        assert_eq!(near.execute(&mut a, 1), both.execute(&mut b, 1));
        assert_eq!(a, b);
    }
}
