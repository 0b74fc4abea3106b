use beyond_engine::{Actives, EcsError, Flag, GfxError, SceneError, TextureKind, TypeIdHasher};

#[test]
fn dirty_flag_is_dirty() {
    let flag = Flag::new_dirty(5);
    assert!(flag.is_dirty());
    assert_eq!(*flag.get(), 5);
}

#[test]
fn clean_flag_is_clean() {
    let flag = Flag::new_clean("a");
    assert!(!flag.is_dirty());
    assert_eq!(*flag.get(), "a");
}

#[test]
fn setting_a_flag_makes_it_dirty_and_cleaning_keeps_the_value() {
    let mut flag = Flag::new_clean(vec![1, 2]);
    flag.set(vec![3]);
    assert!(flag.is_dirty());
    assert_eq!(*flag.get(), vec![3]);
    flag.clean();
    assert!(!flag.is_dirty());
    assert_eq!(*flag.get(), vec![3]);
}

#[test]
fn no_camera_is_an_error() {
    let actives = Actives::new();
    assert_eq!(actives.camera(), Err(GfxError::NoActiveCamera));
    assert_eq!(Actives::default().camera(), Err(GfxError::NoActiveCamera));
}

#[test]
fn the_camera_that_was_set_last_is_active() {
    let mut world = hecs::World::new();
    let first = world.spawn(());
    let second = world.spawn(());
    let mut actives = Actives::new();
    actives.set_camera(first);
    assert_eq!(actives.camera(), Ok(first));
    actives.set_camera(second);
    assert_eq!(actives.camera(), Ok(second));
}

#[test]
fn blank_texture_has_the_empty_name() {
    assert_eq!(TextureKind::none().get(), "");
    assert_eq!(TextureKind::default().get(), "");
    assert_eq!(TextureKind::none(), TextureKind::Blank);
}

#[test]
fn regular_texture_has_its_name() {
    let kind = TextureKind::regular("grass");
    assert_eq!(kind.get(), "grass");
    assert_eq!(kind, TextureKind::Regular(String::from("grass")));
}

#[test]
fn error_messages_read_as_before() {
    assert_eq!(EcsError::EntityNotFound.message(), "Entity was not found");
    assert_eq!(EcsError::UnsatisfiedInspect.message(), "Unsatisfied inspect");
    assert_eq!(SceneError::SceneNotFound.message(), "Scene not found");
}

#[test]
fn type_id_hasher_hands_back_what_it_was_given() {
    let mut hasher = TypeIdHasher::new();
    assert_eq!(hasher.finish(), 0);
    hasher.write_u64(0xdead_beef);
    assert_eq!(hasher.finish(), 0xdead_beef);
    hasher.write_u64(7);
    assert_eq!(hasher.finish(), 7);
    assert_eq!(TypeIdHasher::default().finish(), 0);
}
