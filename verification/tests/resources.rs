use eonix::kind::KindId;
use eonix::resources::{ResourceStorageModifier, Resources};
use eonix::world::World;

#[derive(Debug, Clone, Copy, PartialEq, Eq)]
struct R1(u32);

#[derive(Debug, Clone, Copy, PartialEq, Eq)]
struct R2(u32);

const KR1: KindId = KindId(201);
const KR2: KindId = KindId(202);

type TestWorld = World<u8, R1, R2>;

#[test]
fn test_scene_resource_insert_get() {
    let mut world = TestWorld::new();

    let scene = world.current_scene_mut();

    scene.insert_resource(KR1, R1(100));

    let res = scene.get_resource_ref(KR1).unwrap();
    assert_eq!(&res.0, &100);

    let res = scene.get_resource_mut(KR1).unwrap();
    assert_eq!(&mut res.0, &mut 100);
}

#[test]
fn test_scene_nosend_insert_get() {
    let mut world = TestWorld::new();

    let scene = world.current_scene_mut();

    scene.insert_nosend_resource(KR2, R2(100));

    let res = scene.get_nosend_resource_ref(KR2).unwrap();
    assert_eq!(&res.0, &100);

    let res = scene.get_nosend_resource_mut(KR2).unwrap();
    assert_eq!(&mut res.0, &mut 100);
}

#[test]
fn test_global_resource_insert_get() {
    let mut world = TestWorld::new();

    world.insert_resource(KR1, R1(100));

    let res = world.get_resource_ref(KR1).unwrap();
    assert_eq!(&res.0, &100);

    let res = world.get_resource_mut(KR1).unwrap();
    assert_eq!(&mut res.0, &mut 100);
}

#[test]
fn test_global_nosend_insert_get() {
    let mut world = TestWorld::new();

    world.insert_nosend_resource(KR2, R2(100));

    let res = world.get_nosend_resource_ref(KR2).unwrap();
    assert_eq!(&res.0, &100);

    let res = world.get_nosend_resource_mut(KR2).unwrap();
    assert_eq!(&mut res.0, &mut 100);
}

#[test]
fn test_resource_store() {
    let mut store = Resources::<u32>::new();
    assert!(store.get_resource(KR1).is_none());
    assert!(store.get_resource_mut(KR1).is_none());
    store.insert_resource(KR1, 1);
    store.insert_resource(KR2, 2);
    // a second insert replaces
    store.insert_resource(KR1, 10);
    assert_eq!(store.get_resource(KR1), Some(&10));
    assert_eq!(store.get_resource(KR2), Some(&2));
    assert!(store.contains_resource(KR2));
    *store.get_resource_mut(KR2).unwrap() += 5;
    assert_eq!(store.get_resource(KR2), Some(&7));
    assert_eq!(store.get_resource(KR1), Some(&10));
    store.insert_resource_untyped(3, ResourceStorageModifier::new(KR2));
    assert_eq!(store.get_resource(KR2), Some(&3));
    store.remove_resource_untyped(KR1);
    store.remove_resource_untyped(KR1);
    assert!(!store.contains_resource(KR1));
    assert_eq!(store.get_resource(KR2), Some(&3));
}

#[test]
fn test_resource_commands() {
    let mut world = TestWorld::new();
    let commands = world.commands();
    commands.add_resource(KR1, R1(1));
    commands.add_resource(KR2, R1(2));
    commands.add_resource(KR1, R1(3));
    commands.remove_resource(KR2);
    // nothing happens before the commands are applied
    assert!(world.current_scene().get_resource_ref(KR1).is_none());
    world.apply_commands();
    assert_eq!(world.current_scene().get_resource_ref(KR1), Some(&R1(3)));
    assert!(world.current_scene().get_resource_ref(KR2).is_none());
    // the commands go to the scene, not to the global resources
    assert!(world.get_resource_ref(KR1).is_none());
    assert!(world.global_resources().get_resource(KR1).is_none());
    assert!(world.global_nosend().get_resource(KR1).is_none());
}
