use eonix::components::ComponentSet;
use eonix::entity::Entity;
use eonix::kind::KindId;
use eonix::query::{Extract, ExtractTerm, Query};
use eonix::scene::Scene;
use eonix::world::World;

const K1: KindId = KindId(101);
const K2: KindId = KindId(102);
const K3: KindId = KindId(103);

#[derive(Debug, Clone, Copy, PartialEq, Eq)]
enum Value {
    C1(u32),
    C2(u32),
    C3(u32),
}

use Value::{C1, C2, C3};

type TestWorld = World<Value, u32, u32>;
type TestScene = Scene<Value, u32, u32>;

fn kind_of(value: &Value) -> KindId {
    match value {
        C1(_) => K1,
        C2(_) => K2,
        C3(_) => K3,
    }
}

fn one(value: Value) -> ComponentSet<Value> {
    ComponentSet::new().with(kind_of(&value), value)
}

fn two(a: Value, b: Value) -> ComponentSet<Value> {
    one(a).with(kind_of(&b), b)
}

fn shared(kind: KindId) -> ExtractTerm {
    ExtractTerm::shared(kind, "shared")
}

fn exclusive(kind: KindId) -> ExtractTerm {
    ExtractTerm::exclusive(kind, "exclusive")
}

fn query<'a>(scene: &'a TestScene, terms: Vec<ExtractTerm>) -> Option<Query<'a, Value, ()>> {
    Query::new(&scene.entities, Extract::new(terms), ())
}

/// The one component that a query of one term yields for `entity`.
fn get(scene: &TestScene, term: ExtractTerm, entity: &Entity) -> Value {
    let query = query(scene, vec![term]).unwrap();
    let item = query.get_entity_components(entity).unwrap();
    assert_eq!(item.len(), 1);
    *item[0].unwrap()
}

/// Whether a query on `kind` is not there or does not yield `entity`.
fn gone(scene: &TestScene, kind: KindId, entity: &Entity) -> bool {
    match query(scene, vec![shared(kind)]) {
        None => true,
        Some(query) => query.get_entity_components(entity).is_none(),
    }
}

#[test]
fn components_test_query_get() {
    let mut world = TestWorld::new();

    let scene = world.current_scene_mut();
    let mut ents = Vec::with_capacity(100);

    for i in 0..100 {
        let entity = scene.spawn_entity();
        scene.add_component(&entity, two(C1(i), C2(i + 100)));
        ents.push(entity);
    }

    let query = query(scene, vec![shared(K1), exclusive(K2)]).unwrap();
    assert_eq!(query.table_count(), 1);

    for (i, ent) in ents.iter().enumerate() {
        let item = query.get_entity_components(ent).unwrap();
        assert_eq!(item[0], Some(&C1(i as u32)));
        assert_eq!(item[1], Some(&C2(i as u32 + 100)));
    }
}

#[test]
fn test_query_get_optional() {
    let mut world = TestWorld::new();

    let scene = world.current_scene_mut();
    let mut ents = Vec::with_capacity(100);

    for i in 0..10 {
        let entity = scene.spawn_entity();

        if i % 2 == 0 {
            scene.add_component(&entity, two(C1(i), C2(i + 100)));
        } else {
            scene.add_component(&entity, one(C1(i)));
        }

        ents.push(entity);
    }

    let query1 = query(scene, vec![shared(K1), exclusive(K2).optional()]).unwrap();
    assert_eq!(query1.table_count(), 2);

    for (i, ent) in ents.iter().enumerate() {
        let item = query1.get_entity_components(ent).unwrap();

        if i % 2 == 0 {
            assert_eq!(item[0], Some(&C1(i as u32)));
            assert_eq!(item[1].unwrap(), &C2(i as u32 + 100));
        } else {
            assert_eq!(item[0], Some(&C1(i as u32)));
            assert_eq!(item[1], None);
        }
    }

    drop(query1);

    let query2 = query(scene, vec![shared(K1), shared(K2).optional()]).unwrap();
    assert_eq!(query2.table_count(), 2);

    for (i, ent) in ents.iter().enumerate() {
        let item = query2.get_entity_components(ent).unwrap();

        if i % 2 == 0 {
            assert_eq!(item[0], Some(&C1(i as u32)));
            assert_eq!(item[1].unwrap(), &C2(i as u32 + 100));
        } else {
            assert_eq!(item[0], Some(&C1(i as u32)));
        }
    }
}

#[test]
fn components_test_add_components() {
    let mut world = TestWorld::new();

    let scene = world.current_scene_mut();
    let entity = scene.spawn_entity();

    scene.add_component(&entity, two(C1(42), C2(123)));

    assert_eq!(get(scene, shared(K1), &entity), C1(42));
    assert_eq!(get(scene, exclusive(K2), &entity), C2(123));

    scene.add_component(&entity, one(C1(1002)));

    assert_eq!(get(scene, exclusive(K1), &entity), C1(1002));
    assert_eq!(get(scene, shared(K2), &entity), C2(123));

    scene.add_component(&entity, one(C3(090)));

    assert_eq!(get(scene, shared(K1), &entity), C1(1002));
    assert_eq!(get(scene, shared(K2), &entity), C2(123));
    assert_eq!(get(scene, exclusive(K3), &entity), C3(090));
}

#[test]
fn components_test_remove_components() {
    let mut world = TestWorld::new();

    let scene = world.current_scene_mut();
    let entity = scene.spawn_entity();
    scene.add_component(&entity, one(C1(001)));
    scene.add_component(&entity, one(C2(002)));
    scene.add_component(&entity, one(C3(003)));

    assert_eq!(get(scene, shared(K1), &entity), C1(001));
    assert_eq!(get(scene, shared(K2), &entity), C2(002));
    assert_eq!(get(scene, shared(K3), &entity), C3(003));

    scene.remove_components(&entity, &[K1]);

    assert!(query(scene, vec![shared(K1)]).is_none());
    assert_eq!(get(scene, shared(K2), &entity), C2(002));
    assert_eq!(get(scene, shared(K3), &entity), C3(003));

    scene.remove_components(&entity, &[K2]);

    assert!(query(scene, vec![shared(K1)]).is_none());
    assert!(query(scene, vec![shared(K2)]).is_none());
    assert_eq!(get(scene, shared(K3), &entity), C3(003));

    scene.remove_components(&entity, &[K3]);

    assert!(query(scene, vec![shared(K1)]).is_none());
    assert!(query(scene, vec![shared(K2)]).is_none());
    assert!(query(scene, vec![shared(K3)]).is_none());
    assert!(gone(scene, K3, &entity));
    // the entity has no archetype any more
    assert!(scene.entities.entities[entity.id()].1.is_invalid());
    assert_eq!(scene.entities.entities[entity.id()].0, entity.generation());
}

#[test]
fn test_query_iter_single_table() {
    let mut world = TestWorld::new();

    let scene = world.current_scene_mut();
    let mut ents = Vec::with_capacity(100);

    for i in 0..100 {
        let entity = scene.spawn_entity();
        scene.add_component(&entity, two(C1(i), C2(i + 100)));
        ents.push(entity);
    }

    let query = query(scene, vec![shared(K1), exclusive(K2)]).unwrap();
    assert_eq!(query.table_count(), 1);

    let iter = query.iter();
    assert_eq!(iter.len(), 100);

    for (i, item) in iter.iter().enumerate() {
        assert_eq!(item[0], Some(&C1(i as u32)));
        assert_eq!(item[1], Some(&C2(i as u32 + 100)));
    }
}

#[test]
fn test_query_iter_multiple_table() {
    let mut world = TestWorld::new();

    let scene = world.current_scene_mut();
    let mut ents = Vec::with_capacity(100);

    // spawn entities
    for _ in 0..100 {
        let entity = scene.spawn_entity();
        ents.push(entity);
    }

    // add single component
    for (i, entity) in ents[0..10].iter().enumerate() {
        scene.add_component(entity, one(C1(i as u32)));
    }

    // add double component
    for (i, entity) in ents.iter().enumerate() {
        scene.add_component(entity, one(C2(i as u32 + 100)));
    }

    let query = query(scene, vec![shared(K2)]).unwrap();
    assert_eq!(query.table_count(), 2);

    let items = query.iter();
    let mut iter = items.iter().enumerate();

    for (i, c1) in (&mut iter).take(10) {
        assert_eq!(c1[0], Some(&C2(i as u32 + 100)));
    }

    for (i, c2) in (&mut iter).take(90) {
        assert_eq!(c2[0], Some(&C2(i as u32 + 100)));
    }

    assert_eq!(iter.next(), None);
}

#[test]
fn test_add_untyped() {
    let mut world = TestWorld::new();

    let commands = world.commands();

    let mut ents = Vec::with_capacity(100);

    for i in 0..100 {
        let entity = commands.reserve_entity();
        commands.add_component(&entity, two(C1(i), C2(i + 100)));
        ents.push(entity);
    }

    world.apply_commands();

    let scene = world.current_scene();

    let query = query(scene, vec![shared(K1), exclusive(K2)]).unwrap();
    assert_eq!(query.table_count(), 1);

    let iter = query.iter();
    assert_eq!(iter.len(), 100);

    for (i, item) in iter.iter().enumerate() {
        assert_eq!(item[0], Some(&C1(i as u32)));
        assert_eq!(item[1], Some(&C2(i as u32 + 100)));
    }
}

#[test]
fn test_remove_components_untyped() {
    let mut world = TestWorld::new();

    let commands = world.commands();

    let mut ents = Vec::with_capacity(100);

    // spawn entities with components
    for i in 0..100 {
        let entity = commands.reserve_entity();
        commands.add_component(&entity, two(C1(i), C2(i + 100)));
        ents.push(entity);
    }

    world.apply_commands();

    // remove components
    for ent in &ents {
        commands.remove_component(ent, vec![K1, K2]);
    }

    world.apply_commands();

    let scene = world.current_scene();

    let res = query(scene, vec![shared(K1), exclusive(K2)]);
    assert!(res.is_none());
    for ent in &ents {
        assert!(scene.entities.entities[ent.id()].1.is_invalid());
    }
}

#[test]
fn test_delete_entity_untyped() {
    let mut world = TestWorld::new();

    let commands = world.commands();

    let mut ents = Vec::with_capacity(100);

    // spawn entities with components
    for i in 0..100 {
        let entity = commands.reserve_entity();
        commands.add_component(&entity, two(C1(i), C2(i + 100)));
        ents.push(entity);
    }

    world.apply_commands();

    // remove components
    for ent in ents {
        commands.delete_entity(ent);
    }

    world.apply_commands();

    let scene = world.current_scene();

    let res = query(scene, vec![shared(K1), exclusive(K2)]);
    assert!(res.is_none());
    // the table went with its last entity
    assert_eq!(scene.entities.tables.len(), 0);
}

#[test]
fn mod_test_query_get() {
    let mut world = TestWorld::new();

    let scene = world.current_scene_mut();
    let mut ents = Vec::with_capacity(100);

    for i in 0..100 {
        let entity = scene.spawn_entity();
        scene.add_component(&entity, two(C1(i), C2(i + 100)));
        ents.push(entity);
    }

    let query = query(scene, vec![shared(K1), exclusive(K2)]).unwrap();
    assert_eq!(query.table_count(), 1);

    for (i, ent) in ents.iter().enumerate() {
        let item = query.get_entity_components(ent).unwrap();
        assert_eq!(item[0].unwrap(), &C1(i as u32));
        assert_eq!(item[1].unwrap(), &C2(i as u32 + 100));
    }
}

#[test]
fn mod_test_add_components() {
    let mut world = TestWorld::new();

    let scene = world.current_scene_mut();
    let entity = scene.spawn_entity();

    scene.add_component(&entity, two(C1(42), C2(123)));

    assert_eq!(get(scene, shared(K1), &entity), C1(42));
    assert_eq!(get(scene, exclusive(K2), &entity), C2(123));

    scene.add_component(&entity, one(C1(1002)));

    assert_eq!(get(scene, exclusive(K1), &entity), C1(1002));
    assert_eq!(get(scene, shared(K2), &entity), C2(123));

    scene.add_component(&entity, one(C3(090)));

    assert_eq!(get(scene, shared(K1), &entity), C1(1002));
    assert_eq!(get(scene, shared(K2), &entity), C2(123));
    assert_eq!(get(scene, exclusive(K3), &entity), C3(090));
}

#[test]
fn mod_test_remove_components() {
    let mut world = TestWorld::new();

    let scene = world.current_scene_mut();
    let entity = scene.spawn_entity();
    scene.add_component(&entity, one(C1(001)));
    scene.add_component(&entity, one(C2(002)));
    scene.add_component(&entity, one(C3(003)));

    assert_eq!(get(scene, shared(K1), &entity), C1(001));
    assert_eq!(get(scene, shared(K2), &entity), C2(002));
    assert_eq!(get(scene, shared(K3), &entity), C3(003));

    scene.remove_components(&entity, &[K1]);

    assert!(gone(scene, K1, &entity));
    assert_eq!(get(scene, shared(K2), &entity), C2(002));
    assert_eq!(get(scene, shared(K3), &entity), C3(003));

    scene.remove_components(&entity, &[K2]);

    assert!(gone(scene, K1, &entity));
    assert!(gone(scene, K2, &entity));
    assert_eq!(get(scene, shared(K3), &entity), C3(003));

    scene.remove_components(&entity, &[K3]);

    assert!(gone(scene, K1, &entity));
    assert!(gone(scene, K2, &entity));
    assert!(gone(scene, K3, &entity));
}

#[test]
fn test_query_iter() {
    let mut world = TestWorld::new();

    let scene = world.current_scene_mut();
    let mut ents = Vec::with_capacity(100);

    for i in 0..100 {
        let entity = scene.spawn_entity();
        scene.add_component(&entity, two(C1(i), C2(i + 100)));
        ents.push(entity);
    }

    let query = query(scene, vec![shared(K1), exclusive(K2)]).unwrap();
    assert_eq!(query.table_count(), 1);

    let iter = query.iter();

    let mut count = 0;
    for _ in iter {
        count += 1;
    }
    assert_eq!(count, 100);
}

#[test]
fn test_commands_reach_the_world_in_order() {
    let mut world = TestWorld::new();
    let first = world.commands();
    let second = world.commands();
    // both handles reserve from the allocator of the scene
    let a = first.reserve_entity();
    let b = second.reserve_entity();
    let c = world.current_scene().spawner().reserve();
    assert_eq!((a.id(), b.id(), c.id()), (0, 1, 2));
    // commands on components are applied after those on entities, in their order
    second.add_component(&a, one(C1(1)));
    first.add_component(&a, one(C1(2)));
    first.add_component(&b, one(C2(3)));
    second.delete_entity(b);
    world.apply_commands();
    let scene = world.current_scene();
    assert_eq!(get(scene, shared(K1), &a), C1(2));
    assert!(gone(scene, K2, &b));
    assert!(scene.entities.validate());
    // nothing is left in the queues
    let tables = scene.entities.tables.len();
    world.apply_commands();
    assert_eq!(world.current_scene().entities.tables.len(), tables);
}
