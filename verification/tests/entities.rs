use eonix::archetypes::{next_power_of_two, EntityComponents};
use eonix::components::{ComponentAddModifier, ComponentRemoveModifier, ComponentSet};
use eonix::entity::{Entity, Generation, INVALID, VALID};
use eonix::kind::{all_distinct, contains_kind, difference_kinds, union_kinds, KindId};
use eonix::spawner::{freed, recycled, EntitySpawner};
use eonix::table_id::TableId;

const A: KindId = KindId(1);
const B: KindId = KindId(2);
const C: KindId = KindId(3);

fn set(items: &[(KindId, u32)]) -> ComponentSet<u32> {
    let mut out = ComponentSet::new();
    for (kind, value) in items {
        out = out.with(*kind, *value);
    }
    out
}

/// The components of `entity`, by kind, as the tables hold them.
fn components(world: &EntityComponents<u32>, entity: &Entity) -> Vec<(KindId, u32)> {
    let id = world.entities[entity.id()].1;
    let mut out = Vec::new();
    if id.is_invalid() {
        return out;
    }
    let table = world.tables.iter().find(|t| t.id() == id).unwrap();
    let slot = table.get_entity_position(entity);
    for row in table.rows.iter() {
        out.push((row.tid(), row.get_access_ref()[slot]));
    }
    out.sort_by_key(|(kind, _)| kind.0);
    out
}

/// Table homogeneity and directory consistency, checked on the values.
fn check(world: &EntityComponents<u32>) {
    assert!(world.validate());
    for table in world.tables.iter() {
        assert!(!table.id().is_invalid());
        assert_eq!(table.id(), TableId::from_uniques(&table.types()));
        for row in table.rows.iter() {
            assert_eq!(row.len(), table.len());
        }
        for entity in table.entities.iter() {
            assert_eq!(world.entities[entity.id()], (entity.generation(), table.id()));
            assert_eq!(table.entities.iter().filter(|e| *e == entity).count(), 1);
        }
        assert_eq!(world.tables.iter().filter(|t| t.id() == table.id()).count(), 1);
    }
    for (i, (generation, id)) in world.entities.iter().enumerate() {
        if !id.is_invalid() {
            assert!(!generation.is_invalid());
            let table = world.tables.iter().find(|t| t.id() == *id).unwrap();
            assert!(table.entities.contains(&Entity::new(i as u32, *generation)));
        }
    }
}

#[test]
fn test_generation() {
    assert_eq!(INVALID, 0b1000_0000_0000_0000_0000_0000_0000_0000);
    assert_eq!(VALID, 0b0111_1111_1111_1111_1111_1111_1111_1111);
    assert_eq!(Generation::new(), Generation(0));
    assert!(!Generation::new().is_invalid());
    assert_eq!(Generation::invalid(), Generation(INVALID));
    assert!(Generation::invalid().is_invalid());
    let mut g = Generation(5);
    g.set_invalid();
    assert_eq!(g, Generation(INVALID + 5));
    assert!(g.is_invalid());
    g.set_invalid();
    assert_eq!(g, Generation(INVALID + 5));
    g.set_valid();
    assert_eq!(g, Generation(5));
    g.set_valid();
    assert_eq!(g, Generation(5));
    g.inc();
    assert_eq!(g, Generation(6));
    // the count wraps to zero instead of running into the flag
    let mut g = Generation(VALID - 1);
    g.inc();
    assert_eq!(g, Generation(VALID));
    g.inc();
    assert_eq!(g, Generation(0));
    let mut g = Generation(u32::MAX);
    g.inc();
    assert_eq!(g, Generation(0));
}

#[test]
fn test_entity() {
    let e = Entity::new(9, Generation(4));
    assert_eq!(e.id(), 9);
    assert_eq!(e.generation(), Generation(4));
    assert_eq!(e, Entity { position: 9, generation: Generation(4) });
    assert_ne!(e, Entity::new(9, Generation(5)));
}

#[test]
fn test_spawner() {
    let spawner = EntitySpawner::new();
    let a = spawner.reserve();
    let b = spawner.clone().reserve();
    assert_eq!(a, Entity::new(0, Generation(0)));
    assert_eq!(b, Entity::new(1, Generation(0)));
    spawner.free(a);
    // the freed position comes back under the next generation
    assert_eq!(spawner.reserve(), Entity::new(0, Generation(1)));
    assert_eq!(spawner.reserve(), Entity::new(2, Generation(0)));
    assert_eq!(freed(Entity::new(3, Generation(7))), Entity::new(3, Generation(INVALID + 7)));
    assert_eq!(recycled(Entity::new(3, Generation(INVALID + 7))), Entity::new(3, Generation(8)));
    assert_eq!(recycled(Entity::new(3, Generation(VALID))), Entity::new(3, Generation(0)));
    assert_eq!(recycled(Entity::new(3, Generation(u32::MAX))), Entity::new(3, Generation(0)));
}

#[test]
fn test_kind_lists() {
    assert!(contains_kind(&[A, B], B));
    assert!(!contains_kind(&[A, B], C));
    assert!(!contains_kind(&[], C));
    assert!(all_distinct(&[A, B, C]));
    assert!(all_distinct(&[]));
    assert!(!all_distinct(&[A, B, A]));
    assert_eq!(union_kinds(vec![C, A], &[A, B, C]), vec![C, A, B]);
    assert_eq!(union_kinds(vec![], &[A, B]), vec![A, B]);
    assert_eq!(difference_kinds(&[A, B, C], &[B]), vec![A, C]);
    assert_eq!(difference_kinds(&[A, B, C], &[C, B, A]), vec![]);
    assert_eq!(difference_kinds(&[A, B], &[]), vec![A, B]);
}

#[test]
fn test_directory_grows_by_powers_of_two() {
    assert_eq!(next_power_of_two(0), 1);
    assert_eq!(next_power_of_two(1), 1);
    assert_eq!(next_power_of_two(2), 2);
    assert_eq!(next_power_of_two(3), 4);
    assert_eq!(next_power_of_two(1025), 2048);
    assert_eq!(next_power_of_two(usize::MAX), usize::MAX);
    let mut world = EntityComponents::<u32>::new();
    world.activate_entity(Entity::new(4, Generation(2)));
    assert_eq!(world.entities.len(), 8);
    assert_eq!(world.entities[4], (Generation(2), TableId::invalid()));
    assert_eq!(world.entities[3], (Generation::invalid(), TableId::invalid()));
    world.activate_entity(Entity::new(7, Generation(0)));
    assert_eq!(world.entities.len(), 8);
    world.activate_entity(Entity::new(8, Generation(0)));
    assert_eq!(world.entities.len(), 16);
    // a slot that is in use stays as it is, and an invalid generation is not activated
    world.activate_entity(Entity::new(4, Generation(3)));
    assert_eq!(world.entities[4], (Generation(2), TableId::invalid()));
    world.activate_entity(Entity::new(5, Generation::invalid()));
    assert_eq!(world.entities[5], (Generation::invalid(), TableId::invalid()));
    check(&world);
}

#[test]
fn test_add_moves_between_archetypes() {
    let mut world = EntityComponents::<u32>::new();
    let e = world.spawn_entity();
    let f = world.spawn_entity();
    world.add_components(&e, set(&[(A, 1)]));
    world.add_components(&f, set(&[(A, 10)]));
    check(&world);
    assert_eq!(world.tables.len(), 1);
    let first = world.entities[e.id()].1;
    assert_eq!(first, TableId::from_uniques(&[A]));

    // a new kind: the entity moves to the table of the union
    world.add_components(&e, set(&[(B, 2), (A, 3)]));
    check(&world);
    assert_eq!(world.tables.len(), 2);
    assert_eq!(world.entities[e.id()].1, TableId::from_uniques(&[A, B]));
    assert_eq!(components(&world, &e), vec![(A, 3), (B, 2)]);
    assert_eq!(components(&world, &f), vec![(A, 10)]);
    // the new table keeps the columns of the old one in front
    assert_eq!(world.tables[1].types(), vec![A, B]);

    // the other entity joins the existing table
    world.add_components(&f, set(&[(B, 20)]));
    check(&world);
    assert_eq!(world.tables.len(), 2);
    assert_eq!(world.tables[0].len(), 0);
    assert_eq!(world.tables[1].entities, vec![e, f]);
    assert_eq!(components(&world, &f), vec![(A, 10), (B, 20)]);
}

#[test]
fn test_second_add_is_seen() {
    let mut world = EntityComponents::<u32>::new();
    let e = world.spawn_entity();
    world.add_components(&e, set(&[(A, 1), (B, 2)]));
    let table = world.entities[e.id()].1;
    world.add_components(&e, set(&[(B, 20), (A, 10)]));
    check(&world);
    assert_eq!(world.entities[e.id()].1, table);
    assert_eq!(world.tables.len(), 1);
    assert_eq!(world.tables[0].len(), 1);
    assert_eq!(components(&world, &e), vec![(A, 10), (B, 20)]);
    world.add_components(&e, set(&[(B, 21)]));
    assert_eq!(components(&world, &e), vec![(A, 10), (B, 21)]);
}

#[test]
fn test_add_then_remove_returns_to_the_archetype() {
    let mut world = EntityComponents::<u32>::new();
    let e = world.spawn_entity();
    world.add_components(&e, set(&[(A, 1)]));
    let before = world.entities[e.id()].1;
    world.add_components(&e, set(&[(B, 2), (C, 3)]));
    assert_ne!(world.entities[e.id()].1, before);
    world.remove_component(&e, &[C, B]);
    check(&world);
    assert_eq!(world.entities[e.id()].1, before);
    assert_eq!(components(&world, &e), vec![(A, 1)]);

    // the kinds that are added cover everything: nothing is left
    world.add_components(&e, set(&[(A, 5), (B, 6)]));
    world.remove_component(&e, &[A, B]);
    check(&world);
    assert!(world.entities[e.id()].1.is_invalid());
    assert_eq!(world.entities[e.id()].0, e.generation());

    // an overlap in part leads somewhere else
    world.add_components(&e, set(&[(A, 1), (C, 3)]));
    let before = world.entities[e.id()].1;
    world.add_components(&e, set(&[(A, 7), (B, 8)]));
    world.remove_component(&e, &[A, B]);
    check(&world);
    assert_eq!(world.entities[e.id()].1, TableId::from_uniques(&[C]));
    assert_ne!(world.entities[e.id()].1, before);
}

#[test]
fn test_remove_of_kinds_that_are_not_there() {
    let mut world = EntityComponents::<u32>::new();
    let e = world.spawn_entity();
    world.remove_component(&e, &[A]);
    assert!(world.entities[e.id()].1.is_invalid());
    world.add_components(&e, set(&[(A, 1), (B, 2)]));
    let before = world.entities[e.id()].1;
    world.remove_component(&e, &[C]);
    world.remove_component(&e, &[]);
    check(&world);
    assert_eq!(world.entities[e.id()].1, before);
    assert_eq!(world.tables.len(), 1);
    assert_eq!(components(&world, &e), vec![(A, 1), (B, 2)]);
    // some of the kinds are there
    world.remove_component(&e, &[C, B]);
    assert_eq!(components(&world, &e), vec![(A, 1)]);
}

#[test]
fn test_stale_and_unknown_entities_are_ignored() {
    let mut world = EntityComponents::<u32>::new();
    let e = world.spawn_entity();
    world.add_components(&e, set(&[(A, 1)]));
    let stale = Entity::new(e.id() as u32, Generation(e.generation().0 + 1));
    let far = Entity::new(1000, Generation::new());
    let unused = Entity::new(e.id() as u32, Generation(INVALID));
    for entity in [stale, far, unused] {
        world.add_components(&entity, set(&[(B, 2)]));
        world.remove_component(&entity, &[A]);
        world.delete_entity(entity);
        check(&world);
        assert_eq!(world.tables.len(), 1);
        assert_eq!(world.entities.len(), 1);
        assert_eq!(components(&world, &e), vec![(A, 1)]);
    }
}

#[test]
fn test_delete_entity() {
    let mut world = EntityComponents::<u32>::new();
    let a = world.spawn_entity();
    let b = world.spawn_entity();
    let c = world.spawn_entity();
    world.add_components(&a, set(&[(A, 1)]));
    world.add_components(&b, set(&[(A, 2)]));
    world.add_components(&c, set(&[(B, 3)]));
    world.delete_entity(a);
    check(&world);
    assert_eq!(world.tables.len(), 2);
    assert!(world.entities[a.id()].0.is_invalid());
    assert!(world.entities[a.id()].1.is_invalid());
    assert_eq!(components(&world, &b), vec![(A, 2)]);
    // the last entity of a table takes the table with it
    world.delete_entity(b);
    check(&world);
    assert_eq!(world.tables.len(), 1);
    assert_eq!(components(&world, &c), vec![(B, 3)]);
    // an entity without components can be deleted too
    let d = world.spawn_entity();
    assert_eq!(d, Entity::new(a.id() as u32, Generation(1)));
    world.delete_entity(d);
    assert!(world.entities[d.id()].0.is_invalid());
    // the handle of the deleted entity is stale now
    world.add_components(&a, set(&[(A, 9)]));
    check(&world);
    assert_eq!(world.tables.len(), 1);
}

#[test]
fn test_untyped_operations() {
    let mut world = EntityComponents::<u32>::new();
    let e = world.spawn_entity();
    let components_ = set(&[(A, 1), (B, 2)]);
    let modifier = ComponentAddModifier::new(components_.types());
    assert!(modifier.matches(&components_));
    assert!(!modifier.matches(&set(&[(B, 2), (A, 1)])));
    assert!(!modifier.matches(&set(&[(A, 1)])));
    assert_eq!(modifier.table_id(), TableId::from_uniques(&[A, B]));
    assert_eq!(modifier.table_new::<u32>().types(), vec![A, B]);
    world.add_component_untyped(&e, components_, modifier);
    assert_eq!(components(&world, &e), vec![(A, 1), (B, 2)]);
    let remove = ComponentRemoveModifier::new(vec![A]);
    assert!(remove.ptf_contanins_type(A));
    assert!(!remove.ptf_contanins_type(B));
    world.remove_components_untyped(&e, remove);
    check(&world);
    assert_eq!(components(&world, &e), vec![(B, 2)]);
    assert!(world.find_table(TableId::from_uniques(&[B])).is_some());
    assert!(world.find_table(TableId::from_uniques(&[C])).is_none());
    let _ = world.spawner().reserve();
}

#[test]
fn test_a_table_with_the_id_but_other_kinds_stops_the_add() {
    let mut world = EntityComponents::<u32>::new();
    let e = world.spawn_entity();
    // a table that claims the id of {A} but has the column B
    let mut impostor = eonix::table::Table::<u32>::new(&[B]);
    impostor.id = TableId::from_uniques(&[A]);
    world.tables.push(impostor);
    world.add_components(&e, set(&[(A, 1)]));
    assert!(world.entities[e.id()].1.is_invalid());
    assert_eq!(world.tables.len(), 1);
    assert_eq!(world.tables[0].len(), 0);
    world.add_components(&e, set(&[(B, 1)]));
    assert_eq!(components(&world, &e), vec![(B, 1)]);
    assert_eq!(world.tables.len(), 2);
}

#[test]
fn test_component_access() {
    let mut world = EntityComponents::<u32>::new();
    let e = world.spawn_entity();
    let f = world.spawn_entity();
    world.add_components(&e, set(&[(A, 1), (B, 2)]));
    world.add_components(&f, set(&[(A, 10), (B, 20)]));
    assert_eq!(world.get_component(&e, A), Some(&1));
    assert_eq!(world.get_component(&f, B), Some(&20));
    assert_eq!(world.get_component(&e, C), None);
    *world.get_component_mut(&f, A).unwrap() += 5;
    check(&world);
    assert_eq!(components(&world, &f), vec![(A, 15), (B, 20)]);
    assert_eq!(components(&world, &e), vec![(A, 1), (B, 2)]);
    assert!(world.get_component_mut(&e, C).is_none());
    let stale = Entity::new(e.id() as u32, Generation(9));
    assert!(world.get_component(&stale, A).is_none());
    assert!(world.get_component_mut(&stale, A).is_none());
    assert!(world.get_component(&Entity::new(77, Generation(0)), A).is_none());
    let bare = world.spawn_entity();
    assert!(world.get_component(&bare, A).is_none());
}

#[test]
fn test_validate_finds_broken_invariants() {
    let build = || {
        let mut world = EntityComponents::<u32>::new();
        let e = world.spawn_entity();
        let f = world.spawn_entity();
        world.add_components(&e, set(&[(A, 1), (B, 2)]));
        world.add_components(&f, set(&[(A, 3)]));
        (world, e, f)
    };
    let (world, _, _) = build();
    assert!(world.validate());
    assert!(world.tables[0].validate());
    // a column that is too long
    let (mut world, _, _) = build();
    world.tables[0].rows[1].push(9);
    assert!(!world.tables[0].validate());
    assert!(!world.validate());
    // an entity in two slots
    let (mut world, e, _) = build();
    world.tables[0].entities.push(e);
    world.tables[0].rows[0].push(9);
    world.tables[0].rows[1].push(9);
    assert!(!world.validate());
    // two tables under one id
    let (mut world, _, _) = build();
    world.tables[1].id = world.tables[0].id;
    assert!(!world.validate());
    // a table under the id "no archetype"
    let (mut world, _, _) = build();
    world.tables[1].id = TableId::invalid();
    assert!(!world.validate());
    // the directory names a table that does not hold the entity
    let (mut world, e, f) = build();
    world.entities[e.id()].1 = world.entities[f.id()].1;
    assert!(!world.validate());
    // the directory names no table for an entity that is in one
    let (mut world, e, _) = build();
    world.entities[e.id()].1 = TableId::invalid();
    assert!(!world.validate());
    // the directory names a table that does not exist
    let (mut world, _, _) = build();
    world.entities.push((Generation(0), TableId(1, 1)));
    assert!(!world.validate());
    // an unused slot with a table
    let (mut world, e, _) = build();
    world.entities[e.id()].0.set_invalid();
    assert!(!world.validate());
}

#[test]
fn test_handles_share_the_allocator() {
    let mut world = EntityComponents::<u32>::new();
    let handle = world.spawner();
    let a = handle.reserve();
    let b = world.spawn_entity();
    let c = handle.clone().reserve();
    assert_eq!(a, Entity::new(0, Generation(0)));
    assert_eq!(b, Entity::new(1, Generation(0)));
    assert_eq!(c, Entity::new(2, Generation(0)));
    // what is deleted in the set comes back through the handle
    world.delete_entity(b);
    assert_eq!(handle.reserve(), Entity::new(1, Generation(1)));
}
