use eonix::components::{Apply, ComponentSet};
use eonix::entity::{Entity, Generation};
use eonix::kind::KindId;
use eonix::row::Row;
use eonix::table::{ExtendableTable, Table};
use eonix::table_id::{TableId, TableIdBuilder};

const U32: KindId = KindId(1);
const I32: KindId = KindId(2);
const F: KindId = KindId(3);

#[derive(Debug, Clone, Copy, PartialEq, Eq)]
enum Value {
    U(u32),
    I(i32),
    F(u8),
}

fn pair(u: u32, i: i32) -> ComponentSet<Value> {
    ComponentSet::new().with(U32, Value::U(u)).with(I32, Value::I(i))
}

#[test]
fn test_create_table() {
    let table = Table::<Value>::new(&[U32]);
    assert!(table.entities.is_empty());
    assert_eq!(table.rows.len(), 1);
    assert_eq!(table.rows[0].tid(), U32);

    let table = Table::<Value>::new(&[U32, I32]);
    assert!(table.entities.is_empty());
    assert_eq!(table.rows.len(), 2);
    assert_eq!(table.rows[0].tid(), U32);
    assert_eq!(table.rows[1].tid(), I32);
}

#[test]
fn test_table_push_and_get() {
    let mut table = Table::<Value>::new(&[U32, I32]);
    let ent = Entity::new(0, Generation::new());

    table.push(ent, pair(100, 200));

    assert_eq!(&table.entities, &[ent]);
    assert_eq!(table.len(), 1);

    let row = table.try_get_row_ref(U32).unwrap();
    assert_eq!(row, &[Value::U(100)]);

    let row = table.try_get_row_ref(I32).unwrap();
    assert_eq!(row, &[Value::I(200)]);
}

#[test]
fn test_push_or_update() {
    let mut table = Table::<Value>::new(&[U32, I32]);
    let ent = Entity::new(0, Generation::new());

    table.entities.push(ent);
    table.push_missing_or_update(&ent, pair(100, 200));

    assert_eq!(&table.entities, &[ent]);
    assert_eq!(table.len(), 1);

    let row = table.try_get_row_ref(U32).unwrap();
    assert_eq!(row, &[Value::U(100)]);

    let row = table.try_get_row_ref(I32).unwrap();
    assert_eq!(row, &[Value::I(200)]);
}

#[test]
fn test_table_move_up() {
    let mut table_single = Table::<Value>::new(&[U32]);
    let mut table_tuple = Table::<Value>::new(&[U32, I32]);
    let ent = Entity::new(0, Generation::new());

    table_single.push(ent, ComponentSet::new().with(U32, Value::U(100)));

    assert_eq!(&table_single.entities, &[ent]);
    assert_eq!(table_single.len(), 1);

    assert_eq!(&table_tuple.entities, &[]);
    assert_eq!(table_tuple.len(), 0);

    table_single.move_entity_up(&mut table_tuple, &ent);
    table_tuple.push_missing_or_update(&ent, ComponentSet::new().with(I32, Value::I(200)));

    assert_eq!(&table_single.entities, &[]);
    assert_eq!(table_single.len(), 0);

    assert_eq!(&table_tuple.entities, &[ent]);
    assert_eq!(table_tuple.len(), 1);

    let row = table_tuple.try_get_row_ref(U32).unwrap();
    assert_eq!(row, &[Value::U(100)]);

    let row = table_tuple.try_get_row_ref(I32).unwrap();
    assert_eq!(row, &[Value::I(200)]);
}

#[test]
fn test_table_move_down() {
    let mut table_single = Table::<Value>::new(&[U32]);
    let mut table_tuple = Table::<Value>::new(&[U32, I32]);
    let ent = Entity::new(0, Generation::new());

    table_tuple.push(ent, pair(100, 200));

    assert_eq!(&table_tuple.entities, &[ent]);
    assert_eq!(table_tuple.len(), 1);

    assert_eq!(&table_single.entities, &[]);
    assert_eq!(table_single.len(), 0);

    table_tuple.move_entity_down(&mut table_single, &ent);

    assert_eq!(&table_single.entities, &[ent]);
    assert_eq!(table_single.len(), 1);

    assert_eq!(&table_tuple.entities, &[]);
    assert_eq!(table_tuple.len(), 0);

    let row = table_single.try_get_row_ref(U32).unwrap();
    assert_eq!(row, &[Value::U(100)]);
}

#[test]
fn test_table_is_homogeneous_after_every_operation() {
    let mut table = Table::<Value>::new(&[U32, I32]);
    let ents: Vec<Entity> = (0..5).map(|i| Entity::new(i, Generation::new())).collect();
    for (i, ent) in ents.iter().enumerate() {
        table.push(*ent, pair(i as u32, -(i as i32)));
        for row in table.rows.iter() {
            assert_eq!(row.len(), table.len());
        }
    }
    table.delete_entity(ents[1]);
    for row in table.rows.iter() {
        assert_eq!(row.len(), table.len());
    }
    // the last entity took the slot of the deleted one
    assert_eq!(&table.entities, &[ents[0], ents[4], ents[2], ents[3]]);
    assert_eq!(
        table.try_get_row_ref(U32).unwrap(),
        &[Value::U(0), Value::U(4), Value::U(2), Value::U(3)]
    );
    assert_eq!(
        table.try_get_row_ref(I32).unwrap(),
        &[Value::I(0), Value::I(-4), Value::I(-2), Value::I(-3)]
    );
    table.update(&ents[2], pair(22, 33));
    assert_eq!(table.try_get_row_ref(U32).unwrap()[2], Value::U(22));
    assert_eq!(table.try_get_row_ref(I32).unwrap()[2], Value::I(33));
    table.update_partial(&ents[3], ComponentSet::new().with(I32, Value::I(7)));
    assert_eq!(table.try_get_row_ref(U32).unwrap()[3], Value::U(3));
    assert_eq!(table.try_get_row_ref(I32).unwrap()[3], Value::I(7));
    for row in table.rows.iter() {
        assert_eq!(row.len(), table.len());
    }
}

#[test]
fn test_table_lookups() {
    let mut table = Table::<Value>::new(&[U32, I32]);
    let ent = Entity::new(7, Generation::new());
    assert!(table.is_empty());
    table.push(ent, pair(1, 2));
    assert!(!table.is_empty());
    assert_eq!(table.types(), vec![U32, I32]);
    assert_eq!(table.find_row(I32), Some(1));
    assert_eq!(table.find_row(F), None);
    assert!(table.contains_one(U32));
    assert!(!table.contains_one(F));
    assert!(table.contains_all(&[I32, U32]));
    assert!(!table.contains_all(&[I32, F]));
    assert!(table.has_exactly(&[I32, U32]));
    assert!(!table.has_exactly(&[I32]));
    assert_eq!(table.get_entity_position(&ent), 0);
    assert_eq!(table.find_entity(&ent), Some(0));
    assert_eq!(table.find_entity(&Entity::new(8, Generation::new())), None);
    assert!(table.try_get_row_ref(F).is_err());
    assert_eq!(table.id(), TableId::from_uniques(&[I32, U32]));
}

#[test]
fn test_move_down_drops_what_the_target_lacks() {
    let mut from = Table::<Value>::new(&[U32, I32, F]);
    let mut to = Table::<Value>::new(&[I32]);
    let a = Entity::new(0, Generation::new());
    let b = Entity::new(1, Generation::new());
    from.push(a, ComponentSet::new().with(U32, Value::U(1)).with(I32, Value::I(2)).with(F, Value::F(3)));
    from.push(b, ComponentSet::new().with(F, Value::F(6)).with(I32, Value::I(5)).with(U32, Value::U(4)));
    from.move_entity_down(&mut to, &a);
    assert_eq!(&from.entities, &[b]);
    assert_eq!(&to.entities, &[a]);
    assert_eq!(to.try_get_row_ref(I32).unwrap(), &[Value::I(2)]);
    assert_eq!(from.try_get_row_ref(U32).unwrap(), &[Value::U(4)]);
    assert_eq!(from.try_get_row_ref(I32).unwrap(), &[Value::I(5)]);
    assert_eq!(from.try_get_row_ref(F).unwrap(), &[Value::F(6)]);
}

#[test]
fn test_row_operations() {
    let mut row = Row::<u32>::new(U32);
    row.push(1);
    row.push(2);
    row.push(3);
    row.update(1, 20);
    assert_eq!(row.get_access_ref(), &[1, 20, 3]);
    row.push_or_update(3, 4);
    row.push_or_update(0, 10);
    assert_eq!(row.get_access_ref(), &[10, 20, 3, 4]);
    row.swap_remove(0);
    assert_eq!(row.get_access_ref(), &[4, 20, 3]);
    let mut other = row.clone_empty();
    assert_eq!(other.tid(), U32);
    assert_eq!(other.len(), 0);
    row.move_push_entity(&mut other, 1);
    assert_eq!(row.get_access_ref(), &[4, 3]);
    assert_eq!(other.get_access_ref(), &[20]);
    row.get_mut().push(9);
    row.get_access_mut()[0] = 5;
    assert_eq!(row.get_access_ref(), &[5, 3, 9]);
}

#[test]
fn test_extendable_table() {
    let table = Table::<Value>::new(&[U32]);
    let id = TableId::from_uniques(&[I32, U32, F]);
    let mut extend = table.get_extendable_precomputed(id);
    assert!(!extend.check());
    extend.extend_rows(&[I32, U32, F]);
    assert!(extend.check());
    assert!(extend.has_row(F));
    let kinds: Vec<KindId> = extend.rows.iter().map(|r| r.tid()).collect();
    assert_eq!(kinds, vec![U32, I32, F]);
    extend.remove_rows(&[U32, F]);
    let kinds: Vec<KindId> = extend.rows.iter().map(|r| r.tid()).collect();
    assert_eq!(kinds, vec![I32]);
    assert!(!extend.check());
    let table = extend.finish();
    assert_eq!(table.id(), id);
    assert_eq!(table.types(), vec![I32]);
    assert!(table.is_empty());
    let ExtendableTable { rows, .. } = table.get_extendable_precomputed(TableId::invalid());
    assert_eq!(rows.len(), 1);
}

#[test]
fn test_component_set_into_table() {
    let set = pair(1, 2);
    assert!(set.validate());
    assert_eq!(set.types(), vec![U32, I32]);
    assert!(set.contains_type(I32));
    assert!(!set.contains_type(F));
    assert_eq!(set.row_count(), 2);
    assert_eq!(set.table_id(), TableId::from_uniques(&[U32, I32]));
    let rows = set.rows();
    assert_eq!(rows.len(), 2);
    assert_eq!(rows[1].tid(), I32);
    assert!(!ComponentSet::<Value>::new().validate());
    assert!(!pair(1, 2).with(U32, Value::U(3)).validate());

    let mut table = Table::<Value>::new(&[I32, U32]);
    let ent = Entity::new(0, Generation::new());
    set.push_to_table(&mut table, ent);
    assert_eq!(&table.entities, &[ent]);
    pair(10, 20).update_rows(&mut table, 0);
    assert_eq!(table.try_get_row_ref(U32).unwrap(), &[Value::U(10)]);
    assert_eq!(table.try_get_row_ref(I32).unwrap(), &[Value::I(20)]);
    pair(11, 21).push_or_update(&mut table, 0);
    assert_eq!(table.try_get_row_ref(U32).unwrap(), &[Value::U(11)]);
    assert_eq!(Apply::Push, Apply::Push);
}

#[test]
fn test_table_id_of_known_hashes() {
    // the hash of a kind is what the hasher yields for its number
    let id = TableId::from_uniques(&[KindId(1)]);
    assert_eq!(id.0, 12157901119326311915);
    assert_eq!(id.1, (12157901119326311915 & 0xFFFF_FFFF_FFFF_FF00) | 1);
    let id = TableId::from_uniques(&[KindId(1), KindId(100)]);
    let a: u64 = 12157901119326311915;
    let b: u64 = 16751747135202103309;
    assert_eq!(id.0, a.wrapping_add(b));
    assert_eq!(id.1, ((a | b) & 0xFFFF_FFFF_FFFF_FF00) | 2);
    assert!(!id.is_invalid());
    assert!(TableId::invalid().is_invalid());
    assert_eq!(TableId::invalid(), TableId(0, 0));
}

#[test]
fn test_table_id_ignores_order() {
    let kinds = [KindId(5), KindId(900), KindId(17), KindId(u64::MAX)];
    let id = TableId::from_uniques(&kinds);
    assert_eq!(id, TableId::from_uniques(&[KindId(900), KindId(u64::MAX), KindId(5), KindId(17)]));
    assert_eq!(id, TableId::from_uniques(&[KindId(u64::MAX), KindId(17), KindId(900), KindId(5)]));
    assert_ne!(id, TableId::from_uniques(&[KindId(5), KindId(900), KindId(17)]));
    assert_eq!(id.1 & 0xFF, 4);
}

#[test]
fn test_table_id_builder() {
    let mut builder = TableIdBuilder::new();
    builder.add_hash(0xF0F0);
    builder.add_hash(u64::MAX);
    assert_eq!(builder.sum, 0xF0EF);
    assert_eq!(builder.xor, u64::MAX);
    assert_eq!(builder.cnt, 2);
    assert_eq!(builder.finish(), TableId(0xF0EF, 0xFFFF_FFFF_FFFF_FF02));
    let mut builder = TableIdBuilder::new();
    builder.add_unqiue(KindId(1));
    assert_eq!(builder.finish(), TableId::from_uniques(&[KindId(1)]));
}
