use eonix::archetypes::EntityComponents;
use eonix::components::ComponentSet;
use eonix::filter::{Filter, FilterError, FilterType, Or, With, WithOut};
use eonix::kind::KindId;
use eonix::query::{Extract, ExtractTerm, Query, QueryError};
use eonix::system::ParamType;
use eonix::table::Table;

const U32: KindId = KindId(1);
const I32: KindId = KindId(2);
const F: KindId = KindId(3);

fn extract(terms: Vec<ExtractTerm>) -> Extract {
    Extract::new(terms)
}

#[test]
fn test_invalid_same_type() {
    let res = Query::<u32, ()>::validate(
        &extract(vec![ExtractTerm::shared(U32, "u32"), ExtractTerm::shared(U32, "u32")]),
        &(),
    );

    assert!(res.is_err());
    assert_eq!(res, Err(QueryError::DuplicateKind(U32)));
}

#[test]
fn test_invalid_only_optional() {
    let res = Query::<u32, ()>::validate(
        &extract(vec![ExtractTerm::shared(U32, "u32").optional()]),
        &(),
    );
    assert!(res.is_err());

    let res = Query::<u32, ()>::validate(
        &extract(vec![
            ExtractTerm::shared(U32, "u32").optional(),
            ExtractTerm::shared(I32, "i32").optional(),
        ]),
        &(),
    );
    assert!(res.is_err());
    assert_eq!(res, Err(QueryError::OnlyOptional));
}

#[test]
fn test_invalid_extract_and_filter() {
    let res = Query::<u32, WithOut>::validate(
        &extract(vec![ExtractTerm::shared(U32, "u32")]),
        &WithOut { kind: U32, name: "u32" },
    );

    assert!(res.is_err());
    assert_eq!(res, Err(QueryError::ExtractedKindExcluded(U32)));
}

#[test]
fn test_valid_queries() {
    assert_eq!(
        Query::<u32, With>::validate(
            &extract(vec![ExtractTerm::shared(U32, "u32")]),
            &With { kind: U32, name: "u32" },
        ),
        Ok(())
    );
    assert_eq!(
        Query::<u32, (With, WithOut)>::validate(
            &extract(vec![
                ExtractTerm::exclusive(U32, "u32"),
                ExtractTerm::shared(I32, "i32").optional()
            ]),
            &(With { kind: I32, name: "i32" }, WithOut { kind: F, name: "f" }),
        ),
        Ok(())
    );
    let clash = (With { kind: F, name: "f1" }, WithOut { kind: F, name: "f2" });
    assert_eq!(
        Query::<u32, (With, WithOut)>::validate(&extract(vec![ExtractTerm::shared(U32, "u32")]), &clash),
        Err(QueryError::Filter(FilterError(FilterType::Has(F, "f1"), FilterType::Not(F, "f2"))))
    );
}

#[test]
fn test_extract_footprint_and_access() {
    let e = extract(vec![
        ExtractTerm::shared(U32, "u32"),
        ExtractTerm::exclusive(I32, "i32"),
        ExtractTerm::shared(F, "f").optional(),
    ]);
    assert_eq!(e.validate(), Ok(()));
    assert_eq!(
        e.types(),
        vec![ParamType::Shared(U32, "u32"), ParamType::Mut(I32, "i32"), ParamType::Shared(F, "f")]
    );
    let table = Table::<u32>::new(&[I32, U32]);
    let access = e.extract(&table, 5).unwrap();
    assert_eq!(access.table_id(), table.id());
    assert_eq!(access.position, 5);
    assert_eq!(access.rows, vec![Some(1), Some(0), None]);
    // a table that lacks a required kind is refused
    assert!(e.extract(&Table::<u32>::new(&[U32, F]), 0).is_err());
}

#[test]
fn test_filter_types() {
    let has = FilterType::new_has(U32, "u32");
    let not = FilterType::new_not(U32, "u32");
    let other = FilterType::new_not(I32, "i32");
    assert_eq!(has.raw_type(), U32);
    assert_eq!(other.raw_type(), I32);
    assert_eq!(other.name(), "i32");
    assert!(has.excludes_one(&not));
    assert!(not.excludes_one(&has));
    assert!(!has.excludes_one(&has));
    assert!(!has.excludes_one(&other));
    assert!(FilterType::prevents_overlapping(&[other, has], &[other, not]));
    assert!(!FilterType::prevents_overlapping(&[other, has], &[other, has]));
    assert!(!FilterType::prevents_overlapping(&[], &[not]));
    assert_eq!(FilterType::validate(&[has, other]), Ok(()));
    assert_eq!(FilterType::validate(&[has, has]), Ok(()));
    // the first pair in reading order is named
    assert_eq!(FilterType::validate(&[other, not, has]), Err(FilterError(not, has)));
    assert_eq!(
        FilterError(FilterType::Has(U32, "A"), FilterType::Not(U32, "B")).message(),
        "Filter conflict between: [A] <-> [B]\n"
    );
}

#[test]
fn test_filters_on_tables() {
    let table = Table::<u32>::new(&[U32, I32]);
    let with_u = With { kind: U32, name: "u32" };
    let with_f = With { kind: F, name: "f" };
    let without_u = WithOut { kind: U32, name: "u32" };
    let without_f = WithOut { kind: F, name: "f" };
    assert!(with_u.check(&table));
    assert!(!with_f.check(&table));
    assert!(!without_u.check(&table));
    assert!(without_f.check(&table));
    assert!(().check(&table));
    assert!((with_u, without_f).check(&table));
    assert!(!(with_u, with_f).check(&table));
    assert!(Or { first: with_f, second: with_u }.check(&table));
    assert!(!Or { first: with_f, second: without_u }.check(&table));
    assert_eq!(with_u.types(), vec![FilterType::Has(U32, "u32")]);
    assert_eq!(without_f.types(), vec![FilterType::Not(F, "f")]);
    assert_eq!(
        Or { first: with_f, second: without_u }.types(),
        vec![FilterType::Has(F, "f"), FilterType::Not(U32, "u32")]
    );
    assert_eq!(
        (without_u, with_f).types(),
        vec![FilterType::Not(U32, "u32"), FilterType::Has(F, "f")]
    );
    assert_eq!(().types(), vec![]);
}

#[test]
fn test_query_with_filter_skips_tables() {
    let mut set = EntityComponents::<u32>::new();
    let a = set.spawn_entity();
    let b = set.spawn_entity();
    let c = set.spawn_entity();
    set.add_components(&a, ComponentSet::new().with(U32, 1));
    set.add_components(&b, ComponentSet::new().with(U32, 2).with(I32, 20));
    set.add_components(&c, ComponentSet::new().with(I32, 30));
    let terms = || extract(vec![ExtractTerm::shared(U32, "u32")]);

    let all = Query::new(&set, terms(), ()).unwrap();
    assert_eq!(all.table_count(), 2);
    assert_eq!(all.iter(), vec![vec![Some(&1)], vec![Some(&2)]]);

    let without = Query::new(&set, terms(), WithOut { kind: I32, name: "i32" }).unwrap();
    assert_eq!(without.table_count(), 1);
    assert_eq!(without.iter(), vec![vec![Some(&1)]]);
    assert!(without.get_entity_components(&b).is_none());
    assert!(without.get_entity_components(&c).is_none());

    let with = Query::new(&set, terms(), With { kind: I32, name: "i32" }).unwrap();
    assert_eq!(with.iter(), vec![vec![Some(&2)]]);
    assert_eq!(with.get_entity_components(&b), Some(vec![Some(&2)]));

    assert!(Query::new(&set, terms(), With { kind: F, name: "f" }).is_none());
    assert!(Query::new(&EntityComponents::<u32>::new(), terms(), ()).is_none());
    assert!(Query::<u32, ()>::extract_tables(&set.tables, &extract(vec![ExtractTerm::shared(F, "f")]), &())
        .is_none());
}

#[test]
fn test_param_types() {
    let m = ParamType::new_mut(U32, "u32");
    let s = ParamType::new_shared(U32, "u32");
    let o = ParamType::new_shared(I32, "i32");
    assert_eq!(m.raw_type(), Some(U32));
    assert_eq!(ParamType::World.raw_type(), None);
    assert!(ParamType::World.is_world());
    assert!(!m.is_world());
    assert_eq!(m.name(), "u32");
    assert_eq!(ParamType::World.name(), "World");
    assert!(m.conflicts(&m));
    assert!(m.conflicts(&s));
    assert!(s.conflicts(&m));
    assert!(!s.conflicts(&s));
    assert!(!m.conflicts(&o));
    assert!(ParamType::World.conflicts(&o));
    assert!(o.conflicts(&ParamType::World));
    assert_eq!(ParamType::validate(&[vec![s, o], vec![s]]), Ok(()));
    assert_eq!(ParamType::validate(&[]), Ok(()));
    assert_eq!(ParamType::validate(&[vec![s, o], vec![m]]), Err((s, m)));
    assert_eq!(ParamType::validate(&[vec![o, m, m]]), Err((m, m)));
    assert_eq!(ParamType::validate(&[vec![o], vec![ParamType::World]]), Err((o, ParamType::World)));
}
