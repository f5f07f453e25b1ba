use eonix::filter::FilterType;
use eonix::kind::KindId;
use eonix::schedule::builder::{first_min, last_max};
use eonix::schedule::{
    GraphBuilder, Node, PostUpdate, PreUpdate, Schedule, ScheduleBuilder, SetInfo, Setup,
    Shutdown, SystemInfo, SystemSet, Update,
};
use eonix::system::{FunctionSystem, ParamType};

const THREAD_COUNT: usize = 4;
const MAX_TAIL: usize = 3;

const U32: KindId = KindId(32);
const I32: KindId = KindId(31);

type Sys = FunctionSystem<&'static str>;

fn system(name: &'static str, types: Vec<ParamType>, filter: Vec<FilterType>) -> SystemSet<&'static str> {
    SystemSet::Single { system: Sys::new(name, types, filter, false) }
}

fn sys() -> SystemSet<&'static str> {
    sys_mut_u32()
}

fn sys_ref_u32() -> SystemSet<&'static str> {
    system("sys_ref_u32", vec![ParamType::new_shared(U32, "u32")], vec![])
}

fn sys_mut_u32() -> SystemSet<&'static str> {
    system("sys_mut_u32", vec![ParamType::new_mut(U32, "u32")], vec![])
}

fn sys_ref_i32() -> SystemSet<&'static str> {
    system("sys_ref_i32", vec![ParamType::new_shared(I32, "i32")], vec![])
}

fn sys_mut_i32() -> SystemSet<&'static str> {
    system("sys_mut_i32", vec![ParamType::new_mut(I32, "i32")], vec![])
}

fn sys_ref_shared() -> SystemSet<&'static str> {
    system(
        "sys_ref_shared",
        vec![ParamType::new_shared(I32, "i32"), ParamType::new_shared(U32, "u32")],
        vec![],
    )
}

fn sys_world() -> SystemSet<&'static str> {
    system("sys_world", vec![ParamType::World], vec![])
}

fn sys_mut_u32_not_i32() -> SystemSet<&'static str> {
    system(
        "sys_mut_u32_not_i32",
        vec![ParamType::new_mut(U32, "u32")],
        vec![FilterType::new_not(I32, "i32")],
    )
}

fn sys_mut_u32_with_i32() -> SystemSet<&'static str> {
    system(
        "sys_mut_u32_with_i32",
        vec![ParamType::new_mut(U32, "u32")],
        vec![FilterType::new_has(I32, "i32")],
    )
}

fn builder() -> ScheduleBuilder<&'static str> {
    let builder = ScheduleBuilder::new().set_thread_count(THREAD_COUNT).set_max_tail(MAX_TAIL);
    assert_eq!(builder.thread_count, THREAD_COUNT);
    assert_eq!(builder.max_tail, MAX_TAIL);
    builder
}

/// The names of the systems that thread `t` runs, with "SYNC" for a
/// rendezvous, as the links of its list give them.
fn walk(schedule: &Schedule<&'static str>, t: usize) -> Vec<&'static str> {
    let graph = &schedule.update.systems;
    let mut out = Vec::new();
    let mut node = graph.node_tree[t].node.map(|i| &graph.nodes[i]);
    while let Some(n) = node {
        match n {
            Node::System { systems: SystemSet::Single { system }, .. } => out.push(system.f),
            Node::System { systems: SystemSet::Chained { systems }, .. } => {
                for system in systems {
                    out.push(system.f);
                }
            }
            Node::Sync { .. } => out.push("SYNC"),
        }
        node = n.next(&graph.nodes);
    }
    assert_eq!(out.len() >= 1, graph.node_tree[t].node.is_some());
    out
}

#[test]
fn test_add_inbuild_system() {
    let schedule = ScheduleBuilder::new();

    let schedule = schedule.add_system(PreUpdate, sys());
    assert_eq!(schedule.start.systems.len(), 1);

    let schedule = schedule.add_system(Update, sys());
    assert_eq!(schedule.update.systems.len(), 1);

    let schedule = schedule.add_system(PostUpdate, sys());
    assert_eq!(schedule.finish.systems.len(), 1);

    let _ = schedule.build();
}

#[test]
fn test_builder_add_system() {
    let schedule = ScheduleBuilder::new();

    let schedule = schedule.add_system(PreUpdate, sys());

    assert_eq!(schedule.start.systems.len(), 1);
    assert_eq!(schedule.update.systems.len(), 0);
    assert_eq!(schedule.finish.systems.len(), 0);

    let schedule = schedule.add_system(Update, sys());

    assert_eq!(schedule.start.systems.len(), 1);
    assert_eq!(schedule.update.systems.len(), 1);
    assert_eq!(schedule.finish.systems.len(), 0);

    let schedule = schedule.add_system(PostUpdate, sys());

    assert_eq!(schedule.start.systems.len(), 1);
    assert_eq!(schedule.update.systems.len(), 1);
    assert_eq!(schedule.finish.systems.len(), 1);
}

#[test]
fn test_builder_empty() {
    let builder = ScheduleBuilder::<&'static str>::new().set_thread_count(THREAD_COUNT);
    assert_eq!(builder.thread_count, THREAD_COUNT);

    let schedule = builder.build();

    assert_eq!(schedule.update.systems.len(), 0);
}

#[test]
fn test_builder_single_system() {
    // [sys_ref_i32, SYNC]
    // [SYNC]
    // [SYNC]
    // [SYNC]
    let builder = builder().add_system(Update, sys_ref_i32());
    let schedule = builder.build();

    assert_eq!(schedule.update.systems.node_tree[0].node_count, 2);
    assert_eq!(schedule.update.systems.node_tree[1].node_count, 1);
    assert_eq!(schedule.update.systems.node_tree[2].node_count, 1);
    assert_eq!(schedule.update.systems.node_tree[3].node_count, 1);
}

#[test]
fn test_builder_system_dependens() {
    // [sys_ref_i32, sys_mut_i32, SYNC]
    // [                          SYNC]
    // [                          SYNC]
    // [                          SYNC]
    let builder = builder().add_system(Update, sys_ref_i32()).add_system(Update, sys_mut_i32());
    let schedule = builder.build();

    assert_eq!(schedule.update.systems.node_tree[0].node_count, 3);
    assert_eq!(schedule.update.systems.node_tree[1].node_count, 1);
    assert_eq!(schedule.update.systems.node_tree[2].node_count, 1);
    assert_eq!(schedule.update.systems.node_tree[3].node_count, 1);

    assert_eq!(walk(&schedule, 0), vec!["sys_ref_i32", "sys_mut_i32", "SYNC"]);
    assert_eq!(walk(&schedule, 1), vec!["SYNC"]);
}

#[test]
fn test_builder_system_independens() {
    // [sys_ref_i32, SYNC]
    // [sys_ref_i32, SYNC]
    // [sys_ref_u32, SYNC]
    // [sys_ref_u32, SYNC]
    let builder = builder()
        .add_system(Update, sys_ref_i32())
        .add_system(Update, sys_ref_i32())
        .add_system(Update, sys_ref_u32())
        .add_system(Update, sys_ref_u32());
    let schedule = builder.build();

    assert_eq!(schedule.update.systems.node_tree[0].node_count, 2);
    assert_eq!(schedule.update.systems.node_tree[1].node_count, 2);
    assert_eq!(schedule.update.systems.node_tree[2].node_count, 2);
    assert_eq!(schedule.update.systems.node_tree[3].node_count, 2);

    assert_eq!(walk(&schedule, 0), vec!["sys_ref_i32", "SYNC"]);
    assert_eq!(walk(&schedule, 1), vec!["sys_ref_i32", "SYNC"]);
    assert_eq!(walk(&schedule, 2), vec!["sys_ref_u32", "SYNC"]);
    assert_eq!(walk(&schedule, 3), vec!["sys_ref_u32", "SYNC"]);
    assert_eq!(walk(&schedule, 4), vec!["SYNC"]);
    assert_eq!(schedule.update.systems.node_tree.len(), THREAD_COUNT + 1);
}

#[test]
fn test_builder_system_mixed_dependens() {
    // [sys_ref_i32, sys_mut_i32, SYNC]
    // [sys_ref_u32, sys_mut_u32, SYNC]
    // [                          SYNC]
    // [                          SYNC]
    let builder = builder()
        .add_system(Update, sys_ref_i32())
        .add_system(Update, sys_mut_i32())
        .add_system(Update, sys_ref_u32())
        .add_system(Update, sys_mut_u32());
    let schedule = builder.build();

    assert_eq!(schedule.update.systems.node_tree[0].node_count, 3);
    assert_eq!(schedule.update.systems.node_tree[1].node_count, 3);
    assert_eq!(schedule.update.systems.node_tree[2].node_count, 1);
    assert_eq!(schedule.update.systems.node_tree[3].node_count, 1);
}

#[test]
fn test_builder_system_mixed_shared_dependens() {
    // [sys_ref_i32, sys_mut_i32, SYNC1, sys_ref_shared, SYNC2]
    // [sys_ref_u32, sys_mut_u32, SYNC1,                 SYNC2]
    // [                          SYNC1,                 SYNC2]
    // [                          SYNC1,                 SYNC2]
    let builder = builder()
        .add_system(Update, sys_ref_i32())
        .add_system(Update, sys_mut_i32())
        .add_system(Update, sys_ref_u32())
        .add_system(Update, sys_mut_u32())
        .add_system(Update, sys_ref_shared());
    let schedule = builder.build();

    assert_eq!(schedule.update.systems.node_tree[0].node_count, 5);
    assert_eq!(schedule.update.systems.node_tree[1].node_count, 4);
    assert_eq!(schedule.update.systems.node_tree[2].node_count, 2);
    assert_eq!(schedule.update.systems.node_tree[3].node_count, 2);

    assert_eq!(
        walk(&schedule, 0),
        vec!["sys_ref_i32", "sys_mut_i32", "SYNC", "sys_ref_shared", "SYNC"]
    );
    assert_eq!(walk(&schedule, 1), vec!["sys_ref_u32", "sys_mut_u32", "SYNC", "SYNC"]);
}

#[test]
fn test_builder_system_mixed_shared_dependens_max_tail() {
    // [sys_ref_shared, sys_mut_i32, sys_mut_u32, SYNC1, sys_ref_i32, SYNC2]
    // [                                          SYNC1, sys_ref_u32, SYNC2]
    // [                                          SYNC1,              SYNC2]
    // [                                          SYNC1,              SYNC2]
    let builder = builder()
        .add_system(Update, sys_ref_shared())
        .add_system(Update, sys_mut_i32())
        .add_system(Update, sys_mut_u32())
        .add_system(Update, sys_ref_i32())
        .add_system(Update, sys_ref_u32());
    let schedule = builder.build();

    assert_eq!(schedule.update.systems.node_tree[0].node_count, 6);
    assert_eq!(schedule.update.systems.node_tree[1].node_count, 3);
    assert_eq!(schedule.update.systems.node_tree[2].node_count, 2);
    assert_eq!(schedule.update.systems.node_tree[3].node_count, 2);

    assert_eq!(
        walk(&schedule, 0),
        vec!["sys_ref_shared", "sys_mut_i32", "sys_mut_u32", "SYNC", "sys_ref_i32", "SYNC"]
    );
    assert_eq!(walk(&schedule, 1), vec!["SYNC", "sys_ref_u32", "SYNC"]);
}

#[test]
fn test_builder_system_world() {
    // [sys_mut_i32, sys_ref_i32, SYNC1, sys_world, SYNC2]
    // [sys_mut_u32, sys_ref_u32, SYNC1,            SYNC2]
    // [                          SYNC1,            SYNC2]
    // [                          SYNC1,            SYNC2]
    let builder = builder()
        .add_system(Update, sys_mut_i32())
        .add_system(Update, sys_mut_u32())
        .add_system(Update, sys_world())
        .add_system(Update, sys_ref_i32())
        .add_system(Update, sys_ref_u32());
    let schedule = builder.build();

    assert_eq!(schedule.update.systems.node_tree[0].node_count, 5);
    assert_eq!(schedule.update.systems.node_tree[1].node_count, 4);
    assert_eq!(schedule.update.systems.node_tree[2].node_count, 2);
    assert_eq!(schedule.update.systems.node_tree[3].node_count, 2);

    assert_eq!(
        walk(&schedule, 0),
        vec!["sys_mut_i32", "sys_ref_i32", "SYNC", "sys_world", "SYNC"]
    );
}

#[test]
fn test_builder_mix_shared_depend_filter() {
    // [sys_mut_u32_not_i32 , SYNC1]
    // [sys_mut_u32_with_i32, SYNC1]
    // [                      SYNC1]
    // [                      SYNC1]
    let builder = builder()
        .add_system(Update, sys_mut_u32_not_i32())
        .add_system(Update, sys_mut_u32_with_i32());
    let schedule = builder.build();

    assert_eq!(schedule.update.systems.node_tree[0].node_count, 2);
    assert_eq!(schedule.update.systems.node_tree[1].node_count, 2);
    assert_eq!(schedule.update.systems.node_tree[2].node_count, 1);
    assert_eq!(schedule.update.systems.node_tree[3].node_count, 1);
}

#[test]
fn test_builder_mix_shared_depend_filter2() {
    // [sys_mut_u32_not_i32 , sys_mut_u32_not_i32,  SYNC1, sys_world , SYNC2]
    // [sys_mut_u32_with_i32,                       SYNC1            , SYNC2]
    // [                                            SYNC1            , SYNC2]
    // [                                            SYNC1            , SYNC2]
    let builder = builder()
        .add_system(Update, sys_mut_u32_not_i32())
        .add_system(Update, sys_mut_u32_with_i32())
        .add_system(Update, sys_mut_u32_not_i32())
        .add_system(Update, sys_world());
    let schedule = builder.build();

    assert_eq!(schedule.update.systems.node_tree[0].node_count, 5);
    assert_eq!(schedule.update.systems.node_tree[1].node_count, 3);
    assert_eq!(schedule.update.systems.node_tree[2].node_count, 2);
    assert_eq!(schedule.update.systems.node_tree[3].node_count, 2);
}

#[test]
fn test_every_stage_is_planned() {
    let schedule = ScheduleBuilder::new()
        .set_thread_count(1)
        .add_system(Setup, sys())
        .add_system(Shutdown, sys())
        .add_system(Shutdown, sys())
        .build();
    assert_eq!(schedule.thread_count, 1);
    assert_eq!(schedule.setup.systems.node_tree.len(), 2);
    assert_eq!(schedule.setup.systems.len(), 3);
    assert_eq!(schedule.shutdown.systems.len(), 4);
    assert_eq!(schedule.shutdown.systems.node_tree[0].node_count, 3);
    assert!(schedule.pre_update.systems.is_empty());
    assert_eq!(schedule.pre_update.systems.node_tree.len(), 0);
    assert!(schedule.post_update.systems.is_empty());
}

#[test]
fn test_all_sets_conflict() {
    let mut graph_builder = GraphBuilder::new(3, 8);
    let graph = graph_builder.build_graph_from(vec![sys_world(), sys_mut_u32(), sys_world()]);
    // the local set claims the main thread, the others conflict with it there:
    // they run one after the other in one interval
    assert_eq!(graph.node_tree[0].node_count, 3 + 1);
    assert_eq!(graph.node_tree[1].node_count, 1);
    assert_eq!(graph.node_tree[2].node_count, 1);
    assert_eq!(graph.len(), 6);
    // with a tail of one the second set has to wait for the next interval, and so on
    let mut graph_builder = GraphBuilder::new(3, 1);
    let graph = graph_builder.build_graph_from(vec![sys_world(), sys_mut_u32(), sys_world()]);
    assert_eq!(graph.node_tree[0].node_count, 3 + 3);
    assert_eq!(graph.node_tree[1].node_count, 3);
    assert_eq!(graph.node_tree[2].node_count, 3);
    assert_eq!(graph.len(), 12);
    // the planner is reset and plans again
    let graph = graph_builder.build_graph_from(vec![sys_ref_u32()]);
    assert_eq!(graph.node_tree[0].node_count, 2);
    assert_eq!(graph_builder.thread_count, 3);
}

#[test]
fn test_one_thread_with_tail() {
    let mut graph_builder = GraphBuilder::new(1, 2);
    let graph = graph_builder.build_graph_from(vec![
        sys_ref_u32(),
        sys_ref_u32(),
        sys_ref_u32(),
        sys_ref_u32(),
        sys_ref_u32(),
    ]);
    // with one thread the tail is never too long: it is the fewest and the most
    assert_eq!(graph.node_tree[0].node_count, 6);
}

#[test]
fn test_chained_set_is_local_if_a_member_is() {
    let set = SystemSet::Chained {
        systems: vec![
            Sys::new("a", vec![ParamType::new_shared(U32, "u32")], vec![], false),
            Sys::new("b", vec![ParamType::new_mut(I32, "i32")], vec![], true),
        ],
    };
    let info = set.get_info();
    assert!(info.local());
    assert_eq!(info.systems.len(), 2);
    assert_eq!(info.systems[1].types, vec![ParamType::Mut(I32, "i32")]);
    let mut graph_builder = GraphBuilder::new(2, 8);
    let graph = graph_builder.build_graph_from(vec![sys_ref_i32(), set]);
    // the first set takes thread 0, the chained set conflicts with it and is local
    assert_eq!(graph.node_tree[0].node_count, 3);
    assert_eq!(graph.node_tree[1].node_count, 1);
    // a system that takes the world is local
    assert!(Sys::new("w", vec![ParamType::World], vec![], false).local());
    assert!(!Sys::new("w", vec![], vec![], false).local());
}

#[test]
fn test_conflicts() {
    let info = |types: Vec<ParamType>, filter: Vec<FilterType>| SetInfo {
        systems: vec![SystemInfo { types, filter }],
        local: false,
    };
    let mut_u = info(vec![ParamType::new_mut(U32, "u32")], vec![]);
    let ref_u = info(vec![ParamType::new_shared(U32, "u32")], vec![]);
    let ref_i = info(vec![ParamType::new_shared(I32, "i32")], vec![]);
    let world = info(vec![ParamType::World], vec![]);
    let not_i = info(vec![ParamType::new_mut(U32, "u32")], vec![FilterType::new_not(I32, "i32")]);
    let has_i = info(vec![ParamType::new_mut(U32, "u32")], vec![FilterType::new_has(I32, "i32")]);
    assert!(mut_u.conflicts(&ref_u));
    assert!(ref_u.conflicts(&mut_u));
    assert!(mut_u.conflicts(&mut_u));
    assert!(!ref_u.conflicts(&ref_u));
    assert!(!ref_i.conflicts(&mut_u));
    assert!(world.conflicts(&ref_i));
    assert!(ref_i.conflicts(&world));
    assert!(!not_i.conflicts(&has_i));
    assert!(!has_i.conflicts(&not_i));
    assert!(not_i.conflicts(&not_i));
    assert!(not_i.conflicts(&mut_u));
    // the filters do not help against the world
    let world_not_i = info(vec![ParamType::World], vec![FilterType::new_not(I32, "i32")]);
    assert!(world_not_i.conflicts(&has_i));
    assert!(GraphBuilder::<()>::check_for_type_conflict(&vec![ref_i.clone(), mut_u.clone()], &ref_u));
    assert!(!GraphBuilder::<()>::check_for_type_conflict(&vec![ref_i, ref_u.clone()], &ref_u));
}

#[test]
fn test_min_and_max_ties() {
    assert_eq!(first_min(&vec![2, 1, 1, 3]), 1);
    assert_eq!(last_max(&vec![3, 1, 3, 0]), 2);
    assert_eq!(first_min(&vec![0, 0, 0]), 0);
    assert_eq!(last_max(&vec![0, 0, 0]), 2);
}

/// The sets of each interval of thread `t`, by the links of its list.
fn intervals<'a>(
    graph: &'a eonix::schedule::ExecutionGraph<&'static str>,
    t: usize,
) -> Vec<Vec<&'a SystemSet<&'static str>>> {
    let mut out = Vec::new();
    let mut current = Vec::new();
    let mut node = graph.node_tree[t].node.map(|i| &graph.nodes[i]);
    let mut count = 0;
    while let Some(n) = node {
        count += 1;
        match n {
            Node::System { systems, .. } => current.push(systems),
            Node::Sync { .. } => out.push(std::mem::take(&mut current)),
        }
        assert_eq!(n.is_sync(), matches!(n, Node::Sync { .. }));
        node = n.next(&graph.nodes);
    }
    // a list ends with a rendezvous
    assert!(current.is_empty());
    assert_eq!(count, graph.node_tree[t].node_count);
    out
}

#[test]
fn test_plan_has_no_conflict_within_an_interval() {
    let makers: Vec<fn() -> SystemSet<&'static str>> = vec![
        sys_ref_shared,
        sys_mut_i32,
        sys_world,
        sys_ref_u32,
        sys_mut_u32_not_i32,
        sys_mut_u32_with_i32,
        sys_ref_i32,
        sys_mut_u32,
        sys_ref_u32,
        sys_world,
        sys_ref_shared,
        sys_mut_i32,
    ];
    for threads in 1..5 {
        for max_tail in 1..4 {
            let sets: Vec<SystemSet<&'static str>> = makers.iter().map(|make| make()).collect();
            let total = sets.len();
            let mut graph_builder = GraphBuilder::new(threads, max_tail);
            let graph = graph_builder.build_graph_from(sets);
            let plan: Vec<_> = (0..threads).map(|t| intervals(&graph, t)).collect();
            let rounds = plan[0].len();
            let mut placed = 0;
            for t in 0..threads {
                // every thread meets the others as often
                assert_eq!(plan[t].len(), rounds);
                for r in 0..rounds {
                    for a in plan[t][r].iter() {
                        placed += 1;
                        let info = a.get_info();
                        // a local set runs on the main thread
                        assert!(!info.local() || t == 0);
                        for u in 0..threads {
                            if u != t {
                                for b in plan[u][r].iter() {
                                    assert!(!info.conflicts(&b.get_info()));
                                }
                            }
                        }
                    }
                }
            }
            // every set runs once
            assert_eq!(placed, total);
            assert_eq!(graph.len(), total + rounds * threads);
        }
    }
}

#[test]
fn test_rendezvous_is_for_all_threads() {
    assert_eq!(eonix::schedule::SyncPoint::new(3).threads, 3);
    assert_eq!(Node::<()>::create_barrier(5).threads, 5);
    let mut graph_builder = GraphBuilder::new(3, 8);
    let graph = graph_builder.build_graph_from(vec![sys_ref_u32(), sys_mut_u32()]);
    let mut rendezvous = 0;
    for node in graph.nodes.iter() {
        if let Node::Sync { barrier, .. } = node {
            assert_eq!(barrier.threads, 3);
            rendezvous += 1;
        }
    }
    assert_eq!(rendezvous, 3);
}
