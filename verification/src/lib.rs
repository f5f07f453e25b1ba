//! An in-process entity-component-system runtime: archetype storage, queries
//! over it, and a static planner that lays systems out across threads.
//!
//! Entities are handles; components are values of one type `V`, each tagged
//! with the kind it is of. All entities with the same kinds of components
//! share a table, which stores the components by column. The archetype set
//! keeps the tables and a directory from entities to tables, and moves an
//! entity from table to table as components are added and removed.
//!
//! The library plans and keeps books; it starts no thread and calls no
//! system. What runs on several threads (the worker pool, the cell that
//! threads share, the executor) is built on top of it.

pub mod archetypes;
pub mod cells;
pub mod channel;
pub mod commands;
pub mod components;
pub mod entity;
pub mod filter;
pub mod kind;
pub mod query;
pub mod resources;
pub mod row;
pub mod scene;
pub mod schedule;
pub mod seqs;
pub mod spawner;
pub mod system;
pub mod table;
pub mod table_id;
pub mod world;

pub use archetypes::EntityComponents;
pub use cells::AtomicRefCell;
pub use commands::Commands;
pub use components::{Component, ComponentAddModifier, ComponentRemoveModifier, ComponentSet};
pub use entity::{Entity, Generation};
pub use filter::{Filter, FilterError, FilterType, Or, With, WithOut};
pub use kind::KindId;
pub use query::{Extract, ExtractTerm, Query, QueryError, TableAccess};
pub use resources::{ResourceStorageModifier, Resources};
pub use row::Row;
pub use scene::Scene;
pub use schedule::{
    PostUpdate, PreUpdate, Schedule, ScheduleBuilder, SetInfo, Setup, Shutdown, SystemSet, Update,
};
pub use spawner::EntitySpawner;
pub use system::{FunctionSystem, ParamType};
pub use table::{ExtendableTable, Table};
pub use table_id::{TableId, TableIdBuilder};
pub use world::World;
