//! An embedded, in-process record store: typed relations held in memory,
//! mutated through CRUD operations, and materialized to a backing store
//! through an adapter, under a configurable synchronization policy.

mod adapters;
pub mod codec;
mod db;
mod error;
mod model;
mod relation;
mod state;

pub use adapters::{
    Adapter, CsvAdapter, DirTarget, FromPath, FsNode, JsonAdapter, JsonPartitionedAdapter,
    RelationFiles, RonAdapter, RonPartitionedAdapter,
};
pub use db::{GetRelation, Joydb, JoydbConfig, JoydbMode, SyncPolicy};
pub use error::JoydbError;
pub use model::{Model, Post, PostV, User, UserV};
pub use relation::{Relation, RelationMeta};
pub use state::State;
