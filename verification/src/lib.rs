//! Typed relations between entities, with change tracking.
//!
//! A relation type owns one [`RelationStorage`]: a graph of edges between
//! entities, each edge carrying a payload, together with a log of recent
//! insertions and a log of recent deletions. The [`relation_mode`] of a
//! relation type fixes whether its edges are directed and how many of them a
//! node may have; a relation type may also forbid cycles. Edges are inserted
//! and deleted through a [`RelationViewMut`], and read through it or through a
//! [`RelationView`], both by the methods of [`GetRelation`].
//!
//! Entities are `u64` identifiers, ordered as numbers. Timestamps are `u32`
//! tracking cycles that wrap around; see [`clock`].
//!
//! The graph is a petgraph `GraphMap` and the logs are indexmap `IndexMap`s.
//! What the library takes for granted of them is stated in [`links`] and
//! [`log`]; everything built on top is proved.

pub mod clock;
pub mod graph;
pub mod guarantees;
pub mod iter;
pub mod links;
pub mod log;
pub mod model;
pub mod paths;
pub mod relation;
pub mod relation_mode;
pub mod storage;
pub mod view;
pub mod view_mut;
pub mod window;

pub use self::graph::RelationGraph;
pub use self::iter::RelationsIter;
pub use self::relation::{GetRelation, Relation};
pub use self::relation_mode::RelationMode;
pub use self::storage::RelationStorage;
pub use self::view::RelationView;
pub use self::view_mut::{InsertError, RelationViewMut};
