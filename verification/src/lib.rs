//! Composition of GraphQL subgraphs into a supergraph, with the checks that run
//! before and after the merge proved against their specification.

pub mod collections;
pub mod composition;
pub mod entities;
pub mod error;
pub mod key_fields;
pub mod merge;
pub mod post_merge;
pub mod pre_merge;
pub mod reachability;
pub mod schema;
pub mod sequences;
pub mod subgraph;
pub mod supergraph;
pub mod text;
pub mod type_conflicts;

pub use crate::composition::{
    compose, compose_with_options, expand_subgraphs, validate_subgraphs, CompositionOptions,
    Stages,
};
pub use crate::error::{CompositionError, SubgraphError};
pub use crate::merge::{merge_subgraphs, MergeResult};
pub use crate::post_merge::post_merge_validations;
pub use crate::pre_merge::pre_merge_validations;
pub use crate::subgraph::{Expanded, Initial, Subgraph, Upgraded, Validated};
pub use crate::supergraph::{Merged, Satisfiable, Supergraph};
