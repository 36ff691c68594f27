//! Subgraphs, and the states that they go through on the way to a merge.

use crate::schema::{ExtendedType, SchemaDocument};
use vstd::prelude::*;

verus! {

/// A subgraph in the state `S`.
pub struct Subgraph<S> {
    pub name: String,
    pub url: String,
    pub state: S,
}

/// The subgraph as its author wrote it: federation definitions may be missing.
pub struct Initial {
    pub schema: apollo_compiler::Schema,
}

/// All federation definitions are in the schema.
pub struct Expanded {
    pub schema: apollo_compiler::Schema,
}

/// The schema is of the latest federation version.
pub struct Upgraded {
    pub schema: apollo_compiler::Schema,
}

/// The schema satisfies what federation asks of a single subgraph.
pub struct Validated {
    pub schema: FederationSchema,
}

/// A schema of a federated graph.
pub struct FederationSchema {
    pub schema: SchemaDocument,
}

impl FederationSchema {
    /// The schema document.
    pub fn schema(&self) -> (r: &SchemaDocument)
        ensures
            *r == self.schema,
    {
        &self.schema
    }

    /// The schema document, given away.
    pub fn into_inner(self) -> (r: SchemaDocument)
        ensures
            r == self.schema,
    {
        self.schema
    }
}

impl Subgraph<Validated> {
    /// The types of the subgraph with their names, in document order.
    pub open spec fn entries(self) -> Seq<(Seq<char>, ExtendedType)> {
        self.state.schema.schema.entries()
    }

    /// The schema of the subgraph.
    pub fn schema(&self) -> (r: &FederationSchema)
        ensures
            *r == self.state.schema,
    {
        &self.state.schema
    }
}

} // verus!
