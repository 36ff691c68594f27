//! Supergraphs, and the states that they go through after the merge.

use crate::schema::SchemaDocument;
use vstd::prelude::*;

verus! {

/// A value that is taken to have been validated.
pub struct Valid<T> {
    pub inner: T,
}

impl<T> Valid<T> {
    /// Takes `value` to be valid, without a check.
    pub fn assume_valid(value: T) -> (r: Valid<T>)
        ensures
            r.inner == value,
    {
        Valid { inner: value }
    }

    /// The value, no longer taken to be valid.
    pub fn into_inner(self) -> (r: T)
        ensures
            r == self.inner,
    {
        self.inner
    }
}

/// A supergraph in the state `S`.
pub struct Supergraph<S> {
    pub state: S,
}

/// The supergraph is the result of a merge.
pub struct Merged {
    pub schema: Valid<SchemaDocument>,
}

/// Every query on the supergraph can be satisfied by the subgraphs, or is taken to be.
pub struct Satisfiable {
    pub schema: Valid<SchemaDocument>,
}

impl Supergraph<Merged> {
    pub fn new(schema: Valid<SchemaDocument>) -> (r: Supergraph<Merged>)
        ensures
            r.state.schema == schema,
    {
        Supergraph { state: Merged { schema } }
    }

    /// The schema of the supergraph.
    pub fn schema(&self) -> (r: &Valid<SchemaDocument>)
        ensures
            *r == self.state.schema,
    {
        &self.state.schema
    }

    /// Takes the supergraph to be satisfiable, without a check.
    pub fn assume_satisfiable(self) -> (r: Supergraph<Satisfiable>)
        ensures
            r.state.schema == self.state.schema,
    {
        Supergraph { state: Satisfiable { schema: self.state.schema } }
    }
}

impl Supergraph<Satisfiable> {
    /// The schema of the supergraph.
    pub fn schema(&self) -> (r: &Valid<SchemaDocument>)
        ensures
            *r == self.state.schema,
    {
        &self.state.schema
    }
}

} // verus!
