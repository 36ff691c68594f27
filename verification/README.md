# Federation composition

Composes GraphQL subgraphs into a supergraph. The library runs the composition pipeline and the
checks before and after the merge; Verus proves that they do what their contracts say.

- `src/composition.rs`: the pipeline, from the first state of the subgraphs to a supergraph. The
  stages that look into schemas as a whole are handed in as functions.
- `src/pre_merge.rs`, `src/key_fields.rs`, `src/type_conflicts.rs`: the checks on all subgraphs
  together, before they are merged.
- `src/merge.rs`: what the outcome of a merger comes to.
- `src/post_merge.rs`, `src/entities.rs`, `src/reachability.rs`: the checks on the merged
  supergraph.
- `src/schema.rs`, `src/subgraph.rs`, `src/supergraph.rs`, `src/error.rs`: the data.
- `src/collections.rs`: the insertion-ordered maps and sets of schemas, with what is believed of
  the `indexmap` crate.
- `src/text.rs`, `src/sequences.rs`: text and sequence functions.
- `app/`: reads `apollo_compiler` schemas into the data above.

Each list of errors is specified exactly, and each check is proved to find no error if and only if
what it checks holds: see `pre_merge_valid` and `post_merge_valid`.
