//! The checks on the merged supergraph.

use crate::collections;
use crate::entities;
use crate::entities::{validate_entity_consistency, validate_entity_union};
use crate::error;
use crate::error::{report_invalid, CompositionError, ErrorView};
use crate::reachability;
use crate::reachability::validate_reachable_types;
use crate::schema::{ExtendedType, SchemaDocument, UnionType};
use crate::sequences;
use crate::supergraph::{Merged, Supergraph};
use vstd::prelude::*;

verus! {

/// The errors for the query type.
pub open spec fn query_errors(schema: SchemaDocument) -> Seq<ErrorView> {
    match schema.schema_definition.query {
        Some(_) => Seq::empty(),
        None => seq![error::invalid("Supergraph must have a query type"@)],
    }
}

/// All errors that are found after the merge.
pub open spec fn post_merge_errors(schema: SchemaDocument) -> Seq<ErrorView> {
    query_errors(schema) + entities::entity_union_errors(schema) + entities::entity_member_errors(
        schema,
    ) + reachability::orphan_errors(schema)
}

/// What a supergraph must satisfy.
pub open spec fn post_merge_valid(schema: SchemaDocument) -> bool {
    &&& schema.schema_definition.query is Some
    &&& entities::entities_valid(schema)
    &&& reachability::no_orphans(schema)
}

/// There is no error after the merge exactly when the supergraph satisfies what it must.
pub proof fn post_merge_errors_complete(schema: SchemaDocument)
    ensures
        post_merge_errors(schema).len() == 0 <==> post_merge_valid(schema),
{
    entities::entity_errors_complete(schema);
    reachability::orphan_errors_complete(schema);
}

/// Checks the merged supergraph.
///
/// There must be a query type; the type `_Entity`, where it exists, must be a union with members,
/// which must exist and have a `@key`; and every type must be reachable from a root type. All
/// errors are reported, not only the first.
pub fn post_merge_validations(supergraph: &Supergraph<Merged>) -> (r: Result<
    (),
    Vec<CompositionError>,
>)
    ensures
        match r {
            Ok(()) => post_merge_errors(supergraph.state.schema.inner).len() == 0,
            Err(errors) => errors@.len() > 0 && error::error_views(errors@) == post_merge_errors(
                supergraph.state.schema.inner,
            ),
        },
        r is Ok <==> post_merge_valid(supergraph.state.schema.inner),
        forall|i: int, j: int|
            0 <= i < j < collections::type_entries(supergraph.state.schema.inner.types).len() ==> (
            #[trigger] collections::type_entries(supergraph.state.schema.inner.types)[i]).0 != (
            #[trigger] collections::type_entries(supergraph.state.schema.inner.types)[j]).0,
{
    let schema = &supergraph.schema().inner;
    let mut errors: Vec<CompositionError> = Vec::new();
    if schema.schema_definition.query.is_none() {
        report_invalid(&mut errors, "Supergraph must have a query type".to_owned());
    }
    validate_entity_union(schema, &mut errors);
    validate_entity_consistency(schema, &mut errors);
    validate_reachable_types(schema, &mut errors);
    assert(error::error_views(errors@) =~= post_merge_errors(*schema));
    proof {
        post_merge_errors_complete(*schema);
    }
    if errors.len() == 0 {
        Ok(())
    } else {
        Err(errors)
    }
}

/// A supergraph is accepted exactly when it has a query type; `_Entity`, where it exists, is a union
/// with members, each of them a type of the schema with a directive named `key`; and every type is
/// built in, has a name that starts as those of federation do, or is reachable.
pub proof fn supergraph_is_accepted_iff(schema: SchemaDocument)
    requires
        forall|i: int, j: int|
            0 <= i < j < collections::type_entries(schema.types).len() ==> (
            #[trigger] collections::type_entries(schema.types)[i]).0 != (
            #[trigger] collections::type_entries(schema.types)[j]).0,
    ensures
        post_merge_valid(schema) <==> {
            &&& schema.schema_definition.query is Some
            &&& forall|e: int|
                0 <= e < collections::type_entries(schema.types).len() && (
                #[trigger] collections::type_entries(schema.types)[e]).0 == "_Entity"@ ==> {
                    &&& collections::type_entries(schema.types)[e].1 matches ExtendedType::Union(
                        own,
                    )
                    &&& collections::string_items(own.members).len() > 0
                    &&& forall|member: Seq<char>| #[trigger]
                        collections::string_items(own.members).contains(member) ==> exists|
                            t: int,
                            d: int,
                        |
                            0 <= t < collections::type_entries(schema.types).len()
                                && collections::type_entries(schema.types)[t].0 == member && 0 <= d
                                < collections::type_entries(
                                schema.types,
                            )[t].1.directives_spec().len() && (#[trigger] collections::type_entries(
                                schema.types,
                            )[t].1.directives_spec()[d]).name@ == "key"@
                }
            &&& forall|t: int|
                0 <= t < collections::type_entries(schema.types).len() ==> {
                    ||| (#[trigger] collections::type_entries(schema.types)[t]).1.built_in_spec()
                    ||| "_"@.is_prefix_of(collections::type_entries(schema.types)[t].0)
                    ||| "federation__"@.is_prefix_of(collections::type_entries(schema.types)[t].0)
                    ||| "link__"@.is_prefix_of(collections::type_entries(schema.types)[t].0)
                    ||| "join__"@.is_prefix_of(collections::type_entries(schema.types)[t].0)
                    ||| reachability::is_reachable(
                        schema,
                        collections::type_entries(schema.types)[t].0,
                    )
                }
        },
{
    entities::entities_are_accepted_iff(schema);
    let entries = collections::type_entries(schema.types);
    assert(entries == schema.entries());
    if reachability::no_orphans(schema) {
        assert forall|t: int| 0 <= t < entries.len() implies {
            ||| (#[trigger] entries[t]).1.built_in_spec()
            ||| reachability::is_federation_name(entries[t].0)
            ||| reachability::is_reachable(schema, entries[t].0)
        } by {
            assert(schema.entries()[t] == entries[t]);
        }
    }
}

/// Where a member of the union `_Entity` is a type of the schema on which no directive is named
/// `key`, the supergraph is rejected, with the error for that member.
pub proof fn member_without_key_rejects_supergraph(
    schema: SchemaDocument,
    e: int,
    entity_union: UnionType,
    m: int,
    t: int,
)
    requires
        forall|i: int, j: int|
            0 <= i < j < collections::type_entries(schema.types).len() ==> (
            #[trigger] collections::type_entries(schema.types)[i]).0 != (
            #[trigger] collections::type_entries(schema.types)[j]).0,
        0 <= e < collections::type_entries(schema.types).len(),
        collections::type_entries(schema.types)[e] == ("_Entity"@, ExtendedType::Union(
            entity_union,
        )),
        0 <= m < collections::string_items(entity_union.members).len(),
        0 <= t < collections::type_entries(schema.types).len(),
        collections::type_entries(schema.types)[t].0 == collections::string_items(
            entity_union.members,
        )[m],
        forall|d: int|
            0 <= d < collections::type_entries(schema.types)[t].1.directives_spec().len() ==> (
            #[trigger] collections::type_entries(schema.types)[t].1.directives_spec()[d]).name@
                != "key"@,
    ensures
        !post_merge_valid(schema),
        post_merge_errors(schema).contains(
            (ErrorView::TypeDefinitionInvalid {
                message: "Type '"@ + collections::string_items(entity_union.members)[m]
                    + "' is in _Entity union but has no @key directive"@,
            }),
        ),
{
    let entries = collections::type_entries(schema.types);
    let member = collections::string_items(entity_union.members)[m];
    let error = ErrorView::TypeDefinitionInvalid {
        message: "Type '"@ + member + "' is in _Entity union but has no @key directive"@,
    };
    sequences::lookup_finds_first(entries, "_Entity"@);
    entities::member_needs_directive_named_key(schema, member);
    assert(entities::member_errors(schema, member)[0] == error);
    entities::member_error_is_reported(schema, entity_union, m, error);
    let found = entities::entity_member_errors(schema);
    let k = choose|k: int| 0 <= k < found.len() && found[k] == error;
    let first = query_errors(schema) + entities::entity_union_errors(schema);
    assert(post_merge_errors(schema)[first.len() + k] == error);
    post_merge_errors_complete(schema);
}

/// What is found after the merge, in order: the missing query type, the errors for `_Entity`, those
/// for its members, and the types that cannot be reached.
pub proof fn post_merge_errors_in_order(schema: SchemaDocument)
    ensures
        schema.schema_definition.query is Some ==> post_merge_errors(schema)
            == entities::entity_union_errors(schema) + entities::entity_member_errors(schema)
            + reachability::orphan_errors(schema),
        schema.schema_definition.query is None ==> post_merge_errors(schema) == seq![
            ErrorView::TypeDefinitionInvalid { message: "Supergraph must have a query type"@ },
        ] + entities::entity_union_errors(schema) + entities::entity_member_errors(schema)
            + reachability::orphan_errors(schema),
{
    assert(schema.schema_definition.query is Some ==> post_merge_errors(schema)
        =~= entities::entity_union_errors(schema) + entities::entity_member_errors(schema)
        + reachability::orphan_errors(schema));
}

} // verus!
