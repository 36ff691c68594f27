//! The merge of subgraphs into a supergraph.

use crate::error;
use crate::error::CompositionError;
use crate::subgraph::{FederationSchema, Subgraph, Validated};
use crate::supergraph::{Merged, Supergraph, Valid};
use vstd::prelude::*;

verus! {

/// What a merger hands back.
pub struct MergeResult {
    /// The merged schema, where there is one.
    pub supergraph: Option<Valid<FederationSchema>>,
    pub errors: Vec<CompositionError>,
}

/// `r` is what the outcome of a merger comes to. A failure becomes a single error; errors that the
/// merger reports are handed on; and otherwise there must be a schema.
pub open spec fn merge_comes_to(
    outcome: Result<MergeResult, String>,
    r: Result<Supergraph<Merged>, Vec<CompositionError>>,
) -> bool {
    match outcome {
        Err(failure) => r matches Err(errors) && error::error_views(errors@) == seq![
            error::internal("Merge failed: "@ + failure@),
        ],
        Ok(result) => {
            if result.errors@.len() > 0 {
                r == Err::<Supergraph<Merged>, _>(result.errors)
            } else {
                match result.supergraph {
                    Some(merged) => r matches Ok(supergraph) && supergraph.state.schema.inner
                        == merged.inner.schema,
                    None => r matches Err(errors) && error::error_views(errors@) == seq![
                        error::internal("Merge completed but no supergraph schema was produced"@),
                    ],
                }
            }
        },
    }
}

/// A list of one internal error.
fn internal_error(message: String) -> (r: Vec<CompositionError>)
    ensures
        error::error_views(r@) == seq![error::internal(message@)],
        r@.len() == 1,
        r@[0] == (CompositionError::InternalError { message }),
{
    let mut errors: Vec<CompositionError> = Vec::new();
    errors.push(CompositionError::InternalError { message });
    assert(error::error_views(errors@) =~= seq![error::internal(message@)]);
    errors
}

/// What the outcome of a merger comes to: a supergraph, or the errors.
pub fn merged_supergraph(outcome: Result<MergeResult, String>) -> (r: Result<
    Supergraph<Merged>,
    Vec<CompositionError>,
>)
    ensures
        merge_comes_to(outcome, r),
        r is Ok <==> (outcome matches Ok(result) && result.errors@.len() == 0
            && result.supergraph is Some),
        r matches Ok(supergraph) ==> (outcome matches Ok(result)
            && result.supergraph matches Some(merged) && supergraph.state.schema.inner
            == merged.inner.schema),
        outcome matches Ok(result) ==> (result.errors@.len() > 0 ==> r == Err::<
            Supergraph<Merged>,
            Vec<CompositionError>,
        >(result.errors)),
        outcome matches Ok(result) ==> (result.errors@.len() == 0 && result.supergraph is None ==> (
        r matches Err(errors) && errors@.len() == 1 && (
        errors@[0] matches CompositionError::InternalError { message } && message@
            == "Merge completed but no supergraph schema was produced"@))),
        outcome matches Err(failure) ==> (r matches Err(errors) && errors@.len() == 1 && (
        errors@[0] matches CompositionError::InternalError { message } && message@
            == "Merge failed: "@ + failure@)),
{
    match outcome {
        Err(failure) => {
            let mut message = "Merge failed: ".to_owned();
            message.append(failure.as_str());
            Err(internal_error(message))
        },
        Ok(result) => {
            if result.errors.len() > 0 {
                return Err(result.errors);
            }
            match result.supergraph {
                Some(merged) => {
                    let schema = merged.into_inner().into_inner();
                    Ok(Supergraph::<Merged>::new(Valid::assume_valid(schema)))
                },
                None => Err(
                    internal_error(
                        "Merge completed but no supergraph schema was produced".to_owned(),
                    ),
                ),
            }
        },
    }
}

/// `r` is what merging `subgraphs` with `merger` comes to.
pub open spec fn merged<M: FnOnce(Vec<Subgraph<Validated>>) -> Result<MergeResult, String>>(
    merger: M,
    subgraphs: Vec<Subgraph<Validated>>,
    r: Result<Supergraph<Merged>, Vec<CompositionError>>,
) -> bool {
    exists|outcome: Result<MergeResult, String>|
        call_ensures(merger, (subgraphs,), outcome) && #[trigger] merge_comes_to(outcome, r)
}

/// Merges subgraphs into a supergraph.
///
/// `merger` combines the schemas. It fails with a description of what went wrong.
pub fn merge_subgraphs<M: FnOnce(Vec<Subgraph<Validated>>) -> Result<MergeResult, String>>(
    subgraphs: Vec<Subgraph<Validated>>,
    merger: M,
) -> (r: Result<Supergraph<Merged>, Vec<CompositionError>>)
    requires
        call_requires(merger, (subgraphs,)),
    ensures
        merged(merger, subgraphs, r),
{
    merged_supergraph(merger(subgraphs))
}

/// A merge succeeds exactly when the merger reports no error and gives a schema, which is then that
/// of the supergraph. Errors that the merger reports are handed on, all of them and nothing else. A
/// merger that fails, or gives neither errors nor a schema, gives a single error.
pub proof fn merge_gives_what_the_merger_gave(
    outcome: Result<MergeResult, String>,
    r: Result<Supergraph<Merged>, Vec<CompositionError>>,
)
    requires
        merge_comes_to(outcome, r),
    ensures
        r is Ok <==> (outcome matches Ok(result) && result.errors@.len() == 0
            && result.supergraph is Some),
        r matches Ok(supergraph) ==> (outcome matches Ok(result)
            && result.supergraph matches Some(merged) && supergraph.state.schema.inner
            == merged.inner.schema),
        outcome matches Ok(result) ==> (result.errors@.len() > 0 ==> r == Err::<
            Supergraph<Merged>,
            Vec<CompositionError>,
        >(result.errors)),
        outcome matches Ok(result) ==> (result.errors@.len() == 0 && result.supergraph is None ==> (
        r matches Err(errors) && errors@.len() == 1 && (
        errors@[0] matches CompositionError::InternalError { message } && message@
            == "Merge completed but no supergraph schema was produced"@))),
        outcome matches Err(failure) ==> (r matches Err(errors) && errors@.len() == 1 && (
        errors@[0] matches CompositionError::InternalError { message } && message@
            == "Merge failed: "@ + failure@)),
{
    if let Err(errors) = r {
        if errors@.len() > 0 {
            assert(error::error_views(errors@)[0] == errors@[0]@);
        }
        assert(error::error_views(errors@).len() == errors@.len());
    }
}

/// Subgraphs are merged only where the merger had no error to report: there is an outcome of the
/// merger for them that the result follows from.
pub proof fn merged_subgraphs_had_no_errors<
    M: FnOnce(Vec<Subgraph<Validated>>) -> Result<MergeResult, String>,
>(
    merger: M,
    subgraphs: Vec<Subgraph<Validated>>,
    r: Result<Supergraph<Merged>, Vec<CompositionError>>,
) -> (outcome: Result<MergeResult, String>)
    requires
        merged(merger, subgraphs, r),
    ensures
        call_ensures(merger, (subgraphs,), outcome),
        r is Ok <==> (outcome matches Ok(result) && result.errors@.len() == 0
            && result.supergraph is Some),
        r matches Ok(supergraph) ==> (outcome matches Ok(result)
            && result.supergraph matches Some(merged) && supergraph.state.schema.inner
            == merged.inner.schema),
        outcome matches Ok(result) ==> (result.errors@.len() > 0 ==> r == Err::<
            Supergraph<Merged>,
            Vec<CompositionError>,
        >(result.errors)),
        outcome matches Ok(result) ==> (result.errors@.len() == 0 && result.supergraph is None ==> (
        r matches Err(errors) && errors@.len() == 1 && (
        errors@[0] matches CompositionError::InternalError { message } && message@
            == "Merge completed but no supergraph schema was produced"@))),
        outcome matches Err(failure) ==> (r matches Err(errors) && errors@.len() == 1 && (
        errors@[0] matches CompositionError::InternalError { message } && message@
            == "Merge failed: "@ + failure@)),
        outcome matches Ok(result) ==> forall|k: int|
            0 <= k < result.errors@.len() ==> (r matches Err(errors) && errors@.contains(
                #[trigger] result.errors@[k],
            )),
{
    let outcome = choose|outcome: Result<MergeResult, String>|
        call_ensures(merger, (subgraphs,), outcome) && #[trigger] merge_comes_to(outcome, r);
    merge_gives_what_the_merger_gave(outcome, r);
    outcome
}

} // verus!
