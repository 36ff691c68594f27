//! The composition of subgraphs, from their first state to a supergraph.

use crate::error;
use crate::error::{CompositionError, SubgraphError};
use crate::merge;
use crate::merge::{merge_subgraphs, MergeResult};
use crate::post_merge;
use crate::post_merge::post_merge_validations;
use crate::pre_merge;
use crate::pre_merge::pre_merge_validations;
use crate::subgraph::{Expanded, Initial, Subgraph, Upgraded, Validated};
use crate::supergraph::{Merged, Satisfiable, Supergraph};
use vstd::prelude::*;

verus! {

/// Options for composition.
#[derive(Debug, Clone)]
pub struct CompositionOptions {
    /// Whether to run satisfiability validation (defaults to true).
    pub run_satisfiability: bool,
}

impl Default for CompositionOptions {
    fn default() -> (r: Self)
        ensures
            r.run_satisfiability,
    {
        CompositionOptions { run_satisfiability: true }
    }
}

/// The values of the outcomes that succeeded, in order.
pub open spec fn successes<T>(outcomes: Seq<Result<T, SubgraphError>>) -> Seq<T>
    decreases outcomes.len(),
{
    if outcomes.len() == 0 {
        Seq::empty()
    } else {
        match outcomes.last() {
            Ok(value) => successes(outcomes.drop_last()).push(value),
            Err(_) => successes(outcomes.drop_last()),
        }
    }
}

/// The errors of the outcomes that failed, in order.
pub open spec fn failures<T>(outcomes: Seq<Result<T, SubgraphError>>) -> Seq<error::ErrorView>
    decreases outcomes.len(),
{
    if outcomes.len() == 0 {
        Seq::empty()
    } else {
        match outcomes.last() {
            Ok(_) => failures(outcomes.drop_last()),
            Err(e) => failures(outcomes.drop_last()).push(error::subgraph_error_view(e)),
        }
    }
}

/// `r` is what the outcomes for all subgraphs come to: the values, where all succeeded, and
/// otherwise all the errors.
pub open spec fn outcomes_come_to<T>(
    outcomes: Seq<Result<T, SubgraphError>>,
    r: Result<Vec<T>, Vec<CompositionError>>,
) -> bool {
    if failures(outcomes).len() == 0 {
        r matches Ok(values) && values@ == successes(outcomes)
    } else {
        r matches Err(errors) && error::error_views(errors@) == failures(outcomes)
    }
}

/// What the outcomes for all subgraphs come to.
pub fn collect_outcomes<T>(outcomes: Vec<Result<T, SubgraphError>>) -> (r: Result<
    Vec<T>,
    Vec<CompositionError>,
>)
    ensures
        outcomes_come_to(outcomes@, r),
        r is Ok <==> forall|i: int| 0 <= i < outcomes@.len() ==> (#[trigger] outcomes@[i]) is Ok,
        r matches Ok(values) ==> values@.len() == outcomes@.len() && forall|i: int|
            0 <= i < values@.len() ==> outcomes@[i]
                == Ok::<T, SubgraphError>(#[trigger] values@[i]),
        r matches Err(errors) ==> forall|i: int|
            0 <= i < outcomes@.len() ==> ((#[trigger] outcomes@[i]) matches Err(e)
                ==> exists|k: int|
                0 <= k < errors@.len() && (
                #[trigger] errors@[k] matches CompositionError::SubgraphError { subgraph, message }
                    && subgraph@ == e.subgraph@ && message@ == e.message@)),
        r matches Err(errors) ==> errors@.len() > 0 && forall|k: int|
            0 <= k < errors@.len() ==> exists|i: int|
                0 <= i < outcomes@.len() && ((#[trigger] outcomes@[i]) matches Err(e) && (
                #[trigger] errors@[k] matches CompositionError::SubgraphError { subgraph, message }
                    && subgraph@ == e.subgraph@ && message@ == e.message@)),
{
    let mut errors: Vec<CompositionError> = Vec::new();
    let mut values: Vec<T> = Vec::new();
    let ghost all = outcomes@;
    for outcome in it: outcomes
        invariant
            it.seq() == all,
            values@ == successes(all.take(it.index() as int)),
            error::error_views(errors@) == failures(all.take(it.index() as int)),
    {
        assert(all.take(it.index() + 1).drop_last() =~= all.take(it.index() as int));
        match outcome {
            Ok(value) => values.push(value),
            Err(e) => error::report(&mut errors, CompositionError::from(e)),
        }
    }
    assert(all.take(all.len() as int) =~= all);
    assert(error::error_views(errors@).len() == errors@.len());
    proof {
        no_failures_iff_all_succeeded(all);
        if errors@.len() > 0 {
            collected_errors_are_those_of_the_outcomes::<T>(all, errors);
        }
    }
    if errors.len() == 0 {
        Ok(values)
    } else {
        Err(errors)
    }
}

/// `outcomes` are what `stage` gave for each of `subgraphs`.
pub open spec fn ran_on_each<A, B, F: Fn(Subgraph<A>) -> Result<Subgraph<B>, SubgraphError>>(
    stage: F,
    subgraphs: Seq<Subgraph<A>>,
    outcomes: Seq<Result<Subgraph<B>, SubgraphError>>,
) -> bool {
    &&& outcomes.len() == subgraphs.len()
    &&& forall|i: int|
        0 <= i < subgraphs.len() ==> call_ensures(
            stage,
            (subgraphs[i],),
            #[trigger] outcomes[i],
        )
}

/// `r` is what running `stage` on each of `subgraphs` comes to.
pub open spec fn each_stage<A, B, F: Fn(Subgraph<A>) -> Result<Subgraph<B>, SubgraphError>>(
    stage: F,
    subgraphs: Seq<Subgraph<A>>,
    r: Result<Vec<Subgraph<B>>, Vec<CompositionError>>,
) -> bool {
    exists|outcomes: Seq<Result<Subgraph<B>, SubgraphError>>| #[trigger]
        ran_on_each(stage, subgraphs, outcomes) && outcomes_come_to(outcomes, r)
}

/// Runs `stage` on each of `subgraphs`, and collects the results or all the errors.
fn run_on_each<A, B, F: Fn(Subgraph<A>) -> Result<Subgraph<B>, SubgraphError>>(
    subgraphs: Vec<Subgraph<A>>,
    stage: F,
) -> (r: Result<Vec<Subgraph<B>>, Vec<CompositionError>>)
    requires
        forall|i: int| 0 <= i < subgraphs@.len() ==> call_requires(stage, (subgraphs@[i],)),
    ensures
        each_stage(stage, subgraphs@, r),
        r matches Ok(values) ==> values@.len() == subgraphs@.len() && forall|i: int|
            0 <= i < values@.len() ==> call_ensures(
                stage,
                (subgraphs@[i],),
                Ok(#[trigger] values@[i]),
            ),
        r matches Err(errors) ==> errors@.len() > 0 && exists|i: int, e: SubgraphError|
            0 <= i < subgraphs@.len() && #[trigger] call_ensures(
                stage,
                (subgraphs@[i],),
                Err(e),
            ),
{
    let mut outcomes: Vec<Result<Subgraph<B>, SubgraphError>> = Vec::new();
    let ghost all = subgraphs@;
    for subgraph in it: subgraphs
        invariant
            it.seq() == all,
            forall|i: int| 0 <= i < all.len() ==> call_requires(stage, (all[i],)),
            outcomes@.len() == it.index(),
            forall|i: int|
                0 <= i < outcomes@.len() ==> call_ensures(
                    stage,
                    (all[i],),
                    #[trigger] outcomes@[i],
                ),
    {
        outcomes.push(stage(subgraph));
    }
    let ghost given = outcomes@;
    assert(ran_on_each(stage, all, given));
    let r = collect_outcomes(outcomes);
    proof {
        stage_gives_what_it_gave_for_each(stage, all, given, r);
    }
    r
}

/// Adds the federation definitions that are missing from the subgraphs.
///
/// `expand_links` does so for one subgraph. All subgraphs are expanded, and all errors reported.
pub fn expand_subgraphs<
    F: Fn(Subgraph<Initial>) -> Result<Subgraph<Expanded>, SubgraphError>,
>(subgraphs: Vec<Subgraph<Initial>>, expand_links: F) -> (r: Result<
    Vec<Subgraph<Expanded>>,
    Vec<CompositionError>,
>)
    requires
        forall|i: int| 0 <= i < subgraphs@.len() ==> call_requires(expand_links, (subgraphs@[i],)),
    ensures
        each_stage(expand_links, subgraphs@, r),
        r matches Ok(values) ==> values@.len() == subgraphs@.len() && forall|i: int|
            0 <= i < values@.len() ==> call_ensures(
                expand_links,
                (subgraphs@[i],),
                Ok(#[trigger] values@[i]),
            ),
        r matches Err(errors) ==> errors@.len() > 0 && exists|i: int, e: SubgraphError|
            0 <= i < subgraphs@.len() && #[trigger] call_ensures(
                expand_links,
                (subgraphs@[i],),
                Err(e),
            ),
{
    run_on_each(subgraphs, expand_links)
}

/// Checks that the subgraphs satisfy what federation asks of a single subgraph.
///
/// `validate` does so for one subgraph. All subgraphs are checked, and all errors reported.
pub fn validate_subgraphs<
    F: Fn(Subgraph<Upgraded>) -> Result<Subgraph<Validated>, SubgraphError>,
>(subgraphs: Vec<Subgraph<Upgraded>>, validate: F) -> (r: Result<
    Vec<Subgraph<Validated>>,
    Vec<CompositionError>,
>)
    requires
        forall|i: int| 0 <= i < subgraphs@.len() ==> call_requires(validate, (subgraphs@[i],)),
    ensures
        each_stage(validate, subgraphs@, r),
        r matches Ok(values) ==> values@.len() == subgraphs@.len() && forall|i: int|
            0 <= i < values@.len() ==> call_ensures(
                validate,
                (subgraphs@[i],),
                Ok(#[trigger] values@[i]),
            ),
        r matches Err(errors) ==> errors@.len() > 0 && exists|i: int, e: SubgraphError|
            0 <= i < subgraphs@.len() && #[trigger] call_ensures(
                validate,
                (subgraphs@[i],),
                Err(e),
            ),
{
    run_on_each(subgraphs, validate)
}

/// The stages of composition that look into the schemas as a whole.
pub struct Stages<X, U, V, M, S> {
    /// Adds the federation definitions that are missing from a subgraph.
    pub expand_links: X,
    /// Brings all subgraphs to the latest federation version.
    pub upgrade: U,
    /// Checks that a subgraph satisfies what federation asks of it.
    pub validate: V,
    /// Combines the schemas of the subgraphs.
    pub merge: M,
    /// Checks that every query on the supergraph can be satisfied.
    pub satisfiability: S,
}

impl<X, U, V, M, S> Stages<X, U, V, M, S> where
    X: Fn(Subgraph<Initial>) -> Result<Subgraph<Expanded>, SubgraphError>,
    U: FnOnce(Vec<Subgraph<Expanded>>) -> Result<Vec<Subgraph<Upgraded>>, Vec<CompositionError>>,
    V: Fn(Subgraph<Upgraded>) -> Result<Subgraph<Validated>, SubgraphError>,
    M: FnOnce(Vec<Subgraph<Validated>>) -> Result<MergeResult, String>,
    S: FnOnce(Supergraph<Merged>) -> Result<Supergraph<Satisfiable>, Vec<CompositionError>>,
{
    /// The first stage can be run on the given subgraphs, and the others on whatever they get.
    pub open spec fn callable(self, subgraphs: Seq<Subgraph<Initial>>) -> bool {
        &&& forall|i: int|
            0 <= i < subgraphs.len() ==> call_requires(self.expand_links, (subgraphs[i],))
        &&& forall|subgraphs: Vec<Subgraph<Expanded>>| call_requires(self.upgrade, (subgraphs,))
        &&& forall|subgraph: Subgraph<Upgraded>| call_requires(self.validate, (subgraph,))
        &&& forall|subgraphs: Vec<Subgraph<Validated>>| call_requires(self.merge, (subgraphs,))
        &&& forall|supergraph: Supergraph<Merged>|
            call_requires(self.satisfiability, (supergraph,))
    }

    /// `r` is what composition comes to from a merged supergraph on.
    pub open spec fn finish_merged(
        self,
        supergraph: Supergraph<Merged>,
        run_satisfiability: bool,
        r: Result<Supergraph<Satisfiable>, Vec<CompositionError>>,
    ) -> bool {
        let schema = supergraph.state.schema;
        if !post_merge::post_merge_valid(schema.inner) {
            r matches Err(errors) && error::error_views(errors@) == post_merge::post_merge_errors(
                schema.inner,
            )
        } else if run_satisfiability {
            call_ensures(self.satisfiability, (supergraph,), r)
        } else {
            r matches Ok(satisfiable) && satisfiable.state.schema == schema
        }
    }

    /// `r` is what composition comes to from validated subgraphs on.
    pub open spec fn finish_validated(
        self,
        subgraphs: Vec<Subgraph<Validated>>,
        run_satisfiability: bool,
        r: Result<Supergraph<Satisfiable>, Vec<CompositionError>>,
    ) -> bool {
        if !pre_merge::pre_merge_valid(subgraphs@) {
            r matches Err(errors) && error::error_views(errors@) == pre_merge::pre_merge_errors(
                subgraphs@,
            )
        } else {
            exists|merged: Result<Supergraph<Merged>, Vec<CompositionError>>| #[trigger]
                merge::merged(self.merge, subgraphs, merged) && match merged {
                    Ok(supergraph) => self.finish_merged(supergraph, run_satisfiability, r),
                    Err(errors) => r == Err::<Supergraph<Satisfiable>, _>(errors),
                }
        }
    }

    /// `r` is what composition comes to from upgraded subgraphs on.
    pub open spec fn finish_upgraded(
        self,
        subgraphs: Vec<Subgraph<Upgraded>>,
        run_satisfiability: bool,
        r: Result<Supergraph<Satisfiable>, Vec<CompositionError>>,
    ) -> bool {
        exists|validated: Result<Vec<Subgraph<Validated>>, Vec<CompositionError>>| #[trigger]
            each_stage(self.validate, subgraphs@, validated) && match validated {
                Ok(subgraphs) => self.finish_validated(subgraphs, run_satisfiability, r),
                Err(errors) => r == Err::<Supergraph<Satisfiable>, _>(errors),
            }
    }

    /// `r` is what composition comes to from expanded subgraphs on.
    pub open spec fn finish_expanded(
        self,
        subgraphs: Vec<Subgraph<Expanded>>,
        run_satisfiability: bool,
        r: Result<Supergraph<Satisfiable>, Vec<CompositionError>>,
    ) -> bool {
        exists|upgraded: Result<Vec<Subgraph<Upgraded>>, Vec<CompositionError>>| #[trigger]
            call_ensures(self.upgrade, (subgraphs,), upgraded) && match upgraded {
                Ok(subgraphs) => self.finish_upgraded(subgraphs, run_satisfiability, r),
                Err(errors) => r == Err::<Supergraph<Satisfiable>, _>(errors),
            }
    }

    /// `r` is what the composition of `subgraphs` comes to: each stage runs on what the one before
    /// it gave, and the first stage that fails decides.
    pub open spec fn composed(
        self,
        subgraphs: Seq<Subgraph<Initial>>,
        run_satisfiability: bool,
        r: Result<Supergraph<Satisfiable>, Vec<CompositionError>>,
    ) -> bool {
        exists|expanded: Result<Vec<Subgraph<Expanded>>, Vec<CompositionError>>| #[trigger]
            each_stage(self.expand_links, subgraphs, expanded) && match expanded {
                Ok(subgraphs) => self.finish_expanded(subgraphs, run_satisfiability, r),
                Err(errors) => r == Err::<Supergraph<Satisfiable>, _>(errors),
            }
    }
}

/// Composes subgraphs into a supergraph, with the default options.
pub fn compose<X, U, V, M, S>(
    subgraphs: Vec<Subgraph<Initial>>,
    stages: Stages<X, U, V, M, S>,
) -> (r: Result<Supergraph<Satisfiable>, Vec<CompositionError>>) where
    X: Fn(Subgraph<Initial>) -> Result<Subgraph<Expanded>, SubgraphError>,
    U: FnOnce(Vec<Subgraph<Expanded>>) -> Result<Vec<Subgraph<Upgraded>>, Vec<CompositionError>>,
    V: Fn(Subgraph<Upgraded>) -> Result<Subgraph<Validated>, SubgraphError>,
    M: FnOnce(Vec<Subgraph<Validated>>) -> Result<MergeResult, String>,
    S: FnOnce(Supergraph<Merged>) -> Result<Supergraph<Satisfiable>, Vec<CompositionError>>,

    requires
        stages.callable(subgraphs@),
    ensures
        stages.composed(subgraphs@, true, r),
{
    compose_with_options(subgraphs, CompositionOptions::default(), stages)
}

/// Composes subgraphs into a supergraph.
///
/// The subgraphs are expanded, upgraded and validated, checked together, merged, and the supergraph
/// is checked. Where the options ask for it, satisfiability is checked too; otherwise the supergraph
/// is taken to be satisfiable. The first stage that fails ends the composition with its errors.
pub fn compose_with_options<X, U, V, M, S>(
    subgraphs: Vec<Subgraph<Initial>>,
    options: CompositionOptions,
    stages: Stages<X, U, V, M, S>,
) -> (r: Result<Supergraph<Satisfiable>, Vec<CompositionError>>) where
    X: Fn(Subgraph<Initial>) -> Result<Subgraph<Expanded>, SubgraphError>,
    U: FnOnce(Vec<Subgraph<Expanded>>) -> Result<Vec<Subgraph<Upgraded>>, Vec<CompositionError>>,
    V: Fn(Subgraph<Upgraded>) -> Result<Subgraph<Validated>, SubgraphError>,
    M: FnOnce(Vec<Subgraph<Validated>>) -> Result<MergeResult, String>,
    S: FnOnce(Supergraph<Merged>) -> Result<Supergraph<Satisfiable>, Vec<CompositionError>>,

    requires
        stages.callable(subgraphs@),
    ensures
        stages.composed(subgraphs@, options.run_satisfiability, r),
{
    let Stages { expand_links, upgrade, validate, merge, satisfiability } = stages;
    let expanded = match expand_subgraphs(subgraphs, expand_links) {
        Ok(expanded) => expanded,
        Err(errors) => {
            return Err(errors);
        },
    };
    let upgraded = match upgrade(expanded) {
        Ok(upgraded) => upgraded,
        Err(errors) => {
            return Err(errors);
        },
    };
    let validated = match validate_subgraphs(upgraded, validate) {
        Ok(validated) => validated,
        Err(errors) => {
            return Err(errors);
        },
    };
    match pre_merge_validations(validated.as_slice()) {
        Ok(()) => {},
        Err(errors) => {
            return Err(errors);
        },
    }
    let supergraph = match merge_subgraphs(validated, merge) {
        Ok(supergraph) => supergraph,
        Err(errors) => {
            return Err(errors);
        },
    };
    match post_merge_validations(&supergraph) {
        Ok(()) => {},
        Err(errors) => {
            return Err(errors);
        },
    }
    if options.run_satisfiability {
        satisfiability(supergraph)
    } else {
        Ok(supergraph.assume_satisfiable())
    }
}

/// The outcomes come to success exactly when all of them succeeded, and then keep their places.
pub proof fn no_failures_iff_all_succeeded<T>(outcomes: Seq<Result<T, SubgraphError>>)
    ensures
        failures(outcomes).len() == 0 <==> forall|i: int|
            0 <= i < outcomes.len() ==> (#[trigger] outcomes[i]) is Ok,
        failures(outcomes).len() == 0 ==> successes(outcomes).len() == outcomes.len() && forall|
            i: int,
        |
            0 <= i < outcomes.len() ==> outcomes[i] == Ok::<T, SubgraphError>(
                #[trigger] successes(outcomes)[i],
            ),
    decreases outcomes.len(),
{
    if outcomes.len() > 0 {
        let before = outcomes.drop_last();
        no_failures_iff_all_succeeded(before);
        assert forall|i: int| 0 <= i < before.len() implies #[trigger] outcomes[i]
            == before[i] by {}
        assert(outcomes[outcomes.len() - 1] == outcomes.last());
        if forall|i: int| 0 <= i < outcomes.len() ==> (#[trigger] outcomes[i]) is Ok {
            assert forall|i: int| 0 <= i < before.len() implies (#[trigger] before[i]) is Ok by {
                assert(outcomes[i] is Ok);
            }
        }
        if failures(outcomes).len() == 0 {
            assert forall|i: int| 0 <= i < outcomes.len() implies (#[trigger] outcomes[i])
                is Ok by {
                if i < before.len() {
                    assert(before[i] is Ok);
                }
            }
        }
    }
}

/// Every failure is reported, and nothing else: each outcome is a value or an error.
pub proof fn every_failure_is_reported<T>(outcomes: Seq<Result<T, SubgraphError>>)
    ensures
        successes(outcomes).len() + failures(outcomes).len() == outcomes.len(),
        forall|i: int|
            0 <= i < outcomes.len() ==> ((#[trigger] outcomes[i]) matches Err(e) ==> failures(
                outcomes,
            ).contains(error::subgraph_error_view(e))),
    decreases outcomes.len(),
{
    if outcomes.len() > 0 {
        let before = outcomes.drop_last();
        every_failure_is_reported(before);
        assert forall|i: int| 0 <= i < outcomes.len() implies ((#[trigger] outcomes[i]) matches Err(
            e,
        ) ==> failures(outcomes).contains(error::subgraph_error_view(e))) by {
            if let Err(e) = outcomes[i] {
                let view = error::subgraph_error_view(e);
                if i < before.len() {
                    assert(before[i] == outcomes[i]);
                    let known = failures(before);
                    let k = choose|k: int| 0 <= k < known.len() && known[k] == view;
                    assert(failures(outcomes)[k] == view);
                } else {
                    assert(failures(outcomes)[failures(before).len() as int] == view);
                }
            }
        }
    }
}

/// A composed supergraph went through all stages and checks: the subgraphs were expanded, upgraded
/// and validated; they satisfied what they must before the merge; and they were merged into a
/// supergraph that satisfies what it must. Where satisfiability was not checked, the composed
/// supergraph has the schema of the merged one.
pub proof fn composed_supergraph_is_checked<X, U, V, M, S>(
    stages: Stages<X, U, V, M, S>,
    subgraphs: Seq<Subgraph<Initial>>,
    run_satisfiability: bool,
    r: Result<Supergraph<Satisfiable>, Vec<CompositionError>>,
) -> (through: (
    Vec<Subgraph<Expanded>>,
    Vec<Subgraph<Upgraded>>,
    Vec<Subgraph<Validated>>,
    Supergraph<Merged>,
)) where
    X: Fn(Subgraph<Initial>) -> Result<Subgraph<Expanded>, SubgraphError>,
    U: FnOnce(Vec<Subgraph<Expanded>>) -> Result<Vec<Subgraph<Upgraded>>, Vec<CompositionError>>,
    V: Fn(Subgraph<Upgraded>) -> Result<Subgraph<Validated>, SubgraphError>,
    M: FnOnce(Vec<Subgraph<Validated>>) -> Result<MergeResult, String>,
    S: FnOnce(Supergraph<Merged>) -> Result<Supergraph<Satisfiable>, Vec<CompositionError>>,

    requires
        stages.composed(subgraphs, run_satisfiability, r),
        r is Ok,
    ensures
        each_stage(stages.expand_links, subgraphs, Ok(through.0)),
        call_ensures(stages.upgrade, (through.0,), Ok(through.1)),
        each_stage(stages.validate, through.1@, Ok(through.2)),
        pre_merge::pre_merge_valid(through.2@),
        merge::merged(stages.merge, through.2, Ok(through.3)),
        post_merge::post_merge_valid(through.3.state.schema.inner),
        run_satisfiability ==> call_ensures(stages.satisfiability, (through.3,), r),
        !run_satisfiability ==> r->Ok_0.state.schema == through.3.state.schema,
{
    let expanded = choose|
        expanded: Result<Vec<Subgraph<Expanded>>, Vec<CompositionError>>,
    | #[trigger]
        each_stage(stages.expand_links, subgraphs, expanded) && match expanded {
            Ok(subgraphs) => stages.finish_expanded(subgraphs, run_satisfiability, r),
            Err(errors) => r == Err::<Supergraph<Satisfiable>, _>(errors),
        };
    let upgraded = choose|
        upgraded: Result<Vec<Subgraph<Upgraded>>, Vec<CompositionError>>,
    | #[trigger]
        call_ensures(stages.upgrade, (expanded->Ok_0,), upgraded) && match upgraded {
            Ok(subgraphs) => stages.finish_upgraded(subgraphs, run_satisfiability, r),
            Err(errors) => r == Err::<Supergraph<Satisfiable>, _>(errors),
        };
    let validated = choose|
        validated: Result<Vec<Subgraph<Validated>>, Vec<CompositionError>>,
    | #[trigger]
        each_stage(stages.validate, (upgraded->Ok_0)@, validated) && match validated {
            Ok(subgraphs) => stages.finish_validated(subgraphs, run_satisfiability, r),
            Err(errors) => r == Err::<Supergraph<Satisfiable>, _>(errors),
        };
    let merged = choose|
        merged: Result<Supergraph<Merged>, Vec<CompositionError>>,
    | #[trigger]
        merge::merged(stages.merge, validated->Ok_0, merged) && match merged {
            Ok(supergraph) => stages.finish_merged(supergraph, run_satisfiability, r),
            Err(errors) => r == Err::<Supergraph<Satisfiable>, _>(errors),
        };
    (expanded->Ok_0, upgraded->Ok_0, validated->Ok_0, merged->Ok_0)
}

/// Where a subgraph cannot be expanded, composition fails, with the errors of all subgraphs that
/// could not be expanded.
pub proof fn failed_expansion_fails_composition<X, U, V, M, S>(
    stages: Stages<X, U, V, M, S>,
    subgraphs: Seq<Subgraph<Initial>>,
    run_satisfiability: bool,
    r: Result<Supergraph<Satisfiable>, Vec<CompositionError>>,
    i: int,
) -> (outcomes: Seq<Result<Subgraph<Expanded>, SubgraphError>>) where
    X: Fn(Subgraph<Initial>) -> Result<Subgraph<Expanded>, SubgraphError>,
    U: FnOnce(Vec<Subgraph<Expanded>>) -> Result<Vec<Subgraph<Upgraded>>, Vec<CompositionError>>,
    V: Fn(Subgraph<Upgraded>) -> Result<Subgraph<Validated>, SubgraphError>,
    M: FnOnce(Vec<Subgraph<Validated>>) -> Result<MergeResult, String>,
    S: FnOnce(Supergraph<Merged>) -> Result<Supergraph<Satisfiable>, Vec<CompositionError>>,

    requires
        stages.composed(subgraphs, run_satisfiability, r),
        0 <= i < subgraphs.len(),
        forall|outcome: Result<Subgraph<Expanded>, SubgraphError>| #[trigger]
            call_ensures(stages.expand_links, (subgraphs[i],), outcome) ==> outcome is Err,
    ensures
        ran_on_each(stages.expand_links, subgraphs, outcomes),
        r matches Err(errors) && error::error_views(errors@) == failures(outcomes),
{
    let expanded = choose|
        expanded: Result<Vec<Subgraph<Expanded>>, Vec<CompositionError>>,
    | #[trigger]
        each_stage(stages.expand_links, subgraphs, expanded) && match expanded {
            Ok(subgraphs) => stages.finish_expanded(subgraphs, run_satisfiability, r),
            Err(errors) => r == Err::<Supergraph<Satisfiable>, _>(errors),
        };
    let outcomes = choose|outcomes: Seq<Result<Subgraph<Expanded>, SubgraphError>>| #[trigger]
        ran_on_each(stages.expand_links, subgraphs, outcomes) && outcomes_come_to(
            outcomes,
            expanded,
        );
    no_failures_iff_all_succeeded(outcomes);
    assert(outcomes[i] is Err);
    outcomes
}

/// Without subgraphs composition fails, as long as an upgrade of no subgraphs gives none.
pub proof fn nothing_cannot_be_composed<X, U, V, M, S>(
    stages: Stages<X, U, V, M, S>,
    run_satisfiability: bool,
    r: Result<Supergraph<Satisfiable>, Vec<CompositionError>>,
) where
    X: Fn(Subgraph<Initial>) -> Result<Subgraph<Expanded>, SubgraphError>,
    U: FnOnce(Vec<Subgraph<Expanded>>) -> Result<Vec<Subgraph<Upgraded>>, Vec<CompositionError>>,
    V: Fn(Subgraph<Upgraded>) -> Result<Subgraph<Validated>, SubgraphError>,
    M: FnOnce(Vec<Subgraph<Validated>>) -> Result<MergeResult, String>,
    S: FnOnce(Supergraph<Merged>) -> Result<Supergraph<Satisfiable>, Vec<CompositionError>>,

    requires
        stages.composed(Seq::empty(), run_satisfiability, r),
        forall|none: Vec<Subgraph<Expanded>>, upgraded| #[trigger]
            call_ensures(stages.upgrade, (none,), upgraded) && none@.len() == 0 ==> (
            upgraded matches Ok(subgraphs) && subgraphs@.len() == 0),
    ensures
        r matches Err(errors) && error::error_views(errors@) == seq![pre_merge::no_subgraphs()],
{
    let expanded = choose|
        expanded: Result<Vec<Subgraph<Expanded>>, Vec<CompositionError>>,
    | #[trigger]
        each_stage(stages.expand_links, Seq::empty(), expanded) && match expanded {
            Ok(subgraphs) => stages.finish_expanded(subgraphs, run_satisfiability, r),
            Err(errors) => r == Err::<Supergraph<Satisfiable>, _>(errors),
        };
    let upgraded = choose|
        upgraded: Result<Vec<Subgraph<Upgraded>>, Vec<CompositionError>>,
    | #[trigger]
        call_ensures(stages.upgrade, (expanded->Ok_0,), upgraded) && match upgraded {
            Ok(subgraphs) => stages.finish_upgraded(subgraphs, run_satisfiability, r),
            Err(errors) => r == Err::<Supergraph<Satisfiable>, _>(errors),
        };
    let validated = choose|
        validated: Result<Vec<Subgraph<Validated>>, Vec<CompositionError>>,
    | #[trigger]
        each_stage(stages.validate, (upgraded->Ok_0)@, validated) && match validated {
            Ok(subgraphs) => stages.finish_validated(subgraphs, run_satisfiability, r),
            Err(errors) => r == Err::<Supergraph<Satisfiable>, _>(errors),
        };
    assert(expanded is Ok && (expanded->Ok_0)@.len() == 0);
    assert(validated is Ok && (validated->Ok_0)@.len() == 0);
}

/// What a stage gave for two lists of subgraphs is, put together, what it gives for the lists put
/// together, and so are the values and the errors.
pub proof fn outcomes_side_by_side<
    A,
    B,
    F: Fn(Subgraph<A>) -> Result<Subgraph<B>, SubgraphError>,
>(
    stage: F,
    a: Seq<Subgraph<A>>,
    b: Seq<Subgraph<A>>,
    x: Seq<Result<Subgraph<B>, SubgraphError>>,
    y: Seq<Result<Subgraph<B>, SubgraphError>>,
)
    requires
        ran_on_each(stage, a, x),
        ran_on_each(stage, b, y),
    ensures
        ran_on_each(stage, a + b, x + y),
        successes(x + y) == successes(x) + successes(y),
        failures(x + y) == failures(x) + failures(y),
{
    assert forall|i: int| 0 <= i < (a + b).len() implies call_ensures(
        stage,
        ((a + b)[i],),
        #[trigger] (x + y)[i],
    ) by {
        if i < a.len() {
            assert((x + y)[i] == x[i]);
        } else {
            assert((x + y)[i] == y[i - a.len()]);
        }
    }
    lemma_collected_add(x, y);
}

proof fn lemma_collected_add<T>(x: Seq<Result<T, SubgraphError>>, y: Seq<Result<T, SubgraphError>>)
    ensures
        successes(x + y) == successes(x) + successes(y),
        failures(x + y) == failures(x) + failures(y),
    decreases y.len(),
{
    if y.len() == 0 {
        assert(x + y =~= x);
        assert(successes(x + y) =~= successes(x) + successes(y));
        assert(failures(x + y) =~= failures(x) + failures(y));
    } else {
        assert((x + y).drop_last() =~= x + y.drop_last());
        lemma_collected_add(x, y.drop_last());
        assert(successes(x + y) =~= successes(x) + successes(y));
        assert(failures(x + y) =~= failures(x) + failures(y));
    }
}

/// A stage that has one outcome for a subgraph.
pub open spec fn has_one_outcome<
    A,
    B,
    F: Fn(Subgraph<A>) -> Result<Subgraph<B>, SubgraphError>,
>(stage: F) -> bool {
    forall|
        subgraph: Subgraph<A>,
        x: Result<Subgraph<B>, SubgraphError>,
        y: Result<Subgraph<B>, SubgraphError>,
    |
        #![trigger call_ensures(stage, (subgraph,), x), call_ensures(stage, (subgraph,), y)]
        call_ensures(stage, (subgraph,), x) && call_ensures(stage, (subgraph,), y) ==> x == y
}

/// Each subgraph is judged on its own: what running a stage comes to on two lists of subgraphs put
/// together is what it comes to on the one and on the other. Values are put together where both
/// lists succeed, and otherwise the errors are.
pub proof fn stage_on_lists_side_by_side<
    A,
    B,
    F: Fn(Subgraph<A>) -> Result<Subgraph<B>, SubgraphError>,
>(
    stage: F,
    a: Seq<Subgraph<A>>,
    b: Seq<Subgraph<A>>,
    ra: Result<Vec<Subgraph<B>>, Vec<CompositionError>>,
    rb: Result<Vec<Subgraph<B>>, Vec<CompositionError>>,
    r: Result<Vec<Subgraph<B>>, Vec<CompositionError>>,
)
    requires
        has_one_outcome(stage),
        each_stage(stage, a, ra),
        each_stage(stage, b, rb),
        each_stage(stage, a + b, r),
    ensures
        match (ra, rb) {
            (Ok(x), Ok(y)) => r matches Ok(z) && z@ == x@ + y@,
            (Err(x), Err(y)) => r matches Err(z) && error::error_views(z@) == error::error_views(
                x@,
            ) + error::error_views(y@),
            (Err(x), Ok(_)) => r matches Err(z) && error::error_views(z@) == error::error_views(x@),
            (Ok(_), Err(y)) => r matches Err(z) && error::error_views(z@) == error::error_views(y@),
        },
{
    let x = choose|x: Seq<Result<Subgraph<B>, SubgraphError>>| #[trigger]
        ran_on_each(stage, a, x) && outcomes_come_to(x, ra);
    let y = choose|y: Seq<Result<Subgraph<B>, SubgraphError>>| #[trigger]
        ran_on_each(stage, b, y) && outcomes_come_to(y, rb);
    let z = choose|z: Seq<Result<Subgraph<B>, SubgraphError>>| #[trigger]
        ran_on_each(stage, a + b, z) && outcomes_come_to(z, r);
    outcomes_side_by_side(stage, a, b, x, y);
    assert forall|i: int| 0 <= i < z.len() implies z[i] == (x + y)[i] by {
        assert(call_ensures(stage, ((a + b)[i],), z[i]));
        assert(call_ensures(stage, ((a + b)[i],), (x + y)[i]));
    }
    assert(z =~= x + y);
    assert(failures(x) + failures(y) =~= failures(z));
    if failures(x).len() == 0 {
        assert(failures(z) =~= failures(y));
    }
    if failures(y).len() == 0 {
        assert(failures(z) =~= failures(x));
    }
}

/// One more outcome adds its value, or its error, at the end.
pub proof fn outcomes_are_collected_in_order<T>(
    before: Seq<Result<T, SubgraphError>>,
    outcome: Result<T, SubgraphError>,
)
    ensures
        successes(Seq::<Result<T, SubgraphError>>::empty()).len() == 0,
        failures(Seq::<Result<T, SubgraphError>>::empty()).len() == 0,
        outcome matches Ok(value) ==> successes(before.push(outcome)) == successes(before).push(
            value,
        ) && failures(before.push(outcome)) == failures(before),
        outcome matches Err(e) ==> successes(before.push(outcome)) == successes(before) && failures(
            before.push(outcome),
        ) == failures(before).push(
            (error::ErrorView::SubgraphError { subgraph: e.subgraph@, message: e.message@ }),
        ),
{
    assert(before.push(outcome).drop_last() =~= before);
}

/// What the outcomes come to holds the error of each outcome that failed, and no other.
pub proof fn collected_errors_are_those_of_the_outcomes<T>(
    outcomes: Seq<Result<T, SubgraphError>>,
    errors: Vec<CompositionError>,
)
    requires
        error::error_views(errors@) == failures(outcomes),
    ensures
        forall|i: int|
            0 <= i < outcomes.len() ==> ((#[trigger] outcomes[i]) matches Err(e) ==> exists|k: int|
                0 <= k < errors@.len() && (
                #[trigger] errors@[k] matches CompositionError::SubgraphError { subgraph, message }
                    && subgraph@ == e.subgraph@ && message@ == e.message@)),
        forall|k: int|
            0 <= k < errors@.len() ==> exists|i: int|
                0 <= i < outcomes.len() && ((#[trigger] outcomes[i]) matches Err(e) && (
                #[trigger] errors@[k] matches CompositionError::SubgraphError { subgraph, message }
                    && subgraph@ == e.subgraph@ && message@ == e.message@)),
{
    let views = error::error_views(errors@);
    every_failure_is_reported(outcomes);
    assert forall|i: int| 0 <= i < outcomes.len() implies ((#[trigger] outcomes[i]) matches Err(e)
        ==> exists|k: int|
        0 <= k < errors@.len() && (
        #[trigger] errors@[k] matches CompositionError::SubgraphError { subgraph, message }
            && subgraph@ == e.subgraph@ && message@ == e.message@)) by {
        if let Err(e) = outcomes[i] {
            let view = error::subgraph_error_view(e);
            assert(views.contains(view));
            let k = choose|k: int| 0 <= k < views.len() && views[k] == view;
            assert(errors@[k]@ == view);
        }
    }
    assert forall|k: int| 0 <= k < errors@.len() implies exists|i: int|
        0 <= i < outcomes.len() && ((#[trigger] outcomes[i]) matches Err(e) && (
        #[trigger] errors@[k] matches CompositionError::SubgraphError { subgraph, message }
            && subgraph@ == e.subgraph@ && message@ == e.message@)) by {
        assert(views[k] == errors@[k]@);
        let i = lemma_failure_source(outcomes, k);
    }
}

/// Every failure is that of some outcome.
proof fn lemma_failure_source<T>(outcomes: Seq<Result<T, SubgraphError>>, k: int) -> (i: int)
    requires
        0 <= k < failures(outcomes).len(),
    ensures
        0 <= i < outcomes.len(),
        outcomes[i] matches Err(e) && failures(outcomes)[k] == (error::ErrorView::SubgraphError {
            subgraph: e.subgraph@,
            message: e.message@,
        }),
    decreases outcomes.len(),
{
    let before = outcomes.drop_last();
    if k < failures(before).len() {
        let i = lemma_failure_source(before, k);
        assert(before[i] == outcomes[i]);
        i
    } else {
        outcomes.len() - 1
    }
}

/// A stage on all subgraphs succeeds with what it gave for each of them, in their places. It fails
/// only where it gave an error for one of them.
pub proof fn stage_gives_what_it_gave_for_each<
    A,
    B,
    F: Fn(Subgraph<A>) -> Result<Subgraph<B>, SubgraphError>,
>(
    stage: F,
    subgraphs: Seq<Subgraph<A>>,
    outcomes: Seq<Result<Subgraph<B>, SubgraphError>>,
    r: Result<Vec<Subgraph<B>>, Vec<CompositionError>>,
)
    requires
        ran_on_each(stage, subgraphs, outcomes),
        outcomes_come_to(outcomes, r),
    ensures
        outcomes.len() == subgraphs.len(),
        forall|i: int|
            0 <= i < outcomes.len() ==> call_ensures(
                stage,
                (subgraphs[i],),
                #[trigger] outcomes[i],
            ),
        r is Ok <==> forall|i: int| 0 <= i < outcomes.len() ==> (#[trigger] outcomes[i]) is Ok,
        r matches Ok(values) ==> values@.len() == subgraphs.len() && forall|i: int|
            0 <= i < values@.len()
                ==> call_ensures(stage, (subgraphs[i],), Ok(#[trigger] values@[i]))
                && outcomes[i] == Ok::<Subgraph<B>, SubgraphError>(values@[i]),
        r matches Err(errors) ==> errors@.len() > 0 && exists|i: int, e: SubgraphError|
            0 <= i < subgraphs.len() && #[trigger] call_ensures(stage, (subgraphs[i],), Err(e)),
        r matches Err(errors) ==> error::error_views(errors@) == failures(outcomes),
{
    no_failures_iff_all_succeeded(outcomes);
    if let Ok(values) = r {
        assert forall|i: int| 0 <= i < values@.len() implies call_ensures(
            stage,
            (subgraphs[i],),
            Ok(#[trigger] values@[i]),
        ) && outcomes[i] == Ok::<Subgraph<B>, SubgraphError>(values@[i]) by {
            assert(outcomes[i] == Ok::<Subgraph<B>, SubgraphError>(successes(outcomes)[i]));
            assert(call_ensures(stage, (subgraphs[i],), outcomes[i]));
        }
    }
    if let Err(errors) = r {
        assert(error::error_views(errors@).len() == errors@.len());
        let i = choose|i: int| 0 <= i < outcomes.len() && !((#[trigger] outcomes[i]) is Ok);
        let e = outcomes[i]->Err_0;
        assert(outcomes[i] == Err::<Subgraph<B>, SubgraphError>(e));
        assert(call_ensures(stage, (subgraphs[i],), Err(e)));
    }
}

/// Composition starts with the expansion of each subgraph. Where one cannot be expanded, the errors
/// of all that cannot are the result; otherwise it goes on with what the expansion gave.
pub proof fn composition_begins_with_expansion<X, U, V, M, S>(
    stages: Stages<X, U, V, M, S>,
    subgraphs: Seq<Subgraph<Initial>>,
    run_satisfiability: bool,
    r: Result<Supergraph<Satisfiable>, Vec<CompositionError>>,
) -> (through: (Seq<Result<Subgraph<Expanded>, SubgraphError>>, Vec<Subgraph<Expanded>>)) where
    X: Fn(Subgraph<Initial>) -> Result<Subgraph<Expanded>, SubgraphError>,
    U: FnOnce(Vec<Subgraph<Expanded>>) -> Result<Vec<Subgraph<Upgraded>>, Vec<CompositionError>>,
    V: Fn(Subgraph<Upgraded>) -> Result<Subgraph<Validated>, SubgraphError>,
    M: FnOnce(Vec<Subgraph<Validated>>) -> Result<MergeResult, String>,
    S: FnOnce(Supergraph<Merged>) -> Result<Supergraph<Satisfiable>, Vec<CompositionError>>,

    requires
        stages.composed(subgraphs, run_satisfiability, r),
    ensures
        through.0.len() == subgraphs.len(),
        forall|i: int|
            0 <= i < through.0.len() ==> call_ensures(
                stages.expand_links,
                (subgraphs[i],),
                #[trigger] through.0[i],
            ),
        (exists|i: int| 0 <= i < through.0.len() && (#[trigger] through.0[i]) is Err) ==> (
        r matches Err(errors) && error::error_views(errors@) == failures(through.0)),
        (forall|i: int| 0 <= i < through.0.len() ==> (#[trigger] through.0[i]) is Ok) ==> {
            &&& through.1@.len() == subgraphs.len()
            &&& forall|i: int|
                0 <= i < through.1@.len() ==> through.0[i] == Ok::<
                    Subgraph<Expanded>,
                    SubgraphError,
                >(#[trigger] through.1@[i])
            &&& stages.finish_expanded(through.1, run_satisfiability, r)
        },
{
    let expanded = choose|
        expanded: Result<Vec<Subgraph<Expanded>>, Vec<CompositionError>>,
    | #[trigger]
        each_stage(stages.expand_links, subgraphs, expanded) && match expanded {
            Ok(subgraphs) => stages.finish_expanded(subgraphs, run_satisfiability, r),
            Err(errors) => r == Err::<Supergraph<Satisfiable>, _>(errors),
        };
    let outcomes = choose|outcomes: Seq<Result<Subgraph<Expanded>, SubgraphError>>| #[trigger]
        ran_on_each(stages.expand_links, subgraphs, outcomes) && outcomes_come_to(
            outcomes,
            expanded,
        );
    stage_gives_what_it_gave_for_each(stages.expand_links, subgraphs, outcomes, expanded);
    (outcomes, expanded->Ok_0)
}

/// Expanded subgraphs are upgraded. Where that fails, its errors are the result; otherwise
/// composition goes on with what the upgrade gave.
pub proof fn expanded_subgraphs_are_upgraded<X, U, V, M, S>(
    stages: Stages<X, U, V, M, S>,
    subgraphs: Vec<Subgraph<Expanded>>,
    run_satisfiability: bool,
    r: Result<Supergraph<Satisfiable>, Vec<CompositionError>>,
) -> (upgraded: Result<Vec<Subgraph<Upgraded>>, Vec<CompositionError>>) where
    X: Fn(Subgraph<Initial>) -> Result<Subgraph<Expanded>, SubgraphError>,
    U: FnOnce(Vec<Subgraph<Expanded>>) -> Result<Vec<Subgraph<Upgraded>>, Vec<CompositionError>>,
    V: Fn(Subgraph<Upgraded>) -> Result<Subgraph<Validated>, SubgraphError>,
    M: FnOnce(Vec<Subgraph<Validated>>) -> Result<MergeResult, String>,
    S: FnOnce(Supergraph<Merged>) -> Result<Supergraph<Satisfiable>, Vec<CompositionError>>,

    requires
        stages.finish_expanded(subgraphs, run_satisfiability, r),
    ensures
        call_ensures(stages.upgrade, (subgraphs,), upgraded),
        upgraded matches Err(errors) ==> r == Err::<Supergraph<Satisfiable>, _>(errors),
        upgraded matches Ok(subgraphs) ==> stages.finish_upgraded(subgraphs, run_satisfiability, r),
{
    choose|upgraded: Result<Vec<Subgraph<Upgraded>>, Vec<CompositionError>>| #[trigger]
        call_ensures(stages.upgrade, (subgraphs,), upgraded) && match upgraded {
            Ok(subgraphs) => stages.finish_upgraded(subgraphs, run_satisfiability, r),
            Err(errors) => r == Err::<Supergraph<Satisfiable>, _>(errors),
        }
}

/// Upgraded subgraphs are validated, each of them. Where one is not valid, the errors of all that
/// are not are the result; otherwise composition goes on with what the validation gave.
pub proof fn upgraded_subgraphs_are_validated<X, U, V, M, S>(
    stages: Stages<X, U, V, M, S>,
    subgraphs: Vec<Subgraph<Upgraded>>,
    run_satisfiability: bool,
    r: Result<Supergraph<Satisfiable>, Vec<CompositionError>>,
) -> (through: (Seq<Result<Subgraph<Validated>, SubgraphError>>, Vec<Subgraph<Validated>>)) where
    X: Fn(Subgraph<Initial>) -> Result<Subgraph<Expanded>, SubgraphError>,
    U: FnOnce(Vec<Subgraph<Expanded>>) -> Result<Vec<Subgraph<Upgraded>>, Vec<CompositionError>>,
    V: Fn(Subgraph<Upgraded>) -> Result<Subgraph<Validated>, SubgraphError>,
    M: FnOnce(Vec<Subgraph<Validated>>) -> Result<MergeResult, String>,
    S: FnOnce(Supergraph<Merged>) -> Result<Supergraph<Satisfiable>, Vec<CompositionError>>,

    requires
        stages.finish_upgraded(subgraphs, run_satisfiability, r),
    ensures
        through.0.len() == subgraphs@.len(),
        forall|i: int|
            0 <= i < through.0.len() ==> call_ensures(
                stages.validate,
                (subgraphs@[i],),
                #[trigger] through.0[i],
            ),
        (exists|i: int| 0 <= i < through.0.len() && (#[trigger] through.0[i]) is Err) ==> (
        r matches Err(errors) && error::error_views(errors@) == failures(through.0)),
        (forall|i: int| 0 <= i < through.0.len() ==> (#[trigger] through.0[i]) is Ok) ==> {
            &&& through.1@.len() == subgraphs@.len()
            &&& forall|i: int|
                0 <= i < through.1@.len() ==> through.0[i] == Ok::<
                    Subgraph<Validated>,
                    SubgraphError,
                >(#[trigger] through.1@[i])
            &&& stages.finish_validated(through.1, run_satisfiability, r)
        },
{
    let validated = choose|
        validated: Result<Vec<Subgraph<Validated>>, Vec<CompositionError>>,
    | #[trigger]
        each_stage(stages.validate, subgraphs@, validated) && match validated {
            Ok(subgraphs) => stages.finish_validated(subgraphs, run_satisfiability, r),
            Err(errors) => r == Err::<Supergraph<Satisfiable>, _>(errors),
        };
    let outcomes = choose|outcomes: Seq<Result<Subgraph<Validated>, SubgraphError>>| #[trigger]
        ran_on_each(stages.validate, subgraphs@, outcomes) && outcomes_come_to(outcomes, validated);
    stage_gives_what_it_gave_for_each(stages.validate, subgraphs@, outcomes, validated);
    (outcomes, validated->Ok_0)
}

/// Validated subgraphs in which the checks before the merge find errors are not composed: those
/// errors are the result. Otherwise they are merged. Where the merger fails, reports errors or gives
/// no schema, so does composition; otherwise it goes on with the schema that the merger gave.
pub proof fn validated_subgraphs_are_merged<X, U, V, M, S>(
    stages: Stages<X, U, V, M, S>,
    subgraphs: Vec<Subgraph<Validated>>,
    run_satisfiability: bool,
    r: Result<Supergraph<Satisfiable>, Vec<CompositionError>>,
) -> (through: (Result<MergeResult, String>, Supergraph<Merged>)) where
    X: Fn(Subgraph<Initial>) -> Result<Subgraph<Expanded>, SubgraphError>,
    U: FnOnce(Vec<Subgraph<Expanded>>) -> Result<Vec<Subgraph<Upgraded>>, Vec<CompositionError>>,
    V: Fn(Subgraph<Upgraded>) -> Result<Subgraph<Validated>, SubgraphError>,
    M: FnOnce(Vec<Subgraph<Validated>>) -> Result<MergeResult, String>,
    S: FnOnce(Supergraph<Merged>) -> Result<Supergraph<Satisfiable>, Vec<CompositionError>>,

    requires
        stages.finish_validated(subgraphs, run_satisfiability, r),
    ensures
        pre_merge::pre_merge_errors(subgraphs@).len() > 0 ==> (r matches Err(errors)
            && error::error_views(errors@) == pre_merge::pre_merge_errors(subgraphs@)),
        pre_merge::pre_merge_errors(subgraphs@).len() == 0 ==> call_ensures(
            stages.merge,
            (subgraphs,),
            through.0,
        ) && match through.0 {
            Err(failure) => r matches Err(errors) && errors@.len() == 1 && (
            errors@[0] matches CompositionError::InternalError { message } && message@
                == "Merge failed: "@ + failure@),
            Ok(result) => {
                &&& result.errors@.len() > 0 ==> r == Err::<Supergraph<Satisfiable>, _>(
                    result.errors,
                )
                &&& result.errors@.len() == 0 && result.supergraph is None ==> (r matches Err(
                    errors,
                ) && errors@.len() == 1 && (
                errors@[0] matches CompositionError::InternalError { message } && message@
                    == "Merge completed but no supergraph schema was produced"@))
                &&& result.errors@.len() == 0 ==> (result.supergraph matches Some(schema)
                    ==> through.1.state.schema.inner == schema.inner.schema
                    && stages.finish_merged(through.1, run_satisfiability, r))
            },
        },
{
    pre_merge::pre_merge_errors_complete(subgraphs@);
    let merged = choose|
        merged: Result<Supergraph<Merged>, Vec<CompositionError>>,
    | #[trigger]
        merge::merged(stages.merge, subgraphs, merged) && match merged {
            Ok(supergraph) => stages.finish_merged(supergraph, run_satisfiability, r),
            Err(errors) => r == Err::<Supergraph<Satisfiable>, _>(errors),
        };
    if pre_merge::pre_merge_valid(subgraphs@) {
        let outcome = merge::merged_subgraphs_had_no_errors(stages.merge, subgraphs, merged);
        (outcome, merged->Ok_0)
    } else {
        (arbitrary(), merged->Ok_0)
    }
}

/// A merged supergraph in which the checks after the merge find errors is not composed: those errors
/// are the result. Otherwise, what the check of satisfiability gives is the result, where it is
/// asked for, and a supergraph with the merged schema where it is not.
pub proof fn merged_supergraph_is_finished<X, U, V, M, S>(
    stages: Stages<X, U, V, M, S>,
    supergraph: Supergraph<Merged>,
    run_satisfiability: bool,
    r: Result<Supergraph<Satisfiable>, Vec<CompositionError>>,
) where
    X: Fn(Subgraph<Initial>) -> Result<Subgraph<Expanded>, SubgraphError>,
    U: FnOnce(Vec<Subgraph<Expanded>>) -> Result<Vec<Subgraph<Upgraded>>, Vec<CompositionError>>,
    V: Fn(Subgraph<Upgraded>) -> Result<Subgraph<Validated>, SubgraphError>,
    M: FnOnce(Vec<Subgraph<Validated>>) -> Result<MergeResult, String>,
    S: FnOnce(Supergraph<Merged>) -> Result<Supergraph<Satisfiable>, Vec<CompositionError>>,

    requires
        stages.finish_merged(supergraph, run_satisfiability, r),
    ensures
        post_merge::post_merge_errors(supergraph.state.schema.inner).len() > 0 ==> (r matches Err(
            errors,
        ) && error::error_views(errors@) == post_merge::post_merge_errors(
            supergraph.state.schema.inner,
        )),
        post_merge::post_merge_errors(supergraph.state.schema.inner).len() == 0
            && run_satisfiability ==> call_ensures(stages.satisfiability, (supergraph,), r),
        post_merge::post_merge_errors(supergraph.state.schema.inner).len() == 0
            && !run_satisfiability ==> (r matches Ok(satisfiable) && satisfiable.state.schema.inner
            == supergraph.state.schema.inner),
{
    post_merge::post_merge_errors_complete(supergraph.state.schema.inner);
}

/// A supergraph is composed only where the merger reported no error on the validated subgraphs and
/// gave a schema, in which nothing was found after the merge.
pub proof fn composed_supergraph_had_no_merge_errors<X, U, V, M, S>(
    stages: Stages<X, U, V, M, S>,
    subgraphs: Seq<Subgraph<Initial>>,
    run_satisfiability: bool,
    r: Result<Supergraph<Satisfiable>, Vec<CompositionError>>,
) -> (through: (Vec<Subgraph<Validated>>, MergeResult, Supergraph<Merged>)) where
    X: Fn(Subgraph<Initial>) -> Result<Subgraph<Expanded>, SubgraphError>,
    U: FnOnce(Vec<Subgraph<Expanded>>) -> Result<Vec<Subgraph<Upgraded>>, Vec<CompositionError>>,
    V: Fn(Subgraph<Upgraded>) -> Result<Subgraph<Validated>, SubgraphError>,
    M: FnOnce(Vec<Subgraph<Validated>>) -> Result<MergeResult, String>,
    S: FnOnce(Supergraph<Merged>) -> Result<Supergraph<Satisfiable>, Vec<CompositionError>>,

    requires
        stages.composed(subgraphs, run_satisfiability, r),
        r is Ok,
    ensures
        pre_merge::pre_merge_errors(through.0@).len() == 0,
        call_ensures(stages.merge, (through.0,), Ok(through.1)),
        through.1.errors@.len() == 0,
        through.1.supergraph matches Some(schema) && through.2.state.schema.inner
            == schema.inner.schema,
        post_merge::post_merge_errors(through.2.state.schema.inner).len() == 0,
        run_satisfiability ==> call_ensures(stages.satisfiability, (through.2,), r),
        !run_satisfiability ==> r->Ok_0.state.schema.inner == through.2.state.schema.inner,
{
    let (outcomes, expanded) = composition_begins_with_expansion(
        stages,
        subgraphs,
        run_satisfiability,
        r,
    );
    assert(forall|i: int| 0 <= i < outcomes.len() ==> (#[trigger] outcomes[i]) is Ok);
    let upgraded = expanded_subgraphs_are_upgraded(stages, expanded, run_satisfiability, r);
    let (checked, validated) = upgraded_subgraphs_are_validated(
        stages,
        upgraded->Ok_0,
        run_satisfiability,
        r,
    );
    assert(forall|i: int| 0 <= i < checked.len() ==> (#[trigger] checked[i]) is Ok);
    let (outcome, merged) = validated_subgraphs_are_merged(
        stages,
        validated,
        run_satisfiability,
        r,
    );
    merged_supergraph_is_finished(stages, merged, run_satisfiability, r);
    (validated, outcome->Ok_0, merged)
}

} // verus!
