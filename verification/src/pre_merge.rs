//! The checks on all subgraphs together, before they are merged.

use crate::collections;
use crate::error;
use crate::error::{report_internal, CompositionError, ErrorView};
use crate::key_fields;
use crate::key_fields::validate_key_fields_across_subgraphs;
use crate::schema;
use crate::subgraph::{Subgraph, Validated};
use crate::text::starts_with;
use crate::type_conflicts;
use crate::type_conflicts::validate_type_conflicts_across_subgraphs;
use vstd::hash_set::StringHashSet;
use vstd::prelude::*;

verus! {

/// Whether `url` starts with a protocol that a subgraph can be reached by.
pub open spec fn is_web_url(url: Seq<char>) -> bool {
    "http://"@.is_prefix_of(url) || "https://"@.is_prefix_of(url)
}

/// Whether one of `subgraphs` is named `name`.
pub open spec fn name_taken(subgraphs: Seq<Subgraph<Validated>>, name: Seq<char>) -> bool {
    exists|i: int| 0 <= i < subgraphs.len() && (#[trigger] subgraphs[i]).name@ == name
}

/// The error for an empty list of subgraphs.
pub open spec fn no_subgraphs() -> ErrorView {
    error::internal("Cannot compose with empty subgraphs list"@)
}

/// The error for a subgraph named like an earlier one.
pub open spec fn duplicate_name(name: Seq<char>) -> ErrorView {
    error::internal("Duplicate subgraph name: "@ + name)
}

/// The error for a subgraph whose URL does not start with a known protocol.
pub open spec fn invalid_url(name: Seq<char>, url: Seq<char>) -> ErrorView {
    error::internal(
        "Invalid URL format for subgraph '"@ + name + "': "@ + url
            + " (must start with http:// or https://)"@,
    )
}

/// The errors for the name and the URL of a subgraph that follows `before`. The URL of a subgraph
/// whose name is taken is not looked at.
pub open spec fn identity_errors_of(
    before: Seq<Subgraph<Validated>>,
    subgraph: Subgraph<Validated>,
) -> Seq<ErrorView> {
    if name_taken(before, subgraph.name@) {
        seq![duplicate_name(subgraph.name@)]
    } else if !is_web_url(subgraph.url@) {
        seq![invalid_url(subgraph.name@, subgraph.url@)]
    } else {
        Seq::empty()
    }
}

/// The errors for the names and the URLs of all subgraphs.
pub open spec fn identity_errors(subgraphs: Seq<Subgraph<Validated>>) -> Seq<ErrorView>
    decreases subgraphs.len(),
{
    if subgraphs.len() == 0 {
        Seq::empty()
    } else {
        identity_errors(subgraphs.drop_last()) + identity_errors_of(
            subgraphs.drop_last(),
            subgraphs.last(),
        )
    }
}

/// All errors that are found before the merge.
pub open spec fn pre_merge_errors(subgraphs: Seq<Subgraph<Validated>>) -> Seq<ErrorView> {
    if subgraphs.len() == 0 {
        seq![no_subgraphs()]
    } else {
        identity_errors(subgraphs) + key_fields::key_errors(subgraphs)
            + type_conflicts::conflict_errors(subgraphs)
    }
}

/// Checks the names and the URLs of all subgraphs.
fn validate_identities(subgraphs: &[Subgraph<Validated>], errors: &mut Vec<CompositionError>)
    ensures
        error::error_views(final(errors)@) == error::error_views(old(errors)@) + identity_errors(
            subgraphs@,
        ),
{
    let mut seen_names = StringHashSet::new();
    let mut i: usize = 0;
    while i < subgraphs.len()
        invariant
            i <= subgraphs@.len(),
            forall|name: Seq<char>| #[trigger]
                seen_names@.contains(name) <==> name_taken(subgraphs@.take(i as int), name),
            error::error_views(errors@) == error::error_views(old(errors)@) + identity_errors(
                subgraphs@.take(i as int),
            ),
        decreases subgraphs@.len() - i,
    {
        let subgraph = &subgraphs[i];
        let ghost before = subgraphs@.take(i as int);
        let ghost after = subgraphs@.take(i + 1);
        proof {
            assert(after.drop_last() =~= before);
            assert forall|name: Seq<char>| #[trigger]
                name_taken(after, name) <==> (name_taken(before, name) || name
                    == subgraph.name@) by {
                assert(after[i as int] == *subgraph);
                if name_taken(before, name) {
                    let j = choose|j: int|
                        0 <= j < before.len() && (#[trigger] before[j]).name@ == name;
                    assert(after[j].name@ == name);
                }
                if name_taken(after, name) && name != subgraph.name@ {
                    let j = choose|j: int|
                        0 <= j < after.len() && (#[trigger] after[j]).name@ == name;
                    assert(before[j].name@ == name);
                }
            }
        }
        if !seen_names.insert(subgraph.name.clone()) {
            let mut message = "Duplicate subgraph name: ".to_owned();
            message.append(subgraph.name.as_str());
            report_internal(errors, message);
        } else if !(starts_with(subgraph.url.as_str(), "http://") || starts_with(
            subgraph.url.as_str(),
            "https://",
        )) {
            let mut message = "Invalid URL format for subgraph '".to_owned();
            message.append(subgraph.name.as_str());
            message.append("': ");
            message.append(subgraph.url.as_str());
            message.append(" (must start with http:// or https://)");
            report_internal(errors, message);
        }
        i = i + 1;
    }
    assert(subgraphs@.take(i as int) =~= subgraphs@);
}

/// Checks what can only be seen when all subgraphs are looked at together.
///
/// There must be a subgraph; names must not repeat; URLs must start with `http://` or `https://`;
/// `@key` directives must refer to fields that exist; and subgraphs that define the same type must
/// agree on its kind. All errors are reported, not only the first.
pub fn pre_merge_validations(subgraphs: &[Subgraph<Validated>]) -> (r: Result<
    (),
    Vec<CompositionError>,
>)
    ensures
        match r {
            Ok(()) => pre_merge_errors(subgraphs@).len() == 0,
            Err(errors) => errors@.len() > 0 && error::error_views(errors@) == pre_merge_errors(
                subgraphs@,
            ),
        },
        r is Ok <==> pre_merge_valid(subgraphs@),
        forall|i: int|
            0 <= i < subgraphs@.len() ==> type_conflicts::defines_once(#[trigger] subgraphs@[i]),
{
    let mut errors: Vec<CompositionError> = Vec::new();
    if subgraphs.len() == 0 {
        report_internal(&mut errors, "Cannot compose with empty subgraphs list".to_owned());
    } else {
        validate_identities(subgraphs, &mut errors);
        validate_key_fields_across_subgraphs(subgraphs, &mut errors);
        validate_type_conflicts_across_subgraphs(subgraphs, &mut errors);
    }
    assert(error::error_views(errors@) =~= pre_merge_errors(subgraphs@));
    proof {
        pre_merge_errors_complete(subgraphs@);
    }
    if errors.len() == 0 {
        Ok(())
    } else {
        Err(errors)
    }
}

/// No two subgraphs have the same name.
pub open spec fn names_distinct(subgraphs: Seq<Subgraph<Validated>>) -> bool {
    forall|i: int, j: int|
        0 <= i < j < subgraphs.len() ==> (#[trigger] subgraphs[i]).name@ != (
        #[trigger] subgraphs[j]).name@
}

/// Every subgraph has a URL that starts with a known protocol.
pub open spec fn urls_valid(subgraphs: Seq<Subgraph<Validated>>) -> bool {
    forall|i: int| 0 <= i < subgraphs.len() ==> is_web_url((#[trigger] subgraphs[i]).url@)
}

/// What subgraphs must satisfy to be merged.
pub open spec fn pre_merge_valid(subgraphs: Seq<Subgraph<Validated>>) -> bool {
    &&& subgraphs.len() > 0
    &&& names_distinct(subgraphs)
    &&& urls_valid(subgraphs)
    &&& key_fields::keys_valid(subgraphs)
    &&& type_conflicts::kinds_agree(subgraphs)
}

/// There is no error for names and URLs exactly when all names differ and all URLs are valid.
pub proof fn identity_errors_complete(subgraphs: Seq<Subgraph<Validated>>)
    ensures
        identity_errors(subgraphs).len() == 0 <==> names_distinct(subgraphs) && urls_valid(
            subgraphs,
        ),
    decreases subgraphs.len(),
{
    if subgraphs.len() > 0 {
        let before = subgraphs.drop_last();
        let last = subgraphs.last();
        identity_errors_complete(before);
        if identity_errors(subgraphs).len() == 0 {
            assert(identity_errors(before).len() == 0);
            assert(identity_errors_of(before, last).len() == 0);
            assert forall|i: int, j: int| 0 <= i < j < subgraphs.len() implies (
            #[trigger] subgraphs[i]).name@ != (#[trigger] subgraphs[j]).name@ by {
                assert(before[i] == subgraphs[i]);
                if j < before.len() {
                    assert(before[j] == subgraphs[j]);
                }
            }
            assert forall|i: int| 0 <= i < subgraphs.len() implies is_web_url(
                (#[trigger] subgraphs[i]).url@,
            ) by {
                if i < before.len() {
                    assert(before[i] == subgraphs[i]);
                }
            }
        }
        if names_distinct(subgraphs) && urls_valid(subgraphs) {
            assert(subgraphs[subgraphs.len() - 1] == last);
            assert forall|i: int| 0 <= i < before.len() implies #[trigger] before[i]
                == subgraphs[i] by {}
            if name_taken(before, last.name@) {
                let i = choose|i: int|
                    0 <= i < before.len() && (#[trigger] before[i]).name@ == last.name@;
                assert(subgraphs[i].name@ == subgraphs[subgraphs.len() - 1].name@);
            }
            assert(urls_valid(before));
            assert(names_distinct(before));
        }
    }
}

/// There is no error before the merge exactly when the subgraphs satisfy what they must.
pub proof fn pre_merge_errors_complete(subgraphs: Seq<Subgraph<Validated>>)
    ensures
        pre_merge_errors(subgraphs).len() == 0 <==> pre_merge_valid(subgraphs),
{
    identity_errors_complete(subgraphs);
    key_fields::key_errors_complete(subgraphs);
    type_conflicts::conflict_errors_complete(subgraphs);
}

/// The error for the name or the URL of a subgraph is among the errors for all subgraphs.
pub proof fn identity_error_is_reported(
    subgraphs: Seq<Subgraph<Validated>>,
    i: int,
    e: ErrorView,
)
    requires
        0 <= i < subgraphs.len(),
        identity_errors_of(subgraphs.take(i), subgraphs[i]).contains(e),
    ensures
        identity_errors(subgraphs).contains(e),
    decreases subgraphs.len(),
{
    let before = subgraphs.drop_last();
    let head = identity_errors(before);
    let tail = identity_errors_of(before, subgraphs.last());
    if i == before.len() {
        assert(subgraphs.take(i) =~= before);
        let k = choose|k: int| 0 <= k < tail.len() && tail[k] == e;
        assert((head + tail)[head.len() + k] == e);
    } else {
        assert(before.take(i) =~= subgraphs.take(i));
        identity_error_is_reported(before, i, e);
        let k = choose|k: int| 0 <= k < head.len() && head[k] == e;
        assert((head + tail)[k] == e);
    }
}

/// One more subgraph adds at most one error to those for names and URLs: one where an earlier
/// subgraph has its name, and otherwise one where its URL starts with neither protocol.
pub proof fn identities_are_judged_one_by_one(
    before: Seq<Subgraph<Validated>>,
    subgraph: Subgraph<Validated>,
)
    ensures
        identity_errors(Seq::empty()).len() == 0,
        identity_errors(before.push(subgraph)) == if exists|k: int|
            0 <= k < before.len() && (#[trigger] before[k]).name@ == subgraph.name@ {
            identity_errors(before).push(
                (ErrorView::InternalError {
                    message: "Duplicate subgraph name: "@ + subgraph.name@,
                }),
            )
        } else if "http://"@.is_prefix_of(subgraph.url@) || "https://"@.is_prefix_of(subgraph.url@) {
            identity_errors(before)
        } else {
            identity_errors(before).push(
                (ErrorView::InternalError {
                    message: "Invalid URL format for subgraph '"@ + subgraph.name@ + "': "@
                        + subgraph.url@ + " (must start with http:// or https://)"@,
                }),
            )
        },
{
    assert(before.push(subgraph).drop_last() =~= before);
}

/// Subgraphs are accepted exactly when there is one; no two have the same name; every URL starts
/// with a protocol; every directive on a type is valid; and any two definitions of one name are the
/// same variant.
pub proof fn subgraphs_are_accepted_iff(subgraphs: Seq<Subgraph<Validated>>)
    ensures
        pre_merge_valid(subgraphs) <==> {
            &&& subgraphs.len() > 0
            &&& forall|i: int, j: int|
                0 <= i < j < subgraphs.len() ==> (#[trigger] subgraphs[i]).name@ != (
                #[trigger] subgraphs[j]).name@
            &&& forall|i: int|
                0 <= i < subgraphs.len() ==> "http://"@.is_prefix_of(
                    (#[trigger] subgraphs[i]).url@,
                ) || "https://"@.is_prefix_of(subgraphs[i].url@)
            &&& key_fields::key_errors(subgraphs).len() == 0
            &&& type_conflicts::conflict_errors(subgraphs).len() == 0
        },
        pre_merge_valid(subgraphs) <==> {
            &&& subgraphs.len() > 0
            &&& identity_errors(subgraphs).len() == 0
            &&& forall|i: int, a: int, d: int|
                0 <= i < subgraphs.len() && 0 <= a < collections::type_entries(
                    subgraphs[i].state.schema.schema.types,
                ).len() && 0 <= d < collections::type_entries(
                    subgraphs[i].state.schema.schema.types,
                )[a].1.directives_spec().len() ==> key_fields::directive_valid(
                    collections::type_entries(subgraphs[i].state.schema.schema.types)[a].1,
                    #[trigger] collections::type_entries(
                        subgraphs[i].state.schema.schema.types,
                    )[a].1.directives_spec()[d],
                )
            &&& forall|
                i: int,
                j: int,
                name: Seq<char>,
                x: schema::ExtendedType,
                y: schema::ExtendedType,
            |
                0 <= i < subgraphs.len() && 0 <= j < subgraphs.len()
                    && #[trigger] collections::type_entries(
                    subgraphs[i].state.schema.schema.types,
                ).contains((name, x)) && #[trigger] collections::type_entries(
                    subgraphs[j].state.schema.schema.types,
                ).contains((name, y)) ==> {
                    ||| x is Scalar && y is Scalar
                    ||| x is Object && y is Object
                    ||| x is Interface && y is Interface
                    ||| x is Union && y is Union
                    ||| x is Enum && y is Enum
                    ||| x is InputObject && y is InputObject
                }
        },
{
    identity_errors_complete(subgraphs);
    key_fields::key_errors_complete(subgraphs);
    key_fields::keys_are_accepted_iff(subgraphs);
    type_conflicts::conflict_errors_complete(subgraphs);
    type_conflicts::no_conflict_iff_same_variants(subgraphs);
    assert(urls_valid(subgraphs) <==> forall|i: int|
        0 <= i < subgraphs.len() ==> "http://"@.is_prefix_of((#[trigger] subgraphs[i]).url@)
            || "https://"@.is_prefix_of(subgraphs[i].url@));
}

/// What is found before the merge, in order: the errors for names and URLs, those for `@key`
/// directives, and those for conflicting definitions. Where there is no subgraph, that is the error.
pub proof fn pre_merge_errors_in_order(subgraphs: Seq<Subgraph<Validated>>)
    ensures
        subgraphs.len() > 0 ==> pre_merge_errors(subgraphs) == identity_errors(subgraphs)
            + key_fields::key_errors(subgraphs) + type_conflicts::conflict_errors(subgraphs),
        subgraphs.len() == 0 ==> pre_merge_errors(subgraphs) == seq![
            ErrorView::InternalError { message: "Cannot compose with empty subgraphs list"@ },
        ],
{
}

} // verus!
