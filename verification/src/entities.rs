//! The checks on the `_Entity` union of a supergraph.

use crate::collections;
use crate::collections::{get_type, iter_names, no_names};
use crate::error;
use crate::error::{report_invalid, CompositionError, ErrorView};
use crate::schema::{ExtendedType, SchemaDocument, UnionType};
use crate::sequences;
use vstd::prelude::*;

verus! {

/// Whether a `@key` directive is applied to the type.
pub open spec fn has_key(ty: ExtendedType) -> bool {
    exists|i: int|
        0 <= i < ty.directives_spec().len() && (#[trigger] ty.directives_spec()[i]).name@ == "key"@
}

/// The error for a union without members.
pub open spec fn entity_without_members() -> ErrorView {
    error::invalid("_Entity union exists but has no members"@)
}

/// The error for a type `_Entity` that is not a union.
pub open spec fn entity_not_union() -> ErrorView {
    error::invalid("_Entity must be a union type"@)
}

/// The error for a member without a `@key`.
pub open spec fn member_without_key(member: Seq<char>) -> ErrorView {
    error::invalid("Type '"@ + member + "' is in _Entity union but has no @key directive"@)
}

/// The error for a member that is not a type of the schema.
pub open spec fn unknown_member(member: Seq<char>) -> ErrorView {
    error::invalid("_Entity union references non-existent type '"@ + member + "'"@)
}

/// The errors for `_Entity` itself: where it exists, it must be a union with members.
pub open spec fn entity_union_errors(schema: SchemaDocument) -> Seq<ErrorView> {
    match schema.type_named("_Entity"@) {
        Some(ExtendedType::Union(entity_union)) => {
            if collections::string_items(entity_union.members).len() == 0 {
                seq![entity_without_members()]
            } else {
                Seq::empty()
            }
        },
        Some(_) => seq![entity_not_union()],
        None => Seq::empty(),
    }
}

/// The errors for one member: it must be a type of the schema, with a `@key`.
pub open spec fn member_errors(schema: SchemaDocument, member: Seq<char>) -> Seq<ErrorView> {
    match schema.type_named(member) {
        Some(ty) => {
            if has_key(ty) {
                Seq::empty()
            } else {
                seq![member_without_key(member)]
            }
        },
        None => seq![unknown_member(member)],
    }
}

/// The errors for all members, in order.
pub open spec fn entity_member_errors(schema: SchemaDocument) -> Seq<ErrorView> {
    match schema.type_named("_Entity"@) {
        Some(ExtendedType::Union(entity_union)) => sequences::concat_map(
            collections::string_items(entity_union.members),
            |member: Seq<char>| member_errors(schema, member),
        ),
        _ => Seq::empty(),
    }
}

/// Whether a `@key` directive is applied to the type.
fn type_has_key(ty: &ExtendedType) -> (r: bool)
    ensures
        r == has_key(*ty),
        r <==> exists|i: int|
            0 <= i < ty.directives_spec().len() && (#[trigger] ty.directives_spec()[i]).name@
                == "key"@,
{
    let key = "key".to_owned();
    let directives = ty.directives();
    let mut i: usize = 0;
    while i < directives.len()
        invariant
            i <= directives@.len(),
            directives@ == ty.directives_spec(),
            key@ == "key"@,
            forall|j: int| 0 <= j < i ==> (#[trigger] ty.directives_spec()[j]).name@ != "key"@,
        decreases directives@.len() - i,
    {
        if directives[i].name == key {
            assert(ty.directives_spec()[i as int].name@ == "key"@);
            return true;
        }
        i = i + 1;
    }
    false
}

/// Checks that `_Entity`, where it exists, is a union with members.
pub fn validate_entity_union(schema: &SchemaDocument, errors: &mut Vec<CompositionError>)
    ensures
        error::error_views(final(errors)@) == error::error_views(old(errors)@)
            + entity_union_errors(*schema),
{
    match get_type(&schema.types, "_Entity") {
        Some(ExtendedType::Union(entity_union)) => {
            if no_names(&entity_union.members) {
                report_invalid(errors, "_Entity union exists but has no members".to_owned());
            }
        },
        Some(_) => {
            report_invalid(errors, "_Entity must be a union type".to_owned());
        },
        None => {},
    }
}

/// Checks that the members of the union `_Entity` exist and have a `@key`.
pub fn validate_entity_consistency(schema: &SchemaDocument, errors: &mut Vec<CompositionError>)
    ensures
        error::error_views(final(errors)@) == error::error_views(old(errors)@)
            + entity_member_errors(*schema),
{
    match get_type(&schema.types, "_Entity") {
        Some(ExtendedType::Union(entity_union)) => {
            let members = iter_names(&entity_union.members);
            let ghost all = collections::string_items(entity_union.members);
            let ghost per_member = |member: Seq<char>| member_errors(*schema, member);
            let mut i: usize = 0;
            while i < members.len()
                invariant
                    i <= members@.len(),
                    members@.len() == all.len(),
                    forall|j: int|
                        0 <= j < members@.len() ==> all[j] == (#[trigger] members@[j])@,
                    per_member == |member: Seq<char>| member_errors(*schema, member),
                    error::error_views(errors@) == error::error_views(old(errors)@)
                        + sequences::concat_map(all.take(i as int), per_member),
                decreases members@.len() - i,
            {
                proof {
                    sequences::lemma_concat_map_take(all, per_member, i as int);
                }
                let member = members[i];
                match get_type(&schema.types, member.as_str()) {
                    Some(ty) => {
                        if !type_has_key(ty) {
                            let mut message = "Type '".to_owned();
                            message.append(member.as_str());
                            message.append("' is in _Entity union but has no @key directive");
                            report_invalid(errors, message);
                        }
                    },
                    None => {
                        let mut message = "_Entity union references non-existent type '".to_owned();
                        message.append(member.as_str());
                        message.append("'");
                        report_invalid(errors, message);
                    },
                }
                i = i + 1;
            }
            assert(all.take(i as int) =~= all);
        },
        _ => {},
    }
}

/// `_Entity` does not exist, or is a union with members, which all exist and have a `@key`.
pub open spec fn entities_valid(schema: SchemaDocument) -> bool {
    match schema.type_named("_Entity"@) {
        Some(ExtendedType::Union(entity_union)) => {
            let members = collections::string_items(entity_union.members);
            &&& members.len() > 0
            &&& forall|i: int|
                0 <= i < members.len() ==> (schema.type_named(#[trigger] members[i]) matches Some(
                    ty,
                ) && has_key(ty))
        },
        Some(_) => false,
        None => true,
    }
}

/// There is no error for `_Entity` and its members exactly when they are as they must be.
pub proof fn entity_errors_complete(schema: SchemaDocument)
    ensures
        entity_union_errors(schema).len() == 0 && entity_member_errors(schema).len() == 0
            <==> entities_valid(schema),
{
    if let Some(ExtendedType::Union(entity_union)) = schema.type_named("_Entity"@) {
        let members = collections::string_items(entity_union.members);
        let per_member = |member: Seq<char>| member_errors(schema, member);
        sequences::lemma_concat_map_empty(members, per_member);
        if entity_member_errors(schema).len() == 0 {
            assert forall|i: int| 0 <= i < members.len() implies (schema.type_named(
                #[trigger] members[i],
            ) matches Some(ty) && has_key(ty)) by {
                assert(per_member(members[i]).len() == 0);
            }
        }
    }
}

/// Every error for a member of the union `_Entity` is reported.
pub proof fn member_error_is_reported(
    schema: SchemaDocument,
    entity_union: UnionType,
    i: int,
    e: ErrorView,
)
    requires
        schema.type_named("_Entity"@) == Some(ExtendedType::Union(entity_union)),
        0 <= i < collections::string_items(entity_union.members).len(),
        member_errors(schema, collections::string_items(entity_union.members)[i]).contains(e),
    ensures
        entity_member_errors(schema).contains(e),
{
    sequences::lemma_concat_map_contains(
        collections::string_items(entity_union.members),
        |member: Seq<char>| member_errors(schema, member),
        i,
        e,
    );
}

/// A member of the union `_Entity` that is a type of the schema gives no error where a directive
/// on it, at whatever place, is named `key`, and one where none is. A member that is no type of the
/// schema gives another.
pub proof fn member_needs_directive_named_key(schema: SchemaDocument, member: Seq<char>)
    requires
        forall|i: int, j: int|
            0 <= i < j < collections::type_entries(schema.types).len() ==> (
            #[trigger] collections::type_entries(schema.types)[i]).0 != (
            #[trigger] collections::type_entries(schema.types)[j]).0,
    ensures
        forall|t: int|
            0 <= t < collections::type_entries(schema.types).len() && (
            #[trigger] collections::type_entries(schema.types)[t]).0 == member ==> {
                let directives = collections::type_entries(schema.types)[t].1.directives_spec();
                &&& (forall|d: int|
                    0 <= d < directives.len() ==> (#[trigger] directives[d]).name@ != "key"@)
                    ==> member_errors(schema, member) == seq![
                    ErrorView::TypeDefinitionInvalid {
                        message: "Type '"@ + member
                            + "' is in _Entity union but has no @key directive"@,
                    },
                ]
                &&& (exists|d: int|
                    0 <= d < directives.len() && (#[trigger] directives[d]).name@ == "key"@)
                    ==> member_errors(schema, member).len() == 0
            },
        (forall|t: int|
            0 <= t < collections::type_entries(schema.types).len() ==> (
            #[trigger] collections::type_entries(schema.types)[t]).0 != member) ==> member_errors(
            schema,
            member,
        ) == seq![
            ErrorView::TypeDefinitionInvalid {
                message: "_Entity union references non-existent type '"@ + member + "'"@,
            },
        ],
{
    sequences::lookup_finds_first(collections::type_entries(schema.types), member);
}

/// The members of the union `_Entity` are reported one by one, in order: those that are a type of
/// the schema without a directive named `key`, and those that are no type of the schema.
pub proof fn members_are_reported_in_order(
    schema: SchemaDocument,
    e: int,
    entity_union: UnionType,
)
    requires
        forall|i: int, j: int|
            0 <= i < j < collections::type_entries(schema.types).len() ==> (
            #[trigger] collections::type_entries(schema.types)[i]).0 != (
            #[trigger] collections::type_entries(schema.types)[j]).0,
        0 <= e < collections::type_entries(schema.types).len(),
        collections::type_entries(schema.types)[e] == ("_Entity"@, ExtendedType::Union(
            entity_union,
        )),
    ensures
        entity_member_errors(schema) == collections::string_items(entity_union.members).filter(
            |member: Seq<char>|
                !(exists|t: int, d: int|
                    0 <= t < collections::type_entries(schema.types).len()
                        && collections::type_entries(schema.types)[t].0 == member && 0 <= d
                        < collections::type_entries(schema.types)[t].1.directives_spec().len() && (
                    #[trigger] collections::type_entries(schema.types)[t].1.directives_spec()[d]).name@
                        == "key"@),
        ).map_values(
            |member: Seq<char>|
                if exists|t: int|
                    0 <= t < collections::type_entries(schema.types).len() && (
                    #[trigger] collections::type_entries(schema.types)[t]).0 == member {
                    (ErrorView::TypeDefinitionInvalid {
                        message: "Type '"@ + member
                            + "' is in _Entity union but has no @key directive"@,
                    })
                } else {
                    (ErrorView::TypeDefinitionInvalid {
                        message: "_Entity union references non-existent type '"@ + member + "'"@,
                    })
                },
        ),
{
    let entries = collections::type_entries(schema.types);
    let members = collections::string_items(entity_union.members);
    let per_member = |member: Seq<char>| member_errors(schema, member);
    let keep = |member: Seq<char>|
        !(exists|t: int, d: int|
            0 <= t < entries.len() && entries[t].0 == member && 0 <= d
                < entries[t].1.directives_spec().len() && (
            #[trigger] entries[t].1.directives_spec()[d]).name@ == "key"@);
    let g = |member: Seq<char>|
        if exists|t: int| 0 <= t < entries.len() && (#[trigger] entries[t]).0 == member {
            (ErrorView::TypeDefinitionInvalid {
                message: "Type '"@ + member + "' is in _Entity union but has no @key directive"@,
            })
        } else {
            (ErrorView::TypeDefinitionInvalid {
                message: "_Entity union references non-existent type '"@ + member + "'"@,
            })
        };
    sequences::lookup_finds_first(entries, "_Entity"@);
    assert forall|i: int| 0 <= i < members.len() implies #[trigger] per_member(members[i])
        == if keep(members[i]) {
        seq![g(members[i])]
    } else {
        Seq::empty()
    } by {
        member_needs_directive_named_key(schema, members[i]);
        if exists|t: int| 0 <= t < entries.len() && (#[trigger] entries[t]).0 == members[i] {
            let t = choose|t: int| 0 <= t < entries.len() && (#[trigger] entries[t]).0
                == members[i];
            let directives = entries[t].1.directives_spec();
            if exists|d: int|
                0 <= d < directives.len() && (#[trigger] directives[d]).name@ == "key"@ {
                let d = choose|d: int|
                    0 <= d < directives.len() && (#[trigger] directives[d]).name@ == "key"@;
                assert(entries[t].1.directives_spec()[d].name@ == "key"@);
            }
        }
    }
    sequences::concat_map_filters(members, per_member, keep, g);
}

/// `_Entity` itself gives an error exactly where it is a type other than a union, or a union without
/// members.
pub proof fn entity_must_be_union_with_members(schema: SchemaDocument)
    requires
        forall|i: int, j: int|
            0 <= i < j < collections::type_entries(schema.types).len() ==> (
            #[trigger] collections::type_entries(schema.types)[i]).0 != (
            #[trigger] collections::type_entries(schema.types)[j]).0,
    ensures
        (forall|e: int|
            0 <= e < collections::type_entries(schema.types).len() ==> (
            #[trigger] collections::type_entries(schema.types)[e]).0 != "_Entity"@)
            ==> entity_union_errors(schema).len() == 0 && entity_member_errors(schema).len() == 0,
        forall|e: int|
            0 <= e < collections::type_entries(schema.types).len() && (
            #[trigger] collections::type_entries(schema.types)[e]).0 == "_Entity"@
                ==> match collections::type_entries(schema.types)[e].1 {
                ExtendedType::Union(own) => if collections::string_items(own.members).len() > 0 {
                    entity_union_errors(schema).len() == 0
                } else {
                    entity_union_errors(schema) == seq![
                        ErrorView::TypeDefinitionInvalid {
                            message: "_Entity union exists but has no members"@,
                        },
                    ]
                },
                _ => entity_union_errors(schema) == seq![
                    ErrorView::TypeDefinitionInvalid { message: "_Entity must be a union type"@ },
                ] && entity_member_errors(schema).len() == 0,
            },
{
    sequences::lookup_finds_first(collections::type_entries(schema.types), "_Entity"@);
}

/// A member that has a directive named `key` is not reported as having none: such an error is about
/// another member.
pub proof fn member_with_key_is_not_reported(
    schema: SchemaDocument,
    member: Seq<char>,
    t: int,
    d: int,
)
    requires
        forall|i: int, j: int|
            0 <= i < j < collections::type_entries(schema.types).len() ==> (
            #[trigger] collections::type_entries(schema.types)[i]).0 != (
            #[trigger] collections::type_entries(schema.types)[j]).0,
        0 <= t < collections::type_entries(schema.types).len(),
        collections::type_entries(schema.types)[t].0 == member,
        0 <= d < collections::type_entries(schema.types)[t].1.directives_spec().len(),
        collections::type_entries(schema.types)[t].1.directives_spec()[d].name@ == "key"@,
    ensures
        !entity_member_errors(schema).contains(
            (ErrorView::TypeDefinitionInvalid {
                message: "Type '"@ + member + "' is in _Entity union but has no @key directive"@,
            }),
        ),
{
    let e = ErrorView::TypeDefinitionInvalid {
        message: "Type '"@ + member + "' is in _Entity union but has no @key directive"@,
    };
    if entity_member_errors(schema).contains(e) {
        let members = collections::string_items(
            (schema.type_named("_Entity"@)->0)->Union_0.members,
        );
        let per_member = |member: Seq<char>| member_errors(schema, member);
        let i = sequences::lemma_concat_map_source(members, per_member, e);
        let other = members[i];
        member_needs_directive_named_key(schema, other);
        member_needs_directive_named_key(schema, member);
        reveal_strlit("Type '");
        reveal_strlit("_Entity union references non-existent type '");
        let start = "Type '"@;
        let end = "' is in _Entity union but has no @key directive"@;
        let mine = start + member + end;
        assert(mine[0] == 'T');
        let theirs = start + other + end;
        let unknown = "_Entity union references non-existent type '"@ + other + "'"@;
        assert(unknown[0] == '_');
        assert(mine == theirs);
        assert(other.len() == member.len());
        assert forall|k: int| 0 <= k < member.len() implies member[k] == other[k] by {
            assert(mine[start.len() + k] == member[k]);
            assert(theirs[start.len() + k] == other[k]);
        }
        assert(other =~= member);
        assert(member_errors(schema, member).len() == 0);
    }
}

/// `_Entity` and its members are accepted exactly when `_Entity`, where it exists, is a union with
/// members, each of them a type of the schema with a directive named `key`.
pub proof fn entities_are_accepted_iff(schema: SchemaDocument)
    requires
        forall|i: int, j: int|
            0 <= i < j < collections::type_entries(schema.types).len() ==> (
            #[trigger] collections::type_entries(schema.types)[i]).0 != (
            #[trigger] collections::type_entries(schema.types)[j]).0,
    ensures
        entities_valid(schema) <==> {
            &&& forall|e: int|
                0 <= e < collections::type_entries(schema.types).len() && (
                #[trigger] collections::type_entries(schema.types)[e]).0 == "_Entity"@ ==> {
                    &&& collections::type_entries(schema.types)[e].1 matches ExtendedType::Union(
                        own,
                    )
                    &&& collections::string_items(own.members).len() > 0
                    &&& forall|member: Seq<char>| #[trigger]
                        collections::string_items(own.members).contains(member) ==> exists|
                            t: int,
                            d: int,
                        |
                            0 <= t < collections::type_entries(schema.types).len()
                                && collections::type_entries(schema.types)[t].0 == member && 0 <= d
                                < collections::type_entries(
                                schema.types,
                            )[t].1.directives_spec().len() && (#[trigger] collections::type_entries(
                                schema.types,
                            )[t].1.directives_spec()[d]).name@ == "key"@
                }
        },
{
    let entries = collections::type_entries(schema.types);
    sequences::lookup_finds_first(entries, "_Entity"@);
    assert forall|member: Seq<char>| (#[trigger] schema.type_named(member) matches Some(ty)
        && has_key(ty)) <==> exists|t: int, d: int|
        0 <= t < entries.len() && entries[t].0 == member && 0 <= d
            < entries[t].1.directives_spec().len() && (
        #[trigger] entries[t].1.directives_spec()[d]).name@ == "key"@ by {
        sequences::lookup_finds_first(entries, member);
        sequences::lemma_lookup(entries, member);
        if let Some(ty) = schema.type_named(member) {
            if has_key(ty) {
                let t = choose|t: int|
                    0 <= t < entries.len() && #[trigger] entries[t] == (member, ty);
                let d = choose|d: int|
                    0 <= d < ty.directives_spec().len() && (
                    #[trigger] ty.directives_spec()[d]).name@ == "key"@;
                assert(entries[t].1.directives_spec()[d].name@ == "key"@);
            }
        }
    }
    if let Some(ty) = schema.type_named("_Entity"@) {
        sequences::lemma_lookup(entries, "_Entity"@);
        let e = choose|e: int| 0 <= e < entries.len() && #[trigger] entries[e] == ("_Entity"@, ty);
        assert forall|k: int| 0 <= k < entries.len() && (#[trigger] entries[k]).0
            == "_Entity"@ implies k == e by {
            assert(entries[e].0 == "_Entity"@);
        }
        if let ExtendedType::Union(own) = ty {
            let members = collections::string_items(own.members);
            assert forall|m: int| 0 <= m < members.len() implies members.contains(
                #[trigger] members[m],
            ) by {}
            if entities_valid(schema) {
                assert forall|member: Seq<char>| #[trigger]
                    members.contains(member) implies exists|t: int, d: int|
                    0 <= t < entries.len() && entries[t].0 == member && 0 <= d
                        < entries[t].1.directives_spec().len() && (
                    #[trigger] entries[t].1.directives_spec()[d]).name@ == "key"@ by {
                    let m = choose|m: int| 0 <= m < members.len() && members[m] == member;
                    assert(schema.type_named(members[m]) is Some);
                }
            }
        }
    }
}

} // verus!
