//! The check that `@key` directives refer to fields of their type.

use crate::collections;
use crate::collections::{get_field, iter_types};
use crate::error;
use crate::error::{report_invalid, CompositionError, ErrorView};
use crate::schema;
use crate::schema::{Directive, ExtendedType, FieldDefinition, Value};
use crate::sequences;
use crate::subgraph::{Subgraph, Validated};
use crate::text;
use crate::text::{split_words, trim_field_set_marks};
use apollo_compiler::collections::IndexMap;
use vstd::prelude::*;

verus! {

/// The error for a `@key` without the argument `fields`.
pub open spec fn missing_fields(subgraph: Seq<char>, on_type: Seq<char>) -> ErrorView {
    error::invalid(
        "Subgraph '"@ + subgraph + "': @key directive on type '"@ + on_type
            + "' is missing 'fields' argument"@,
    )
}

/// The error for a `@key` whose argument `fields` is not a string.
pub open spec fn fields_not_string(subgraph: Seq<char>, on_type: Seq<char>) -> ErrorView {
    error::invalid(
        "Subgraph '"@ + subgraph + "': @key directive on type '"@ + on_type
            + "' has invalid 'fields' argument (must be a string)"@,
    )
}

/// The error for a `@key` on a type that has no fields to refer to.
pub open spec fn misplaced_key(subgraph: Seq<char>, on_type: Seq<char>) -> ErrorView {
    error::invalid(
        "Subgraph '"@ + subgraph
            + "': @key directive can only be applied to object or interface types, but found on '"@
            + on_type + "'"@,
    )
}

/// The error for a `@key` that refers to `field`, which the type does not have.
pub open spec fn unknown_field(
    subgraph: Seq<char>,
    on_type: Seq<char>,
    field: Seq<char>,
) -> ErrorView {
    error::invalid(
        "Subgraph '"@ + subgraph + "': @key directive on type '"@ + on_type
            + "' references non-existent field '"@ + field + "'"@,
    )
}

/// The errors for one word of a field set. A word of nothing but braces and quotes names no field.
pub open spec fn word_errors(
    subgraph: Seq<char>,
    on_type: Seq<char>,
    fields: Seq<(Seq<char>, FieldDefinition)>,
    word: Seq<char>,
) -> Seq<ErrorView> {
    let field = text::trim_marks(word);
    if field.len() == 0 || sequences::lookup(fields, field) is Some {
        Seq::empty()
    } else {
        seq![unknown_field(subgraph, on_type, field)]
    }
}

/// The errors for a field set: one for each word that names a field which is not in `fields`.
pub open spec fn field_set_errors(
    subgraph: Seq<char>,
    on_type: Seq<char>,
    field_set: Seq<char>,
    fields: Seq<(Seq<char>, FieldDefinition)>,
) -> Seq<ErrorView> {
    sequences::concat_map(
        text::words(field_set),
        |word: Seq<char>| word_errors(subgraph, on_type, fields, word),
    )
}

/// The errors for one directive on a type.
pub open spec fn directive_errors(
    subgraph: Seq<char>,
    entry: (Seq<char>, ExtendedType),
    directive: Directive,
) -> Seq<ErrorView> {
    if directive.name@ != "key"@ {
        Seq::empty()
    } else {
        match schema::first_argument(directive.arguments@, "fields"@) {
            None => seq![missing_fields(subgraph, entry.0)],
            Some(Value::NotString) => seq![fields_not_string(subgraph, entry.0)],
            Some(Value::String(field_set)) => match entry.1 {
                ExtendedType::Object(ty) => field_set_errors(
                    subgraph,
                    entry.0,
                    field_set@,
                    collections::field_entries(ty.fields),
                ),
                ExtendedType::Interface(ty) => field_set_errors(
                    subgraph,
                    entry.0,
                    field_set@,
                    collections::field_entries(ty.fields),
                ),
                _ => seq![misplaced_key(subgraph, entry.0)],
            },
        }
    }
}

/// The errors for the `@key` directives of one type.
pub open spec fn type_key_errors(subgraph: Seq<char>, entry: (Seq<char>, ExtendedType)) -> Seq<
    ErrorView,
> {
    sequences::concat_map(
        entry.1.directives_spec(),
        |directive: Directive| directive_errors(subgraph, entry, directive),
    )
}

/// The errors for the `@key` directives of one subgraph.
pub open spec fn subgraph_key_errors(subgraph: Subgraph<Validated>) -> Seq<ErrorView> {
    sequences::concat_map(
        subgraph.entries(),
        |entry: (Seq<char>, ExtendedType)| type_key_errors(subgraph.name@, entry),
    )
}

/// The errors for the `@key` directives of all subgraphs.
pub open spec fn key_errors(subgraphs: Seq<Subgraph<Validated>>) -> Seq<ErrorView> {
    sequences::concat_map(
        subgraphs,
        |subgraph: Subgraph<Validated>| subgraph_key_errors(subgraph),
    )
}

/// Checks that each word of `field_set` names a field of `fields`.
///
/// Field sets like `id` or `id name` are meant. Braces and quotes around a word are dropped; the
/// fields of a nested selection are looked up in `fields` too.
pub fn validate_key_field_set(
    subgraph_name: &str,
    on_type: &str,
    field_set: &str,
    fields: &IndexMap<String, FieldDefinition>,
    errors: &mut Vec<CompositionError>,
)
    ensures
        error::error_views(final(errors)@) == error::error_views(old(errors)@) + field_set_errors(
            subgraph_name@,
            on_type@,
            field_set@,
            collections::field_entries(*fields),
        ),
{
    let words = split_words(field_set);
    let ghost entries = collections::field_entries(*fields);
    let ghost per_word = |word: Seq<char>|
        word_errors(subgraph_name@, on_type@, entries, word);
    let ghost all = text::words(field_set@);
    let mut i: usize = 0;
    while i < words.len()
        invariant
            i <= words@.len(),
            all == text::str_views(words@),
            entries == collections::field_entries(*fields),
            per_word == |word: Seq<char>| word_errors(subgraph_name@, on_type@, entries, word),
            error::error_views(errors@) == error::error_views(old(errors)@)
                + sequences::concat_map(all.take(i as int), per_word),
        decreases words@.len() - i,
    {
        proof {
            sequences::lemma_concat_map_take(all, per_word, i as int);
            assert(all[i as int] == words@[i as int]@);
        }
        let field = trim_field_set_marks(words[i]);
        if !field.is_empty() {
            if get_field(fields, field).is_none() {
                let mut message = "Subgraph '".to_owned();
                message.append(subgraph_name);
                message.append("': @key directive on type '");
                message.append(on_type);
                message.append("' references non-existent field '");
                message.append(field);
                message.append("'");
                report_invalid(errors, message);
            }
        }
        i = i + 1;
    }
    assert(all.take(i as int) =~= all);
}

/// Checks one `@key` directive of the type named `on_type`.
fn validate_key_directive(
    subgraph_name: &str,
    on_type: &str,
    ty: &ExtendedType,
    directive: &Directive,
    errors: &mut Vec<CompositionError>,
)
    requires
        directive.name@ == "key"@,
    ensures
        error::error_views(final(errors)@) == error::error_views(old(errors)@) + directive_errors(
            subgraph_name@,
            (on_type@, *ty),
            *directive,
        ),
{
    match directive.specified_argument_by_name("fields") {
        None => {
            let mut message = "Subgraph '".to_owned();
            message.append(subgraph_name);
            message.append("': @key directive on type '");
            message.append(on_type);
            message.append("' is missing 'fields' argument");
            report_invalid(errors, message);
        },
        Some(Value::String(field_set)) => match ty {
            ExtendedType::Object(object) => {
                validate_key_field_set(
                    subgraph_name,
                    on_type,
                    field_set.as_str(),
                    &object.fields,
                    errors,
                );
            },
            ExtendedType::Interface(interface) => {
                validate_key_field_set(
                    subgraph_name,
                    on_type,
                    field_set.as_str(),
                    &interface.fields,
                    errors,
                );
            },
            _ => {
                let mut message = "Subgraph '".to_owned();
                message.append(subgraph_name);
                message.append(
                    "': @key directive can only be applied to object or interface types, but found on '",
                );
                message.append(on_type);
                message.append("'");
                report_invalid(errors, message);
            },
        },
        Some(Value::NotString) => {
            let mut message = "Subgraph '".to_owned();
            message.append(subgraph_name);
            message.append("': @key directive on type '");
            message.append(on_type);
            message.append("' has invalid 'fields' argument (must be a string)");
            report_invalid(errors, message);
        },
    }
}

/// Checks the `@key` directives of the type named `on_type`.
fn validate_type_keys(
    subgraph_name: &str,
    on_type: &str,
    ty: &ExtendedType,
    errors: &mut Vec<CompositionError>,
)
    ensures
        error::error_views(final(errors)@) == error::error_views(old(errors)@) + type_key_errors(
            subgraph_name@,
            (on_type@, *ty),
        ),
{
    let key = "key".to_owned();
    let directives = ty.directives();
    let ghost per_directive = |directive: Directive|
        directive_errors(subgraph_name@, (on_type@, *ty), directive);
    let mut i: usize = 0;
    while i < directives.len()
        invariant
            i <= directives@.len(),
            key@ == "key"@,
            per_directive == |directive: Directive|
                directive_errors(subgraph_name@, (on_type@, *ty), directive),
            error::error_views(errors@) == error::error_views(old(errors)@)
                + sequences::concat_map(directives@.take(i as int), per_directive),
        decreases directives@.len() - i,
    {
        proof {
            sequences::lemma_concat_map_take(directives@, per_directive, i as int);
        }
        if directives[i].name == key {
            validate_key_directive(subgraph_name, on_type, ty, &directives[i], errors);
        }
        i = i + 1;
    }
    assert(directives@.take(i as int) =~= directives@);
}

/// Checks the `@key` directives of one subgraph.
fn validate_subgraph_keys(subgraph: &Subgraph<Validated>, errors: &mut Vec<CompositionError>)
    ensures
        error::error_views(final(errors)@) == error::error_views(old(errors)@)
            + subgraph_key_errors(*subgraph),
{
    let types = iter_types(&subgraph.schema().schema().types);
    let ghost entries = subgraph.entries();
    let ghost per_type = |entry: (Seq<char>, ExtendedType)|
        type_key_errors(subgraph.name@, entry);
    let mut i: usize = 0;
    while i < types.len()
        invariant
            i <= types@.len(),
            types@.len() == entries.len(),
            forall|j: int|
                0 <= j < types@.len() ==> entries[j] == ((#[trigger] types@[j]).0@, *types@[j].1),
            per_type == |entry: (Seq<char>, ExtendedType)|
                type_key_errors(subgraph.name@, entry),
            error::error_views(errors@) == error::error_views(old(errors)@)
                + sequences::concat_map(entries.take(i as int), per_type),
        decreases types@.len() - i,
    {
        proof {
            sequences::lemma_concat_map_take(entries, per_type, i as int);
        }
        let (name, ty) = types[i];
        validate_type_keys(subgraph.name.as_str(), name.as_str(), ty, errors);
        i = i + 1;
    }
    assert(entries.take(i as int) =~= entries);
}

/// Checks that the `@key` directives of all subgraphs refer to fields that exist.
pub fn validate_key_fields_across_subgraphs(
    subgraphs: &[Subgraph<Validated>],
    errors: &mut Vec<CompositionError>,
)
    ensures
        error::error_views(final(errors)@) == error::error_views(old(errors)@) + key_errors(
            subgraphs@,
        ),
{
    let ghost per_subgraph = |subgraph: Subgraph<Validated>| subgraph_key_errors(subgraph);
    let mut i: usize = 0;
    while i < subgraphs.len()
        invariant
            i <= subgraphs@.len(),
            per_subgraph == |subgraph: Subgraph<Validated>| subgraph_key_errors(subgraph),
            error::error_views(errors@) == error::error_views(old(errors)@)
                + sequences::concat_map(subgraphs@.take(i as int), per_subgraph),
        decreases subgraphs@.len() - i,
    {
        proof {
            sequences::lemma_concat_map_take(subgraphs@, per_subgraph, i as int);
        }
        validate_subgraph_keys(&subgraphs[i], errors);
        i = i + 1;
    }
    assert(subgraphs@.take(i as int) =~= subgraphs@);
}

/// Every word of `field_set` that names a field names one of `fields`.
pub open spec fn field_set_valid(
    field_set: Seq<char>,
    fields: Seq<(Seq<char>, FieldDefinition)>,
) -> bool {
    forall|i: int|
        0 <= i < text::words(field_set).len() ==> {
            let field = text::trim_marks(#[trigger] text::words(field_set)[i]);
            field.len() == 0 || sequences::lookup(fields, field) is Some
        }
}

/// The directive is not `@key`, or it is a `@key` with a valid field set on an object or interface
/// type.
pub open spec fn directive_valid(ty: ExtendedType, directive: Directive) -> bool {
    directive.name@ == "key"@ ==> match schema::first_argument(directive.arguments@, "fields"@) {
        Some(Value::String(field_set)) => match ty {
            ExtendedType::Object(object) => field_set_valid(
                field_set@,
                collections::field_entries(object.fields),
            ),
            ExtendedType::Interface(interface) => field_set_valid(
                field_set@,
                collections::field_entries(interface.fields),
            ),
            _ => false,
        },
        _ => false,
    }
}

/// Every directive of the type is valid.
pub open spec fn type_keys_valid(ty: ExtendedType) -> bool {
    forall|i: int|
        0 <= i < ty.directives_spec().len() ==> directive_valid(
            ty,
            #[trigger] ty.directives_spec()[i],
        )
}

/// Every directive on a type of the subgraph is valid.
pub open spec fn subgraph_keys_valid(subgraph: Subgraph<Validated>) -> bool {
    forall|i: int|
        0 <= i < subgraph.entries().len() ==> type_keys_valid((#[trigger] subgraph.entries()[i]).1)
}

/// Every directive on a type of a subgraph is valid.
pub open spec fn keys_valid(subgraphs: Seq<Subgraph<Validated>>) -> bool {
    forall|i: int| 0 <= i < subgraphs.len() ==> subgraph_keys_valid(#[trigger] subgraphs[i])
}

/// There is no error for a field set exactly when it is valid.
pub proof fn field_set_errors_complete(
    subgraph: Seq<char>,
    on_type: Seq<char>,
    field_set: Seq<char>,
    fields: Seq<(Seq<char>, FieldDefinition)>,
)
    ensures
        field_set_errors(subgraph, on_type, field_set, fields).len() == 0 <==> field_set_valid(
            field_set,
            fields,
        ),
{
    let per_word = |word: Seq<char>| word_errors(subgraph, on_type, fields, word);
    let words = text::words(field_set);
    sequences::lemma_concat_map_empty(words, per_word);
    assert forall|i: int| 0 <= i < words.len() implies #[trigger] per_word(words[i])
        == word_errors(subgraph, on_type, fields, words[i]) by {}
    if field_set_valid(field_set, fields) {
        assert forall|i: int| 0 <= i < words.len() implies (#[trigger] per_word(words[i])).len()
            == 0 by {}
    }
    if field_set_errors(subgraph, on_type, field_set, fields).len() == 0 {
        assert forall|i: int| 0 <= i < words.len() implies ({
            let field = text::trim_marks(#[trigger] text::words(field_set)[i]);
            field.len() == 0 || sequences::lookup(fields, field) is Some
        }) by {
            assert(per_word(words[i]).len() == 0);
        }
    }
}

/// There is no error for a directive exactly when it is valid.
pub proof fn directive_errors_complete(
    subgraph: Seq<char>,
    entry: (Seq<char>, ExtendedType),
    directive: Directive,
)
    ensures
        directive_errors(subgraph, entry, directive).len() == 0 <==> directive_valid(
            entry.1,
            directive,
        ),
{
    if directive.name@ == "key"@ {
        if let Some(Value::String(field_set)) = schema::first_argument(
            directive.arguments@,
            "fields"@,
        ) {
            match entry.1 {
                ExtendedType::Object(object) => field_set_errors_complete(
                    subgraph,
                    entry.0,
                    field_set@,
                    collections::field_entries(object.fields),
                ),
                ExtendedType::Interface(interface) => field_set_errors_complete(
                    subgraph,
                    entry.0,
                    field_set@,
                    collections::field_entries(interface.fields),
                ),
                _ => {},
            }
        }
    }
}

/// There is no error for a type exactly when its directives are valid.
pub proof fn type_key_errors_complete(subgraph: Seq<char>, entry: (Seq<char>, ExtendedType))
    ensures
        type_key_errors(subgraph, entry).len() == 0 <==> type_keys_valid(entry.1),
{
    let per_directive = |directive: Directive| directive_errors(subgraph, entry, directive);
    let directives = entry.1.directives_spec();
    sequences::lemma_concat_map_empty(directives, per_directive);
    assert forall|i: int| 0 <= i < directives.len() implies ((#[trigger] per_directive(
        directives[i],
    )).len() == 0 <==> directive_valid(entry.1, directives[i])) by {
        directive_errors_complete(subgraph, entry, directives[i]);
    }
    if type_key_errors(subgraph, entry).len() == 0 {
        assert forall|i: int| 0 <= i < directives.len() implies directive_valid(
            entry.1,
            #[trigger] entry.1.directives_spec()[i],
        ) by {
            assert(per_directive(directives[i]).len() == 0);
        }
    }
}

/// There is no error for a subgraph exactly when the directives on its types are valid.
pub proof fn subgraph_key_errors_complete(subgraph: Subgraph<Validated>)
    ensures
        subgraph_key_errors(subgraph).len() == 0 <==> subgraph_keys_valid(subgraph),
{
    let per_type = |entry: (Seq<char>, ExtendedType)| type_key_errors(subgraph.name@, entry);
    let entries = subgraph.entries();
    sequences::lemma_concat_map_empty(entries, per_type);
    assert forall|i: int| 0 <= i < entries.len() implies ((#[trigger] per_type(entries[i])).len()
        == 0 <==> type_keys_valid(entries[i].1)) by {
        type_key_errors_complete(subgraph.name@, entries[i]);
    }
    if subgraph_key_errors(subgraph).len() == 0 {
        assert forall|i: int| 0 <= i < entries.len() implies type_keys_valid(
            (#[trigger] subgraph.entries()[i]).1,
        ) by {
            assert(per_type(entries[i]).len() == 0);
        }
    }
}

/// There is no error for `@key` directives exactly when all of them are valid.
pub proof fn key_errors_complete(subgraphs: Seq<Subgraph<Validated>>)
    ensures
        key_errors(subgraphs).len() == 0 <==> keys_valid(subgraphs),
{
    let per_subgraph = |subgraph: Subgraph<Validated>| subgraph_key_errors(subgraph);
    sequences::lemma_concat_map_empty(subgraphs, per_subgraph);
    assert forall|i: int| 0 <= i < subgraphs.len() implies ((#[trigger] per_subgraph(
        subgraphs[i],
    )).len() == 0 <==> subgraph_keys_valid(subgraphs[i])) by {
        subgraph_key_errors_complete(subgraphs[i]);
    }
    if key_errors(subgraphs).len() == 0 {
        assert forall|i: int| 0 <= i < subgraphs.len() implies subgraph_keys_valid(
            #[trigger] subgraphs[i],
        ) by {
            assert(per_subgraph(subgraphs[i]).len() == 0);
        }
    }
}

/// Field sets with white space between them have the errors of the one and then of the other.
pub proof fn field_sets_side_by_side(
    subgraph: Seq<char>,
    on_type: Seq<char>,
    a: Seq<char>,
    c: char,
    b: Seq<char>,
    fields: Seq<(Seq<char>, FieldDefinition)>,
)
    requires
        text::is_white_space(c),
    ensures
        field_set_errors(subgraph, on_type, a.push(c) + b, fields) == field_set_errors(
            subgraph,
            on_type,
            a,
            fields,
        ) + field_set_errors(subgraph, on_type, b, fields),
{
    text::white_space_parts_words(a, c, b);
    sequences::lemma_concat_map_add(
        text::words(a),
        text::words(b),
        |word: Seq<char>| word_errors(subgraph, on_type, fields, word),
    );
}

/// Every error for a directive on a type of a subgraph is among the errors for all subgraphs.
pub proof fn key_error_is_reported(
    subgraphs: Seq<Subgraph<Validated>>,
    i: int,
    a: int,
    d: int,
    e: ErrorView,
)
    requires
        0 <= i < subgraphs.len(),
        0 <= a < subgraphs[i].entries().len(),
        0 <= d < subgraphs[i].entries()[a].1.directives_spec().len(),
        directive_errors(
            subgraphs[i].name@,
            subgraphs[i].entries()[a],
            subgraphs[i].entries()[a].1.directives_spec()[d],
        ).contains(e),
    ensures
        key_errors(subgraphs).contains(e),
{
    let subgraph = subgraphs[i];
    let entry = subgraph.entries()[a];
    sequences::lemma_concat_map_contains(
        entry.1.directives_spec(),
        |directive: Directive| directive_errors(subgraph.name@, entry, directive),
        d,
        e,
    );
    sequences::lemma_concat_map_contains(
        subgraph.entries(),
        |entry: (Seq<char>, ExtendedType)| type_key_errors(subgraph.name@, entry),
        a,
        e,
    );
    sequences::lemma_concat_map_contains(
        subgraphs,
        |subgraph: Subgraph<Validated>| subgraph_key_errors(subgraph),
        i,
        e,
    );
}

/// What a directive on a type is judged by. One that is not named `key` gives no error. A `@key`
/// none of whose arguments is named `fields` is reported as missing it. Otherwise the first argument
/// of that name, at whatever place, must be a string, the type an object or interface type, and the
/// string names fields of the type.
pub proof fn directive_is_judged_by_its_fields(
    subgraph: Seq<char>,
    on_type: Seq<char>,
    ty: ExtendedType,
    directive: Directive,
)
    ensures
        directive.name@ != "key"@ ==> directive_errors(subgraph, (on_type, ty), directive).len()
            == 0,
        directive.name@ == "key"@ && (forall|k: int|
            0 <= k < directive.arguments@.len() ==> (#[trigger] directive.arguments@[k]).name@
                != "fields"@) ==> directive_errors(subgraph, (on_type, ty), directive) == seq![
            ErrorView::TypeDefinitionInvalid {
                message: "Subgraph '"@ + subgraph + "': @key directive on type '"@ + on_type
                    + "' is missing 'fields' argument"@,
            },
        ],
        forall|k: int|
            directive.name@ == "key"@ && 0 <= k < directive.arguments@.len() && (
            #[trigger] directive.arguments@[k]).name@ == "fields"@ && (forall|m: int|
                0 <= m < k ==> (#[trigger] directive.arguments@[m]).name@ != "fields"@)
                ==> match (directive.arguments@[k].value, ty) {
                (Value::NotString, _) => directive_errors(subgraph, (on_type, ty), directive)
                    == seq![
                    ErrorView::TypeDefinitionInvalid {
                        message: "Subgraph '"@ + subgraph + "': @key directive on type '"@ + on_type
                            + "' has invalid 'fields' argument (must be a string)"@,
                    },
                ],
                (Value::String(field_set), ExtendedType::Object(own)) => directive_errors(
                    subgraph,
                    (on_type, ty),
                    directive,
                ) == field_set_errors(
                    subgraph,
                    on_type,
                    field_set@,
                    collections::field_entries(own.fields),
                ),
                (Value::String(field_set), ExtendedType::Interface(own)) => directive_errors(
                    subgraph,
                    (on_type, ty),
                    directive,
                ) == field_set_errors(
                    subgraph,
                    on_type,
                    field_set@,
                    collections::field_entries(own.fields),
                ),
                (Value::String(field_set), _) => directive_errors(
                    subgraph,
                    (on_type, ty),
                    directive,
                ) == seq![
                    ErrorView::TypeDefinitionInvalid {
                        message: "Subgraph '"@ + subgraph
                            + "': @key directive can only be applied to object or interface types, but found on '"@
                            + on_type + "'"@,
                    },
                ],
            },
{
    schema::argument_is_first_of_its_name(directive.arguments@, "fields"@);
}

/// A directive is accepted exactly when it is not named `key`, or the first argument of it that is
/// named `fields` is a string, on an object or interface type, each word of which, without the marks
/// around it, is empty or the name of a field of the type.
pub proof fn directive_is_accepted_iff(ty: ExtendedType, directive: Directive)
    ensures
        directive_valid(ty, directive) <==> directive.name@ != "key"@ || exists|k: int|
            0 <= k < directive.arguments@.len() && (#[trigger] directive.arguments@[k]).name@
                == "fields"@ && (forall|m: int|
                0 <= m < k ==> (#[trigger] directive.arguments@[m]).name@ != "fields"@)
                && match (directive.arguments@[k].value, ty) {
                (Value::String(field_set), ExtendedType::Object(own)) => forall|w: int|
                    0 <= w < text::words(field_set@).len() ==> {
                        ||| text::trim_marks(#[trigger] text::words(field_set@)[w]).len() == 0
                        ||| exists|f: int|
                            0 <= f < collections::field_entries(own.fields).len() && (
                            #[trigger] collections::field_entries(own.fields)[f]).0
                                == text::trim_marks(text::words(field_set@)[w])
                    },
                (Value::String(field_set), ExtendedType::Interface(own)) => forall|w: int|
                    0 <= w < text::words(field_set@).len() ==> {
                        ||| text::trim_marks(#[trigger] text::words(field_set@)[w]).len() == 0
                        ||| exists|f: int|
                            0 <= f < collections::field_entries(own.fields).len() && (
                            #[trigger] collections::field_entries(own.fields)[f]).0
                                == text::trim_marks(text::words(field_set@)[w])
                    },
                _ => false,
            },
{
    let arguments = directive.arguments@;
    schema::argument_is_first_of_its_name(arguments, "fields"@);
    if directive.name@ == "key"@ && schema::first_argument(arguments, "fields"@) is Some {
        let k = lemma_first_named(arguments, "fields"@);
        assert(schema::first_argument(arguments, "fields"@) == Some(arguments[k].value));
        if let Value::String(field_set) = arguments[k].value {
            match ty {
                ExtendedType::Object(own) => {
                    lemma_field_set_valid_iff(
                        field_set@,
                        collections::field_entries(own.fields),
                    );
                },
                ExtendedType::Interface(own) => {
                    lemma_field_set_valid_iff(
                        field_set@,
                        collections::field_entries(own.fields),
                    );
                },
                _ => {},
            }
        }
    }
}

/// The place of the first argument of a name.
proof fn lemma_first_named(arguments: Seq<schema::Argument>, name: Seq<char>) -> (k: int)
    requires
        exists|i: int| 0 <= i < arguments.len() && (#[trigger] arguments[i]).name@ == name,
    ensures
        0 <= k < arguments.len(),
        arguments[k].name@ == name,
        forall|m: int| 0 <= m < k ==> (#[trigger] arguments[m]).name@ != name,
    decreases arguments.len(),
{
    let i = choose|i: int| 0 <= i < arguments.len() && (#[trigger] arguments[i]).name@ == name;
    let before = arguments.take(i);
    if exists|m: int| 0 <= m < before.len() && (#[trigger] before[m]).name@ == name {
        let k = lemma_first_named(before, name);
        assert(arguments[k] == before[k]);
        assert forall|m: int| 0 <= m < k implies (#[trigger] arguments[m]).name@ != name by {
            assert(before[m] == arguments[m]);
        }
        k
    } else {
        assert forall|m: int| 0 <= m < i implies (#[trigger] arguments[m]).name@ != name by {
            assert(before[m] == arguments[m]);
        }
        i
    }
}

/// A field set is valid exactly when each word of it, without the marks around it, is empty or names
/// a field.
proof fn lemma_field_set_valid_iff(
    field_set: Seq<char>,
    fields: Seq<(Seq<char>, FieldDefinition)>,
)
    ensures
        field_set_valid(field_set, fields) <==> forall|w: int|
            0 <= w < text::words(field_set).len() ==> {
                ||| text::trim_marks(#[trigger] text::words(field_set)[w]).len() == 0
                ||| exists|f: int|
                    0 <= f < fields.len() && (#[trigger] fields[f]).0 == text::trim_marks(
                        text::words(field_set)[w],
                    )
            },
{
    assert forall|w: int| 0 <= w < text::words(field_set).len() implies (sequences::lookup(
        fields,
        text::trim_marks(#[trigger] text::words(field_set)[w]),
    ) is Some <==> exists|f: int|
        0 <= f < fields.len() && (#[trigger] fields[f]).0 == text::trim_marks(
            text::words(field_set)[w],
        )) by {
        sequences::lookup_finds_first(fields, text::trim_marks(text::words(field_set)[w]));
    }
}

/// All `@key` directives of all subgraphs are accepted exactly when each directive on each type of
/// each subgraph is.
pub proof fn keys_are_accepted_iff(subgraphs: Seq<Subgraph<Validated>>)
    ensures
        keys_valid(subgraphs) <==> forall|i: int, a: int, d: int|
            0 <= i < subgraphs.len() && 0 <= a < collections::type_entries(
                subgraphs[i].state.schema.schema.types,
            ).len() && 0 <= d < collections::type_entries(
                subgraphs[i].state.schema.schema.types,
            )[a].1.directives_spec().len() ==> directive_valid(
                collections::type_entries(subgraphs[i].state.schema.schema.types)[a].1,
                #[trigger] collections::type_entries(
                    subgraphs[i].state.schema.schema.types,
                )[a].1.directives_spec()[d],
            ),
{
    if keys_valid(subgraphs) {
        assert forall|i: int, a: int, d: int|
            0 <= i < subgraphs.len() && 0 <= a < collections::type_entries(
                subgraphs[i].state.schema.schema.types,
            ).len() && 0 <= d < collections::type_entries(
                subgraphs[i].state.schema.schema.types,
            )[a].1.directives_spec().len() implies directive_valid(
            collections::type_entries(subgraphs[i].state.schema.schema.types)[a].1,
            #[trigger] collections::type_entries(
                subgraphs[i].state.schema.schema.types,
            )[a].1.directives_spec()[d],
        ) by {
            assert(subgraph_keys_valid(subgraphs[i]));
            assert(type_keys_valid(subgraphs[i].entries()[a].1));
        }
    }
    if forall|i: int, a: int, d: int|
        0 <= i < subgraphs.len() && 0 <= a < collections::type_entries(
            subgraphs[i].state.schema.schema.types,
        ).len() && 0 <= d < collections::type_entries(
            subgraphs[i].state.schema.schema.types,
        )[a].1.directives_spec().len() ==> directive_valid(
            collections::type_entries(subgraphs[i].state.schema.schema.types)[a].1,
            #[trigger] collections::type_entries(
                subgraphs[i].state.schema.schema.types,
            )[a].1.directives_spec()[d],
        ) {
        assert forall|i: int| 0 <= i < subgraphs.len() implies subgraph_keys_valid(
            #[trigger] subgraphs[i],
        ) by {
            assert forall|a: int| 0 <= a < subgraphs[i].entries().len() implies type_keys_valid(
                (#[trigger] subgraphs[i].entries()[a]).1,
            ) by {
                let ty = subgraphs[i].entries()[a].1;
                assert forall|d: int| 0 <= d < ty.directives_spec().len() implies directive_valid(
                    ty,
                    #[trigger] ty.directives_spec()[d],
                ) by {
                    assert(collections::type_entries(
                        subgraphs[i].state.schema.schema.types,
                    )[a].1.directives_spec()[d] == ty.directives_spec()[d]);
                }
            }
        }
    }
}

/// A single word of a field set gives an error exactly when, without the marks around it, it is
/// neither empty nor the name of a field; and an empty field set gives none.
pub proof fn word_must_name_a_field(
    subgraph: Seq<char>,
    on_type: Seq<char>,
    word: Seq<char>,
    fields: Seq<(Seq<char>, FieldDefinition)>,
)
    requires
        word.len() > 0,
        forall|i: int| 0 <= i < word.len() ==> !text::is_white_space(#[trigger] word[i]),
    ensures
        field_set_errors(subgraph, on_type, word, fields) == if text::trim_marks(word).len() == 0
            || exists|f: int|
            0 <= f < fields.len() && (#[trigger] fields[f]).0 == text::trim_marks(word) {
            Seq::empty()
        } else {
            seq![
                ErrorView::TypeDefinitionInvalid {
                    message: "Subgraph '"@ + subgraph + "': @key directive on type '"@ + on_type
                        + "' references non-existent field '"@ + text::trim_marks(word) + "'"@,
                },
            ]
        },
        field_set_errors(subgraph, on_type, Seq::empty(), fields).len() == 0,
{
    let per_word = |word: Seq<char>| word_errors(subgraph, on_type, fields, word);
    text::text_without_white_space_is_word(word);
    text::white_space_parts_words(Seq::empty(), ' ', Seq::empty());
    assert(text::words(word) =~= Seq::<Seq<char>>::empty().push(word));
    sequences::lemma_concat_map_take(text::words(word), per_word, 0);
    assert(text::words(word).take(1) =~= text::words(word));
    assert(sequences::concat_map(text::words(word).take(0), per_word) =~= Seq::empty());
    sequences::lookup_finds_first(fields, text::trim_marks(word));
    assert(field_set_errors(subgraph, on_type, word, fields) =~= per_word(word));
}

/// The errors for `@key` directives come subgraph by subgraph, type by type, directive by directive.
pub proof fn key_errors_come_in_order(
    subgraphs: Seq<Subgraph<Validated>>,
    subgraph: Subgraph<Validated>,
    name: Seq<char>,
    entry: (Seq<char>, ExtendedType),
)
    ensures
        key_errors(subgraphs) == subgraphs.map_values(
            |subgraph: Subgraph<Validated>| subgraph_key_errors(subgraph),
        ).flatten(),
        subgraph_key_errors(subgraph) == collections::type_entries(
            subgraph.state.schema.schema.types,
        ).map_values(
            |entry: (Seq<char>, ExtendedType)| type_key_errors(subgraph.name@, entry),
        ).flatten(),
        type_key_errors(name, entry) == entry.1.directives_spec().map_values(
            |directive: Directive| directive_errors(name, entry, directive),
        ).flatten(),
{
    sequences::concat_map_flattens(
        subgraphs,
        |subgraph: Subgraph<Validated>| subgraph_key_errors(subgraph),
    );
    sequences::concat_map_flattens(
        subgraph.entries(),
        |entry: (Seq<char>, ExtendedType)| type_key_errors(subgraph.name@, entry),
    );
    sequences::concat_map_flattens(
        entry.1.directives_spec(),
        |directive: Directive| directive_errors(name, entry, directive),
    );
}

/// A directive is reported as missing the argument `fields` exactly when it is a `@key` none of
/// whose arguments has that name.
pub proof fn fields_are_missing_iff_no_argument_is_named_so(
    subgraph: Seq<char>,
    on_type: Seq<char>,
    ty: ExtendedType,
    directive: Directive,
)
    ensures
        directive_errors(subgraph, (on_type, ty), directive).contains(
            (ErrorView::TypeDefinitionInvalid {
                message: "Subgraph '"@ + subgraph + "': @key directive on type '"@ + on_type
                    + "' is missing 'fields' argument"@,
            }),
        ) <==> directive.name@ == "key"@ && forall|k: int|
            0 <= k < directive.arguments@.len() ==> (#[trigger] directive.arguments@[k]).name@
                != "fields"@,
{
    let all = directive_errors(subgraph, (on_type, ty), directive);
    let start = "Subgraph '"@ + subgraph + "': @key directive on type '"@ + on_type;
    let e = ErrorView::TypeDefinitionInvalid { message: start + "' is missing 'fields' argument"@ };
    directive_is_judged_by_its_fields(subgraph, on_type, ty, directive);
    if all.contains(e) {
        schema::argument_is_first_of_its_name(directive.arguments@, "fields"@);
        if exists|k: int|
            0 <= k < directive.arguments@.len() && (#[trigger] directive.arguments@[k]).name@
                == "fields"@ {
            let k = lemma_first_named(directive.arguments@, "fields"@);
            assert(directive.arguments@[k].name@ == "fields"@);
            lemma_other_messages(subgraph, on_type, all, e);
        }
    } else {
        assert(directive.name@ == "key"@ && (forall|k: int|
            0 <= k < directive.arguments@.len() ==> (#[trigger] directive.arguments@[k]).name@
                != "fields"@) ==> all[0] == e);
    }
}

/// None of the other errors for a directive has the message for a missing argument.
proof fn lemma_other_messages(
    subgraph: Seq<char>,
    on_type: Seq<char>,
    all: Seq<ErrorView>,
    e: ErrorView,
)
    requires
        e == missing_fields(subgraph, on_type),
        all == seq![fields_not_string(subgraph, on_type)] || all == seq![
            misplaced_key(subgraph, on_type),
        ] || exists|field_set: Seq<char>, fields: Seq<(Seq<char>, FieldDefinition)>|
            all == #[trigger] field_set_errors(subgraph, on_type, field_set, fields),
    ensures
        !all.contains(e),
{
    reveal_strlit("' is missing 'fields' argument");
    reveal_strlit("' has invalid 'fields' argument (must be a string)");
    reveal_strlit("' references non-existent field '");
    reveal_strlit("': @key directive on type '");
    reveal_strlit(
        "': @key directive can only be applied to object or interface types, but found on '",
    );
    let head = "Subgraph '"@ + subgraph;
    let start = head + "': @key directive on type '"@ + on_type;
    let missing = start + "' is missing 'fields' argument"@;
    let not_string = start + "' has invalid 'fields' argument (must be a string)"@;
    let misplaced = head
        + "': @key directive can only be applied to object or interface types, but found on '"@
        + on_type + "'"@;
    let n: int = start.len() as int;
    let h: int = head.len() as int;
    assert(missing[n + 2] == 'i');
    assert(not_string[n + 2] == 'h');
    assert(missing[h + 18] == 'o');
    assert(misplaced[h + 18] == 'c');
    if all.contains(e) {
        let p = choose|p: int| 0 <= p < all.len() && all[p] == e;
        if exists|field_set: Seq<char>, fields: Seq<(Seq<char>, FieldDefinition)>|
            all == #[trigger] field_set_errors(subgraph, on_type, field_set, fields) {
            let (field_set, fields) = choose|
                field_set: Seq<char>,
                fields: Seq<(Seq<char>, FieldDefinition)>,
            |
                all == #[trigger] field_set_errors(subgraph, on_type, field_set, fields);
            let per_word = |word: Seq<char>| word_errors(subgraph, on_type, fields, word);
            let w = sequences::lemma_concat_map_source(text::words(field_set), per_word, e);
            let field = text::trim_marks(text::words(field_set)[w]);
            assert(per_word(text::words(field_set)[w]).contains(e));
            assert(e == unknown_field(subgraph, on_type, field));
            let unknown = start + "' references non-existent field '"@ + field + "'"@;
            assert(unknown[n + 2] == 'r');
        }
    }
}

} // verus!
