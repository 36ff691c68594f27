//! The insertion-ordered collections that schemas are made of.
//!
//! They come from the `indexmap` crate, with the hasher that `apollo_compiler` gives them. A
//! specification speaks of what a collection holds through the functions of this module that
//! list its entries in order. Each function that reads a collection is believed, not proved, to
//! agree with that list.

use crate::schema::{ExtendedType, FieldDefinition, InputValueDefinition};
use crate::sequences;
use apollo_compiler::collections::{IndexMap, IndexSet};
use vstd::prelude::*;

verus! {

/// `indexmap::IndexMap`, the insertion-ordered map.
#[verifier::external_type_specification]
#[verifier::external_body]
#[verifier::reject_recursive_types(K)]
#[verifier::reject_recursive_types(V)]
#[verifier::reject_recursive_types(S)]
pub struct ExIndexMap<K, V, S>(indexmap::IndexMap<K, V, S>);

/// `indexmap::IndexSet`, the insertion-ordered set.
#[verifier::external_type_specification]
#[verifier::external_body]
#[verifier::reject_recursive_types(T)]
#[verifier::reject_recursive_types(S)]
pub struct ExIndexSet<T, S>(indexmap::IndexSet<T, S>);

/// `ahash::RandomState`, the hasher of those collections.
#[verifier::external_type_specification]
#[verifier::external_body]
pub struct ExRandomState(ahash::RandomState);

/// `apollo_compiler::Schema`, a schema that is carried along.
#[verifier::external_type_specification]
#[verifier::external_body]
pub struct ExSchema(apollo_compiler::Schema);

/// What a map of types holds, in order.
pub uninterp spec fn type_entries(types: IndexMap<String, ExtendedType>) -> Seq<
    (Seq<char>, ExtendedType),
>;

/// What a map of fields holds, in order.
pub uninterp spec fn field_entries(fields: IndexMap<String, FieldDefinition>) -> Seq<
    (Seq<char>, FieldDefinition),
>;

/// What a map of input fields holds, in order.
pub uninterp spec fn input_field_entries(fields: IndexMap<String, InputValueDefinition>) -> Seq<
    (Seq<char>, InputValueDefinition),
>;

/// What a set of names holds, in order.
pub uninterp spec fn string_items(names: IndexSet<String>) -> Seq<Seq<char>>;

/// Calls `indexmap::IndexMap::get`: the value whose key equals `name`, if there is one. A map has
/// at most one entry for a key, so that it is the first one.
#[verifier::external_body]
pub(crate) fn get_type<'a>(types: &'a IndexMap<String, ExtendedType>, name: &str) -> (r: Option<
    &'a ExtendedType,
>)
    ensures
        match r {
            Some(value) => sequences::lookup(type_entries(*types), name@) == Some(*value),
            None => sequences::lookup(type_entries(*types), name@) is None,
        },
{
    types.get(name)
}

/// Calls `indexmap::IndexMap::get`: the value whose key equals `name`, if there is one. A map has
/// at most one entry for a key, so that it is the first one.
#[verifier::external_body]
pub(crate) fn get_field<'a>(
    fields: &'a IndexMap<String, FieldDefinition>,
    name: &str,
) -> (r: Option<&'a FieldDefinition>)
    ensures
        match r {
            Some(value) => sequences::lookup(field_entries(*fields), name@) == Some(*value),
            None => sequences::lookup(field_entries(*fields), name@) is None,
        },
{
    fields.get(name)
}

/// Calls `indexmap::IndexMap::iter`: every key with its value, in insertion order. No key
/// occurs twice.
#[verifier::external_body]
pub(crate) fn iter_types<'a>(types: &'a IndexMap<String, ExtendedType>) -> (r: Vec<
    (&'a String, &'a ExtendedType),
>)
    ensures
        r@.len() == type_entries(*types).len(),
        forall|i: int|
            0 <= i < r@.len() ==> type_entries(*types)[i] == ((#[trigger] r@[i]).0@, *r@[i].1),
        forall|i: int, j: int|
            0 <= i < j < r@.len() ==> (#[trigger] r@[i]).0@ != (#[trigger] r@[j]).0@,
{
    types.iter().collect()
}

/// Calls `indexmap::IndexMap::iter`: every key with its value, in insertion order. No key
/// occurs twice.
#[verifier::external_body]
pub(crate) fn iter_fields<'a>(fields: &'a IndexMap<String, FieldDefinition>) -> (r: Vec<
    (&'a String, &'a FieldDefinition),
>)
    ensures
        r@.len() == field_entries(*fields).len(),
        forall|i: int|
            0 <= i < r@.len() ==> field_entries(*fields)[i] == ((#[trigger] r@[i]).0@, *r@[i].1),
        forall|i: int, j: int|
            0 <= i < j < r@.len() ==> (#[trigger] r@[i]).0@ != (#[trigger] r@[j]).0@,
{
    fields.iter().collect()
}

/// Calls `indexmap::IndexMap::iter`: every key with its value, in insertion order. No key
/// occurs twice.
#[verifier::external_body]
pub(crate) fn iter_input_fields<'a>(fields: &'a IndexMap<String, InputValueDefinition>) -> (r: Vec<
    (&'a String, &'a InputValueDefinition),
>)
    ensures
        r@.len() == input_field_entries(*fields).len(),
        forall|i: int|
            0 <= i < r@.len() ==> input_field_entries(*fields)[i] == (
                (#[trigger] r@[i]).0@,
                *r@[i].1,
            ),
        forall|i: int, j: int|
            0 <= i < j < r@.len() ==> (#[trigger] r@[i]).0@ != (#[trigger] r@[j]).0@,
{
    fields.iter().collect()
}

/// Calls `indexmap::IndexSet::iter`: every name, in insertion order. No name occurs twice.
#[verifier::external_body]
pub(crate) fn iter_names<'a>(names: &'a IndexSet<String>) -> (r: Vec<&'a String>)
    ensures
        r@.len() == string_items(*names).len(),
        forall|i: int| 0 <= i < r@.len() ==> string_items(*names)[i] == (#[trigger] r@[i])@,
        forall|i: int, j: int|
            0 <= i < j < r@.len() ==> (#[trigger] r@[i])@ != (#[trigger] r@[j])@,
{
    names.iter().collect()
}

/// Calls `indexmap::IndexSet::is_empty`: whether the set holds no name.
#[verifier::external_body]
pub(crate) fn no_names(names: &IndexSet<String>) -> (r: bool)
    ensures
        r == (string_items(*names).len() == 0),
{
    names.is_empty()
}

} // verus!
