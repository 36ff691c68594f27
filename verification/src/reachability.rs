//! The check that every type can be reached from a root type.

use crate::collections;
use crate::collections::{get_type, iter_fields, iter_input_fields, iter_names, iter_types};
use crate::error;
use crate::error::{report_invalid, CompositionError, ErrorView};
use crate::schema::{ExtendedType, FieldDefinition, InputValueDefinition, SchemaDocument};
use crate::sequences;
use crate::text::starts_with;
use apollo_compiler::collections::{IndexMap, IndexSet};
use vstd::hash_set::StringHashSet;
use vstd::prelude::*;

verus! {

/// The types that a field refers to: its own, and then those of its arguments.
pub open spec fn field_references(field: FieldDefinition) -> Seq<Seq<char>> {
    seq![field.ty.inner_name()] + field.arguments@.map_values(
        |argument: InputValueDefinition| argument.ty.inner_name(),
    )
}

/// The types that fields refer to, field by field.
pub open spec fn all_field_references(fields: IndexMap<String, FieldDefinition>) -> Seq<Seq<char>> {
    sequences::concat_map(
        collections::field_entries(fields),
        |entry: (Seq<char>, FieldDefinition)| field_references(entry.1),
    )
}

/// The types that the fields of an input object type refer to.
pub open spec fn input_field_references(fields: IndexMap<String, InputValueDefinition>) -> Seq<
    Seq<char>,
> {
    collections::input_field_entries(fields).map_values(
        |entry: (Seq<char>, InputValueDefinition)| entry.1.ty.inner_name(),
    )
}

/// The types that a type refers to, in order. Enums and scalars refer to none.
pub open spec fn references(ty: ExtendedType) -> Seq<Seq<char>> {
    match ty {
        ExtendedType::Object(object) => collections::string_items(object.implements_interfaces)
            + all_field_references(object.fields),
        ExtendedType::Interface(interface) => collections::string_items(
            interface.implements_interfaces,
        ) + all_field_references(interface.fields),
        ExtendedType::Union(union_type) => collections::string_items(union_type.members),
        ExtendedType::InputObject(input) => input_field_references(input.fields),
        ExtendedType::Enum(_) => Seq::empty(),
        ExtendedType::Scalar(_) => Seq::empty(),
    }
}

/// The name, where there is one.
pub open spec fn optional_name(name: Option<String>) -> Seq<Seq<char>> {
    match name {
        Some(name) => seq![name@],
        None => Seq::empty(),
    }
}

/// The root types of a schema: query, mutation, subscription.
pub open spec fn root_types(schema: SchemaDocument) -> Seq<Seq<char>> {
    optional_name(schema.schema_definition.query) + optional_name(
        schema.schema_definition.mutation,
    ) + optional_name(schema.schema_definition.subscription)
}

/// The schema has a type named `from`, which refers to `to`.
pub open spec fn refers_to(schema: SchemaDocument, from: Seq<char>, to: Seq<char>) -> bool {
    schema.type_named(from) matches Some(ty) && references(ty).contains(to)
}

/// `path` leads from a root type along references.
pub open spec fn is_path(schema: SchemaDocument, path: Seq<Seq<char>>) -> bool {
    &&& path.len() > 0
    &&& root_types(schema).contains(path[0])
    &&& forall|i: int|
        0 <= i < path.len() - 1 ==> refers_to(schema, #[trigger] path[i], path[i + 1])
}

/// A path from a root type leads to `name`.
pub open spec fn is_reachable(schema: SchemaDocument, name: Seq<char>) -> bool {
    exists|path: Seq<Seq<char>>| #[trigger] is_path(schema, path) && path.last() == name
}

/// Whether the name is that of a type which federation adds: `_Entity` and its like, and the types
/// of the `federation`, `link` and `join` specifications.
pub open spec fn is_federation_name(name: Seq<char>) -> bool {
    "_"@.is_prefix_of(name) || "federation__"@.is_prefix_of(name) || "link__"@.is_prefix_of(name)
        || "join__"@.is_prefix_of(name)
}

/// The error for a type that cannot be reached.
pub open spec fn unreachable_type(name: Seq<char>) -> ErrorView {
    error::invalid(
        "Type '"@ + name
            + "' is not reachable from any root type (Query/Mutation/Subscription)"@,
    )
}

/// The errors for one type.
pub open spec fn orphan_errors_of(
    schema: SchemaDocument,
    entry: (Seq<char>, ExtendedType),
) -> Seq<ErrorView> {
    if entry.1.built_in_spec() || is_federation_name(entry.0) || is_reachable(schema, entry.0) {
        Seq::empty()
    } else {
        seq![unreachable_type(entry.0)]
    }
}

/// The errors for all types, in document order.
pub open spec fn orphan_errors(schema: SchemaDocument) -> Seq<ErrorView> {
    sequences::concat_map(
        schema.entries(),
        |entry: (Seq<char>, ExtendedType)| orphan_errors_of(schema, entry),
    )
}

/// How far a traversal has come: the names that were found, and among them, in order, those that
/// are still to be visited.
pub struct Traversal {
    pub found: Set<Seq<char>>,
    pub pending: Seq<Seq<char>>,
}

impl Traversal {
    /// `name` is found. It is to be visited, unless it was found before.
    pub open spec fn find(self, name: Seq<char>) -> Traversal {
        if self.found.contains(name) {
            self
        } else {
            Traversal { found: self.found.insert(name), pending: self.pending.push(name) }
        }
    }

    /// The names are found one after the other.
    pub open spec fn find_all(self, names: Seq<Seq<char>>) -> Traversal
        decreases names.len(),
    {
        if names.len() == 0 {
            self
        } else {
            self.find_all(names.drop_last()).find(names.last())
        }
    }
}

/// The content of each string, in order.
pub open spec fn string_views(strings: Seq<String>) -> Seq<Seq<char>> {
    Seq::new(strings.len(), |i: int| strings[i]@)
}

/// The state of a traversal that is kept in a set and a stack.
pub open spec fn traversal(reachable: StringHashSet, to_visit: Vec<String>) -> Traversal {
    Traversal { found: reachable@, pending: string_views(to_visit@) }
}

/// Finding two lists of names is finding the one and then the other.
proof fn lemma_find_all_add(t: Traversal, a: Seq<Seq<char>>, b: Seq<Seq<char>>)
    ensures
        t.find_all(a + b) == t.find_all(a).find_all(b),
    decreases b.len(),
{
    if b.len() == 0 {
        assert(a + b =~= a);
    } else {
        assert((a + b).drop_last() =~= a + b.drop_last());
        lemma_find_all_add(t, a, b.drop_last());
    }
}

/// Finds a name.
fn find_name(name: &String, reachable: &mut StringHashSet, to_visit: &mut Vec<String>)
    ensures
        traversal(*final(reachable), *final(to_visit)) == traversal(
            *old(reachable),
            *old(to_visit),
        ).find(name@),
{
    let new = reachable.insert(name.clone());
    if new {
        to_visit.push(name.clone());
        assert(string_views(to_visit@) =~= string_views(old(to_visit)@).push(name@));
    } else {
        assert(reachable@ =~= old(reachable)@);
    }
}

/// Finds the names of a set.
fn find_names(
    names: &IndexSet<String>,
    reachable: &mut StringHashSet,
    to_visit: &mut Vec<String>,
)
    ensures
        traversal(*final(reachable), *final(to_visit)) == traversal(
            *old(reachable),
            *old(to_visit),
        ).find_all(collections::string_items(*names)),
{
    let list = iter_names(names);
    let ghost all = collections::string_items(*names);
    let mut i: usize = 0;
    while i < list.len()
        invariant
            i <= list@.len(),
            list@.len() == all.len(),
            forall|j: int| 0 <= j < list@.len() ==> all[j] == (#[trigger] list@[j])@,
            traversal(*reachable, *to_visit) == traversal(
                *old(reachable),
                *old(to_visit),
            ).find_all(all.take(i as int)),
        decreases list@.len() - i,
    {
        assert(all.take(i + 1).drop_last() =~= all.take(i as int));
        find_name(list[i], reachable, to_visit);
        i = i + 1;
    }
    assert(all.take(i as int) =~= all);
}

/// Finds the types that a field refers to.
fn find_field_types(
    field: &FieldDefinition,
    reachable: &mut StringHashSet,
    to_visit: &mut Vec<String>,
)
    ensures
        traversal(*final(reachable), *final(to_visit)) == traversal(
            *old(reachable),
            *old(to_visit),
        ).find_all(field_references(*field)),
{
    let ghost start = traversal(*reachable, *to_visit);
    let ghost all = field_references(*field);
    find_name(field.ty.inner_named_type(), reachable, to_visit);
    proof {
        assert(all.take(1).drop_last() =~= Seq::empty());
        assert(start.find_all(all.take(1).drop_last()) == start);
    }
    let mut i: usize = 0;
    while i < field.arguments.len()
        invariant
            i <= field.arguments@.len(),
            all == field_references(*field),
            start == traversal(*old(reachable), *old(to_visit)),
            traversal(*reachable, *to_visit) == start.find_all(all.take(i + 1)),
        decreases field.arguments@.len() - i,
    {
        assert(all.take(i + 2).drop_last() =~= all.take(i + 1));
        assert(all.take(i + 2).last() == field.arguments@[i as int].ty.inner_name());
        find_name(field.arguments[i].ty.inner_named_type(), reachable, to_visit);
        i = i + 1;
    }
    assert(all.take(i + 1) =~= all);
}

/// Finds the types that fields refer to.
fn find_all_field_types(
    fields: &IndexMap<String, FieldDefinition>,
    reachable: &mut StringHashSet,
    to_visit: &mut Vec<String>,
)
    ensures
        traversal(*final(reachable), *final(to_visit)) == traversal(
            *old(reachable),
            *old(to_visit),
        ).find_all(all_field_references(*fields)),
{
    let list = iter_fields(fields);
    let ghost start = traversal(*reachable, *to_visit);
    let ghost entries = collections::field_entries(*fields);
    let ghost per_field = |entry: (Seq<char>, FieldDefinition)| field_references(entry.1);
    let mut i: usize = 0;
    while i < list.len()
        invariant
            i <= list@.len(),
            list@.len() == entries.len(),
            forall|j: int|
                0 <= j < list@.len() ==> entries[j] == ((#[trigger] list@[j]).0@, *list@[j].1),
            per_field == |entry: (Seq<char>, FieldDefinition)| field_references(entry.1),
            start == traversal(*old(reachable), *old(to_visit)),
            traversal(*reachable, *to_visit) == start.find_all(
                sequences::concat_map(entries.take(i as int), per_field),
            ),
        decreases list@.len() - i,
    {
        proof {
            sequences::lemma_concat_map_take(entries, per_field, i as int);
            lemma_find_all_add(
                start,
                sequences::concat_map(entries.take(i as int), per_field),
                per_field(entries[i as int]),
            );
        }
        find_field_types(list[i].1, reachable, to_visit);
        i = i + 1;
    }
    assert(entries.take(i as int) =~= entries);
}

/// Finds the types that the fields of an input object type refer to.
fn find_input_field_types(
    fields: &IndexMap<String, InputValueDefinition>,
    reachable: &mut StringHashSet,
    to_visit: &mut Vec<String>,
)
    ensures
        traversal(*final(reachable), *final(to_visit)) == traversal(
            *old(reachable),
            *old(to_visit),
        ).find_all(input_field_references(*fields)),
{
    let list = iter_input_fields(fields);
    let ghost all = input_field_references(*fields);
    let ghost entries = collections::input_field_entries(*fields);
    let mut i: usize = 0;
    while i < list.len()
        invariant
            i <= list@.len(),
            list@.len() == entries.len(),
            all == input_field_references(*fields),
            entries == collections::input_field_entries(*fields),
            forall|j: int|
                0 <= j < list@.len() ==> entries[j] == ((#[trigger] list@[j]).0@, *list@[j].1),
            traversal(*reachable, *to_visit) == traversal(
                *old(reachable),
                *old(to_visit),
            ).find_all(all.take(i as int)),
        decreases list@.len() - i,
    {
        assert(all.take(i + 1).drop_last() =~= all.take(i as int));
        assert(all[i as int] == list@[i as int].1.ty.inner_name());
        find_name(list[i].1.ty.inner_named_type(), reachable, to_visit);
        i = i + 1;
    }
    assert(all.take(i as int) =~= all);
}

/// Finds all types that a type refers to: those that were not found before are added to
/// `reachable`, and to `to_visit`.
pub fn collect_referenced_types(
    ty: &ExtendedType,
    reachable: &mut StringHashSet,
    to_visit: &mut Vec<String>,
)
    ensures
        traversal(*final(reachable), *final(to_visit)) == traversal(
            *old(reachable),
            *old(to_visit),
        ).find_all(references(*ty)),
        forall|name: Seq<char>| #[trigger]
            final(reachable)@.contains(name) <==> old(reachable)@.contains(name) || references(
                *ty,
            ).contains(name),
        final(to_visit)@.len() >= old(to_visit)@.len(),
        forall|i: int|
            0 <= i < old(to_visit)@.len() ==> (#[trigger] final(to_visit)@[i])@ == old(
                to_visit,
            )@[i]@,
        forall|i: int|
            old(to_visit)@.len() <= i < final(to_visit)@.len() ==> references(*ty).contains(
                (#[trigger] final(to_visit)@[i])@,
            ) && !old(reachable)@.contains(final(to_visit)@[i]@),
        forall|name: Seq<char>| #[trigger]
            references(*ty).contains(name) && !old(reachable)@.contains(name) ==> exists|i: int|
                old(to_visit)@.len() <= i < final(to_visit)@.len() && (
                #[trigger] final(to_visit)@[i])@ == name,
{
    let ghost start = traversal(*reachable, *to_visit);
    match ty {
        ExtendedType::Object(object) => {
            find_names(&object.implements_interfaces, reachable, to_visit);
            find_all_field_types(&object.fields, reachable, to_visit);
            proof {
                lemma_find_all_add(
                    start,
                    collections::string_items(object.implements_interfaces),
                    all_field_references(object.fields),
                );
            }
        },
        ExtendedType::Interface(interface) => {
            find_names(&interface.implements_interfaces, reachable, to_visit);
            find_all_field_types(&interface.fields, reachable, to_visit);
            proof {
                lemma_find_all_add(
                    start,
                    collections::string_items(interface.implements_interfaces),
                    all_field_references(interface.fields),
                );
            }
        },
        ExtendedType::Union(union_type) => {
            find_names(&union_type.members, reachable, to_visit);
        },
        ExtendedType::InputObject(input) => {
            find_input_field_types(&input.fields, reachable, to_visit);
        },
        ExtendedType::Enum(_) => {},
        ExtendedType::Scalar(_) => {},
    }
    proof {
        let names = references(*ty);
        let end = traversal(*reachable, *to_visit);
        lemma_find_all(start, names);
        lemma_new_names_are_pending(start, names);
        assert forall|name: Seq<char>| #[trigger] reachable@.contains(name) <==> old(
            reachable,
        )@.contains(name) || names.contains(name) by {
            assert(names.to_set().contains(name) <==> names.contains(name));
        }
        assert(end.pending.len() == to_visit@.len() && start.pending.len() == old(to_visit)@.len());
        assert forall|i: int| 0 <= i < old(to_visit)@.len() implies (#[trigger] to_visit@[i])@
            == old(to_visit)@[i]@ by {
            assert(end.pending[i] == start.pending[i]);
        }
        assert forall|i: int| old(to_visit)@.len() <= i < to_visit@.len() implies names.contains(
            (#[trigger] to_visit@[i])@,
        ) && !old(reachable)@.contains(to_visit@[i]@) by {
            assert(end.pending[i] == to_visit@[i]@);
        }
        assert forall|name: Seq<char>| #[trigger] names.contains(name) && !old(
            reachable,
        )@.contains(name) implies exists|i: int|
            old(to_visit)@.len() <= i < to_visit@.len() && (#[trigger] to_visit@[i])@ == name by {
            let i = choose|i: int|
                start.pending.len() <= i < end.pending.len() && #[trigger] end.pending[i] == name;
            assert(to_visit@[i]@ == name);
        }
    }
}

/// What is added to the names that are to be visited: the new ones among those found.
proof fn lemma_new_names_are_pending(t: Traversal, names: Seq<Seq<char>>)
    ensures
        t.pending.is_prefix_of(t.find_all(names).pending),
        forall|i: int|
            t.pending.len() <= i < t.find_all(names).pending.len() ==> names.contains(
                #[trigger] t.find_all(names).pending[i],
            ) && !t.found.contains(t.find_all(names).pending[i]),
        forall|name: Seq<char>| #[trigger]
            names.contains(name) && !t.found.contains(name) ==> exists|i: int|
                t.pending.len() <= i < t.find_all(names).pending.len()
                    && #[trigger] t.find_all(names).pending[i] == name,
    decreases names.len(),
{
    lemma_find_all(t, names);
    if names.len() > 0 {
        let before = names.drop_last();
        let last = names.last();
        let b = t.find_all(before);
        let e = t.find_all(names);
        lemma_find_all(t, before);
        lemma_new_names_are_pending(t, before);
        assert(names[names.len() - 1] == last);
        assert forall|n: Seq<char>| #[trigger] before.contains(n) implies names.contains(n) by {
            let k = choose|k: int| 0 <= k < before.len() && before[k] == n;
            assert(names[k] == n);
        }
        assert forall|i: int| t.pending.len() <= i < e.pending.len() implies names.contains(
            #[trigger] e.pending[i],
        ) && !t.found.contains(e.pending[i]) by {
            if i < b.pending.len() {
                assert(e.pending[i] == b.pending[i]);
                assert(before.contains(b.pending[i]));
            }
        }
        assert forall|name: Seq<char>| #[trigger] names.contains(name) && !t.found.contains(
            name,
        ) implies exists|i: int|
            t.pending.len() <= i < e.pending.len() && #[trigger] e.pending[i] == name by {
            if before.contains(name) {
                let i = choose|i: int|
                    t.pending.len() <= i < b.pending.len() && #[trigger] b.pending[i] == name;
                assert(e.pending[i] == name);
            } else {
                let k = choose|k: int| 0 <= k < names.len() && names[k] == name;
                if k < before.len() {
                    assert(before[k] == name);
                }
                assert(name == last);
                assert(!before.to_set().contains(name));
                assert(e.pending[b.pending.len() as int] == name);
            }
        }
    }
}

/// What finding names does: exactly they are added to the found ones, those to be visited stay,
/// and each name that is new is to be visited.
proof fn lemma_find_all(t: Traversal, names: Seq<Seq<char>>)
    ensures
        t.find_all(names).found == t.found.union(names.to_set()),
        t.pending.is_prefix_of(t.find_all(names).pending),
        forall|n: Seq<char>| #[trigger]
            t.find_all(names).pending.contains(n) <==> (t.pending.contains(n) || (names.contains(n)
                && !t.found.contains(n))),
    decreases names.len(),
{
    if names.len() == 0 {
        assert(names.to_set() =~= Set::empty());
        assert(t.found.union(names.to_set()) =~= t.found);
        assert(t.pending.is_prefix_of(t.pending));
    } else {
        let before = names.drop_last();
        let last = names.last();
        let b = t.find_all(before);
        let e = t.find_all(names);
        lemma_find_all(t, before);
        assert(names =~= before.push(last));
        assert forall|n: Seq<char>| names.contains(n) <==> (before.contains(n) || n == last) by {
            assert(names[before.len() as int] == last);
            if before.contains(n) {
                let k = choose|k: int| 0 <= k < before.len() && before[k] == n;
                assert(names[k] == n);
            }
            if names.contains(n) && n != last {
                let k = choose|k: int| 0 <= k < names.len() && names[k] == n;
                assert(before[k] == n);
            }
        }
        assert(e.found =~= t.found.union(names.to_set()));
        if !b.found.contains(last) {
            assert(e.pending == b.pending.push(last));
            assert(e.pending[b.pending.len() as int] == last);
            assert forall|n: Seq<char>| #[trigger]
                e.pending.contains(n) <==> (b.pending.contains(n) || n == last) by {
                if b.pending.contains(n) {
                    let k = choose|k: int| 0 <= k < b.pending.len() && b.pending[k] == n;
                    assert(e.pending[k] == n);
                }
                if e.pending.contains(n) && n != last {
                    let k = choose|k: int| 0 <= k < e.pending.len() && e.pending[k] == n;
                    assert(b.pending[k] == n);
                }
            }
            assert(t.pending.is_prefix_of(e.pending)) by {
                assert(t.pending =~= e.pending.subrange(0, t.pending.len() as int));
            }
        } else {
            assert(b.found.contains(last));
            assert(t.found.contains(last) || before.contains(last));
        }
    }
}

/// The names that a traversal can find: the root types, and whatever a type refers to.
spec fn universe(schema: SchemaDocument) -> Set<Seq<char>> {
    root_types(schema).to_set().union(
        sequences::concat_map(
            schema.entries(),
            |entry: (Seq<char>, ExtendedType)| references(entry.1),
        ).to_set(),
    )
}

/// Whatever a type refers to can be found.
proof fn lemma_universe(schema: SchemaDocument, from: Seq<char>, to: Seq<char>)
    requires
        refers_to(schema, from, to),
    ensures
        universe(schema).contains(to),
{
    let per_type = |entry: (Seq<char>, ExtendedType)| references(entry.1);
    let ty = schema.type_named(from)->0;
    sequences::lemma_lookup(schema.entries(), from);
    let i = choose|i: int|
        0 <= i < schema.entries().len() && #[trigger] schema.entries()[i] == (from, ty);
    assert(per_type(schema.entries()[i]).contains(to));
    sequences::lemma_concat_map_contains(schema.entries(), per_type, i, to);
}

/// What a reachable type refers to is reachable.
pub proof fn reachable_step(schema: SchemaDocument, from: Seq<char>, to: Seq<char>)
    requires
        is_reachable(schema, from),
        refers_to(schema, from, to),
    ensures
        is_reachable(schema, to),
{
    let path = choose|path: Seq<Seq<char>>| #[trigger]
        is_path(schema, path) && path.last() == from;
    let longer = path.push(to);
    assert forall|i: int| 0 <= i < longer.len() - 1 implies refers_to(
        schema,
        #[trigger] longer[i],
        longer[i + 1],
    ) by {
        assert(longer[i] == path[i]);
        if i + 1 < path.len() {
            assert(longer[i + 1] == path[i + 1]);
        }
    }
    assert(longer[0] == path[0]);
    assert(is_path(schema, longer));
}

/// A root type is reachable.
pub proof fn roots_reachable(schema: SchemaDocument, name: Seq<char>)
    requires
        root_types(schema).contains(name),
    ensures
        is_reachable(schema, name),
{
    let path = seq![name];
    assert(path[0] == name);
    assert(is_path(schema, path));
}

/// Names that hold the root types, and whatever a type among them refers to.
pub open spec fn is_closed(schema: SchemaDocument, names: Set<Seq<char>>) -> bool {
    &&& forall|name: Seq<char>| #[trigger]
        root_types(schema).contains(name) ==> names.contains(name)
    &&& forall|from: Seq<char>, to: Seq<char>| #[trigger]
        refers_to(schema, from, to) && names.contains(from) ==> names.contains(to)
}

/// The reachable names are the fewest that hold the root types and whatever they refer to: any
/// such names hold every reachable one.
pub proof fn reachable_least(schema: SchemaDocument, names: Set<Seq<char>>, name: Seq<char>)
    requires
        is_closed(schema, names),
        is_reachable(schema, name),
    ensures
        names.contains(name),
{
    let path = choose|path: Seq<Seq<char>>| #[trigger]
        is_path(schema, path) && path.last() == name;
    lemma_path_inside(schema, names, path, path.len() - 1);
}

proof fn lemma_path_inside(
    schema: SchemaDocument,
    names: Set<Seq<char>>,
    path: Seq<Seq<char>>,
    i: int,
)
    requires
        is_closed(schema, names),
        is_path(schema, path),
        0 <= i < path.len(),
    ensures
        names.contains(path[i]),
    decreases i,
{
    if i > 0 {
        lemma_path_inside(schema, names, path, i - 1);
        assert(refers_to(schema, path[i - 1], path[i - 1 + 1]));
    }
}

/// A traversal that started at the root types: what was found is reachable, and whatever a name
/// that has been visited refers to was found.
spec fn sound(schema: SchemaDocument, t: Traversal) -> bool {
    &&& t.found.subset_of(universe(schema))
    &&& forall|name: Seq<char>| #[trigger]
        t.found.contains(name) ==> is_reachable(schema, name)
    &&& forall|name: Seq<char>| #[trigger]
        root_types(schema).contains(name) ==> t.found.contains(name)
    &&& forall|name: Seq<char>| #[trigger] t.pending.contains(name) ==> t.found.contains(name)
    &&& forall|from: Seq<char>, to: Seq<char>| #[trigger]
        refers_to(schema, from, to) && t.found.contains(from) && !t.pending.contains(from)
            ==> t.found.contains(to)
}

/// To visit the last pending name keeps a traversal sound.
#[verifier::spinoff_prover]
proof fn lemma_visit(schema: SchemaDocument, t: Traversal, name: Seq<char>, names: Seq<Seq<char>>)
    requires
        sound(schema, t),
        t.pending.len() > 0,
        name == t.pending.last(),
        match schema.type_named(name) {
            Some(ty) => names == references(ty),
            None => names.len() == 0,
        },
    ensures
        sound(
            schema,
            (Traversal { found: t.found, pending: t.pending.drop_last() }).find_all(names),
        ),
{
    let rest = Traversal { found: t.found, pending: t.pending.drop_last() };
    let after = rest.find_all(names);
    lemma_find_all(rest, names);
    assert(t.pending.contains(name)) by {
        assert(t.pending[t.pending.len() - 1] == name);
    }
    assert forall|n: Seq<char>| #[trigger] after.found.contains(n) implies is_reachable(schema, n)
        && universe(schema).contains(n) by {
        if !t.found.contains(n) {
            assert(names.contains(n));
            assert(refers_to(schema, name, n));
            reachable_step(schema, name, n);
            lemma_universe(schema, name, n);
        }
    }
    assert forall|n: Seq<char>| #[trigger] rest.pending.contains(n) implies t.pending.contains(
        n,
    ) by {
        let k = choose|k: int| 0 <= k < rest.pending.len() && rest.pending[k] == n;
        assert(t.pending[k] == n);
    }
    assert forall|n: Seq<char>| #[trigger] after.pending.contains(n) implies after.found.contains(
        n,
    ) by {
        if rest.pending.contains(n) {
            assert(t.pending.contains(n));
        }
    }
    assert forall|from: Seq<char>, to: Seq<char>| #[trigger]
        refers_to(schema, from, to) && after.found.contains(from) && !after.pending.contains(
            from,
        ) implies after.found.contains(to) by {
        if from == name {
            assert(names.contains(to));
        } else {
            if !t.found.contains(from) {
                assert(names.contains(from));
                assert(after.pending.contains(from));
            }
            if t.pending.contains(from) {
                let k = choose|k: int| 0 <= k < t.pending.len() && t.pending[k] == from;
                assert(rest.pending[k] == from);
            }
        }
    }
}

/// Finding names either adds to what was found, and never beyond what can be found, or changes
/// nothing.
proof fn lemma_progress(schema: SchemaDocument, t: Traversal, names: Seq<Seq<char>>)
    requires
        t.find_all(names).found.subset_of(universe(schema)),
    ensures
        t.found.len() <= t.find_all(names).found.len() <= universe(schema).len(),
        t.found.len() == t.find_all(names).found.len() ==> t.find_all(names) == t,
{
    let after = t.find_all(names);
    let all = universe(schema);
    assert(all.finite()) by {
        vstd::seq_lib::seq_to_set_is_finite(root_types(schema));
        vstd::seq_lib::seq_to_set_is_finite(
            sequences::concat_map(
                schema.entries(),
                |entry: (Seq<char>, ExtendedType)| references(entry.1),
            ),
        );
    }
    lemma_find_all(t, names);
    assert(t.found.subset_of(after.found));
    vstd::set_lib::lemma_set_subset_finite(all, after.found);
    vstd::set_lib::lemma_set_subset_finite(all, t.found);
    vstd::set_lib::lemma_len_subset(after.found, all);
    vstd::set_lib::lemma_len_subset(t.found, after.found);
    if t.found.len() == after.found.len() {
        vstd::set_lib::lemma_subset_equality(t.found, after.found);
        assert forall|n: Seq<char>| #[trigger] names.contains(n) implies t.found.contains(n) by {
            assert(names.to_set().contains(n));
        }
        lemma_find_known(t, names);
    }
}

/// To find what was found before changes nothing.
proof fn lemma_find_known(t: Traversal, names: Seq<Seq<char>>)
    requires
        forall|n: Seq<char>| #[trigger] names.contains(n) ==> t.found.contains(n),
    ensures
        t.find_all(names) == t,
    decreases names.len(),
{
    if names.len() > 0 {
        assert forall|n: Seq<char>| #[trigger]
            names.drop_last().contains(n) implies t.found.contains(n) by {
            let k = choose|k: int| 0 <= k < names.drop_last().len() && names.drop_last()[k] == n;
            assert(names[k] == n);
            assert(names.contains(n));
        }
        lemma_find_known(t, names.drop_last());
        assert(names[names.len() - 1] == names.last());
        assert(names.contains(names.last()));
    }
}

/// Finds a root type, where there is one.
fn find_root(name: &Option<String>, reachable: &mut StringHashSet, to_visit: &mut Vec<String>)
    ensures
        traversal(*final(reachable), *final(to_visit)) == traversal(
            *old(reachable),
            *old(to_visit),
        ).find_all(optional_name(*name)),
{
    let ghost start = traversal(*reachable, *to_visit);
    match name {
        Some(name) => {
            find_name(name, reachable, to_visit);
            assert(seq![name@].drop_last() =~= Seq::empty());
            assert(start.find_all(seq![name@].drop_last()) == start);
        },
        None => {},
    }
}

/// The names of all types that a path from a root type leads to.
pub fn reachable_types(schema: &SchemaDocument) -> (r: StringHashSet)
    ensures
        forall|name: Seq<char>| #[trigger] r@.contains(name) <==> is_reachable(*schema, name),
{
    let mut reachable = StringHashSet::new();
    let mut to_visit: Vec<String> = Vec::new();
    let ghost start = traversal(reachable, to_visit);
    let ghost query = optional_name(schema.schema_definition.query);
    let ghost mutation = optional_name(schema.schema_definition.mutation);
    let ghost subscription = optional_name(schema.schema_definition.subscription);

    find_root(&schema.schema_definition.query, &mut reachable, &mut to_visit);
    find_root(&schema.schema_definition.mutation, &mut reachable, &mut to_visit);
    find_root(&schema.schema_definition.subscription, &mut reachable, &mut to_visit);
    proof {
        let roots = root_types(*schema);
        lemma_find_all_add(start, query, mutation);
        lemma_find_all_add(start, query + mutation, subscription);
        lemma_find_all(start, roots);
        assert(start.find_all(roots) == traversal(reachable, to_visit));
        assert forall|name: Seq<char>| #[trigger] reachable@.contains(name) implies is_reachable(
            *schema,
            name,
        ) by {
            assert(roots.to_set().contains(name));
            roots_reachable(*schema, name);
        }
        assert forall|name: Seq<char>| #[trigger] roots.contains(name) implies reachable@.contains(
            name,
        ) by {
            assert(roots.to_set().contains(name));
        }
        assert(sound(*schema, traversal(reachable, to_visit)));
    }

    while to_visit.len() > 0
        invariant
            sound(*schema, traversal(reachable, to_visit)),
        decreases universe(*schema).len() - reachable@.len(), to_visit@.len(),
    {
        let ghost before = traversal(reachable, to_visit);
        let ghost rest = Traversal { found: before.found, pending: before.pending.drop_last() };
        if let Some(name) = to_visit.pop() {
            assert(traversal(reachable, to_visit).pending =~= rest.pending);
            match get_type(&schema.types, name.as_str()) {
                Some(ty) => {
                    proof {
                        lemma_visit(*schema, before, name@, references(*ty));
                        lemma_progress(*schema, rest, references(*ty));
                    }
                    collect_referenced_types(ty, &mut reachable, &mut to_visit);
                },
                None => {
                    proof {
                        lemma_visit(*schema, before, name@, Seq::empty());
                        lemma_progress(*schema, rest, Seq::empty());
                    }
                },
            }
            assert(string_views(to_visit@).len() == to_visit@.len());
        }
    }
    proof {
        assert(is_closed(*schema, reachable@)) by {
            assert(string_views(to_visit@).len() == 0);
        }
        assert forall|name: Seq<char>| is_reachable(*schema, name) implies reachable@.contains(
            name,
        ) by {
            reachable_least(*schema, reachable@, name);
        }
    }
    reachable
}

/// Checks that every type can be reached from a root type. Built-in types, and types that
/// federation adds, need not be.
pub fn validate_reachable_types(schema: &SchemaDocument, errors: &mut Vec<CompositionError>)
    ensures
        error::error_views(final(errors)@) == error::error_views(old(errors)@) + orphan_errors(
            *schema,
        ),
        forall|i: int, j: int|
            0 <= i < j < collections::type_entries(schema.types).len() ==> (
            #[trigger] collections::type_entries(schema.types)[i]).0 != (
            #[trigger] collections::type_entries(schema.types)[j]).0,
{
    let reachable = reachable_types(schema);
    let types = iter_types(&schema.types);
    let ghost entries = schema.entries();
    assert forall|i: int, j: int| 0 <= i < j < collections::type_entries(schema.types).len() implies (
    #[trigger] collections::type_entries(schema.types)[i]).0 != (
    #[trigger] collections::type_entries(schema.types)[j]).0 by {
        assert(types@[i].0@ != types@[j].0@);
    }
    let ghost per_type = |entry: (Seq<char>, ExtendedType)| orphan_errors_of(*schema, entry);
    let mut i: usize = 0;
    while i < types.len()
        invariant
            i <= types@.len(),
            types@.len() == entries.len(),
            forall|j: int|
                0 <= j < types@.len() ==> entries[j] == ((#[trigger] types@[j]).0@, *types@[j].1),
            forall|name: Seq<char>| #[trigger]
                reachable@.contains(name) <==> is_reachable(*schema, name),
            per_type == |entry: (Seq<char>, ExtendedType)| orphan_errors_of(*schema, entry),
            error::error_views(errors@) == error::error_views(old(errors)@)
                + sequences::concat_map(entries.take(i as int), per_type),
        decreases types@.len() - i,
    {
        proof {
            sequences::lemma_concat_map_take(entries, per_type, i as int);
        }
        let (name, ty) = types[i];
        let federation = starts_with(name.as_str(), "_") || starts_with(
            name.as_str(),
            "federation__",
        ) || starts_with(name.as_str(), "link__") || starts_with(name.as_str(), "join__");
        if !ty.is_built_in() && !federation && !reachable.contains(name.as_str()) {
            let mut message = "Type '".to_owned();
            message.append(name.as_str());
            message.append(
                "' is not reachable from any root type (Query/Mutation/Subscription)",
            );
            report_invalid(errors, message);
        }
        i = i + 1;
    }
    assert(entries.take(i as int) =~= entries);
}

/// Every type is built in, one that federation adds, or reachable.
pub open spec fn no_orphans(schema: SchemaDocument) -> bool {
    forall|i: int|
        0 <= i < schema.entries().len() ==> {
            let entry = #[trigger] schema.entries()[i];
            entry.1.built_in_spec() || is_federation_name(entry.0) || is_reachable(
                schema,
                entry.0,
            )
        }
}

/// There is no error for unreachable types exactly when there is no such type.
pub proof fn orphan_errors_complete(schema: SchemaDocument)
    ensures
        orphan_errors(schema).len() == 0 <==> no_orphans(schema),
{
    let per_type = |entry: (Seq<char>, ExtendedType)| orphan_errors_of(schema, entry);
    let entries = schema.entries();
    sequences::lemma_concat_map_empty(entries, per_type);
    if orphan_errors(schema).len() == 0 {
        assert forall|i: int| 0 <= i < entries.len() implies ({
            let entry = #[trigger] schema.entries()[i];
            entry.1.built_in_spec() || is_federation_name(entry.0) || is_reachable(
                schema,
                entry.0,
            )
        }) by {
            assert(per_type(entries[i]).len() == 0);
        }
    }
}

/// A type is reported as unreachable exactly when it is neither built in, nor one that federation
/// adds, nor reachable.
pub proof fn orphan_reported_iff(schema: SchemaDocument, e: ErrorView)
    ensures
        orphan_errors(schema).contains(e) <==> exists|i: int|
            0 <= i < schema.entries().len() && !(#[trigger] schema.entries()[i]).1.built_in_spec()
                && !is_federation_name(schema.entries()[i].0) && !is_reachable(
                schema,
                schema.entries()[i].0,
            ) && e == unreachable_type(schema.entries()[i].0),
{
    let per_type = |entry: (Seq<char>, ExtendedType)| orphan_errors_of(schema, entry);
    let entries = schema.entries();
    if orphan_errors(schema).contains(e) {
        let i = sequences::lemma_concat_map_source(entries, per_type, e);
        assert(orphan_errors_of(schema, entries[i]).contains(e));
        assert(e == unreachable_type(schema.entries()[i].0));
    }
    if exists|i: int|
        0 <= i < schema.entries().len() && !(#[trigger] schema.entries()[i]).1.built_in_spec()
            && !is_federation_name(schema.entries()[i].0) && !is_reachable(
            schema,
            schema.entries()[i].0,
        ) && e == unreachable_type(schema.entries()[i].0) {
        let i = choose|i: int|
            0 <= i < schema.entries().len() && !(#[trigger] schema.entries()[i]).1.built_in_spec()
                && !is_federation_name(schema.entries()[i].0) && !is_reachable(
                schema,
                schema.entries()[i].0,
            ) && e == unreachable_type(schema.entries()[i].0);
        assert(orphan_errors_of(schema, entries[i])[0] == e);
        assert(per_type(entries[i]).contains(e));
        sequences::lemma_concat_map_contains(entries, per_type, i, e);
    }
}

/// The types that fields refer to are those of the fields and of their arguments.
proof fn lemma_all_field_references(fields: IndexMap<String, FieldDefinition>, name: Seq<char>)
    ensures
        all_field_references(fields).contains(name) <==> {
            ||| exists|f: int|
                0 <= f < collections::field_entries(fields).len() && (
                #[trigger] collections::field_entries(fields)[f]).1.ty.inner_name() == name
            ||| exists|f: int, a: int|
                0 <= f < collections::field_entries(fields).len() && 0 <= a
                    < collections::field_entries(fields)[f].1.arguments@.len() && (
                #[trigger] collections::field_entries(fields)[f].1.arguments@[a]).ty.inner_name()
                    == name
        },
{
    let entries = collections::field_entries(fields);
    let per_field = |entry: (Seq<char>, FieldDefinition)| field_references(entry.1);
    if all_field_references(fields).contains(name) {
        let f = sequences::lemma_concat_map_source(entries, per_field, name);
        let all = field_references(entries[f].1);
        let k = choose|k: int| 0 <= k < all.len() && all[k] == name;
        if k > 0 {
            assert(entries[f].1.arguments@[k - 1].ty.inner_name() == name);
        }
    }
    if exists|f: int| 0 <= f < entries.len() && (#[trigger] entries[f]).1.ty.inner_name() == name {
        let f = choose|f: int|
            0 <= f < entries.len() && (#[trigger] entries[f]).1.ty.inner_name() == name;
        assert(per_field(entries[f])[0] == name);
        sequences::lemma_concat_map_contains(entries, per_field, f, name);
    }
    if exists|f: int, a: int|
        0 <= f < entries.len() && 0 <= a < entries[f].1.arguments@.len() && (
        #[trigger] entries[f].1.arguments@[a]).ty.inner_name() == name {
        let (f, a) = choose|f: int, a: int|
            0 <= f < entries.len() && 0 <= a < entries[f].1.arguments@.len() && (
            #[trigger] entries[f].1.arguments@[a]).ty.inner_name() == name;
        assert(per_field(entries[f])[a + 1] == name);
        sequences::lemma_concat_map_contains(entries, per_field, f, name);
    }
}

/// A type refers to exactly what it holds. An object type or an interface type holds the interfaces
/// that it implements, and the types of its fields and of their arguments; a union type holds its
/// members; an input object type holds the types of its fields; enums and scalars hold nothing.
pub proof fn references_are_what_types_hold(ty: ExtendedType, name: Seq<char>)
    ensures
        references(ty).contains(name) <==> match ty {
            ExtendedType::Object(own) => {
                ||| exists|k: int|
                    0 <= k < collections::string_items(own.implements_interfaces).len()
                        && #[trigger] collections::string_items(own.implements_interfaces)[k]
                            == name
                ||| exists|f: int|
                    0 <= f < collections::field_entries(own.fields).len() && (
                    #[trigger] collections::field_entries(own.fields)[f]).1.ty.inner_name() == name
                ||| exists|f: int, a: int|
                    0 <= f < collections::field_entries(own.fields).len() && 0 <= a
                        < collections::field_entries(own.fields)[f].1.arguments@.len() && (
                    #[trigger] collections::field_entries(
                        own.fields,
                    )[f].1.arguments@[a]).ty.inner_name()
                        == name
            },
            ExtendedType::Interface(own) => {
                ||| exists|k: int|
                    0 <= k < collections::string_items(own.implements_interfaces).len()
                        && #[trigger] collections::string_items(own.implements_interfaces)[k]
                            == name
                ||| exists|f: int|
                    0 <= f < collections::field_entries(own.fields).len() && (
                    #[trigger] collections::field_entries(own.fields)[f]).1.ty.inner_name() == name
                ||| exists|f: int, a: int|
                    0 <= f < collections::field_entries(own.fields).len() && 0 <= a
                        < collections::field_entries(own.fields)[f].1.arguments@.len() && (
                    #[trigger] collections::field_entries(
                        own.fields,
                    )[f].1.arguments@[a]).ty.inner_name()
                        == name
            },
            ExtendedType::Union(own) => exists|k: int|
                0 <= k < collections::string_items(own.members).len()
                    && #[trigger] collections::string_items(own.members)[k] == name,
            ExtendedType::InputObject(own) => exists|f: int|
                0 <= f < collections::input_field_entries(own.fields).len() && (
                #[trigger] collections::input_field_entries(own.fields)[f]).1.ty.inner_name()
                    == name,
            ExtendedType::Enum(_) => false,
            ExtendedType::Scalar(_) => false,
        },
{
    match ty {
        ExtendedType::Object(own) => {
            lemma_all_field_references(own.fields, name);
            lemma_contains_add(
                collections::string_items(own.implements_interfaces),
                all_field_references(own.fields),
                name,
            );
        },
        ExtendedType::Interface(own) => {
            lemma_all_field_references(own.fields, name);
            lemma_contains_add(
                collections::string_items(own.implements_interfaces),
                all_field_references(own.fields),
                name,
            );
        },
        ExtendedType::InputObject(own) => {
            let entries = collections::input_field_entries(own.fields);
            let all = input_field_references(own.fields);
            if all.contains(name) {
                let f = choose|f: int| 0 <= f < all.len() && all[f] == name;
                assert(entries[f].1.ty.inner_name() == name);
            }
            if exists|f: int|
                0 <= f < entries.len() && (#[trigger] entries[f]).1.ty.inner_name() == name {
                let f = choose|f: int|
                    0 <= f < entries.len() && (#[trigger] entries[f]).1.ty.inner_name() == name;
                assert(all[f] == name);
            }
        },
        _ => {},
    }
}

proof fn lemma_contains_add(a: Seq<Seq<char>>, b: Seq<Seq<char>>, name: Seq<char>)
    ensures
        (a + b).contains(name) <==> a.contains(name) || b.contains(name),
{
    if a.contains(name) {
        let k = choose|k: int| 0 <= k < a.len() && a[k] == name;
        assert((a + b)[k] == name);
    }
    if b.contains(name) {
        let k = choose|k: int| 0 <= k < b.len() && b[k] == name;
        assert((a + b)[a.len() + k] == name);
    }
}

/// The root types are those that the schema definition names.
pub proof fn roots_are_those_of_the_definition(schema: SchemaDocument, name: Seq<char>)
    ensures
        root_types(schema).contains(name) <==> {
            ||| schema.schema_definition.query matches Some(root) && root@ == name
            ||| schema.schema_definition.mutation matches Some(root) && root@ == name
            ||| schema.schema_definition.subscription matches Some(root) && root@ == name
        },
{
    let query = optional_name(schema.schema_definition.query);
    let mutation = optional_name(schema.schema_definition.mutation);
    let subscription = optional_name(schema.schema_definition.subscription);
    lemma_contains_add(query + mutation, subscription, name);
    lemma_contains_add(query, mutation, name);
    lemma_optional_name(schema.schema_definition.query, name);
    lemma_optional_name(schema.schema_definition.mutation, name);
    lemma_optional_name(schema.schema_definition.subscription, name);
}

proof fn lemma_optional_name(optional: Option<String>, name: Seq<char>)
    ensures
        optional_name(optional).contains(name) <==> (optional matches Some(root) && root@ == name),
{
    if let Some(root) = optional {
        assert(optional_name(optional)[0] == root@);
    }
}

/// The names of the types are distinct, so that an entry is what its name stands for.
proof fn lemma_entry_is_named(schema: SchemaDocument, t: int)
    requires
        forall|i: int, j: int|
            0 <= i < j < collections::type_entries(schema.types).len() ==> (
            #[trigger] collections::type_entries(schema.types)[i]).0 != (
            #[trigger] collections::type_entries(schema.types)[j]).0,
        0 <= t < collections::type_entries(schema.types).len(),
    ensures
        schema.type_named(collections::type_entries(schema.types)[t].0) == Some(
            collections::type_entries(schema.types)[t].1,
        ),
{
    sequences::lookup_finds_first(
        collections::type_entries(schema.types),
        collections::type_entries(schema.types)[t].0,
    );
}

/// The types that the definition of a schema names as root types are reachable.
pub proof fn named_roots_are_reachable(schema: SchemaDocument)
    ensures
        schema.schema_definition.query matches Some(root) ==> is_reachable(schema, root@),
        schema.schema_definition.mutation matches Some(root) ==> is_reachable(schema, root@),
        schema.schema_definition.subscription matches Some(root) ==> is_reachable(schema, root@),
{
    if let Some(root) = schema.schema_definition.query {
        roots_are_those_of_the_definition(schema, root@);
        roots_reachable(schema, root@);
    }
    if let Some(root) = schema.schema_definition.mutation {
        roots_are_those_of_the_definition(schema, root@);
        roots_reachable(schema, root@);
    }
    if let Some(root) = schema.schema_definition.subscription {
        roots_are_those_of_the_definition(schema, root@);
        roots_reachable(schema, root@);
    }
}

/// Whatever a reachable type holds is reachable: the interfaces that an object type or an interface
/// type implements, the types of its fields and of their arguments, the members of a union type,
/// and the types of the fields of an input object type.
pub proof fn what_reachable_types_hold_is_reachable(schema: SchemaDocument, t: int)
    requires
        forall|i: int, j: int|
            0 <= i < j < collections::type_entries(schema.types).len() ==> (
            #[trigger] collections::type_entries(schema.types)[i]).0 != (
            #[trigger] collections::type_entries(schema.types)[j]).0,
        0 <= t < collections::type_entries(schema.types).len(),
        is_reachable(schema, collections::type_entries(schema.types)[t].0),
    ensures
        collections::type_entries(schema.types)[t].1 matches ExtendedType::Object(own) ==> {
            &&& forall|k: int|
                0 <= k < collections::string_items(own.implements_interfaces).len()
                    ==> is_reachable(
                    schema,
                    #[trigger] collections::string_items(own.implements_interfaces)[k],
                )
            &&& forall|f: int|
                0 <= f < collections::field_entries(own.fields).len() ==> is_reachable(
                    schema,
                    (#[trigger] collections::field_entries(own.fields)[f]).1.ty.inner_name(),
                )
            &&& forall|f: int, a: int|
                0 <= f < collections::field_entries(own.fields).len() && 0 <= a
                    < collections::field_entries(own.fields)[f].1.arguments@.len()
                    ==> is_reachable(
                    schema,
                    (#[trigger] collections::field_entries(
                        own.fields,
                    )[f].1.arguments@[a]).ty.inner_name(),
                )
        },
        collections::type_entries(schema.types)[t].1 matches ExtendedType::Interface(own) ==> {
            &&& forall|k: int|
                0 <= k < collections::string_items(own.implements_interfaces).len()
                    ==> is_reachable(
                    schema,
                    #[trigger] collections::string_items(own.implements_interfaces)[k],
                )
            &&& forall|f: int|
                0 <= f < collections::field_entries(own.fields).len() ==> is_reachable(
                    schema,
                    (#[trigger] collections::field_entries(own.fields)[f]).1.ty.inner_name(),
                )
            &&& forall|f: int, a: int|
                0 <= f < collections::field_entries(own.fields).len() && 0 <= a
                    < collections::field_entries(own.fields)[f].1.arguments@.len()
                    ==> is_reachable(
                    schema,
                    (#[trigger] collections::field_entries(
                        own.fields,
                    )[f].1.arguments@[a]).ty.inner_name(),
                )
        },
        collections::type_entries(schema.types)[t].1 matches ExtendedType::Union(own) ==> forall|
            k: int,
        |
            0 <= k < collections::string_items(own.members).len() ==> is_reachable(
                schema,
                #[trigger] collections::string_items(own.members)[k],
            ),
        collections::type_entries(schema.types)[t].1 matches ExtendedType::InputObject(own)
            ==> forall|f: int|
            0 <= f < collections::input_field_entries(own.fields).len() ==> is_reachable(
                schema,
                (#[trigger] collections::input_field_entries(own.fields)[f]).1.ty.inner_name(),
            ),
{
    let (from, ty) = collections::type_entries(schema.types)[t];
    lemma_entry_is_named(schema, t);
    assert forall|name: Seq<char>| #[trigger] references(ty).contains(name) implies is_reachable(
        schema,
        name,
    ) by {
        assert(refers_to(schema, from, name));
        reachable_step(schema, from, name);
    }
    match ty {
        ExtendedType::Object(own) => {
            lemma_holder_reaches(schema, ty, own.implements_interfaces, own.fields);
        },
        ExtendedType::Interface(own) => {
            lemma_holder_reaches(schema, ty, own.implements_interfaces, own.fields);
        },
        ExtendedType::Union(own) => {
            assert forall|k: int|
                0 <= k < collections::string_items(own.members).len() implies is_reachable(
                schema,
                #[trigger] collections::string_items(own.members)[k],
            ) by {
                assert(references(ty).contains(collections::string_items(own.members)[k]));
            }
        },
        ExtendedType::InputObject(own) => {
            assert forall|f: int|
                0 <= f < collections::input_field_entries(own.fields).len() implies is_reachable(
                schema,
                (#[trigger] collections::input_field_entries(own.fields)[f]).1.ty.inner_name(),
            ) by {
                let name = collections::input_field_entries(own.fields)[f].1.ty.inner_name();
                references_are_what_types_hold(ty, name);
                assert(references(ty).contains(name));
            }
        },
        _ => {},
    }
}

/// The case of types with interfaces and fields.
proof fn lemma_holder_reaches(
    schema: SchemaDocument,
    ty: ExtendedType,
    interfaces: IndexSet<String>,
    fields: IndexMap<String, FieldDefinition>,
)
    requires
        references(ty) == collections::string_items(interfaces) + all_field_references(fields),
        forall|name: Seq<char>| #[trigger]
            references(ty).contains(name) ==> is_reachable(schema, name),
    ensures
        forall|k: int|
            0 <= k < collections::string_items(interfaces).len() ==> is_reachable(
                schema,
                #[trigger] collections::string_items(interfaces)[k],
            ),
        forall|f: int|
            0 <= f < collections::field_entries(fields).len() ==> is_reachable(
                schema,
                (#[trigger] collections::field_entries(fields)[f]).1.ty.inner_name(),
            ),
        forall|f: int, a: int|
            0 <= f < collections::field_entries(fields).len() && 0 <= a
                < collections::field_entries(fields)[f].1.arguments@.len() ==> is_reachable(
                schema,
                (#[trigger] collections::field_entries(
                    fields,
                )[f].1.arguments@[a]).ty.inner_name(),
            ),
{
    let items = collections::string_items(interfaces);
    let entries = collections::field_entries(fields);
    assert forall|k: int| 0 <= k < items.len()
        implies is_reachable(schema, #[trigger] items[k]) by {
        lemma_contains_add(items, all_field_references(fields), items[k]);
        assert(items.contains(items[k]));
        assert(references(ty).contains(items[k]));
    }
    assert forall|f: int| 0 <= f < entries.len() implies is_reachable(
        schema,
        (#[trigger] entries[f]).1.ty.inner_name(),
    ) by {
        let name = entries[f].1.ty.inner_name();
        lemma_all_field_references(fields, name);
        lemma_contains_add(items, all_field_references(fields), name);
        assert(references(ty).contains(name));
    }
    assert forall|f: int, a: int|
        0 <= f < entries.len() && 0 <= a < entries[f].1.arguments@.len() implies is_reachable(
        schema,
        (#[trigger] entries[f].1.arguments@[a]).ty.inner_name(),
    ) by {
        let name = entries[f].1.arguments@[a].ty.inner_name();
        lemma_all_field_references(fields, name);
        lemma_contains_add(items, all_field_references(fields), name);
        assert(references(ty).contains(name));
    }
}

/// A name is reachable for no other reason: it is that of a root type, or a reachable type holds it.
pub proof fn reachable_names_are_roots_or_held(schema: SchemaDocument, name: Seq<char>)
    requires
        is_reachable(schema, name),
    ensures
        ({
            ||| schema.schema_definition.query matches Some(root) && root@ == name
            ||| schema.schema_definition.mutation matches Some(root) && root@ == name
            ||| schema.schema_definition.subscription matches Some(root) && root@ == name
        }) || exists|t: int|
            0 <= t < collections::type_entries(schema.types).len() && is_reachable(
                schema,
                (#[trigger] collections::type_entries(schema.types)[t]).0,
            ) && match collections::type_entries(schema.types)[t].1 {
                ExtendedType::Object(own) => {
                    ||| exists|k: int|
                        0 <= k < collections::string_items(own.implements_interfaces).len()
                            && #[trigger] collections::string_items(own.implements_interfaces)[k] == name
                    ||| exists|f: int|
                        0 <= f < collections::field_entries(own.fields).len() && (
                        #[trigger] collections::field_entries(own.fields)[f]).1.ty.inner_name() == name
                    ||| exists|f: int, a: int|
                        0 <= f < collections::field_entries(own.fields).len() && 0 <= a
                            < collections::field_entries(own.fields)[f].1.arguments@.len() && (
                        #[trigger] collections::field_entries(
                            own.fields,
                        )[f].1.arguments@[a]).ty.inner_name()
                            == name
                },
                ExtendedType::Interface(own) => {
                    ||| exists|k: int|
                        0 <= k < collections::string_items(own.implements_interfaces).len()
                            && #[trigger] collections::string_items(own.implements_interfaces)[k] == name
                    ||| exists|f: int|
                        0 <= f < collections::field_entries(own.fields).len() && (
                        #[trigger] collections::field_entries(own.fields)[f]).1.ty.inner_name() == name
                    ||| exists|f: int, a: int|
                        0 <= f < collections::field_entries(own.fields).len() && 0 <= a
                            < collections::field_entries(own.fields)[f].1.arguments@.len() && (
                        #[trigger] collections::field_entries(
                            own.fields,
                        )[f].1.arguments@[a]).ty.inner_name()
                            == name
                },
                ExtendedType::Union(own) => exists|k: int|
                    0 <= k < collections::string_items(own.members).len()
                        && #[trigger] collections::string_items(own.members)[k] == name,
                ExtendedType::InputObject(own) => exists|f: int|
                    0 <= f < collections::input_field_entries(own.fields).len() && (
                    #[trigger] collections::input_field_entries(own.fields)[f]).1.ty.inner_name() == name,
                ExtendedType::Enum(_) => false,
                ExtendedType::Scalar(_) => false,
            },
{
    let path = choose|path: Seq<Seq<char>>| #[trigger]
        is_path(schema, path) && path.last() == name;
    if path.len() == 1 {
        roots_are_those_of_the_definition(schema, name);
    } else {
        let before = path.drop_last();
        let from = before.last();
        assert(is_path(schema, before)) by {
            assert(before[0] == path[0]);
            assert forall|i: int| 0 <= i < before.len() - 1 implies refers_to(
                schema,
                #[trigger] before[i],
                before[i + 1],
            ) by {
                assert(before[i] == path[i] && before[i + 1] == path[i + 1]);
            }
        }
        assert(is_reachable(schema, from));
        assert(path[path.len() - 2] == from && path[path.len() - 2 + 1] == name);
        assert(refers_to(schema, from, name));
        let ty = schema.type_named(from)->0;
        sequences::lemma_lookup(collections::type_entries(schema.types), from);
        let t = choose|t: int|
            0 <= t < collections::type_entries(schema.types).len()
                && #[trigger] collections::type_entries(schema.types)[t] == (from, ty);
        references_are_what_types_hold(ty, name);
        assert(collections::type_entries(schema.types)[t].1 == ty);
    }
}

/// Any names that hold the root types, and whatever a type among them holds, hold every reachable
/// name.
pub proof fn reachable_names_are_fewest(
    schema: SchemaDocument,
    names: Set<Seq<char>>,
    target: Seq<char>,
)
    requires
        forall|name: Seq<char>| ({
            ||| schema.schema_definition.query matches Some(root) && root@ == name
            ||| schema.schema_definition.mutation matches Some(root) && root@ == name
            ||| schema.schema_definition.subscription matches Some(root) && root@ == name
        }) ==> #[trigger] names.contains(name),
        forall|t: int, name: Seq<char>|
            #![trigger collections::type_entries(schema.types)[t], names.contains(name)]
            0 <= t < collections::type_entries(schema.types).len() && names.contains(
                collections::type_entries(schema.types)[t].0,
            ) && match collections::type_entries(schema.types)[t].1 {
                ExtendedType::Object(own) => {
                    ||| exists|k: int|
                        0 <= k < collections::string_items(own.implements_interfaces).len()
                            && #[trigger] collections::string_items(own.implements_interfaces)[k] == name
                    ||| exists|f: int|
                        0 <= f < collections::field_entries(own.fields).len() && (
                        #[trigger] collections::field_entries(own.fields)[f]).1.ty.inner_name() == name
                    ||| exists|f: int, a: int|
                        0 <= f < collections::field_entries(own.fields).len() && 0 <= a
                            < collections::field_entries(own.fields)[f].1.arguments@.len() && (
                        #[trigger] collections::field_entries(
                            own.fields,
                        )[f].1.arguments@[a]).ty.inner_name()
                            == name
                },
                ExtendedType::Interface(own) => {
                    ||| exists|k: int|
                        0 <= k < collections::string_items(own.implements_interfaces).len()
                            && #[trigger] collections::string_items(own.implements_interfaces)[k] == name
                    ||| exists|f: int|
                        0 <= f < collections::field_entries(own.fields).len() && (
                        #[trigger] collections::field_entries(own.fields)[f]).1.ty.inner_name() == name
                    ||| exists|f: int, a: int|
                        0 <= f < collections::field_entries(own.fields).len() && 0 <= a
                            < collections::field_entries(own.fields)[f].1.arguments@.len() && (
                        #[trigger] collections::field_entries(
                            own.fields,
                        )[f].1.arguments@[a]).ty.inner_name()
                            == name
                },
                ExtendedType::Union(own) => exists|k: int|
                    0 <= k < collections::string_items(own.members).len()
                        && #[trigger] collections::string_items(own.members)[k] == name,
                ExtendedType::InputObject(own) => exists|f: int|
                    0 <= f < collections::input_field_entries(own.fields).len() && (
                    #[trigger] collections::input_field_entries(own.fields)[f]).1.ty.inner_name() == name,
                ExtendedType::Enum(_) => false,
                ExtendedType::Scalar(_) => false,
            } ==> names.contains(name),
        is_reachable(schema, target),
    ensures
        names.contains(target),
{
    assert forall|name: Seq<char>| #[trigger] root_types(schema).contains(name)
        implies names.contains(
        name,
    ) by {
        roots_are_those_of_the_definition(schema, name);
    }
    assert forall|from: Seq<char>, to: Seq<char>| #[trigger]
        refers_to(schema, from, to) && names.contains(from) implies names.contains(to) by {
        let ty = schema.type_named(from)->0;
        sequences::lemma_lookup(collections::type_entries(schema.types), from);
        let t = choose|t: int|
            0 <= t < collections::type_entries(schema.types).len()
                && #[trigger] collections::type_entries(schema.types)[t] == (from, ty);
        references_are_what_types_hold(ty, to);
        assert(collections::type_entries(schema.types)[t].1 == ty);
    }
    assert(is_closed(schema, names));
    reachable_least(schema, names, target);
}

/// The types that cannot be reached are reported one by one, in document order: those that are
/// neither built in, nor have a name that starts as those of federation do, nor are reachable.
pub proof fn orphans_are_reported_in_order(schema: SchemaDocument)
    ensures
        orphan_errors(schema) == collections::type_entries(schema.types).filter(
            |entry: (Seq<char>, ExtendedType)|
                !entry.1.built_in_spec() && !"_"@.is_prefix_of(entry.0)
                    && !"federation__"@.is_prefix_of(entry.0) && !"link__"@.is_prefix_of(entry.0)
                    && !"join__"@.is_prefix_of(entry.0) && !is_reachable(schema, entry.0),
        ).map_values(
            |entry: (Seq<char>, ExtendedType)|
                (ErrorView::TypeDefinitionInvalid {
                    message: "Type '"@ + entry.0
                        + "' is not reachable from any root type (Query/Mutation/Subscription)"@,
                }),
        ),
{
    sequences::concat_map_filters(
        collections::type_entries(schema.types),
        |entry: (Seq<char>, ExtendedType)| orphan_errors_of(schema, entry),
        |entry: (Seq<char>, ExtendedType)|
            !entry.1.built_in_spec() && !"_"@.is_prefix_of(entry.0)
                && !"federation__"@.is_prefix_of(entry.0) && !"link__"@.is_prefix_of(entry.0)
                && !"join__"@.is_prefix_of(entry.0) && !is_reachable(schema, entry.0),
        |entry: (Seq<char>, ExtendedType)|
            ErrorView::TypeDefinitionInvalid {
                message: "Type '"@ + entry.0
                    + "' is not reachable from any root type (Query/Mutation/Subscription)"@,
            },
    );
}

/// Finding names adds exactly them to what was found. Each that is new is to be visited, once, after
/// those that already were, in the order in which they were first found.
pub proof fn found_names_are_visited_once(t: Traversal, names: Seq<Seq<char>>, name: Seq<char>)
    ensures
        forall|n: Seq<char>| #[trigger]
            t.find_all(names).found.contains(n) <==> t.found.contains(n) || names.contains(n),
        t.find_all(Seq::empty()) == t,
        t.find_all(names.push(name)).pending == if t.found.contains(name) || names.contains(name) {
            t.find_all(names).pending
        } else {
            t.find_all(names).pending.push(name)
        },
{
    lemma_find_all(t, names);
    assert(names.push(name).drop_last() =~= names);
    assert forall|n: Seq<char>| #[trigger] t.find_all(names).found.contains(n)
        <==> t.found.contains(
        n,
    ) || names.contains(n) by {
        assert(names.to_set().contains(n) <==> names.contains(n));
    }
}

/// The order in which a type's references are found: first the interfaces of an object or interface
/// type, then field by field the type of the field and those of its arguments; the members of a
/// union type; and the types of the fields of an input object type.
pub proof fn references_come_in_order(ty: ExtendedType)
    ensures
        ty matches ExtendedType::Object(own) ==> references(ty) == collections::string_items(
            own.implements_interfaces,
        ) + collections::field_entries(own.fields).map_values(
            |entry: (Seq<char>, FieldDefinition)|
                seq![entry.1.ty.inner_name()] + entry.1.arguments@.map_values(
                    |argument: InputValueDefinition| argument.ty.inner_name(),
                ),
        ).flatten(),
        ty matches ExtendedType::Interface(own) ==> references(ty) == collections::string_items(
            own.implements_interfaces,
        ) + collections::field_entries(own.fields).map_values(
            |entry: (Seq<char>, FieldDefinition)|
                seq![entry.1.ty.inner_name()] + entry.1.arguments@.map_values(
                    |argument: InputValueDefinition| argument.ty.inner_name(),
                ),
        ).flatten(),
        ty matches ExtendedType::Union(own) ==> references(ty) == collections::string_items(
            own.members,
        ),
        ty matches ExtendedType::InputObject(own) ==> references(ty)
            == collections::input_field_entries(own.fields).map_values(
            |entry: (Seq<char>, InputValueDefinition)| entry.1.ty.inner_name(),
        ),
        ty is Enum || ty is Scalar ==> references(ty).len() == 0,
{
    match ty {
        ExtendedType::Object(own) => lemma_field_references_in_order(own.fields),
        ExtendedType::Interface(own) => lemma_field_references_in_order(own.fields),
        _ => {},
    }
}

proof fn lemma_field_references_in_order(fields: IndexMap<String, FieldDefinition>)
    ensures
        all_field_references(fields) == collections::field_entries(fields).map_values(
            |entry: (Seq<char>, FieldDefinition)|
                seq![entry.1.ty.inner_name()] + entry.1.arguments@.map_values(
                    |argument: InputValueDefinition| argument.ty.inner_name(),
                ),
        ).flatten(),
{
    let entries = collections::field_entries(fields);
    let f = |entry: (Seq<char>, FieldDefinition)| field_references(entry.1);
    let g = |entry: (Seq<char>, FieldDefinition)|
        seq![entry.1.ty.inner_name()] + entry.1.arguments@.map_values(
            |argument: InputValueDefinition| argument.ty.inner_name(),
        );
    sequences::concat_map_flattens(entries, f);
    assert(entries.map_values(f) =~= entries.map_values(g));
}

} // verus!
