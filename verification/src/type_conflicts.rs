//! The check that subgraphs which define the same type agree on its kind.

use crate::collections;
use crate::collections::iter_types;
use crate::error;
use crate::error::{report_invalid, CompositionError, ErrorView};
use crate::schema;
use crate::schema::{ExtendedType, TypeKind};
use crate::sequences;
use crate::subgraph::{Subgraph, Validated};
use vstd::hash_map::StringHashMap;
use vstd::prelude::*;

verus! {

/// That a subgraph defines a type, and of which kind.
pub struct Definition {
    pub name: Seq<char>,
    pub subgraph: Seq<char>,
    pub kind: TypeKind,
}

/// The definition that an entry of a subgraph's types makes.
pub open spec fn definition(subgraph: Seq<char>, entry: (Seq<char>, ExtendedType)) -> Definition {
    Definition { name: entry.0, subgraph, kind: entry.1.kind_spec() }
}

/// The definitions of one subgraph, in document order.
pub open spec fn subgraph_definitions(subgraph: Subgraph<Validated>) -> Seq<Definition> {
    subgraph.entries().map_values(
        |entry: (Seq<char>, ExtendedType)| definition(subgraph.name@, entry),
    )
}

/// The definitions of all subgraphs, in order.
pub open spec fn definitions(subgraphs: Seq<Subgraph<Validated>>) -> Seq<Definition> {
    sequences::concat_map(
        subgraphs,
        |subgraph: Subgraph<Validated>| subgraph_definitions(subgraph),
    )
}

/// The names of the defined types, each once, in the order in which they first occur.
pub open spec fn defined_names(definitions: Seq<Definition>) -> Seq<Seq<char>>
    decreases definitions.len(),
{
    if definitions.len() == 0 {
        Seq::empty()
    } else {
        let before = defined_names(definitions.drop_last());
        if before.contains(definitions.last().name) {
            before
        } else {
            before.push(definitions.last().name)
        }
    }
}

/// The definitions of the type named `name`, in order.
pub open spec fn definitions_of(definitions: Seq<Definition>, name: Seq<char>) -> Seq<Definition>
    decreases definitions.len(),
{
    if definitions.len() == 0 {
        Seq::empty()
    } else {
        let before = definitions_of(definitions.drop_last(), name);
        if definitions.last().name == name {
            before.push(definitions.last())
        } else {
            before
        }
    }
}

/// Whether `definitions` are not all of one kind.
pub open spec fn has_conflict(definitions: Seq<Definition>) -> bool {
    exists|i: int|
        0 <= i < definitions.len() && (#[trigger] definitions[i]).kind != definitions[0].kind
}

/// `parts` with `", "` between them.
pub open spec fn comma_separated(parts: Seq<Seq<char>>) -> Seq<char>
    decreases parts.len(),
{
    if parts.len() == 0 {
        Seq::empty()
    } else if parts.len() == 1 {
        parts[0]
    } else {
        comma_separated(parts.drop_last()) + ", "@ + parts.last()
    }
}

/// How one definition is described in the error for a conflict.
pub open spec fn conflict_detail(definition: Definition) -> Seq<char> {
    "'"@ + definition.subgraph + "' defines it as "@ + definition.kind.name_spec()
}

/// The error for a type with conflicting definitions.
pub open spec fn conflicting_definitions(
    name: Seq<char>,
    definitions: Seq<Definition>,
) -> ErrorView {
    error::invalid(
        "Type '"@ + name + "' has conflicting definitions across subgraphs: "@ + comma_separated(
            definitions.map_values(|definition: Definition| conflict_detail(definition)),
        ),
    )
}

/// The errors for the type named `name`.
pub open spec fn conflict_errors_of(definitions: Seq<Definition>, name: Seq<char>) -> Seq<
    ErrorView,
> {
    let own = definitions_of(definitions, name);
    if has_conflict(own) {
        seq![conflicting_definitions(name, own)]
    } else {
        Seq::empty()
    }
}

/// The errors for all types: one for each name whose definitions are not all of one kind, in the
/// order in which the names first occur.
pub open spec fn conflict_errors(subgraphs: Seq<Subgraph<Validated>>) -> Seq<ErrorView> {
    let all = definitions(subgraphs);
    sequences::concat_map(
        defined_names(all),
        |name: Seq<char>| conflict_errors_of(all, name),
    )
}

/// The definitions of one type, as far as they have been collected.
struct TypeDefinitions<'a> {
    name: &'a String,
    /// For each definition, the name of the subgraph, and the kind.
    kinds: Vec<(&'a String, TypeKind)>,
}

impl<'a> TypeDefinitions<'a> {
    spec fn list(self) -> Seq<Definition> {
        Seq::new(
            self.kinds@.len(),
            |i: int|
                Definition {
                    name: self.name@,
                    subgraph: self.kinds@[i].0@,
                    kind: self.kinds@[i].1,
                },
        )
    }
}

/// The definitions of all types by name, as far as they have been collected.
struct DefinitionTable<'a> {
    /// One group for each name, in the order in which the names first occurred.
    groups: Vec<TypeDefinitions<'a>>,
    /// Where the group of a name stands.
    positions: StringHashMap<usize>,
}

impl<'a> DefinitionTable<'a> {
    /// The table holds `definitions`, grouped.
    spec fn holds(self, definitions: Seq<Definition>) -> bool {
        &&& self.groups@.len() == defined_names(definitions).len()
        &&& forall|i: int|
            0 <= i < self.groups@.len() ==> {
                &&& (#[trigger] self.groups@[i]).name@ == defined_names(definitions)[i]
                &&& self.groups@[i].list() == definitions_of(
                    definitions,
                    self.groups@[i].name@,
                )
            }
        &&& forall|name: Seq<char>| #[trigger]
            self.positions@.contains_key(name) <==> defined_names(definitions).contains(name)
        &&& forall|name: Seq<char>| #[trigger]
            self.positions@.contains_key(name) ==> self.positions@[name] < self.groups@.len()
                && defined_names(definitions)[self.positions@[name] as int] == name
    }

    fn new() -> (r: Self)
        ensures
            r.holds(Seq::empty()),
    {
        DefinitionTable { groups: Vec::new(), positions: StringHashMap::new() }
    }

    /// Adds a definition to its group, and the group where there is none yet.
    fn add(
        &mut self,
        name: &'a String,
        subgraph: &'a String,
        kind: TypeKind,
        Ghost(before): Ghost<Seq<Definition>>,
    )
        requires
            old(self).holds(before),
        ensures
            final(self).holds(
                before.push(Definition { name: name@, subgraph: subgraph@, kind }),
            ),
    {
        let ghost new = Definition { name: name@, subgraph: subgraph@, kind };
        let ghost after = before.push(new);
        let ghost names = defined_names(before);
        proof {
            assert(after.drop_last() =~= before);
            lemma_defined_names(before);
        }
        let known: Option<usize> = match self.positions.get(name.as_str()) {
            Some(position) => Some(*position),
            None => None,
        };
        match known {
            Some(position) => {
                let ghost groups = self.groups@;
                let group = &mut self.groups[position];
                group.kinds.push((subgraph, kind));
                proof {
                    assert forall|i: int| 0 <= i < self.groups@.len() implies {
                        &&& (#[trigger] self.groups@[i]).name@ == defined_names(after)[i]
                        &&& self.groups@[i].list() == definitions_of(after, self.groups@[i].name@)
                    } by {
                        assert(groups[i].name@ == names[i]);
                        if i == position {
                            assert(self.groups@[i].list() =~= groups[i].list().push(new));
                        } else {
                            assert(names[i] != names[position as int]);
                        }
                    }
                }
            },
            None => {
                let ghost groups = self.groups@;
                self.positions.insert(name.clone(), self.groups.len());
                let mut kinds: Vec<(&'a String, TypeKind)> = Vec::new();
                kinds.push((subgraph, kind));
                self.groups.push(TypeDefinitions { name, kinds });
                proof {
                    lemma_defined_iff_definitions(before, name@);
                    assert forall|i: int| 0 <= i < self.groups@.len() implies {
                        &&& (#[trigger] self.groups@[i]).name@ == defined_names(after)[i]
                        &&& self.groups@[i].list() == definitions_of(after, self.groups@[i].name@)
                    } by {
                        if i < groups.len() {
                            assert(groups[i].name@ == names[i]);
                            assert(names.contains(names[i]));
                        } else {
                            assert(self.groups@[i].list() =~= seq![new]);
                            assert(definitions_of(before, name@).push(new) =~= seq![new]);
                        }
                    }
                    assert forall|n: Seq<char>|
                        names.push(name@).contains(n) <==> (names.contains(n) || n == name@) by {
                        assert(names.push(name@)[names.len() as int] == name@);
                        if names.contains(n) {
                            let k = choose|k: int| 0 <= k < names.len() && names[k] == n;
                            assert(names.push(name@)[k] == n);
                        }
                    }
                }
            },
        }
    }
}

/// No name is listed twice.
proof fn lemma_defined_names(definitions: Seq<Definition>)
    ensures
        forall|i: int, j: int|
            0 <= i < j < defined_names(definitions).len() ==> #[trigger] defined_names(
                definitions,
            )[i] != #[trigger] defined_names(definitions)[j],
    decreases definitions.len(),
{
    if definitions.len() > 0 {
        let before = defined_names(definitions.drop_last());
        lemma_defined_names(definitions.drop_last());
        assert forall|i: int, j: int|
            0 <= i < j < defined_names(definitions).len() implies #[trigger] defined_names(
            definitions,
        )[i] != #[trigger] defined_names(definitions)[j] by {
            assert(before.contains(before[i]));
        }
    }
}

/// A name is listed exactly when it has definitions.
proof fn lemma_defined_iff_definitions(definitions: Seq<Definition>, name: Seq<char>)
    ensures
        defined_names(definitions).contains(name) <==> definitions_of(definitions, name).len() > 0,
    decreases definitions.len(),
{
    if definitions.len() > 0 {
        let before = definitions.drop_last();
        let names = defined_names(before);
        let last = definitions.last().name;
        lemma_defined_iff_definitions(before, name);
        if !names.contains(last) {
            assert(names.push(last)[names.len() as int] == last);
            if names.contains(name) {
                let k = choose|k: int| 0 <= k < names.len() && names[k] == name;
                assert(names.push(last)[k] == name);
            }
        }
    }
}

/// The subgraph defines no type twice.
pub open spec fn defines_once(subgraph: Subgraph<Validated>) -> bool {
    forall|a: int, b: int|
        0 <= a < b < subgraph.entries().len() ==> (#[trigger] subgraph.entries()[a]).0 != (
        #[trigger] subgraph.entries()[b]).0
}

/// Collects the definitions of one subgraph.
fn collect_definitions<'a>(
    subgraph: &'a Subgraph<Validated>,
    table: &mut DefinitionTable<'a>,
    Ghost(before): Ghost<Seq<Definition>>,
)
    requires
        old(table).holds(before),
    ensures
        final(table).holds(before + subgraph_definitions(*subgraph)),
        defines_once(*subgraph),
{
    let types = iter_types(&subgraph.schema().schema().types);
    let ghost entries = subgraph.entries();
    assert forall|a: int, b: int| 0 <= a < b < subgraph.entries().len() implies (
    #[trigger] subgraph.entries()[a]).0 != (#[trigger] subgraph.entries()[b]).0 by {
        assert(types@[a].0@ != types@[b].0@);
    }
    let ghost all = subgraph_definitions(*subgraph);
    let mut i: usize = 0;
    while i < types.len()
        invariant
            i <= types@.len(),
            types@.len() == entries.len(),
            entries == subgraph.entries(),
            all == subgraph_definitions(*subgraph),
            forall|j: int|
                0 <= j < types@.len() ==> entries[j] == ((#[trigger] types@[j]).0@, *types@[j].1),
            table.holds(before + all.take(i as int)),
        decreases types@.len() - i,
    {
        let (name, ty) = types[i];
        table.add(name, &subgraph.name, ty.kind(), Ghost(before + all.take(i as int)));
        assert((before + all.take(i as int)).push(all[i as int]) =~= before + all.take(i + 1));
        i = i + 1;
    }
    assert(all.take(i as int) =~= all);
}

/// Whether the definitions of a type are not all of one kind.
fn kinds_conflict(group: &TypeDefinitions) -> (r: bool)
    ensures
        r == has_conflict(group.list()),
{
    let ghost own = group.list();
    let mut i: usize = 0;
    while i < group.kinds.len()
        invariant
            i <= group.kinds@.len(),
            own == group.list(),
            forall|j: int| 0 <= j < i ==> (#[trigger] own[j]).kind == own[0].kind,
        decreases group.kinds@.len() - i,
    {
        if group.kinds[i].1 != group.kinds[0].1 {
            assert(own[i as int].kind != own[0].kind);
            return true;
        }
        i = i + 1;
    }
    false
}

/// Describes the definitions of a type for the error about their conflict.
fn describe_conflict(group: &TypeDefinitions) -> (r: String)
    ensures
        r@ == comma_separated(
            group.list().map_values(|definition: Definition| conflict_detail(definition)),
        ),
{
    let ghost details = group.list().map_values(
        |definition: Definition| conflict_detail(definition),
    );
    let mut text = String::new();
    let mut i: usize = 0;
    while i < group.kinds.len()
        invariant
            i <= group.kinds@.len(),
            details == group.list().map_values(
                |definition: Definition| conflict_detail(definition),
            ),
            text@ == comma_separated(details.take(i as int)),
        decreases group.kinds@.len() - i,
    {
        let (subgraph, kind) = group.kinds[i];
        let mut detail = "'".to_owned();
        detail.append(subgraph.as_str());
        detail.append("' defines it as ");
        detail.append(kind.name());
        proof {
            assert(detail@ == details[i as int]);
            assert(details.take(i + 1).drop_last() =~= details.take(i as int));
            assert(details.take(i + 1).last() == details[i as int]);
        }
        if i > 0 {
            text.append(", ");
            text.append(detail.as_str());
        } else {
            text = detail;
        }
        i = i + 1;
    }
    assert(details.take(i as int) =~= details);
    text
}

/// Checks that subgraphs which define the same type agree on its kind.
///
/// Several subgraphs may define the same type, but only as the same kind of type.
pub fn validate_type_conflicts_across_subgraphs(
    subgraphs: &[Subgraph<Validated>],
    errors: &mut Vec<CompositionError>,
)
    ensures
        error::error_views(final(errors)@) == error::error_views(old(errors)@) + conflict_errors(
            subgraphs@,
        ),
        forall|i: int| 0 <= i < subgraphs@.len() ==> defines_once(#[trigger] subgraphs@[i]),
        subgraphs@.len() < 2 ==> error::error_views(final(errors)@) == error::error_views(
            old(errors)@,
        ),
{
    // First pass: collect the kinds of every type.
    let mut table = DefinitionTable::new();
    let ghost per_subgraph = |subgraph: Subgraph<Validated>| subgraph_definitions(subgraph);
    let mut i: usize = 0;
    while i < subgraphs.len()
        invariant
            i <= subgraphs@.len(),
            per_subgraph == |subgraph: Subgraph<Validated>| subgraph_definitions(subgraph),
            forall|j: int| 0 <= j < i ==> defines_once(#[trigger] subgraphs@[j]),
            table.holds(sequences::concat_map(subgraphs@.take(i as int), per_subgraph)),
        decreases subgraphs@.len() - i,
    {
        proof {
            sequences::lemma_concat_map_take(subgraphs@, per_subgraph, i as int);
        }
        collect_definitions(
            &subgraphs[i],
            &mut table,
            Ghost(sequences::concat_map(subgraphs@.take(i as int), per_subgraph)),
        );
        i = i + 1;
    }
    assert(subgraphs@.take(i as int) =~= subgraphs@);

    // Second pass: look for conflicts.
    let groups = table.groups;
    let ghost all = definitions(subgraphs@);
    let ghost names = defined_names(all);
    let ghost per_name = |name: Seq<char>| conflict_errors_of(all, name);
    let mut k: usize = 0;
    while k < groups.len()
        invariant
            k <= groups@.len(),
            groups@.len() == names.len(),
            forall|j: int|
                0 <= j < groups@.len() ==> {
                    &&& (#[trigger] groups@[j]).name@ == names[j]
                    &&& groups@[j].list() == definitions_of(all, groups@[j].name@)
                },
            per_name == |name: Seq<char>| conflict_errors_of(all, name),
            error::error_views(errors@) == error::error_views(old(errors)@)
                + sequences::concat_map(names.take(k as int), per_name),
        decreases groups@.len() - k,
    {
        proof {
            sequences::lemma_concat_map_take(names, per_name, k as int);
        }
        let group = &groups[k];
        if kinds_conflict(group) {
            let mut message = "Type '".to_owned();
            message.append(group.name.as_str());
            message.append("' has conflicting definitions across subgraphs: ");
            message.append(describe_conflict(group).as_str());
            report_invalid(errors, message);
        }
        k = k + 1;
    }
    assert(names.take(k as int) =~= names);
    proof {
        conflicts_are_between_subgraphs(subgraphs@);
        if subgraphs@.len() < 2 {
            assert(conflict_errors(subgraphs@) =~= Seq::empty());
        }
    }
}

/// Types of the same name are of the same kind, in whatever subgraphs they are defined.
pub open spec fn kinds_agree(subgraphs: Seq<Subgraph<Validated>>) -> bool {
    forall|i: int, j: int, a: int, b: int|
        0 <= i < subgraphs.len() && 0 <= j < subgraphs.len() && 0 <= a
            < subgraphs[i].entries().len() && 0 <= b < subgraphs[j].entries().len()
            && subgraphs[i].entries()[a].0 == subgraphs[j].entries()[b].0 ==> (
        #[trigger] subgraphs[i].entries()[a]).1.kind_spec() == (
        #[trigger] subgraphs[j].entries()[b]).1.kind_spec()
}

/// The definitions of `name` are those definitions that have that name.
proof fn lemma_definitions_of(definitions: Seq<Definition>, name: Seq<char>, d: Definition)
    ensures
        definitions_of(definitions, name).contains(d) <==> definitions.contains(d) && d.name
            == name,
    decreases definitions.len(),
{
    if definitions.len() > 0 {
        let before = definitions.drop_last();
        let own = definitions_of(before, name);
        lemma_definitions_of(before, name, d);
        assert(definitions.last() == definitions[definitions.len() - 1]);
        if before.contains(d) {
            let k = choose|k: int| 0 <= k < before.len() && before[k] == d;
            assert(definitions[k] == d);
        }
        if definitions.contains(d) && d != definitions.last() {
            let k = choose|k: int| 0 <= k < definitions.len() && definitions[k] == d;
            assert(before[k] == d);
        }
        if definitions.last().name == name {
            let pushed = own.push(definitions.last());
            assert(pushed[own.len() as int] == definitions.last());
            if own.contains(d) {
                let k = choose|k: int| 0 <= k < own.len() && own[k] == d;
                assert(pushed[k] == d);
            }
            if pushed.contains(d) && d != definitions.last() {
                let k = choose|k: int| 0 <= k < pushed.len() && pushed[k] == d;
                assert(own[k] == d);
            }
        }
    }
}

/// A definition is made by an entry of a subgraph.
proof fn lemma_definition_source(subgraphs: Seq<Subgraph<Validated>>, d: Definition) -> (r: (
    int,
    int,
))
    requires
        definitions(subgraphs).contains(d),
    ensures
        0 <= r.0 < subgraphs.len(),
        0 <= r.1 < subgraphs[r.0].entries().len(),
        d == definition(subgraphs[r.0].name@, subgraphs[r.0].entries()[r.1]),
{
    let per_subgraph = |subgraph: Subgraph<Validated>| subgraph_definitions(subgraph);
    let i = sequences::lemma_concat_map_source(subgraphs, per_subgraph, d);
    let own = subgraph_definitions(subgraphs[i]);
    let a = choose|a: int| 0 <= a < own.len() && own[a] == d;
    (i, a)
}

/// An entry of a subgraph makes a definition.
proof fn lemma_definition_listed(subgraphs: Seq<Subgraph<Validated>>, i: int, a: int)
    requires
        0 <= i < subgraphs.len(),
        0 <= a < subgraphs[i].entries().len(),
    ensures
        definitions(subgraphs).contains(
            definition(subgraphs[i].name@, subgraphs[i].entries()[a]),
        ),
{
    let per_subgraph = |subgraph: Subgraph<Validated>| subgraph_definitions(subgraph);
    let d = definition(subgraphs[i].name@, subgraphs[i].entries()[a]);
    let own = subgraph_definitions(subgraphs[i]);
    assert(own[a] == d);
    assert(per_subgraph(subgraphs[i]).contains(d));
    sequences::lemma_concat_map_contains(subgraphs, per_subgraph, i, d);
}

/// There is no error for conflicting definitions exactly when types of the same name are of the
/// same kind in all subgraphs.
pub proof fn conflict_errors_complete(subgraphs: Seq<Subgraph<Validated>>)
    ensures
        conflict_errors(subgraphs).len() == 0 <==> kinds_agree(subgraphs),
{
    let all = definitions(subgraphs);
    let names = defined_names(all);
    let per_name = |name: Seq<char>| conflict_errors_of(all, name);
    sequences::lemma_concat_map_empty(names, per_name);
    if conflict_errors(subgraphs).len() == 0 {
        assert forall|i: int, j: int, a: int, b: int|
            0 <= i < subgraphs.len() && 0 <= j < subgraphs.len() && 0 <= a
                < subgraphs[i].entries().len() && 0 <= b < subgraphs[j].entries().len()
                && subgraphs[i].entries()[a].0 == subgraphs[j].entries()[b].0 implies (
        #[trigger] subgraphs[i].entries()[a]).1.kind_spec() == (
        #[trigger] subgraphs[j].entries()[b]).1.kind_spec() by {
            let name = subgraphs[i].entries()[a].0;
            let own = definitions_of(all, name);
            let x = definition(subgraphs[i].name@, subgraphs[i].entries()[a]);
            let y = definition(subgraphs[j].name@, subgraphs[j].entries()[b]);
            lemma_definition_listed(subgraphs, i, a);
            lemma_definition_listed(subgraphs, j, b);
            lemma_definitions_of(all, name, x);
            lemma_definitions_of(all, name, y);
            lemma_defined_iff_definitions(all, name);
            let p = choose|p: int| 0 <= p < own.len() && own[p] == x;
            let q = choose|q: int| 0 <= q < own.len() && own[q] == y;
            let k = choose|k: int| 0 <= k < names.len() && names[k] == name;
            assert(per_name(names[k]).len() == 0);
            assert(!has_conflict(own));
            assert(own[p].kind == own[0].kind);
            assert(own[q].kind == own[0].kind);
        }
    }
    if kinds_agree(subgraphs) {
        assert forall|k: int| 0 <= k < names.len() implies (#[trigger] per_name(names[k])).len()
            == 0 by {
            let own = definitions_of(all, names[k]);
            assert forall|p: int| 0 <= p < own.len() implies (#[trigger] own[p]).kind
                == own[0].kind by {
                assert(own.contains(own[p]));
                assert(own.contains(own[0]));
                lemma_definitions_of(all, names[k], own[p]);
                lemma_definitions_of(all, names[k], own[0]);
                let (i, a) = lemma_definition_source(subgraphs, own[p]);
                let (j, b) = lemma_definition_source(subgraphs, own[0]);
                assert(subgraphs[i].entries()[a].0 == subgraphs[j].entries()[b].0);
            }
        }
    }
}

/// Where a type is defined as different kinds, its definitions are reported.
pub proof fn conflict_is_reported(
    subgraphs: Seq<Subgraph<Validated>>,
    i: int,
    a: int,
    j: int,
    b: int,
)
    requires
        0 <= i < subgraphs.len(),
        0 <= j < subgraphs.len(),
        0 <= a < subgraphs[i].entries().len(),
        0 <= b < subgraphs[j].entries().len(),
        subgraphs[i].entries()[a].0 == subgraphs[j].entries()[b].0,
        subgraphs[i].entries()[a].1.kind_spec() != subgraphs[j].entries()[b].1.kind_spec(),
    ensures
        conflict_errors(subgraphs).contains(
            conflicting_definitions(
                subgraphs[i].entries()[a].0,
                definitions_of(definitions(subgraphs), subgraphs[i].entries()[a].0),
            ),
        ),
{
    let all = definitions(subgraphs);
    let name = subgraphs[i].entries()[a].0;
    let own = definitions_of(all, name);
    let x = definition(subgraphs[i].name@, subgraphs[i].entries()[a]);
    let y = definition(subgraphs[j].name@, subgraphs[j].entries()[b]);
    lemma_definition_listed(subgraphs, i, a);
    lemma_definition_listed(subgraphs, j, b);
    lemma_definitions_of(all, name, x);
    lemma_definitions_of(all, name, y);
    lemma_defined_iff_definitions(all, name);
    let p = choose|p: int| 0 <= p < own.len() && own[p] == x;
    let q = choose|q: int| 0 <= q < own.len() && own[q] == y;
    assert(own[p].kind != own[0].kind || own[q].kind != own[0].kind);
    let names = defined_names(all);
    let k = choose|k: int| 0 <= k < names.len() && names[k] == name;
    let e = conflicting_definitions(name, own);
    assert(conflict_errors_of(all, name)[0] == e);
    sequences::lemma_concat_map_contains(
        names,
        |name: Seq<char>| conflict_errors_of(all, name),
        k,
        e,
    );
}

/// Types of the same name in different subgraphs are of the same kind.
pub open spec fn kinds_agree_between(subgraphs: Seq<Subgraph<Validated>>) -> bool {
    forall|i: int, j: int, a: int, b: int|
        0 <= i < j < subgraphs.len() && 0 <= a < subgraphs[i].entries().len() && 0 <= b
            < subgraphs[j].entries().len() && subgraphs[i].entries()[a].0
            == subgraphs[j].entries()[b].0 ==> (#[trigger] subgraphs[i].entries()[a]).1.kind_spec()
            == (#[trigger] subgraphs[j].entries()[b]).1.kind_spec()
}

/// Where no subgraph defines a type twice, a conflict is one between two subgraphs.
pub proof fn conflicts_are_between_subgraphs(subgraphs: Seq<Subgraph<Validated>>)
    requires
        forall|i: int| 0 <= i < subgraphs.len() ==> defines_once(#[trigger] subgraphs[i]),
    ensures
        conflict_errors(subgraphs).len() == 0 <==> kinds_agree_between(subgraphs),
{
    conflict_errors_complete(subgraphs);
    if kinds_agree_between(subgraphs) {
        assert forall|i: int, j: int, a: int, b: int|
            0 <= i < subgraphs.len() && 0 <= j < subgraphs.len() && 0 <= a
                < subgraphs[i].entries().len() && 0 <= b < subgraphs[j].entries().len()
                && subgraphs[i].entries()[a].0 == subgraphs[j].entries()[b].0 implies (
        #[trigger] subgraphs[i].entries()[a]).1.kind_spec() == (
        #[trigger] subgraphs[j].entries()[b]).1.kind_spec() by {
            assert(defines_once(subgraphs[i]));
        }
    }
}

/// The errors are one for each name with a conflict, and no name is among those names twice.
pub proof fn each_conflicting_name_is_reported_once(subgraphs: Seq<Subgraph<Validated>>)
    ensures
        ({
            let all = definitions(subgraphs);
            let conflicting = defined_names(all).filter(
                |name: Seq<char>| has_conflict(definitions_of(all, name)),
            );
            &&& conflicting.no_duplicates()
            &&& conflict_errors(subgraphs) == conflicting.map_values(
                |name: Seq<char>| conflicting_definitions(name, definitions_of(all, name)),
            )
        }),
{
    let all = definitions(subgraphs);
    lemma_defined_names(all);
    lemma_conflicts_of(all, defined_names(all));
}

proof fn lemma_conflicts_of(all: Seq<Definition>, names: Seq<Seq<char>>)
    requires
        names.no_duplicates(),
    ensures
        ({
            let conflicting = names.filter(
                |name: Seq<char>| has_conflict(definitions_of(all, name)),
            );
            &&& conflicting.no_duplicates()
            &&& forall|name: Seq<char>| conflicting.contains(name) ==> names.contains(name)
            &&& sequences::concat_map(names, |name: Seq<char>| conflict_errors_of(all, name))
                == conflicting.map_values(
                |name: Seq<char>| conflicting_definitions(name, definitions_of(all, name)),
            )
        }),
    decreases names.len(),
{
    reveal(Seq::filter);
    let pred = |name: Seq<char>| has_conflict(definitions_of(all, name));
    let f = |name: Seq<char>| conflicting_definitions(name, definitions_of(all, name));
    let g = |name: Seq<char>| conflict_errors_of(all, name);
    if names.len() == 0 {
        assert(sequences::concat_map(names, g) =~= names.filter(pred).map_values(f));
    } else {
        let before = names.drop_last();
        let last = names.last();
        lemma_conflicts_of(all, before);
        let kept = before.filter(pred);
        assert forall|name: Seq<char>| names.filter(pred).contains(name) implies names.contains(
            name,
        ) by {
            if name == last {
                assert(names[names.len() - 1] == name);
            } else {
                let k = choose|k: int|
                    0 <= k < names.filter(pred).len() && names.filter(pred)[k] == name;
                assert(kept[k] == name);
                assert(kept.contains(name));
                let m = choose|m: int| 0 <= m < before.len() && before[m] == name;
                assert(names[m] == name);
            }
        }
        if pred(last) {
            assert(!kept.contains(last)) by {
                if kept.contains(last) {
                    assert(before.contains(last));
                    let m = choose|m: int| 0 <= m < before.len() && before[m] == last;
                    assert(names[m] == names[names.len() - 1]);
                }
            }
            assert forall|i: int, j: int|
                0 <= i < kept.push(last).len() && 0 <= j < kept.push(last).len() && i
                    != j implies kept.push(last)[i] != kept.push(last)[j] by {
                if i < kept.len() {
                    assert(kept.contains(kept[i]));
                }
                if j < kept.len() {
                    assert(kept.contains(kept[j]));
                }
            }
        }
        assert(sequences::concat_map(names, g) =~= names.filter(pred).map_values(f));
    }
}

/// There is no conflict exactly when any two definitions of one name, in whatever subgraphs, are the
/// same variant.
pub proof fn no_conflict_iff_same_variants(subgraphs: Seq<Subgraph<Validated>>)
    ensures
        conflict_errors(subgraphs).len() == 0 <==> forall|
            i: int,
            j: int,
            name: Seq<char>,
            x: ExtendedType,
            y: ExtendedType,
        |
            0 <= i < subgraphs.len() && 0 <= j < subgraphs.len()
                && #[trigger] collections::type_entries(
                subgraphs[i].state.schema.schema.types,
            ).contains((name, x)) && #[trigger] collections::type_entries(
                subgraphs[j].state.schema.schema.types,
            ).contains((name, y)) ==> {
                ||| x is Scalar && y is Scalar
                ||| x is Object && y is Object
                ||| x is Interface && y is Interface
                ||| x is Union && y is Union
                ||| x is Enum && y is Enum
                ||| x is InputObject && y is InputObject
            },
{
    conflict_errors_complete(subgraphs);
    if kinds_agree(subgraphs) {
        assert forall|
            i: int,
            j: int,
            name: Seq<char>,
            x: ExtendedType,
            y: ExtendedType,
        |
            0 <= i < subgraphs.len() && 0 <= j < subgraphs.len()
                && #[trigger] collections::type_entries(
                subgraphs[i].state.schema.schema.types,
            ).contains((name, x)) && #[trigger] collections::type_entries(
                subgraphs[j].state.schema.schema.types,
            ).contains((name, y)) implies {
                ||| x is Scalar && y is Scalar
                ||| x is Object && y is Object
                ||| x is Interface && y is Interface
                ||| x is Union && y is Union
                ||| x is Enum && y is Enum
                ||| x is InputObject && y is InputObject
            } by {
            let a = choose|a: int|
                0 <= a < subgraphs[i].entries().len() && subgraphs[i].entries()[a] == (name, x);
            let b = choose|b: int|
                0 <= b < subgraphs[j].entries().len() && subgraphs[j].entries()[b] == (name, y);
            assert(subgraphs[i].entries()[a].1.kind_spec()
                == subgraphs[j].entries()[b].1.kind_spec());
            schema::same_kind_iff_same_variant(x, y);
        }
    }
    if forall|
            i: int,
            j: int,
            name: Seq<char>,
            x: ExtendedType,
            y: ExtendedType,
        |
            0 <= i < subgraphs.len() && 0 <= j < subgraphs.len()
                && #[trigger] collections::type_entries(
                subgraphs[i].state.schema.schema.types,
            ).contains((name, x)) && #[trigger] collections::type_entries(
                subgraphs[j].state.schema.schema.types,
            ).contains((name, y)) ==> {
                ||| x is Scalar && y is Scalar
                ||| x is Object && y is Object
                ||| x is Interface && y is Interface
                ||| x is Union && y is Union
                ||| x is Enum && y is Enum
                ||| x is InputObject && y is InputObject
            } {
        assert forall|i: int, j: int, a: int, b: int|
            0 <= i < subgraphs.len() && 0 <= j < subgraphs.len() && 0 <= a
                < subgraphs[i].entries().len() && 0 <= b < subgraphs[j].entries().len()
                && subgraphs[i].entries()[a].0 == subgraphs[j].entries()[b].0 implies (
        #[trigger] subgraphs[i].entries()[a]).1.kind_spec() == (
        #[trigger] subgraphs[j].entries()[b]).1.kind_spec() by {
            let (name, x) = subgraphs[i].entries()[a];
            let y = subgraphs[j].entries()[b].1;
            assert(collections::type_entries(subgraphs[i].state.schema.schema.types).contains(
                (name, x),
            ));
            assert(collections::type_entries(subgraphs[j].state.schema.schema.types).contains(
                (name, y),
            ));
            schema::same_kind_iff_same_variant(x, y);
        }
    }
}

/// The definitions of all subgraphs are one for each of their types, subgraph by subgraph, in
/// document order.
pub proof fn definitions_are_those_of_the_types(subgraphs: Seq<Subgraph<Validated>>)
    ensures
        definitions(subgraphs) == subgraphs.map_values(
            |subgraph: Subgraph<Validated>|
                collections::type_entries(subgraph.state.schema.schema.types).map_values(
                    |entry: (Seq<char>, ExtendedType)|
                        (Definition {
                            name: entry.0,
                            subgraph: subgraph.name@,
                            kind: entry.1.kind_spec(),
                        }),
                ),
        ).flatten(),
{
    let f = |subgraph: Subgraph<Validated>| subgraph_definitions(subgraph);
    let g = |subgraph: Subgraph<Validated>|
        collections::type_entries(subgraph.state.schema.schema.types).map_values(
            |entry: (Seq<char>, ExtendedType)|
                (Definition {
                    name: entry.0,
                    subgraph: subgraph.name@,
                    kind: entry.1.kind_spec(),
                }),
        );
    assert forall|subgraph: Subgraph<Validated>| #[trigger] f(subgraph) == g(subgraph) by {
        assert(f(subgraph) =~= g(subgraph));
    }
    sequences::concat_map_flattens(subgraphs, f);
    assert(subgraphs.map_values(f) =~= subgraphs.map_values(g));
}

/// The definitions of a type are those with its name, in order.
pub proof fn definitions_of_a_type_have_its_name(all: Seq<Definition>, name: Seq<char>)
    ensures
        definitions_of(all, name) == all.filter(|d: Definition| d.name == name),
    decreases all.len(),
{
    reveal(Seq::filter);
    if all.len() > 0 {
        definitions_of_a_type_have_its_name(all.drop_last(), name);
    }
    assert(definitions_of(all, name) =~= all.filter(|d: Definition| d.name == name));
}

/// One more definition adds its name at the end, unless a definition before it has that name.
pub proof fn names_are_listed_where_they_first_occur(before: Seq<Definition>, new: Definition)
    ensures
        defined_names(Seq::empty()).len() == 0,
        defined_names(before.push(new)) == if exists|k: int|
            0 <= k < before.len() && (#[trigger] before[k]).name == new.name {
            defined_names(before)
        } else {
            defined_names(before).push(new.name)
        },
{
    assert(before.push(new).drop_last() =~= before);
    lemma_defined_iff_definitions(before, new.name);
    let own = definitions_of(before, new.name);
    if own.len() > 0 {
        lemma_definitions_of(before, new.name, own[0]);
        assert(own.contains(own[0]));
    }
    if exists|k: int| 0 <= k < before.len() && (#[trigger] before[k]).name == new.name {
        let k = choose|k: int| 0 <= k < before.len() && (#[trigger] before[k]).name == new.name;
        lemma_definitions_of(before, new.name, before[k]);
        assert(before.contains(before[k]));
        assert(own.contains(before[k]));
    }
}

/// Definitions conflict exactly when two of them are of different kinds.
pub proof fn conflict_is_between_two_definitions(own: Seq<Definition>)
    ensures
        has_conflict(own) <==> exists|p: int, q: int|
            0 <= p < own.len() && 0 <= q < own.len() && (#[trigger] own[p]).kind != (
            #[trigger] own[q]).kind,
{
    if has_conflict(own) {
        let p = choose|p: int| 0 <= p < own.len() && (#[trigger] own[p]).kind != own[0].kind;
        assert(own[p].kind != own[0].kind);
    }
}

/// Parts are put one after the other, with a comma and a space between two of them.
pub proof fn parts_are_separated_by_commas(parts: Seq<Seq<char>>, part: Seq<char>)
    ensures
        comma_separated(Seq::empty()).len() == 0,
        comma_separated(seq![part]) == part,
        parts.len() > 0 ==> comma_separated(parts.push(part)) == comma_separated(parts) + seq![
            ',',
            ' ',
        ] + part,
{
    reveal_strlit(", ");
    assert(", "@ =~= seq![',', ' ']);
    assert(parts.push(part).drop_last() =~= parts);
}

/// The error for a conflict names the type, and describes each of its definitions: which subgraph
/// makes it, and as what.
pub proof fn conflict_describes_each_definition(name: Seq<char>, own: Seq<Definition>)
    ensures
        conflicting_definitions(name, own) == (ErrorView::TypeDefinitionInvalid {
            message: "Type '"@ + name + "' has conflicting definitions across subgraphs: "@
                + comma_separated(
                own.map_values(
                    |d: Definition| "'"@ + d.subgraph + "' defines it as "@ + d.kind.name_spec(),
                ),
            ),
        }),
{
    assert(own.map_values(|d: Definition| conflict_detail(d)) =~= own.map_values(
        |d: Definition| "'"@ + d.subgraph + "' defines it as "@ + d.kind.name_spec(),
    ));
}

} // verus!
