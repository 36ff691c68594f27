//! Sequence functions that the specifications are written with.

use vstd::prelude::*;

verus! {

/// The concatenation of `f(s[0])`, `f(s[1])`, and so on.
pub open spec fn concat_map<A, B>(s: Seq<A>, f: spec_fn(A) -> Seq<B>) -> Seq<B>
    decreases s.len(),
{
    if s.len() == 0 {
        Seq::empty()
    } else {
        concat_map(s.drop_last(), f) + f(s.last())
    }
}

/// The value of the first entry of `entries` whose key is `key`.
pub open spec fn lookup<V>(entries: Seq<(Seq<char>, V)>, key: Seq<char>) -> Option<V>
    decreases entries.len(),
{
    if entries.len() == 0 {
        None
    } else if entries[0].0 == key {
        Some(entries[0].1)
    } else {
        lookup(entries.drop_first(), key)
    }
}

/// Mapping one more element appends what `f` makes of it.
pub proof fn lemma_concat_map_take<A, B>(s: Seq<A>, f: spec_fn(A) -> Seq<B>, i: int)
    requires
        0 <= i < s.len(),
    ensures
        concat_map(s.take(i + 1), f) == concat_map(s.take(i), f) + f(s[i]),
{
    assert(s.take(i + 1).drop_last() =~= s.take(i));
}

/// What `f` makes of an element is part of the concatenation.
pub proof fn lemma_concat_map_contains<A, B>(s: Seq<A>, f: spec_fn(A) -> Seq<B>, i: int, b: B)
    requires
        0 <= i < s.len(),
        f(s[i]).contains(b),
    ensures
        concat_map(s, f).contains(b),
    decreases s.len(),
{
    let head = concat_map(s.drop_last(), f);
    let tail = f(s.last());
    if i == s.len() - 1 {
        let j = choose|j: int| 0 <= j < tail.len() && tail[j] == b;
        assert((head + tail)[head.len() + j] == b);
    } else {
        lemma_concat_map_contains(s.drop_last(), f, i, b);
        let j = choose|j: int| 0 <= j < head.len() && head[j] == b;
        assert((head + tail)[j] == b);
    }
}

/// Everything in the concatenation comes from an element.
pub proof fn lemma_concat_map_source<A, B>(s: Seq<A>, f: spec_fn(A) -> Seq<B>, b: B) -> (i: int)
    requires
        concat_map(s, f).contains(b),
    ensures
        0 <= i < s.len(),
        f(s[i]).contains(b),
    decreases s.len(),
{
    let head = concat_map(s.drop_last(), f);
    let tail = f(s.last());
    let k = choose|k: int| 0 <= k < (head + tail).len() && (head + tail)[k] == b;
    if k < head.len() {
        assert(head[k] == b);
        lemma_concat_map_source(s.drop_last(), f, b)
    } else {
        assert(tail[k - head.len()] == b);
        s.len() - 1
    }
}

/// The concatenation is empty exactly when `f` makes nothing of any element.
pub proof fn lemma_concat_map_empty<A, B>(s: Seq<A>, f: spec_fn(A) -> Seq<B>)
    ensures
        concat_map(s, f).len() == 0 <==> forall|i: int|
            0 <= i < s.len() ==> (#[trigger] f(s[i])).len() == 0,
    decreases s.len(),
{
    if s.len() > 0 {
        let rest = s.drop_last();
        lemma_concat_map_empty(rest, f);
        if concat_map(s, f).len() == 0 {
            assert forall|i: int| 0 <= i < s.len() implies (#[trigger] f(s[i])).len() == 0 by {
                if i < rest.len() {
                    assert(s[i] == rest[i]);
                    assert(f(rest[i]).len() == 0);
                }
            }
        }
        if forall|i: int| 0 <= i < s.len() ==> (#[trigger] f(s[i])).len() == 0 {
            assert forall|i: int| 0 <= i < rest.len() implies (#[trigger] f(rest[i])).len()
                == 0 by {
                assert(f(s[i]).len() == 0);
            }
            assert(f(s[s.len() - 1]).len() == 0);
        }
    }
}

/// `lookup` finds nothing exactly when no entry has the key, and what it finds is an entry.
pub proof fn lemma_lookup<V>(entries: Seq<(Seq<char>, V)>, key: Seq<char>)
    ensures
        lookup(entries, key) is None <==> forall|i: int|
            0 <= i < entries.len() ==> (#[trigger] entries[i]).0 != key,
        lookup(entries, key) matches Some(v) ==> exists|i: int|
            0 <= i < entries.len() && #[trigger] entries[i] == (key, v),
    decreases entries.len(),
{
    if entries.len() > 0 {
        let rest = entries.drop_first();
        lemma_lookup(rest, key);
        if entries[0].0 == key {
            assert(entries[0] == (key, entries[0].1));
        } else {
            assert forall|i: int| 0 <= i < rest.len() implies #[trigger] rest[i] == entries[i
                + 1] by {}
            if lookup(rest, key) is None {
                assert forall|i: int| 0 <= i < entries.len() implies (#[trigger] entries[i]).0
                    != key by {
                    if i > 0 {
                        assert(rest[i - 1] == entries[i]);
                    }
                }
            } else {
                let v = lookup(rest, key)->0;
                let i = choose|i: int| 0 <= i < rest.len() && #[trigger] rest[i] == (key, v);
                assert(entries[i + 1] == (key, v));
            }
        }
    }
}

/// Mapping two sequences side by side is mapping the one and then the other.
pub proof fn lemma_concat_map_add<A, B>(a: Seq<A>, b: Seq<A>, f: spec_fn(A) -> Seq<B>)
    ensures
        concat_map(a + b, f) == concat_map(a, f) + concat_map(b, f),
    decreases b.len(),
{
    if b.len() == 0 {
        assert(a + b =~= a);
        assert(concat_map(a, f) + concat_map(b, f) =~= concat_map(a, f));
    } else {
        assert((a + b).drop_last() =~= a + b.drop_last());
        lemma_concat_map_add(a, b.drop_last(), f);
        assert(concat_map(a + b, f) =~= concat_map(a, f) + concat_map(b, f));
    }
}

/// Mapping and concatenating is mapping, and then flattening what came out.
pub proof fn concat_map_flattens<A, B>(s: Seq<A>, f: spec_fn(A) -> Seq<B>)
    ensures
        concat_map(s, f) == s.map_values(f).flatten(),
    decreases s.len(),
{
    let mapped = s.map_values(f);
    mapped.lemma_flatten_and_flatten_alt_are_equivalent();
    if s.len() > 0 {
        concat_map_flattens(s.drop_last(), f);
        assert(mapped.drop_last() =~= s.drop_last().map_values(f));
        mapped.drop_last().lemma_flatten_and_flatten_alt_are_equivalent();
        assert(mapped.last() == f(s.last()));
    }
}

/// Where `f` makes one thing of the elements that `keep` holds of, and nothing of the others,
/// mapping and concatenating is filtering and mapping.
pub proof fn concat_map_filters<A, B>(
    s: Seq<A>,
    f: spec_fn(A) -> Seq<B>,
    keep: spec_fn(A) -> bool,
    g: spec_fn(A) -> B,
)
    requires
        forall|i: int|
            0 <= i < s.len() ==> #[trigger] f(s[i]) == if keep(s[i]) {
                seq![g(s[i])]
            } else {
                Seq::empty()
            },
    ensures
        concat_map(s, f) == s.filter(keep).map_values(g),
    decreases s.len(),
{
    reveal(Seq::filter);
    if s.len() > 0 {
        let before = s.drop_last();
        assert forall|i: int| 0 <= i < before.len() implies #[trigger] f(before[i]) == if keep(
            before[i],
        ) {
            seq![g(before[i])]
        } else {
            Seq::empty()
        } by {
            assert(before[i] == s[i]);
            assert(f(s[i]) == f(before[i]));
        }
        concat_map_filters(before, f, keep, g);
        assert(f(s[s.len() - 1]) == f(s.last()));
    }
    assert(concat_map(s, f) =~= s.filter(keep).map_values(g));
}

/// `lookup` finds the value of the first entry with the key, and nothing only where there is none.
pub proof fn lookup_finds_first<V>(entries: Seq<(Seq<char>, V)>, key: Seq<char>)
    ensures
        lookup(entries, key) is None <==> forall|i: int|
            0 <= i < entries.len() ==> (#[trigger] entries[i]).0 != key,
        forall|i: int|
            0 <= i < entries.len() && (#[trigger] entries[i]).0 == key && (forall|j: int|
                0 <= j < i ==> (#[trigger] entries[j]).0 != key) ==> lookup(entries, key) == Some(
                entries[i].1,
            ),
    decreases entries.len(),
{
    lemma_lookup(entries, key);
    if entries.len() > 0 {
        let rest = entries.drop_first();
        lookup_finds_first(rest, key);
        assert forall|i: int|
            0 <= i < entries.len() && (#[trigger] entries[i]).0 == key && (forall|j: int|
                0 <= j < i ==> (#[trigger] entries[j]).0 != key) implies lookup(entries, key)
            == Some(entries[i].1) by {
            if i > 0 {
                assert(entries[0].0 != key);
                assert(rest[i - 1] == entries[i]);
                assert forall|j: int| 0 <= j < i - 1 implies (#[trigger] rest[j]).0 != key by {
                    assert(entries[j + 1] == rest[j]);
                }
            }
        }
    }
}

} // verus!
