//! The text functions that the checks need, on the characters of a string.

use vstd::prelude::*;

verus! {

/// Whether `c` has the Unicode property `White_Space`.
pub open spec fn is_white_space(c: char) -> bool {
    let u = c as u32;
    ||| 0x9 <= u <= 0xd
    ||| u == 0x20
    ||| u == 0x85
    ||| u == 0xa0
    ||| u == 0x1680
    ||| 0x2000 <= u <= 0x200a
    ||| u == 0x2028
    ||| u == 0x2029
    ||| u == 0x202f
    ||| u == 0x205f
    ||| u == 0x3000
}

/// The maximal runs of `s` without white space, in order.
pub open spec fn words(s: Seq<char>) -> Seq<Seq<char>>
    decreases s.len(),
{
    if s.len() == 0 {
        Seq::empty()
    } else {
        let before = s.drop_last();
        let found = words(before);
        if is_white_space(s.last()) {
            found
        } else if before.len() == 0 || is_white_space(before.last()) {
            found.push(seq![s.last()])
        } else {
            found.drop_last().push(found.last().push(s.last()))
        }
    }
}

/// The characters that may surround a field name in a field set.
pub open spec fn is_field_set_mark(c: char) -> bool {
    c == '{' || c == '}' || c == '"'
}

/// `s` without the marks at its start.
pub open spec fn trim_start_marks(s: Seq<char>) -> Seq<char>
    decreases s.len(),
{
    if s.len() > 0 && is_field_set_mark(s.first()) {
        trim_start_marks(s.drop_first())
    } else {
        s
    }
}

/// `s` without the marks at its end.
pub open spec fn trim_end_marks(s: Seq<char>) -> Seq<char>
    decreases s.len(),
{
    if s.len() > 0 && is_field_set_mark(s.last()) {
        trim_end_marks(s.drop_last())
    } else {
        s
    }
}

/// `s` without the marks at its start and at its end.
pub open spec fn trim_marks(s: Seq<char>) -> Seq<char> {
    trim_end_marks(trim_start_marks(s))
}

/// The views of a list of string slices.
pub open spec fn str_views(s: Seq<&str>) -> Seq<Seq<char>> {
    Seq::new(s.len(), |i: int| s[i]@)
}

/// Whether `c` has the Unicode property `White_Space`.
pub fn white_space(c: char) -> (r: bool)
    ensures
        r == is_white_space(c),
{
    let u: u32 = c as u32;
    (0x9 <= u && u <= 0xd) || u == 0x20 || u == 0x85 || u == 0xa0 || u == 0x1680 || (0x2000 <= u
        && u <= 0x200a) || u == 0x2028 || u == 0x2029 || u == 0x202f || u == 0x205f || u == 0x3000
}

/// The characters of `s`.
fn characters(s: &str) -> (v: Vec<char>)
    ensures
        v@ == s@,
{
    let mut v: Vec<char> = Vec::new();
    for c in it: s.chars()
        invariant
            it.seq() == s@,
            v@ == s@.take(it.index() as int),
    {
        v.push(c);
    }
    v
}

/// Whether `s` starts with `prefix`.
pub fn starts_with(s: &str, prefix: &str) -> (r: bool)
    ensures
        r == prefix@.is_prefix_of(s@),
{
    let n: usize = prefix.unicode_len();
    if s.unicode_len() < n {
        return false;
    }
    let mut i: usize = 0;
    while i < n
        invariant
            i <= n,
            n == prefix@.len(),
            n <= s@.len(),
            forall|j: int| 0 <= j < i ==> prefix@[j] == s@[j],
        decreases n - i,
    {
        if s.get_char(i) != prefix.get_char(i) {
            assert(prefix@[i as int] != s@.subrange(0, n as int)[i as int]);
            return false;
        }
        i = i + 1;
    }
    true
}

/// The words of `s`: its maximal runs without white space, in order.
pub fn split_words<'a>(s: &'a str) -> (r: Vec<&'a str>)
    ensures
        str_views(r@) == words(s@),
        r@.len() == words(s@).len(),
        forall|i: int| 0 <= i < r@.len() ==> (#[trigger] r@[i])@ == words(s@)[i],
{
    let chars = characters(s);
    let mut found: Vec<&'a str> = Vec::new();
    // The start of the word that reaches up to `i`, or `i` itself.
    let mut start: usize = 0;
    let mut i: usize = 0;
    while i < chars.len()
        invariant
            chars@ == s@,
            start <= i <= s@.len(),
            start < i <==> (i > 0 && !is_white_space(s@[i - 1])),
            start == i ==> str_views(found@) == words(s@.take(i as int)),
            start < i ==> str_views(found@).push(s@.subrange(start as int, i as int)) == words(
                s@.take(i as int),
            ),
        decreases s@.len() - i,
    {
        let ghost here = s@.take(i + 1);
        proof {
            assert(here.drop_last() =~= s@.take(i as int));
            assert(here.last() == s@[i as int]);
            if i > 0 {
                assert(here.drop_last().last() == s@[i - 1]);
            }
        }
        if white_space(chars[i]) {
            if start < i {
                let ghost known = found@;
                found.push(s.substring_char(start, i));
                assert(str_views(found@) =~= str_views(known).push(
                    s@.subrange(start as int, i as int),
                ));
            }
            start = i + 1;
        } else {
            proof {
                let word = s@.subrange(start as int, i as int);
                assert(s@.subrange(start as int, i + 1) =~= word.push(s@[i as int]));
                if start < i {
                    assert(str_views(found@).push(word).drop_last() =~= str_views(found@));
                } else {
                    assert(word.push(s@[i as int]) =~= seq![s@[i as int]]);
                }
            }
        }
        i = i + 1;
    }
    assert(s@.take(i as int) =~= s@);
    if start < i {
        let ghost known = found@;
        found.push(s.substring_char(start, i));
        assert(str_views(found@) =~= str_views(known).push(s@.subrange(start as int, i as int)));
    }
    found
}

/// Whether `c` may surround a field name in a field set.
fn field_set_mark(c: char) -> (r: bool)
    ensures
        r == is_field_set_mark(c),
{
    c == '{' || c == '}' || c == '"'
}

/// `s` without the braces and quotes around it.
pub fn trim_field_set_marks<'a>(s: &'a str) -> (r: &'a str)
    ensures
        r@ == trim_marks(s@),
{
    let chars = characters(s);
    let mut from: usize = 0;
    assert(s@.skip(0) =~= s@);
    while from < chars.len() && field_set_mark(chars[from])
        invariant
            chars@ == s@,
            from <= s@.len(),
            trim_start_marks(s@) == trim_start_marks(s@.skip(from as int)),
        decreases s@.len() - from,
    {
        assert(s@.skip(from as int).drop_first() =~= s@.skip(from + 1));
        from = from + 1;
    }
    assert(trim_start_marks(s@) == s@.skip(from as int));
    let mut to: usize = chars.len();
    assert(s@.skip(from as int) =~= s@.subrange(from as int, to as int));
    while from < to && field_set_mark(chars[to - 1])
        invariant
            chars@ == s@,
            from <= to <= s@.len(),
            trim_marks(s@) == trim_end_marks(s@.subrange(from as int, to as int)),
        decreases to,
    {
        assert(s@.subrange(from as int, to as int).drop_last() =~= s@.subrange(
            from as int,
            to - 1,
        ));
        to = to - 1;
    }
    s.substring_char(from, to)
}

/// A text that ends in a word has a word.
proof fn lemma_last_word(s: Seq<char>)
    requires
        s.len() > 0,
        !is_white_space(s.last()),
    ensures
        words(s).len() > 0,
{
}

/// No word is empty, and no word holds white space.
pub proof fn words_are_words(s: Seq<char>)
    ensures
        forall|i: int| 0 <= i < words(s).len() ==> (#[trigger] words(s)[i]).len() > 0,
        forall|i: int, j: int|
            0 <= i < words(s).len() && 0 <= j < words(s)[i].len() ==> !is_white_space(
                #[trigger] words(s)[i][j],
            ),
    decreases s.len(),
{
    if s.len() > 0 {
        let before = s.drop_last();
        let found = words(before);
        words_are_words(before);
        if before.len() > 0 && !is_white_space(before.last()) {
            lemma_last_word(before);
        }
        assert forall|i: int| 0 <= i < words(s).len() implies (#[trigger] words(s)[i]).len() > 0
            && forall|j: int|
            0 <= j < words(s)[i].len() ==> !is_white_space(#[trigger] words(s)[i][j]) by {
            if i < found.len() {
                assert(found[i].len() > 0);
                assert forall|j: int| 0 <= j < words(s)[i].len() implies !is_white_space(
                    #[trigger] words(s)[i][j],
                ) by {
                    if j < found[i].len() {
                        assert(!is_white_space(found[i][j]));
                    }
                }
            }
        }
    }
}

/// A text without white space is one word.
pub proof fn text_without_white_space_is_word(s: Seq<char>)
    requires
        s.len() > 0,
        forall|i: int| 0 <= i < s.len() ==> !is_white_space(#[trigger] s[i]),
    ensures
        words(s) == seq![s],
    decreases s.len(),
{
    let before = s.drop_last();
    if before.len() > 0 {
        assert forall|i: int| 0 <= i < before.len() implies !is_white_space(
            #[trigger] before[i],
        ) by {
            assert(s[i] == before[i]);
        }
        assert(s[before.len() - 1] == before.last());
        text_without_white_space_is_word(before);
        assert(before.push(s.last()) =~= s);
        assert(words(s) =~= seq![s]);
    } else {
        assert(words(before) =~= Seq::empty());
        assert(seq![s.last()] =~= s);
        assert(words(s) =~= seq![s]);
    }
}

/// White space parts words: the words on both sides of it are the words of the whole.
pub proof fn white_space_parts_words(a: Seq<char>, c: char, b: Seq<char>)
    requires
        is_white_space(c),
    ensures
        words(a.push(c) + b) == words(a) + words(b),
        words(Seq::empty()).len() == 0,
    decreases b.len(),
{
    let s = a.push(c) + b;
    if b.len() == 0 {
        assert(s =~= a.push(c));
        assert(s.drop_last() =~= a);
        assert(words(s) =~= words(a) + words(b));
    } else {
        let before = s.drop_last();
        assert(before =~= a.push(c) + b.drop_last());
        assert(s.last() == b.last());
        white_space_parts_words(a, c, b.drop_last());
        if is_white_space(b.last()) {
        } else if b.len() == 1 {
            assert(before.last() == c);
            assert(words(b.drop_last()) =~= Seq::empty());
            assert(words(s) =~= words(a) + words(b));
        } else {
            assert(before.last() == b.drop_last().last());
            if !is_white_space(b.drop_last().last()) {
                lemma_last_word(b.drop_last());
            }
            assert(words(s) =~= words(a) + words(b));
        }
    }
}

/// What marks surround is what is left when marks are trimmed.
pub proof fn trim_removes_surrounding_marks(
    before: Seq<char>,
    core: Seq<char>,
    after: Seq<char>,
)
    requires
        forall|i: int|
            0 <= i < before.len() ==> (#[trigger] before[i] == '{' || before[i] == '}' || before[i]
                == '"'),
        forall|i: int|
            0 <= i < after.len() ==> (#[trigger] after[i] == '{' || after[i] == '}' || after[i]
                == '"'),
        core.len() > 0 ==> core.first() != '{' && core.first() != '}' && core.first() != '"',
        core.len() > 0 ==> core.last() != '{' && core.last() != '}' && core.last() != '"',
    ensures
        trim_marks(before + core + after) == core,
{
    if core.len() > 0 {
        lemma_trim_start(before, core + after);
        assert(before + core + after =~= before + (core + after));
        lemma_trim_end(core, after);
    } else {
        let all = before + core + after;
        lemma_trim_start(all, Seq::empty());
        assert(all + Seq::<char>::empty() =~= all);
        assert(core =~= Seq::empty());
    }
}

proof fn lemma_trim_start(marks: Seq<char>, rest: Seq<char>)
    requires
        forall|i: int| 0 <= i < marks.len() ==> is_field_set_mark(#[trigger] marks[i]),
        rest.len() > 0 ==> !is_field_set_mark(rest.first()),
    ensures
        trim_start_marks(marks + rest) == rest,
    decreases marks.len(),
{
    if marks.len() == 0 {
        assert(marks + rest =~= rest);
    } else {
        assert((marks + rest).drop_first() =~= marks.drop_first() + rest);
        assert((marks + rest).first() == marks[0]);
        lemma_trim_start(marks.drop_first(), rest);
    }
}

proof fn lemma_trim_end(rest: Seq<char>, marks: Seq<char>)
    requires
        forall|i: int| 0 <= i < marks.len() ==> is_field_set_mark(#[trigger] marks[i]),
        rest.len() > 0 ==> !is_field_set_mark(rest.last()),
    ensures
        trim_end_marks(rest + marks) == rest,
    decreases marks.len(),
{
    if marks.len() == 0 {
        assert(rest + marks =~= rest);
    } else {
        assert((rest + marks).drop_last() =~= rest + marks.drop_last());
        assert((rest + marks).last() == marks[marks.len() - 1]);
        lemma_trim_end(rest, marks.drop_last());
    }
}

} // verus!
