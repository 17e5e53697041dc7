//! Cutting a string into the fields that a separator character delimits.

use vstd::prelude::*;

verus! {

/// Where the first `sep` stands in `s`; the length of `s` if it has none.
pub open spec fn first_sep(s: Seq<char>, sep: char) -> int
    decreases s.len(),
{
    if s.len() == 0 {
        0
    } else if s[0] == sep {
        0
    } else {
        1 + first_sep(s.drop_first(), sep)
    }
}

/// The fields of `s`: the stretches between separators, in order. A string
/// with `n` separators has `n + 1` fields, some of them possibly empty.
pub open spec fn split(s: Seq<char>, sep: char) -> Seq<Seq<char>>
    decreases s.len(),
    via split_decreases
{
    let i = first_sep(s, sep);
    if i >= s.len() {
        seq![s]
    } else {
        seq![s.take(i)] + split(s.skip(i + 1), sep)
    }
}

#[via_fn]
proof fn split_decreases(s: Seq<char>, sep: char) {
    lemma_first_sep_range(s, sep);
}

pub proof fn lemma_first_sep_range(s: Seq<char>, sep: char)
    ensures
        0 <= first_sep(s, sep) <= s.len(),
    decreases s.len(),
{
    if s.len() > 0 && s[0] != sep {
        lemma_first_sep_range(s.drop_first(), sep);
    }
}

/// `first_sep` is the place of the first separator: nothing before it is one.
pub proof fn lemma_first_sep_is(s: Seq<char>, sep: char, k: int)
    requires
        0 <= k <= s.len(),
        forall|j: int| 0 <= j < k ==> s[j] != sep,
        k < s.len() ==> s[k] == sep,
    ensures
        first_sep(s, sep) == k,
    decreases k,
{
    if k > 0 {
        let t = s.drop_first();
        assert forall|j: int| 0 <= j < k - 1 implies t[j] != sep by {
            assert(t[j] == s[j + 1]);
        }
        lemma_first_sep_is(t, sep, k - 1);
    }
}

/// The start and the end of one field in the string it was cut from.
#[derive(Clone, Copy, Debug, PartialEq, Eq)]
pub struct Span {
    pub start: usize,
    pub end: usize,
}

/// The fields that `spans` cut out of `s`.
pub open spec fn spans_of(s: Seq<char>, spans: Seq<Span>) -> Seq<Seq<char>> {
    Seq::new(spans.len(), |k: int| s.subrange(spans[k].start as int, spans[k].end as int))
}

pub open spec fn spans_in_range(s: Seq<char>, spans: Seq<Span>) -> bool {
    forall|k: int| 0 <= k < spans.len() ==> (#[trigger] spans[k]).start <= spans[k].end <= s.len()
}

/// Each span but the first begins one character behind the end of the span
/// before it: the character between them is the separator.
pub open spec fn spans_adjoin(spans: Seq<Span>) -> bool {
    forall|k: int| 0 < k < spans.len() ==> (#[trigger] spans[k]).start == spans[k - 1].end + 1
}

/// Finds the fields of `v`, as spans of `v`.
pub fn split_spans(v: &Vec<char>, sep: char) -> (spans: Vec<Span>)
    ensures
        spans_in_range(v@, spans@),
        spans_of(v@, spans@) == split(v@, sep),
        spans.len() > 0,
        spans[0].start == 0,
        spans_adjoin(spans@),
        spans[spans.len() - 1].end == v.len(),
{
    let mut spans: Vec<Span> = Vec::new();
    let mut start: usize = 0;
    let mut i: usize = 0;
    proof {
        assert(v@.skip(0) =~= v@);
        assert(spans_of(v@, spans@) + split(v@, sep) =~= split(v@, sep));
    }
    while i < v.len()
        invariant
            start <= i <= v.len(),
            spans_in_range(v@, spans@),
            spans_adjoin(spans@),
            spans.len() == 0 ==> start == 0,
            spans.len() > 0 ==> spans[0].start == 0 && start == spans[spans.len() - 1].end + 1,
            forall|j: int| start <= j < i ==> v@[j] != sep,
            split(v@, sep) == spans_of(v@, spans@) + split(v@.skip(start as int), sep),
        decreases v.len() - i,
    {
        if v[i] == sep {
            proof {
                let rest = v@.skip(start as int);
                lemma_first_sep_is(rest, sep, i - start);
                assert(rest.take(i - start) =~= v@.subrange(start as int, i as int));
                assert(rest.skip(i - start + 1) =~= v@.skip(i + 1));
                let more = spans@.push(Span { start, end: i });
                assert(spans_of(v@, more) =~= spans_of(v@, spans@) + seq![
                    v@.subrange(start as int, i as int),
                ]);
            }
            spans.push(Span { start, end: i });
            start = i + 1;
        }
        i = i + 1;
    }
    proof {
        let rest = v@.skip(start as int);
        lemma_first_sep_is(rest, sep, i - start);
        assert(rest =~= v@.subrange(start as int, i as int));
        let more = spans@.push(Span { start, end: i });
        assert(spans_of(v@, more) =~= spans_of(v@, spans@) + seq![rest]);
    }
    spans.push(Span { start, end: i });
    spans
}

/// The characters of a string, one by one.
pub fn chars_of(s: &str) -> (v: Vec<char>)
    ensures
        v@ == s@,
{
    broadcast use vstd::string::group_string_axioms;

    let mut v: Vec<char> = Vec::new();
    for c in it: s.chars()
        invariant
            it.seq() == s@,
            v@ == s@.take(it.index() as int),
    {
        assert(s@.take(it.index() + 1) =~= s@.take(it.index() as int).push(c));
        v.push(c);
    }
    assert(s@.take(s@.len() as int) =~= s@);
    v
}

} // verus!
