//! Small string helpers shared by the identifier model, the header codec
//! and the filter language: conversion between `String` and `Vec<char>`,
//! splitting on a separator character, and joining segments.

use vstd::prelude::*;

verus! {

/// Relies on str::chars: the iterator yields exactly the characters of the
/// string, in order.
#[verifier::external_body]
pub fn chars_of(s: &str) -> (r: Vec<char>)
    ensures
        r@ == s@,
{
    s.chars().collect()
}

/// Relies on String's FromIterator<char> impl: collecting characters builds
/// the string consisting of exactly those characters, in order.
#[verifier::external_body]
pub fn string_from_chars(v: &[char]) -> (r: String)
    ensures
        r@ == v@,
{
    v.iter().collect()
}

/// Splitting a character sequence on a separator, defined over the last
/// character. The result always has at least one segment; separators
/// produce empty segments rather than being collapsed.
pub open spec fn spec_split(s: Seq<char>, sep: char) -> Seq<Seq<char>>
    decreases s.len(),
{
    if s.len() == 0 {
        seq![Seq::<char>::empty()]
    } else if s.last() == sep {
        spec_split(s.drop_last(), sep).push(Seq::<char>::empty())
    } else {
        let r = spec_split(s.drop_last(), sep);
        r.update(r.len() - 1, r.last().push(s.last()))
    }
}

pub proof fn lemma_split_nonempty(s: Seq<char>, sep: char)
    ensures
        spec_split(s, sep).len() >= 1,
    decreases s.len(),
{
    if s.len() > 0 {
        lemma_split_nonempty(s.drop_last(), sep);
    }
}

/// The views of a vector of character vectors.
pub open spec fn views_of(v: Seq<Vec<char>>) -> Seq<Seq<char>> {
    v.map_values(|x: Vec<char>| x@)
}

/// Splits `s` on `sep`; the result is `spec_split` of the view.
pub fn split_chars(s: &[char], sep: char) -> (r: Vec<Vec<char>>)
    ensures
        views_of(r@) == spec_split(s@, sep),
{
    let mut segs: Vec<Vec<char>> = Vec::new();
    segs.push(Vec::new());
    assert(s@.take(0) =~= Seq::<char>::empty());
    assert(views_of(segs@) =~= spec_split(s@.take(0), sep));
    let mut i: usize = 0;
    while i < s.len()
        invariant
            i <= s@.len(),
            segs@.len() >= 1,
            views_of(segs@) == spec_split(s@.take(i as int), sep),
        decreases s@.len() - i,
    {
        let c = s[i];
        assert(s@.take(i + 1).drop_last() =~= s@.take(i as int));
        assert(s@.take(i + 1).last() == c);
        if c == sep {
            segs.push(Vec::new());
            assert(views_of(segs@) =~= spec_split(s@.take(i + 1), sep));
        } else {
            let mut cur = segs.pop().unwrap();
            cur.push(c);
            segs.push(cur);
            assert(views_of(segs@) =~= spec_split(s@.take(i + 1), sep));
        }
        i = i + 1;
    }
    assert(s@.take(s@.len() as int) =~= s@);
    segs
}

/// Splits a string on `sep`, returning owned segment strings.
pub fn split_string(s: &str, sep: char) -> (r: Vec<String>)
    ensures
        r@.map_values(|x: String| x@) == spec_split(s@, sep),
{
    let cs = chars_of(s);
    let segs = split_chars(cs.as_slice(), sep);
    let mut out: Vec<String> = Vec::new();
    let mut i: usize = 0;
    while i < segs.len()
        invariant
            i <= segs@.len(),
            out@.len() == i,
            forall|j: int| 0 <= j < i ==> out@[j]@ == #[trigger] segs@[j]@,
        decreases segs@.len() - i,
    {
        out.push(string_from_chars(segs[i].as_slice()));
        i = i + 1;
    }
    assert(out@.map_values(|x: String| x@) =~= views_of(segs@));
    out
}

} // verus!
