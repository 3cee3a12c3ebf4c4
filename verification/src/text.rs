//! Character sequences: reading a string into characters, splitting on a
//! delimiter and joining with a separator.
use vstd::prelude::*;
use vstd::string::*;

verus! {

/// The fields of `s` separated by the delimiter `d`, in order.
///
/// There is always at least one field: a sequence without any delimiter is
/// its own single field, and `n` delimiters give `n + 1` fields, of which any
/// may be empty.
pub open spec fn split(s: Seq<char>, d: char) -> Seq<Seq<char>>
    decreases s.len(),
{
    if s.len() == 0 {
        seq![Seq::<char>::empty()]
    } else {
        let init = split(s.drop_last(), d);
        if s.last() == d {
            init.push(Seq::<char>::empty())
        } else {
            init.drop_last().push(init.last().push(s.last()))
        }
    }
}

/// The parts written one after another with `sep` between neighbours.
pub open spec fn join(parts: Seq<Seq<char>>, sep: Seq<char>) -> Seq<char>
    decreases parts.len(),
{
    if parts.len() == 0 {
        Seq::<char>::empty()
    } else if parts.len() == 1 {
        parts[0]
    } else {
        join(parts.drop_last(), sep) + sep + parts.last()
    }
}

/// Whether `d` does not occur in `s`.
pub open spec fn free_of(s: Seq<char>, d: char) -> bool {
    forall|i: int| 0 <= i < s.len() ==> s[i] != d
}

/// A split always yields at least one field.
pub proof fn lemma_split_nonempty(s: Seq<char>, d: char)
    ensures
        split(s, d).len() >= 1,
    decreases s.len(),
{
    if s.len() > 0 {
        lemma_split_nonempty(s.drop_last(), d);
    }
}

/// No field of a split holds the delimiter.
pub proof fn lemma_split_fields_free(s: Seq<char>, d: char)
    ensures
        forall|k: int| 0 <= k < split(s, d).len() ==> free_of(#[trigger] split(s, d)[k], d),
    decreases s.len(),
{
    if s.len() > 0 {
        lemma_split_nonempty(s.drop_last(), d);
        lemma_split_fields_free(s.drop_last(), d);
    }
}

/// A sequence without the delimiter is its own single field.
pub proof fn lemma_split_free(s: Seq<char>, d: char)
    requires
        free_of(s, d),
    ensures
        split(s, d) == seq![s],
    decreases s.len(),
{
    if s.len() == 0 {
        assert(s == Seq::<char>::empty());
    } else {
        lemma_split_free(s.drop_last(), d);
        let init = split(s.drop_last(), d);
        assert(init.drop_last().push(init.last().push(s.last())) == seq![
            s.drop_last().push(s.last()),
        ]);
        assert(s.drop_last().push(s.last()) == s);
    }
}

/// Two delimiter-free sequences with one delimiter between them split into
/// exactly those two.
pub proof fn lemma_split_pair(a: Seq<char>, b: Seq<char>, d: char)
    requires
        free_of(a, d),
        free_of(b, d),
    ensures
        split(a + seq![d] + b, d) == seq![a, b],
    decreases b.len(),
{
    let s = a + seq![d] + b;
    if b.len() == 0 {
        assert(s.drop_last() == a);
        lemma_split_free(a, d);
        assert(b =~= Seq::<char>::empty());
        assert(seq![a].push(Seq::<char>::empty()) =~= seq![a, b]);
    } else {
        let b0 = b.drop_last();
        assert(s.drop_last() == a + seq![d] + b0);
        lemma_split_pair(a, b0, d);
        assert(s.last() == b.last());
        assert(seq![a, b0].drop_last().push(b0.push(b.last())) == seq![a, b]) by {
            assert(b0.push(b.last()) == b);
        }
    }
}

/// The characters of `s`, in order.
pub fn chars_of(s: &str) -> (out: Vec<char>)
    ensures
        out@ == s@,
{
    let mut out: Vec<char> = Vec::new();
    for c in it: s.chars()
        invariant
            it.seq() == s@,
            out@ == s@.take(it.index() as int),
    {
        out.push(c);
    }
    out
}

/// Whether `pattern` stands in `s` at position `at`.
pub open spec fn occurs_at(s: Seq<char>, at: int, pattern: Seq<char>) -> bool {
    &&& 0 <= at
    &&& at + pattern.len() <= s.len()
    &&& s.subrange(at, at + pattern.len()) == pattern
}

/// Tests whether `pattern` stands in `chars` at position `at`.
pub fn matches_at(chars: &Vec<char>, at: usize, pattern: &Vec<char>) -> (found: bool)
    ensures
        found == occurs_at(chars@, at as int, pattern@),
{
    if at > chars.len() || pattern.len() > chars.len() - at {
        return false;
    }
    let mut i: usize = 0;
    while i < pattern.len()
        invariant
            i <= pattern@.len(),
            at + pattern.len() <= chars.len(),
            chars@.subrange(at as int, at + i) == pattern@.take(i as int),
        decreases pattern.len() - i,
    {
        if chars[at + i] != pattern[i] {
            proof {
                let window = chars@.subrange(at as int, at + pattern@.len());
                assert(window[i as int] != pattern@[i as int]);
            }
            return false;
        }
        proof {
            assert(chars@.subrange(at as int, at + i + 1) == chars@.subrange(
                at as int,
                at + i,
            ).push(chars@[at + i]));
            assert(pattern@.take(i + 1) == pattern@.take(i as int).push(pattern@[i as int]));
        }
        i += 1;
    }
    proof {
        assert(pattern@.take(i as int) == pattern@);
    }
    true
}

/// Whether `ranges` marks, field by field, where the fields of `s` split on
/// `d` lie in `s`: the first range begins at 0, the last ends where `s` ends,
/// and between one range and the next stands exactly one delimiter.
pub open spec fn ranges_mark_fields(ranges: Seq<(usize, usize)>, s: Seq<char>, d: char) -> bool {
    &&& ranges.len() == split(s, d).len()
    &&& ranges.len() >= 1
    &&& ranges[0].0 == 0
    &&& ranges[ranges.len() - 1].1 == s.len()
    &&& forall|k: int|
        0 <= k < ranges.len() ==> {
            &&& (#[trigger] ranges[k]).0 <= ranges[k].1 <= s.len()
            &&& split(s, d)[k] == s.subrange(ranges[k].0 as int, ranges[k].1 as int)
        }
    &&& forall|k: int|
        0 <= k < ranges.len() - 1 ==> {
            &&& s[(#[trigger] ranges[k]).1 as int] == d
            &&& ranges[k + 1].0 == ranges[k].1 + 1
        }
}

/// Splits `chars` on `d` and returns, for each field in order, the half-open
/// range of positions that it occupies.
pub fn split_ranges(chars: &Vec<char>, d: char) -> (ranges: Vec<(usize, usize)>)
    ensures
        ranges_mark_fields(ranges@, chars@, d),
{
    let mut ranges: Vec<(usize, usize)> = Vec::new();
    let mut start: usize = 0;
    let mut i: usize = 0;
    while i < chars.len()
        invariant
            start <= i <= chars.len(),
            split(chars@.take(i as int), d).len() == ranges@.len() + 1,
            split(chars@.take(i as int), d).last() == chars@.subrange(start as int, i as int),
            ranges@.len() == 0 ==> start == 0,
            ranges@.len() > 0 ==> ranges@[0].0 == 0 && start == ranges@[ranges@.len() - 1].1 + 1,
            forall|k: int|
                0 <= k < ranges@.len() ==> {
                    &&& (#[trigger] ranges@[k]).0 <= ranges@[k].1 < i
                    &&& chars@[ranges@[k].1 as int] == d
                    &&& split(chars@.take(i as int), d)[k] == chars@.subrange(
                        ranges@[k].0 as int,
                        ranges@[k].1 as int,
                    )
                },
            forall|k: int|
                0 <= k < ranges@.len() - 1 ==> ranges@[k + 1].0 == (#[trigger] ranges@[k]).1 + 1,
        decreases chars.len() - i,
    {
        proof {
            let prefix = chars@.take(i as int);
            let next = chars@.take(i + 1);
            assert(next.drop_last() == prefix);
            assert(next.last() == chars@[i as int]);
            if chars@[i as int] != d {
                assert(chars@.subrange(start as int, i as int).push(chars@[i as int])
                    == chars@.subrange(start as int, i + 1));
            } else {
                assert(chars@.subrange(i + 1, i + 1) == Seq::<char>::empty());
            }
        }
        if chars[i] == d {
            ranges.push((start, i));
            start = i + 1;
        }
        i += 1;
    }
    proof {
        assert(chars@.take(i as int) == chars@);
    }
    ranges.push((start, i));
    ranges
}

} // verus!
