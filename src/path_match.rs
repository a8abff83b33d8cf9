//! Matching of a literal string against a pattern in which `*` stands for any run of
//! characters.
use vstd::prelude::*;

use crate::text::{chars_of, find_first, split_chars, split_on, views, lemma_split_nonempty, lemma_find_char_range, starts_with_chars};

verus! {

/// Whether `seg` occurs in `h` starting at index `i`.
pub open spec fn occurs_at(h: Seq<char>, seg: Seq<char>, i: int) -> bool {
    0 <= i && i + seg.len() <= h.len() && h.subrange(i, i + seg.len()) == seg
}

/// The first index at or after `pos` at which `seg` occurs in `h`.
pub open spec fn first_occurrence(h: Seq<char>, seg: Seq<char>, pos: int) -> Option<int>
    decreases h.len() + 1 - pos,
{
    if pos < 0 || pos + seg.len() > h.len() {
        None
    } else if occurs_at(h, seg, pos) {
        Some(pos)
    } else {
        first_occurrence(h, seg, pos + 1)
    }
}

pub proof fn lemma_first_occurrence(h: Seq<char>, seg: Seq<char>, pos: int)
    ensures
        first_occurrence(h, seg, pos) matches Some(i) ==> pos <= i && occurs_at(h, seg, i),
    decreases h.len() + 1 - pos,
{
    if !(pos < 0 || pos + seg.len() > h.len()) && !occurs_at(h, seg, pos) {
        lemma_first_occurrence(h, seg, pos + 1);
    }
}

/// Finds the segments of `segs` one after another in `h`, each at the first place at or after
/// the end of the one before; empty segments are skipped.
pub open spec fn scan_segments(h: Seq<char>, segs: Seq<Seq<char>>, pos: int) -> bool
    decreases segs.len(),
{
    if segs.len() == 0 {
        true
    } else if segs[0].len() == 0 {
        scan_segments(h, segs.drop_first(), pos)
    } else {
        match first_occurrence(h, segs[0], pos) {
            Some(i) => scan_segments(h, segs.drop_first(), i + segs[0].len()),
            None => false,
        }
    }
}

/// Whether `h` matches the pattern `p`: without `*` the two are equal; otherwise the text
/// before the first `*` starts `h`, and the other pieces occur in order after it. A last piece
/// need not reach the end of `h`.
pub open spec fn wildcard_match(h: Seq<char>, p: Seq<char>) -> bool {
    if !p.contains('*') {
        h == p
    } else {
        let segs = split_on(p, '*');
        segs[0].len() <= h.len() && h.subrange(0, segs[0].len() as int) == segs[0]
            && scan_segments(h, segs.drop_first(), segs[0].len() as int)
    }
}

/// Whether `seg` occurs in `h` at index `i`.
fn occurs_at_exec(h: &[char], seg: &[char], i: usize) -> (r: bool)
    requires
        i + seg.len() <= h.len(),
    ensures
        r == occurs_at(h@, seg@, i as int),
{
    let mut k: usize = 0;
    while k < seg.len()
        invariant
            k <= seg.len(),
            i + seg.len() <= h.len(),
            h@.subrange(i as int, i + k) == seg@.subrange(0, k as int),
        decreases seg.len() - k,
    {
        assert(i + k < h.len());
        if h[i + k] != seg[k] {
            assert(h@.subrange(i as int, i + seg@.len())[k as int] != seg@[k as int]);
            return false;
        }
        assert(h@.subrange(i as int, i + k + 1) =~= h@.subrange(i as int, i + k).push(
            h@[i + k],
        ));
        assert(seg@.subrange(0, k + 1) =~= seg@.subrange(0, k as int).push(seg@[k as int]));
        k += 1;
    }
    assert(seg@ =~= seg@.subrange(0, k as int));
    true
}

/// The first index at or after `loc` at which `suffix` occurs in `haystack`.
pub fn prefix_asterisk(suffix: &[char], haystack: &[char], loc: usize) -> (r: Option<usize>)
    ensures
        r matches Some(i) ==> first_occurrence(haystack@, suffix@, loc as int) == Some(i as int),
        r is None ==> first_occurrence(haystack@, suffix@, loc as int) is None,
{
    if suffix.len() > haystack.len() {
        return None;
    }
    let last = haystack.len() - suffix.len();
    let mut i: usize = loc;
    while i <= last
        invariant
            last + suffix@.len() == haystack@.len(),
            loc <= i,
            first_occurrence(haystack@, suffix@, loc as int) == first_occurrence(
                haystack@,
                suffix@,
                i as int,
            ),
        decreases last + 1 - i,
    {
        if occurs_at_exec(haystack, suffix, i) {
            return Some(i);
        }
        if i == last {
            return None;
        }
        i += 1;
    }
    None
}

/// Whether the characters `haystack` match the pattern `needle`.
pub fn match_chars(haystack: &Vec<char>, needle: &Vec<char>) -> (r: bool)
    ensures
        r == wildcard_match(haystack@, needle@),
{
    let star = find_first(needle, '*');
    proof {
        lemma_find_char_range(needle@, '*');
    }
    if star.is_none() {
        return crate::text::chars_eq(haystack.as_slice(), needle.as_slice());
    }
    let segs = split_chars(needle, '*');
    let ghost gsegs = split_on(needle@, '*');
    proof {
        lemma_split_nonempty(needle@, '*');
        assert(segs@.len() == gsegs.len());
        assert(segs@[0]@ == gsegs[0]);
    }
    let first = &segs[0];
    if !starts_with_chars(haystack.as_slice(), first.as_slice()) {
        return false;
    }
    let mut pos: usize = first.len();
    let mut k: usize = 1;
    proof {
        assert(gsegs.drop_first() =~= gsegs.subrange(1, gsegs.len() as int));
    }
    while k < segs.len()
        invariant
            1 <= k <= segs@.len(),
            segs@.len() == gsegs.len(),
            views(segs@) == gsegs,
            pos <= haystack@.len(),
            wildcard_match(haystack@, needle@) == scan_segments(
                haystack@,
                gsegs.subrange(k as int, gsegs.len() as int),
                pos as int,
            ),
        decreases segs.len() - k,
    {
        let seg = &segs[k];
        let ghost rest = gsegs.subrange(k as int, gsegs.len() as int);
        proof {
            assert(seg@ == gsegs[k as int]);
            assert(rest[0] == gsegs[k as int]);
            assert(rest.drop_first() =~= gsegs.subrange(k + 1, gsegs.len() as int));
        }
        if seg.len() != 0 {
            match prefix_asterisk(seg.as_slice(), haystack.as_slice(), pos) {
                Some(i) => {
                    proof {
                        lemma_first_occurrence(haystack@, seg@, pos as int);
                        assert(haystack@.len() == haystack.len());
                    }
                    pos = i + seg.len();
                },
                None => {
                    return false;
                },
            }
        }
        k += 1;
    }
    true
}

/// Whether `haystack` matches the pattern `needle`, in which `*` stands for any run of
/// characters.
pub fn match_with_asterisk(haystack: &str, needle: &str) -> (r: bool)
    ensures
        r == wildcard_match(haystack@, needle@),
{
    let h = chars_of(haystack);
    let n = chars_of(needle);
    match_chars(&h, &n)
}

/// The pattern `*` matches every string, the empty one included.
pub proof fn lemma_star_matches_everything(x: Seq<char>)
    ensures
        wildcard_match(x, "*"@),
{
    reveal_strlit("*");
    let p = "*"@;
    assert(p =~= seq!['*']);
    assert(p[0] == '*');
    assert(p.contains('*'));
    assert(p.drop_last() =~= Seq::<char>::empty());
    let segs = split_on(p, '*');
    assert(split_on(p.drop_last(), '*') =~= seq![Seq::<char>::empty()]);
    assert(segs =~= seq![Seq::<char>::empty(), Seq::<char>::empty()]);
    assert(x.subrange(0, 0) =~= segs[0]);
    let rest = segs.drop_first();
    assert(rest.len() == 1 && rest[0].len() == 0);
    assert(rest.drop_first().len() == 0);
    assert(scan_segments(x, rest.drop_first(), 0));
    assert(scan_segments(x, rest, 0));
}

} // verus!
