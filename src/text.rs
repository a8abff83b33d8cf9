//! Character-level helpers: conversions between strings and characters,
//! splitting, trimming and searching, each with a specification over `Seq<char>`.
use vstd::prelude::*;

verus! {

/// Relies on `str::chars` (collected into a `Vec`): the characters of `s`, in order.
#[verifier::external_body]
pub(crate) fn chars_of(s: &str) -> (r: Vec<char>)
    ensures
        r@ == s@,
{
    s.chars().collect()
}

/// Relies on `String: FromIterator<char>`: a string holding exactly the given characters.
#[verifier::external_body]
pub(crate) fn string_of(v: &[char]) -> (r: String)
    ensures
        r@ == v@,
{
    v.iter().collect()
}

/// The Unicode `Lowercase` property of a character.
pub uninterp spec fn is_lowercase_char(c: char) -> bool;

/// Relies on `char::is_lowercase`: whether `c` has the Unicode `Lowercase` property.
#[verifier::external_body]
pub(crate) fn char_is_lowercase(c: char) -> (r: bool)
    ensures
        r == is_lowercase_char(c),
{
    c.is_lowercase()
}

/// The characters `char::to_uppercase` gives for `c`.
pub uninterp spec fn uppercase_of(c: char) -> Seq<char>;

/// Relies on `char::to_uppercase` (collected into a `Vec`): the upper-case mapping of `c`,
/// which depends on the character alone.
#[verifier::external_body]
pub(crate) fn char_to_uppercase(c: char) -> (r: Vec<char>)
    ensures
        r@ == uppercase_of(c),
{
    c.to_uppercase().collect()
}

/// Whether `c` is lower case: an ASCII letter `a` to `z`, or a non-ASCII character with the
/// Unicode `Lowercase` property (no other ASCII character has it).
pub open spec fn is_lower(c: char) -> bool {
    ('a' <= c && c <= 'z') || (c > '\u{7f}' && is_lowercase_char(c))
}

/// Whether `c` is lower case.
pub fn char_is_lower(c: char) -> (r: bool)
    ensures
        r == is_lower(c),
{
    if 'a' <= c && c <= 'z' {
        true
    } else if c > '\u{7f}' {
        char_is_lowercase(c)
    } else {
        false
    }
}

/// The ASCII letter `c` in upper case.
pub open spec fn ascii_upper(c: char) -> char {
    (((c as u8) - 32) as u8) as char
}

/// The upper-case characters for `c`: for an ASCII letter `a` to `z` its capital, else what
/// Unicode maps it to.
pub open spec fn upper_chars(c: char) -> Seq<char> {
    if 'a' <= c && c <= 'z' {
        seq![ascii_upper(c)]
    } else {
        uppercase_of(c)
    }
}

/// The upper-case characters for `c`.
pub fn to_upper(c: char) -> (r: Vec<char>)
    ensures
        r@ == upper_chars(c),
{
    if 'a' <= c && c <= 'z' {
        let u = ((c as u8) - 32) as char;
        let mut v: Vec<char> = Vec::new();
        v.push(u);
        assert(v@ =~= seq![ascii_upper(c)]);
        v
    } else {
        char_to_uppercase(c)
    }
}

/// The Unicode `White_Space` property, the set of characters that `str::trim` removes.
pub open spec fn is_ws(c: char) -> bool {
    ('\u{9}' <= c && c <= '\u{d}') || c == ' ' || c == '\u{85}' || c == '\u{a0}' || c == '\u{1680}'
        || ('\u{2000}' <= c && c <= '\u{200a}') || c == '\u{2028}' || c == '\u{2029}' || c
        == '\u{202f}' || c == '\u{205f}' || c == '\u{3000}'
}

pub fn is_whitespace(c: char) -> (r: bool)
    ensures
        r == is_ws(c),
{
    ('\u{9}' <= c && c <= '\u{d}') || c == ' ' || c == '\u{85}' || c == '\u{a0}' || c == '\u{1680}'
        || ('\u{2000}' <= c && c <= '\u{200a}') || c == '\u{2028}' || c == '\u{2029}' || c
        == '\u{202f}' || c == '\u{205f}' || c == '\u{3000}'
}

/// A character dropped from the front of an argument: whitespace, and also `:` when `colon`.
pub open spec fn is_lead(c: char, colon: bool) -> bool {
    is_ws(c) || (colon && c == ':')
}

/// `s` without its leading whitespace (and leading colons when `colon`).
pub open spec fn trim_start(s: Seq<char>, colon: bool) -> Seq<char>
    decreases s.len(),
{
    if s.len() > 0 && is_lead(s[0], colon) {
        trim_start(s.drop_first(), colon)
    } else {
        s
    }
}

/// `s` without its trailing whitespace.
pub open spec fn trim_end(s: Seq<char>) -> Seq<char>
    decreases s.len(),
{
    if s.len() > 0 && is_ws(s.last()) {
        trim_end(s.drop_last())
    } else {
        s
    }
}

/// `s` without whitespace at either end.
pub open spec fn trim(s: Seq<char>) -> Seq<char> {
    trim_end(trim_start(s, false))
}

/// The pieces of `s` between occurrences of `sep`; there is always at least one.
pub open spec fn split_on(s: Seq<char>, sep: char) -> Seq<Seq<char>>
    decreases s.len(),
{
    if s.len() == 0 {
        seq![Seq::<char>::empty()]
    } else {
        let p = split_on(s.drop_last(), sep);
        if s.last() == sep {
            p.push(Seq::<char>::empty())
        } else {
            p.update(p.len() - 1, p.last().push(s.last()))
        }
    }
}

/// The index of the first `c` in `s`, if any.
pub open spec fn find_char(s: Seq<char>, c: char) -> Option<int>
    decreases s.len(),
{
    if s.len() == 0 {
        None
    } else {
        match find_char(s.drop_last(), c) {
            Some(i) => Some(i),
            None => if s.last() == c {
                Some(s.len() - 1)
            } else {
                None
            },
        }
    }
}

/// The character sequences of a list of character vectors.
pub open spec fn views(v: Seq<Vec<char>>) -> Seq<Seq<char>> {
    v.map_values(|x: Vec<char>| x@)
}

pub proof fn lemma_split_nonempty(s: Seq<char>, sep: char)
    ensures
        split_on(s, sep).len() >= 1,
    decreases s.len(),
{
    if s.len() > 0 {
        lemma_split_nonempty(s.drop_last(), sep);
    }
}

pub proof fn lemma_find_char_range(s: Seq<char>, c: char)
    ensures
        find_char(s, c) matches Some(i) ==> 0 <= i < s.len() && s[i] == c && !s.subrange(
            0,
            i,
        ).contains(c),
        find_char(s, c) is None ==> !s.contains(c),
    decreases s.len(),
{
    if s.len() > 0 {
        lemma_find_char_range(s.drop_last(), c);
        let p = s.drop_last();
        match find_char(p, c) {
            Some(i) => {
                assert(s.subrange(0, i) =~= p.subrange(0, i));
            },
            None => {
                if s.last() == c {
                    assert(s.subrange(0, s.len() - 1) =~= p);
                } else {
                    assert forall|j: int| 0 <= j < s.len() implies s[j] != c by {
                        if j < s.len() - 1 {
                            assert(p[j] == s[j]);
                        }
                    }
                }
            },
        }
    }
}

pub proof fn lemma_find_char_prefix(s: Seq<char>, k: int, c: char)
    requires
        0 <= k <= s.len(),
        find_char(s.subrange(0, k), c) is Some,
    ensures
        find_char(s, c) == find_char(s.subrange(0, k), c),
    decreases s.len(),
{
    if k < s.len() {
        assert(s.drop_last().subrange(0, k) =~= s.subrange(0, k));
        lemma_find_char_prefix(s.drop_last(), k, c);
    } else {
        assert(s.subrange(0, k) =~= s);
    }
}

/// Splits `s` at every `sep`.
pub fn split_chars(s: &Vec<char>, sep: char) -> (r: Vec<Vec<char>>)
    ensures
        views(r@) == split_on(s@, sep),
{
    let mut out: Vec<Vec<char>> = Vec::new();
    let mut cur: Vec<char> = Vec::new();
    let mut i: usize = 0;
    proof {
        assert(s@.subrange(0, 0) =~= Seq::<char>::empty());
        assert(views(out@).push(cur@) =~= seq![Seq::<char>::empty()]);
    }
    while i < s.len()
        invariant
            i <= s.len(),
            views(out@).push(cur@) == split_on(s@.subrange(0, i as int), sep),
        decreases s.len() - i,
    {
        let ghost pre = s@.subrange(0, i as int);
        let ghost old_out = out@;
        let ghost old_cur = cur@;
        proof {
            assert(s@.subrange(0, i + 1).drop_last() =~= pre);
            lemma_split_nonempty(pre, sep);
        }
        if s[i] == sep {
            out.push(cur);
            cur = Vec::new();
            proof {
                assert(views(out@) =~= views(old_out).push(old_cur));
                assert(views(out@).push(cur@) =~= split_on(pre, sep).push(Seq::<char>::empty()));
            }
        } else {
            cur.push(s[i]);
            proof {
                assert(views(out@).push(cur@) =~= split_on(pre, sep).update(
                    split_on(pre, sep).len() - 1,
                    split_on(pre, sep).last().push(s@[i as int]),
                ));
            }
        }
        i += 1;
    }
    let ghost old_out = out@;
    out.push(cur);
    proof {
        assert(s@.subrange(0, s@.len() as int) =~= s@);
        assert(views(out@) =~= views(old_out).push(cur@));
    }
    out
}

/// Drops leading whitespace (and leading colons when `colon`) and, when `end`, trailing
/// whitespace.
pub fn trim_chars(s: &Vec<char>, colon: bool, end: bool) -> (r: Vec<char>)
    ensures
        r@ == (if end {
            trim_end(trim_start(s@, colon))
        } else {
            trim_start(s@, colon)
        }),
{
    let n = s.len();
    let mut lo: usize = 0;
    proof {
        assert(s@.subrange(0, n as int) =~= s@);
    }
    while lo < n && (is_whitespace(s[lo]) || (colon && s[lo] == ':'))
        invariant
            lo <= n,
            n == s.len(),
            trim_start(s@, colon) == trim_start(s@.subrange(lo as int, n as int), colon),
        decreases n - lo,
    {
        assert(s@.subrange(lo as int, n as int).drop_first() =~= s@.subrange(lo + 1, n as int));
        lo += 1;
    }
    let mut hi: usize = n;
    if end {
        proof {
            assert(s@.subrange(lo as int, n as int).subrange(0, (hi - lo) as int) =~= s@.subrange(
                lo as int,
                hi as int,
            ));
        }
        while hi > lo && is_whitespace(s[hi - 1])
            invariant
                lo <= hi <= n,
                n == s.len(),
                trim_start(s@, colon) == s@.subrange(lo as int, n as int),
                trim_end(trim_start(s@, colon)) == trim_end(s@.subrange(lo as int, hi as int)),
            decreases hi - lo,
        {
            assert(s@.subrange(lo as int, hi as int).drop_last() =~= s@.subrange(
                lo as int,
                hi - 1,
            ));
            hi -= 1;
        }
    }
    let mut r: Vec<char> = Vec::new();
    let mut k: usize = lo;
    while k < hi
        invariant
            lo <= k <= hi <= n,
            n == s.len(),
            r@ == s@.subrange(lo as int, k as int),
        decreases hi - k,
    {
        r.push(s[k]);
        k += 1;
        assert(r@ =~= s@.subrange(lo as int, k as int));
    }
    proof {
        if !end {
            assert(trim_start(s@, colon) == s@.subrange(lo as int, n as int));
        }
    }
    r
}

/// The index of the first `c` in `s`, if any.
pub fn find_first(s: &Vec<char>, c: char) -> (r: Option<usize>)
    ensures
        r matches Some(i) ==> find_char(s@, c) == Some(i as int),
        r is None ==> find_char(s@, c) is None,
{
    let mut i: usize = 0;
    while i < s.len()
        invariant
            i <= s.len(),
            find_char(s@.subrange(0, i as int), c) is None,
        decreases s.len() - i,
    {
        assert(s@.subrange(0, i + 1).drop_last() =~= s@.subrange(0, i as int));
        if s[i] == c {
            proof {
                lemma_find_char_prefix(s@, i + 1, c);
            }
            return Some(i);
        }
        i += 1;
    }
    assert(s@.subrange(0, s.len() as int) =~= s@);
    None
}

/// The characters `s[lo..hi]`.
pub fn slice_chars(s: &Vec<char>, lo: usize, hi: usize) -> (r: Vec<char>)
    requires
        lo <= hi <= s.len(),
    ensures
        r@ == s@.subrange(lo as int, hi as int),
{
    let mut r: Vec<char> = Vec::new();
    let mut k: usize = lo;
    while k < hi
        invariant
            lo <= k <= hi <= s.len(),
            r@ == s@.subrange(lo as int, k as int),
        decreases hi - k,
    {
        r.push(s[k]);
        k += 1;
        assert(r@ =~= s@.subrange(lo as int, k as int));
    }
    r
}

/// Whether two character sequences are equal.
pub fn chars_eq(a: &[char], b: &[char]) -> (r: bool)
    ensures
        r == (a@ == b@),
{
    if a.len() != b.len() {
        return false;
    }
    let mut i: usize = 0;
    while i < a.len()
        invariant
            i <= a.len(),
            a.len() == b.len(),
            a@.subrange(0, i as int) == b@.subrange(0, i as int),
        decreases a.len() - i,
    {
        if a[i] != b[i] {
            assert(a@[i as int] != b@[i as int]);
            return false;
        }
        assert(a@.subrange(0, i + 1) =~= a@.subrange(0, i as int).push(a@[i as int]));
        assert(b@.subrange(0, i + 1) =~= b@.subrange(0, i as int).push(b@[i as int]));
        i += 1;
    }
    assert(a@ =~= a@.subrange(0, i as int));
    assert(b@ =~= b@.subrange(0, i as int));
    true
}

/// Whether `s` starts with `p`.
pub fn starts_with_chars(s: &[char], p: &[char]) -> (r: bool)
    ensures
        r == (p@.len() <= s@.len() && s@.subrange(0, p@.len() as int) == p@),
{
    if p.len() > s.len() {
        return false;
    }
    let mut i: usize = 0;
    while i < p.len()
        invariant
            i <= p.len() <= s.len(),
            s@.subrange(0, i as int) == p@.subrange(0, i as int),
        decreases p.len() - i,
    {
        if s[i] != p[i] {
            assert(s@.subrange(0, p@.len() as int)[i as int] != p@[i as int]);
            return false;
        }
        assert(s@.subrange(0, i + 1) =~= s@.subrange(0, i as int).push(s@[i as int]));
        assert(p@.subrange(0, i + 1) =~= p@.subrange(0, i as int).push(p@[i as int]));
        i += 1;
    }
    assert(p@ =~= p@.subrange(0, i as int));
    true
}

} // verus!
