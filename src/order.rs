//! Stable insertion order: the sorted sequences that sections and rules are kept in.
use vstd::prelude::*;

verus! {

/// The first index `j` of `s` at which `x` does not sort strictly after `s[j]`.
pub open spec fn insert_index<T>(s: Seq<T>, x: T, lt: spec_fn(T, T) -> bool) -> nat
    decreases s.len(),
{
    if s.len() == 0 || !lt(s[0], x) {
        0
    } else {
        1 + insert_index(s.drop_first(), x, lt)
    }
}

/// `s` with `x` inserted before the first element that does not sort strictly before it.
pub open spec fn insert_sorted<T>(s: Seq<T>, x: T, lt: spec_fn(T, T) -> bool) -> Seq<T> {
    s.insert(insert_index(s, x, lt) as int, x)
}

/// The stable sort of `s` by the strict order `lt`: each element, from the last to the
/// first, is inserted before the elements that do not sort before it, so that elements
/// that compare equal keep their order.
pub open spec fn sorted_by<T>(s: Seq<T>, lt: spec_fn(T, T) -> bool) -> Seq<T>
    decreases s.len(),
{
    if s.len() == 0 {
        s
    } else {
        insert_sorted(sorted_by(s.drop_first(), lt), s[0], lt)
    }
}

pub proof fn lemma_insert_index_bound<T>(s: Seq<T>, x: T, lt: spec_fn(T, T) -> bool)
    ensures
        insert_index(s, x, lt) <= s.len(),
        forall|j: int| 0 <= j < insert_index(s, x, lt) ==> lt(s[j], x),
        insert_index(s, x, lt) < s.len() ==> !lt(s[insert_index(s, x, lt) as int], x),
    decreases s.len(),
{
    if s.len() > 0 && lt(s[0], x) {
        lemma_insert_index_bound(s.drop_first(), x, lt);
        assert forall|j: int| 0 <= j < insert_index(s, x, lt) implies lt(s[j], x) by {
            if j > 0 {
                assert(s[j] == s.drop_first()[j - 1]);
            }
        }
    }
}

pub proof fn lemma_insert_index_at<T>(s: Seq<T>, x: T, lt: spec_fn(T, T) -> bool, j: int)
    requires
        0 <= j <= s.len(),
        forall|i: int| 0 <= i < j ==> lt(s[i], x),
        j < s.len() ==> !lt(s[j], x),
    ensures
        insert_index(s, x, lt) == j,
    decreases s.len(),
{
    if j > 0 {
        assert(lt(s[0], x));
        assert forall|i: int| 0 <= i < j - 1 implies lt(s.drop_first()[i], x) by {
            assert(s.drop_first()[i] == s[i + 1]);
        }
        lemma_insert_index_at(s.drop_first(), x, lt, j - 1);
    }
}

/// `lt` is a strict weak order: asymmetric, and "not before" is transitive.
pub open spec fn strict_weak_order<T>(lt: spec_fn(T, T) -> bool) -> bool {
    &&& forall|a: T, b: T| #[trigger] lt(a, b) ==> !lt(b, a)
    &&& forall|a: T, b: T, c: T|
        !#[trigger] lt(a, b) && !#[trigger] lt(b, c) ==> !#[trigger] lt(a, c)
}

/// No element of `s` sorts strictly before an element to its left.
pub open spec fn is_ordered<T>(s: Seq<T>, lt: spec_fn(T, T) -> bool) -> bool {
    forall|i: int, j: int| 0 <= i < j < s.len() ==> !lt(s[j], s[i])
}

/// Under a strict weak order the stable sort is ordered and keeps the length.
pub proof fn lemma_sorted_by_ordered<T>(s: Seq<T>, lt: spec_fn(T, T) -> bool)
    requires
        strict_weak_order(lt),
    ensures
        is_ordered(sorted_by(s, lt), lt),
        sorted_by(s, lt).len() == s.len(),
    decreases s.len(),
{
    if s.len() > 0 {
        let rest = sorted_by(s.drop_first(), lt);
        let x = s[0];
        lemma_sorted_by_ordered(s.drop_first(), lt);
        lemma_insert_index_bound(rest, x, lt);
        let p = insert_index(rest, x, lt) as int;
        let r = rest.insert(p, x);
        assert(r == sorted_by(s, lt));
        assert forall|i: int, j: int| 0 <= i < j < r.len() implies !lt(r[j], r[i]) by {
            if j < p {
                assert(r[i] == rest[i] && r[j] == rest[j]);
            } else if j == p {
                assert(r[i] == rest[i]);
                assert(lt(rest[i], x));
            } else if i == p {
                assert(r[j] == rest[j - 1]);
                if j - 1 > p {
                    assert(!lt(rest[j - 1], rest[p]));
                }
                assert(!lt(rest[p], x));
            } else if i < p {
                assert(r[i] == rest[i] && r[j] == rest[j - 1]);
            } else {
                assert(r[i] == rest[i - 1] && r[j] == rest[j - 1]);
            }
        }
    }
}

} // verus!
