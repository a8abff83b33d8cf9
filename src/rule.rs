//! Allow and Disallow rules: their specificity, the paths they apply to, and their order.
use vstd::prelude::*;

use core::cmp::Ordering;

use crate::order::{sorted_by, lemma_insert_index_at, lemma_sorted_by_ordered};
use crate::path_match::{match_chars, wildcard_match};
use crate::text::{chars_of, split_chars, split_on, views};

verus! {

/// A rule line of a User-agent section.
#[derive(Debug, Clone, PartialEq, Eq)]
pub enum Rule {
    Allow(String),
    Disallow(String),
}

/// How many pieces of `ss` are not empty.
pub open spec fn count_nonempty(ss: Seq<Seq<char>>) -> nat
    decreases ss.len(),
{
    if ss.len() == 0 {
        0
    } else {
        count_nonempty(ss.drop_last()) + if ss.last().len() > 0 {
            1nat
        } else {
            0nat
        }
    }
}

/// The number of non-empty `/`-separated segments of a path.
pub open spec fn specificity_of(path: Seq<char>) -> nat {
    count_nonempty(split_on(path, '/'))
}

/// The root path `/`.
pub open spec fn root_path() -> Seq<char> {
    seq!['/']
}

/// Whether a rule with path `rule_path` applies to the URL path `url_path`: the root (or
/// an empty path) applies to everything; a rule with more segments than the URL applies to
/// nothing; otherwise each segment of the rule matches, as a pattern, the URL's segment at
/// the same place.
pub open spec fn rule_applies(rule_path: Seq<char>, url_path: Seq<char>) -> bool {
    if rule_path == root_path() || rule_path.len() == 0 {
        true
    } else if specificity_of(url_path) < specificity_of(rule_path) {
        false
    } else {
        let us = split_on(url_path, '/');
        let rs = split_on(rule_path, '/');
        forall|k: int| 0 <= k < us.len() && k < rs.len() ==> wildcard_match(us[k], rs[k])
    }
}

/// A rule as a value: whether it is an `Allow`, and its path.
pub type RuleView = (bool, Seq<char>);

/// Whether a rule permits a visit: an `Allow` does, a `Disallow` does not; an empty path
/// turns either around.
pub open spec fn view_allows(r: RuleView) -> bool {
    if r.0 {
        r.1.len() > 0
    } else {
        r.1.len() == 0
    }
}

/// The position of a rule in the order: by specificity, and at equal specificity a rule
/// that allows comes after one that does not.
pub open spec fn rule_rank(r: RuleView) -> int {
    2 * specificity_of(r.1) + if view_allows(r) {
        1int
    } else {
        0int
    }
}

/// Whether `a` sorts strictly before `b`.
pub open spec fn rule_lt(a: RuleView, b: RuleView) -> bool {
    rule_rank(a) < rule_rank(b)
}

/// `rule_lt` as a function value.
pub open spec fn rule_less() -> spec_fn(RuleView, RuleView) -> bool {
    |a: RuleView, b: RuleView| rule_lt(a, b)
}

/// The views of a sequence of rules.
pub open spec fn rule_views(s: Seq<Rule>) -> Seq<RuleView> {
    s.map_values(|r: Rule| r@)
}

/// The ordering of `a` against `b`.
pub open spec fn rule_ordering(a: RuleView, b: RuleView) -> Ordering {
    if rule_rank(a) < rule_rank(b) {
        Ordering::Less
    } else if rule_rank(a) == rule_rank(b) {
        Ordering::Equal
    } else {
        Ordering::Greater
    }
}

/// Counts the non-empty pieces of `ss`.
fn count_nonempty_exec(ss: &Vec<Vec<char>>) -> (r: usize)
    ensures
        r == count_nonempty(views(ss@)),
{
    let mut n: usize = 0;
    let mut i: usize = 0;
    while i < ss.len()
        invariant
            i <= ss.len(),
            n <= i,
            n == count_nonempty(views(ss@).subrange(0, i as int)),
        decreases ss.len() - i,
    {
        assert(views(ss@).subrange(0, i + 1).drop_last() =~= views(ss@).subrange(0, i as int));
        if ss[i].len() > 0 {
            n += 1;
        }
        i += 1;
    }
    assert(views(ss@).subrange(0, i as int) =~= views(ss@));
    n
}

fn specificity_chars(path: &Vec<char>) -> (r: usize)
    ensures
        r == specificity_of(path@),
{
    count_nonempty_exec(&split_chars(path, '/'))
}

impl View for Rule {
    type V = RuleView;

    open spec fn view(&self) -> RuleView {
        (self is Allow, self.path())
    }
}

impl Rule {
    /// The rule's path.
    pub open spec fn path(self) -> Seq<char> {
        match self {
            Rule::Allow(p) => p@,
            Rule::Disallow(p) => p@,
        }
    }

    /// Whether following the rule permits a visit: an `Allow` does, a `Disallow` does not;
    /// an empty path turns either around.
    pub open spec fn allows(self) -> bool {
        match self {
            Rule::Allow(p) => p@.len() > 0,
            Rule::Disallow(p) => p@.len() == 0,
        }
    }

    /// Builds an `Allow` or a `Disallow` rule; an empty path becomes `/`.
    pub fn new(allowance: bool, path: String) -> (r: Rule)
        ensures
            r.path() == (if path@.len() == 0 {
                root_path()
            } else {
                path@
            }),
            r matches Rule::Allow(_) <==> allowance,
    {
        let p = if path.as_str().is_empty() {
            proof {
                reveal_strlit("/");
            }
            "/".to_owned()
        } else {
            path
        };
        if allowance {
            Rule::Allow(p)
        } else {
            Rule::Disallow(p)
        }
    }

    /// A copy of the rule.
    pub fn duplicate(&self) -> (r: Rule)
        ensures
            r == *self,
    {
        match self {
            Rule::Allow(p) => Rule::Allow(p.clone()),
            Rule::Disallow(p) => Rule::Disallow(p.clone()),
        }
    }

    /// The rule's path.
    pub fn path_str(&self) -> (r: &String)
        ensures
            r@ == self.path(),
    {
        match self {
            Rule::Allow(p) => p,
            Rule::Disallow(p) => p,
        }
    }

    /// Whether following the rule permits a visit.
    pub fn is_allow(&self) -> (r: bool)
        ensures
            r == self.allows(),
    {
        match self {
            Rule::Allow(p) => !p.as_str().is_empty(),
            Rule::Disallow(p) => p.as_str().is_empty(),
        }
    }

    /// The number of non-empty `/`-separated segments of `path`.
    pub fn path_specificity(path: &str) -> (r: usize)
        ensures
            r == specificity_of(path@),
    {
        specificity_chars(&chars_of(path))
    }

    /// The number of non-empty segments of the rule's path.
    pub fn specificity(&self) -> (r: usize)
        ensures
            r == specificity_of(self.path()),
    {
        Self::path_specificity(self.path_str().as_str())
    }

    /// Whether the rule applies to the URL path `url_path`.
    pub fn applies(&self, url_path: &Vec<char>) -> (r: bool)
        ensures
            r == rule_applies(self.path(), url_path@),
    {
        let path = chars_of(self.path_str().as_str());
        if path.len() == 0 || (path.len() == 1 && path[0] == '/') {
            proof {
                if path@.len() == 1 {
                    assert(path@ =~= root_path());
                }
            }
            return true;
        }
        proof {
            assert(path@ != root_path());
        }
        let url_specificity = specificity_chars(url_path);
        let self_specificity = specificity_chars(&path);
        if url_specificity < self_specificity {
            return false;
        }
        let us = split_chars(url_path, '/');
        let rs = split_chars(&path, '/');
        let ghost gus = split_on(url_path@, '/');
        let ghost grs = split_on(path@, '/');
        let mut k: usize = 0;
        while k < us.len() && k < rs.len()
            invariant
                views(us@) == gus,
                gus == split_on(url_path@, '/'),
                grs == split_on(path@, '/'),
                path@ == self.path(),
                path@ != root_path(),
                path@.len() != 0,
                specificity_of(url_path@) >= specificity_of(path@),
                views(rs@) == grs,
                us@.len() == gus.len(),
                rs@.len() == grs.len(),
                forall|j: int| 0 <= j < k ==> wildcard_match(gus[j], grs[j]),
            decreases us.len() - k,
        {
            proof {
                assert(us@[k as int]@ == gus[k as int]);
                assert(rs@[k as int]@ == grs[k as int]);
            }
            if !match_chars(&us[k], &rs[k]) {
                assert(!wildcard_match(gus[k as int], grs[k as int]));
                return false;
            }
            k += 1;
        }
        true
    }

    /// The rule as a line of text: `Allow: path` or `Disallow: path`.
    pub fn to_text(&self) -> (r: String)
        ensures
            r@ == (if self is Allow {
                "Allow: "@
            } else {
                "Disallow: "@
            }) + self.path(),
    {
        let mut v = match self {
            Rule::Allow(_) => chars_of("Allow: "),
            Rule::Disallow(_) => chars_of("Disallow: "),
        };
        let p = chars_of(self.path_str().as_str());
        let ghost v0 = v@;
        let mut i: usize = 0;
        while i < p.len()
            invariant
                i <= p.len(),
                v@ == v0 + p@.subrange(0, i as int),
            decreases p.len() - i,
        {
            v.push(p[i]);
            i += 1;
            assert(v@ =~= v0 + p@.subrange(0, i as int));
        }
        assert(p@.subrange(0, i as int) =~= p@);
        crate::text::string_of(v.as_slice())
    }

    /// Compares two rules: by specificity, then a rule that allows after one that does not.
    pub fn compare(&self, rhs: &Rule) -> (r: Ordering)
        ensures
            r == rule_ordering(self@, rhs@),
    {
        let left_spec = self.specificity();
        let right_spec = rhs.specificity();
        if left_spec == right_spec {
            let la = self.is_allow();
            let ra = rhs.is_allow();
            if la == ra {
                Ordering::Equal
            } else if la {
                Ordering::Greater
            } else {
                Ordering::Less
            }
        } else if left_spec < right_spec {
            Ordering::Less
        } else {
            Ordering::Greater
        }
    }
}

/// Sorts rules into their order, keeping the order of rules that compare equal.
pub fn sort_rules(v: Vec<Rule>) -> (r: Vec<Rule>)
    ensures
        rule_views(r@) == sorted_by(rule_views(v@), rule_less()),
{
    let ghost orig = rule_views(v@);
    let mut v = v;
    let mut out: Vec<Rule> = Vec::new();
    let n = v.len();
    proof {
        assert(orig.subrange(n as int, n as int) =~= Seq::<RuleView>::empty());
        assert(rule_views(out@) =~= Seq::<RuleView>::empty());
    }
    while v.len() > 0
        invariant
            v.len() <= n,
            n == orig.len(),
            rule_views(v@) == orig.subrange(0, v.len() as int),
            rule_views(out@) == sorted_by(orig.subrange(v.len() as int, n as int), rule_less()),
        decreases v.len(),
    {
        let ghost before = v@;
        let x = v.pop().unwrap();
        let ghost m = v.len();
        proof {
            assert(orig.subrange(m as int, n as int).drop_first() =~= orig.subrange(
                m + 1,
                n as int,
            ));
            assert(before[m as int] == x);
            assert(rule_views(before)[m as int] == x@);
            assert(orig.subrange(m as int, n as int)[0] == x@);
            assert(rule_views(v@) =~= orig.subrange(0, m as int));
        }
        let mut j: usize = 0;
        let mut done = false;
        while !done && j < out.len()
            invariant
                j <= out.len(),
                forall|i: int| 0 <= i < j ==> rule_lt(rule_views(out@)[i], x@),
                done ==> j < out.len() && !rule_lt(rule_views(out@)[j as int], x@),
            decreases out.len() - j + if done {
                0int
            } else {
                1int
            },
        {
            let c = out[j].compare(&x);
            if matches!(c, Ordering::Less) {
                j += 1;
            } else {
                done = true;
            }
        }
        let ghost old_out = out@;
        proof {
            lemma_insert_index_at(rule_views(out@), x@, rule_less(), j as int);
        }
        out.insert(j, x);
        proof {
            assert(rule_views(out@) =~= rule_views(old_out).insert(j as int, x@));
        }
    }
    proof {
        assert(orig.subrange(0, n as int) =~= orig);
    }
    out
}

/// The order of rules is total: comparing in the other direction gives the opposite
/// answer, it is transitive, rules of equal specificity and equal allowance compare equal,
/// and a rule of greater specificity sorts after one of lower specificity.
pub proof fn lemma_rule_order_total(a: RuleView, b: RuleView, c: RuleView)
    ensures
        rule_ordering(a, b) == Ordering::Less <==> rule_ordering(b, a) == Ordering::Greater,
        rule_ordering(a, b) == Ordering::Equal <==> rule_ordering(b, a) == Ordering::Equal,
        rule_ordering(a, b) == Ordering::Less && rule_ordering(b, c) == Ordering::Less
            ==> rule_ordering(a, c) == Ordering::Less,
        rule_ordering(a, b) == Ordering::Equal && rule_ordering(b, c) == Ordering::Equal
            ==> rule_ordering(a, c) == Ordering::Equal,
        rule_ordering(a, b) != Ordering::Greater && rule_ordering(b, c) != Ordering::Greater
            ==> rule_ordering(a, c) != Ordering::Greater,
        specificity_of(a.1) == specificity_of(b.1) && view_allows(a) == view_allows(b)
            ==> rule_ordering(a, b) == Ordering::Equal,
        specificity_of(a.1) < specificity_of(b.1) ==> rule_ordering(a, b) == Ordering::Less,
        rule_lt(a, b) <==> rule_ordering(a, b) == Ordering::Less,
{
}

/// After sorting, the rules ascend in specificity, and at equal specificity a rule that
/// allows comes after one that does not.
pub proof fn lemma_sorted_rules_ascend(s: Seq<RuleView>)
    ensures
        forall|i: int, j: int|
            0 <= i < j < sorted_by(s, rule_less()).len() ==> rule_rank(
                sorted_by(s, rule_less())[i],
            ) <= rule_rank(sorted_by(s, rule_less())[j]),
        sorted_by(s, rule_less()).len() == s.len(),
{
    lemma_sorted_by_ordered(s, rule_less());
}

} // verus!
