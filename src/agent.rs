//! User-agent sections: their names, rules and anomalies, which agents they apply to, and
//! their order.
use vstd::prelude::*;

use core::cmp::Ordering;

use crate::anomaly::{Anomaly, AnomalyView, anomaly_views, lemma_anomaly_views_push};
use crate::order::{sorted_by, lemma_sorted_by_ordered};
use crate::rule::{Rule, RuleView, rule_less, rule_views, sort_rules};
use crate::text::{chars_of, starts_with_chars};

verus! {

/// The wildcard agent name `*`.
pub open spec fn wildcard() -> Seq<char> {
    seq!['*']
}

/// A User-agent section as a value.
pub struct AgentView {
    pub names: Seq<Seq<char>>,
    pub rules: Seq<RuleView>,
    pub anomalies: Seq<AnomalyView>,
}

/// The views of a sequence of strings.
pub open spec fn string_views(s: Seq<String>) -> Seq<Seq<char>> {
    s.map_values(|x: String| x@)
}

/// Whether a section with these names applies to the agent string `agent`: the agent
/// string starts with one of the names, or one of them is the wildcard.
pub open spec fn names_apply(names: Seq<Seq<char>>, agent: Seq<char>) -> bool {
    exists|i: int|
        0 <= i < names.len() && ((names[i].len() <= agent.len() && agent.subrange(
            0,
            names[i].len() as int,
        ) == names[i]) || names[i] == wildcard())
}

/// Whether every name is the wildcard.
pub open spec fn all_wildcard(names: Seq<Seq<char>>) -> bool {
    forall|i: int| 0 <= i < names.len() ==> names[i] == wildcard()
}

/// Whether adding `name` to a section with `names` mixes the wildcard with another name.
pub open spec fn mixes_wildcard(names: Seq<Seq<char>>, name: Seq<char>) -> bool {
    (name == wildcard() || has_wildcard(names)) && !(name == wildcard() && all_wildcard(names))
}

/// Whether one of the names is the wildcard.
pub open spec fn has_wildcard(names: Seq<Seq<char>>) -> bool {
    names.contains(wildcard())
}

/// The length of the shortest name, or `usize::MAX` when there is none.
pub open spec fn shortest_name(names: Seq<Seq<char>>) -> int
    decreases names.len(),
{
    if names.len() == 0 {
        usize::MAX as int
    } else {
        let m = shortest_name(names.drop_last());
        if m < names.last().len() {
            m
        } else {
            names.last().len() as int
        }
    }
}

/// Whether section `a` sorts strictly before section `b`: sections naming the wildcard come
/// last, and the others by the length of their shortest name.
pub open spec fn agent_lt(a: AgentView, b: AgentView) -> bool {
    !has_wildcard(a.names) && (has_wildcard(b.names) || shortest_name(a.names) < shortest_name(
        b.names,
    ))
}

/// `agent_lt` as a function value.
pub open spec fn agent_less() -> spec_fn(AgentView, AgentView) -> bool {
    |a: AgentView, b: AgentView| agent_lt(a, b)
}

/// The ordering of section `a` against section `b`.
pub open spec fn agent_ordering(a: AgentView, b: AgentView) -> Ordering {
    if agent_lt(a, b) {
        Ordering::Less
    } else if agent_lt(b, a) {
        Ordering::Greater
    } else {
        Ordering::Equal
    }
}

/// The section with `name` added: an anomaly first where the wildcard is mixed with a
/// different name, then the name itself while the section has no rules, or else an anomaly.
pub open spec fn agent_with_name(u: AgentView, name: Seq<char>) -> AgentView {
    let a1 = if mixes_wildcard(u.names, name) {
        u.anomalies.push(AnomalyView::RedundantWildcardUserAgent(name))
    } else {
        u.anomalies
    };
    if u.rules.len() == 0 {
        AgentView { names: u.names.push(name), rules: u.rules, anomalies: a1 }
    } else {
        AgentView { names: u.names, rules: u.rules, anomalies: a1.push(AnomalyView::RecursedUserAgent(name)) }
    }
}

/// The section with one more anomaly.
pub open spec fn agent_with_anomaly(u: AgentView, a: AnomalyView) -> AgentView {
    AgentView { anomalies: u.anomalies.push(a), ..u }
}

/// The section with its rules in order.
pub open spec fn agent_sorted(u: AgentView) -> AgentView {
    AgentView { rules: sorted_by(u.rules, rule_less()), ..u }
}

/// A new section named `name`, or `*` when the name is empty.
pub open spec fn new_agent_view(name: Seq<char>) -> AgentView {
    AgentView {
        names: seq![if name.len() == 0 { wildcard() } else { name }],
        rules: Seq::empty(),
        anomalies: Seq::empty(),
    }
}

/// A User-agent section and all names, rules and anomalies associated with it.
#[derive(Debug)]
pub struct UserAgent {
    names: Vec<String>,
    rules: Vec<Rule>,
    anomalies: Vec<Anomaly>,
}

impl View for UserAgent {
    type V = AgentView;

    closed spec fn view(&self) -> AgentView {
        AgentView {
            names: string_views(self.names@),
            rules: rule_views(self.rules@),
            anomalies: anomaly_views(self.anomalies@),
        }
    }
}

/// Whether the characters of `s` are the single character `*`.
fn is_wildcard(s: &String) -> (r: bool)
    ensures
        r == (s@ == wildcard()),
{
    let c = chars_of(s.as_str());
    if c.len() == 1 && c[0] == '*' {
        assert(c@ =~= wildcard());
        true
    } else {
        false
    }
}

impl UserAgent {
    /// A new section named `agent`, or `*` when the name is empty.
    pub fn new(agent: String) -> (r: UserAgent)
        ensures
            r@ == new_agent_view(agent@),
    {
        let name = if agent.as_str().is_empty() {
            proof {
                reveal_strlit("*");
                assert("*"@ =~= wildcard());
            }
            "*".to_owned()
        } else {
            agent
        };
        assert(name@ == new_agent_view(agent@).names[0]);
        let mut names: Vec<String> = Vec::new();
        names.push(name);
        let r = UserAgent { names, rules: Vec::new(), anomalies: Vec::new() };
        assert(r@.names =~= new_agent_view(agent@).names);
        assert(r@.rules =~= Seq::<RuleView>::empty());
        assert(r@.anomalies =~= Seq::<AnomalyView>::empty());
        r
    }

    /// Whether the section has no rules.
    pub fn is_empty(&self) -> (r: bool)
        ensures
            r == (self@.rules.len() == 0),
    {
        self.rules.len() == 0
    }

    /// The section's names.
    pub fn names(&self) -> (r: &Vec<String>)
        ensures
            string_views(r@) == self@.names,
    {
        &self.names
    }

    /// The section's rules.
    pub fn rules(&self) -> (r: &Vec<Rule>)
        ensures
            rule_views(r@) == self@.rules,
    {
        &self.rules
    }

    /// The anomalies found in the section.
    pub fn anomalies(&self) -> (r: &Vec<Anomaly>)
        ensures
            anomaly_views(r@) == self@.anomalies,
    {
        &self.anomalies
    }

    /// Whether one of the names is `*`.
    fn has_wildcard(&self) -> (r: bool)
        ensures
            r == has_wildcard(self@.names),
    {
        let mut i: usize = 0;
        while i < self.names.len()
            invariant
                i <= self.names.len(),
                forall|j: int| 0 <= j < i ==> self.names@[j]@ != wildcard(),
            decreases self.names.len() - i,
        {
            if is_wildcard(&self.names[i]) {
                assert(self@.names[i as int] == wildcard());
                return true;
            }
            i += 1;
        }
        assert forall|j: int| 0 <= j < self@.names.len() implies self@.names[j] != wildcard() by {
            assert(self@.names[j] == self.names@[j]@);
        }
        false
    }

    /// Whether every name is `*`.
    fn all_wildcard(&self) -> (r: bool)
        ensures
            r == all_wildcard(self@.names),
    {
        let mut i: usize = 0;
        while i < self.names.len()
            invariant
                i <= self.names.len(),
                forall|j: int| 0 <= j < i ==> self@.names[j] == wildcard(),
            decreases self.names.len() - i,
        {
            if !is_wildcard(&self.names[i]) {
                assert(self@.names[i as int] == self.names@[i as int]@);
                return false;
            }
            assert(self@.names[i as int] == self.names@[i as int]@);
            i += 1;
        }
        true
    }

    /// Adds a name to the section; see `agent_with_name`.
    pub fn add_agent(&mut self, name: String)
        ensures
            final(self)@ == agent_with_name(old(self)@, name@),
    {
        let ghost u = self@;
        let named_wildcard = is_wildcard(&name);
        if (named_wildcard || self.has_wildcard()) && !(named_wildcard && self.all_wildcard()) {
            let a = Anomaly::RedundantWildcardUserAgent(name.clone());
            proof {
                lemma_anomaly_views_push(self.anomalies@, a);
            }
            self.anomalies.push(a);
        }
        if self.is_empty() {
            let ghost ns = self.names@;
            self.names.push(name);
            proof {
                assert(string_views(self.names@) =~= string_views(ns).push(name@));
            }
        } else {
            let a = Anomaly::RecursedUserAgent(name);
            proof {
                lemma_anomaly_views_push(self.anomalies@, a);
            }
            self.anomalies.push(a);
        }
    }

    /// Adds a rule to the section.
    pub fn add_rule(&mut self, rule: Rule)
        ensures
            final(self)@ == (AgentView { rules: old(self)@.rules.push(rule@), ..old(self)@ }),
    {
        let ghost rs = self.rules@;
        self.rules.push(rule);
        assert(rule_views(self.rules@) =~= rule_views(rs).push(rule@));
    }

    /// Records `comment`, attached to `context`.
    pub fn add_comment(&mut self, context: String, comment: String)
        ensures
            final(self)@ == agent_with_anomaly(old(self)@, AnomalyView::Comment(comment@, context@)),
    {
        self.add_anomaly(Anomaly::Comment(comment, context));
    }

    /// Records an anomaly.
    pub fn add_anomaly(&mut self, anomaly: Anomaly)
        ensures
            final(self)@ == agent_with_anomaly(old(self)@, anomaly@),
    {
        proof {
            lemma_anomaly_views_push(self.anomalies@, anomaly);
        }
        self.anomalies.push(anomaly);
    }

    /// The section with its rules put in order.
    pub fn into_sorted(self) -> (r: UserAgent)
        ensures
            r@ == agent_sorted(self@),
    {
        let UserAgent { names, rules, anomalies } = self;
        UserAgent { names, rules: sort_rules(rules), anomalies }
    }

    /// Whether the section applies to the agent string `user_agent`.
    pub fn applies(&self, user_agent: &str) -> (r: bool)
        ensures
            r == names_apply(self@.names, user_agent@),
    {
        let ua = chars_of(user_agent);
        let mut i: usize = 0;
        while i < self.names.len()
            invariant
                i <= self.names.len(),
                ua@ == user_agent@,
                forall|j: int|
                    0 <= j < i ==> !((self@.names[j].len() <= ua@.len() && ua@.subrange(
                        0,
                        self@.names[j].len() as int,
                    ) == self@.names[j]) || self@.names[j] == wildcard()),
            decreases self.names.len() - i,
        {
            let name = chars_of(self.names[i].as_str());
            proof {
                assert(self@.names[i as int] == name@);
            }
            if starts_with_chars(ua.as_slice(), name.as_slice()) || is_wildcard(&self.names[i]) {
                return true;
            }
            i += 1;
        }
        false
    }

    /// The length of the shortest name.
    pub fn specificity(&self) -> (r: usize)
        ensures
            r == shortest_name(self@.names),
    {
        let mut m: usize = usize::MAX;
        let mut i: usize = 0;
        proof {
            assert(self@.names.subrange(0, 0) =~= Seq::<Seq<char>>::empty());
        }
        while i < self.names.len()
            invariant
                i <= self.names.len(),
                m == shortest_name(self@.names.subrange(0, i as int)),
            decreases self.names.len() - i,
        {
            let len = chars_of(self.names[i].as_str()).len();
            proof {
                assert(self@.names.subrange(0, i + 1).drop_last() =~= self@.names.subrange(
                    0,
                    i as int,
                ));
                assert(self@.names[i as int] == self.names@[i as int]@);
            }
            if len < m {
                m = len;
            }
            i += 1;
        }
        assert(self@.names.subrange(0, i as int) =~= self@.names);
        m
    }

    /// Compares two sections: sections naming the wildcard come last, and the others by the
    /// length of their shortest name.
    pub fn compare(&self, rhs: &UserAgent) -> (r: Ordering)
        ensures
            r == agent_ordering(self@, rhs@),
    {
        let lw = self.has_wildcard();
        let rw = rhs.has_wildcard();
        if lw && rw {
            Ordering::Equal
        } else if lw {
            Ordering::Greater
        } else if rw {
            Ordering::Less
        } else {
            let ls = self.specificity();
            let rs = rhs.specificity();
            if ls < rs {
                Ordering::Less
            } else if ls > rs {
                Ordering::Greater
            } else {
                Ordering::Equal
            }
        }
    }
}

/// After sorting, every section that names the wildcard comes after every section that does
/// not, and the others ascend by the length of their shortest name.
pub proof fn lemma_sorted_agents_ascend(s: Seq<AgentView>)
    ensures
        ({
            let r = sorted_by(s, agent_less());
            &&& r.len() == s.len()
            &&& forall|i: int, j: int|
                0 <= i < j < r.len() && has_wildcard(r[i].names) ==> has_wildcard(r[j].names)
            &&& forall|i: int, j: int|
                0 <= i < j < r.len() && !has_wildcard(r[j].names) ==> shortest_name(r[i].names)
                    <= shortest_name(r[j].names)
        }),
{
    lemma_sorted_by_ordered(s, agent_less());
}

} // verus!
