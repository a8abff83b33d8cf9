//! The parsed document: its sitemaps, sections and anomalies, and the answer to whether a
//! path may be visited by an agent.
use vstd::prelude::*;

use base_url::BaseUrl;

use crate::agent::{AgentView, UserAgent, names_apply, wildcard};
use crate::anomaly::{Anomaly, AnomalyView, anomaly_views, lemma_anomaly_views_push};
use crate::rule::{Rule, RuleView, rule_applies, rule_views, view_allows};
use crate::text::{chars_eq, chars_of};
use crate::url::{base_of, clear_fragment, clear_query, clone_url, set_url_path, url_clear_password, url_of, url_path, url_set_username};

verus! {

/// A parsed document as a value: the text of each sitemap URL, the sections, and the
/// anomalies found outside any section.
pub struct DocView {
    pub sitemaps: Seq<Seq<char>>,
    pub agents: Seq<AgentView>,
    pub anomalies: Seq<AnomalyView>,
}

/// The views of a sequence of sections.
pub open spec fn agent_views(s: Seq<UserAgent>) -> Seq<AgentView> {
    s.map_values(|u: UserAgent| u@)
}

/// The rules of the sections that apply to `agent`, section after section.
pub open spec fn pooled_rules(agents: Seq<AgentView>, agent: Seq<char>) -> Seq<RuleView>
    decreases agents.len(),
{
    if agents.len() == 0 {
        Seq::empty()
    } else {
        pooled_rules(agents.drop_last(), agent) + if names_apply(agents.last().names, agent) {
            agents.last().rules
        } else {
            Seq::empty()
        }
    }
}

/// Whether a query for `agent` reaches a section with these names: the agent string `*`
/// reaches every section, and any other reaches the sections that apply to it.
pub open spec fn reaches(names: Seq<Seq<char>>, agent: Seq<char>) -> bool {
    agent == wildcard() || names_apply(names, agent)
}

/// The anomalies of every section, section after section.
pub open spec fn section_anomalies(agents: Seq<AgentView>) -> Seq<AnomalyView>
    decreases agents.len(),
{
    if agents.len() == 0 {
        Seq::empty()
    } else {
        section_anomalies(agents.drop_last()) + agents.last().anomalies
    }
}

pub proof fn lemma_wildcard_reaches_all(agents: Seq<AgentView>)
    ensures
        pooled_anomalies(agents, wildcard()) == section_anomalies(agents),
    decreases agents.len(),
{
    if agents.len() > 0 {
        lemma_wildcard_reaches_all(agents.drop_last());
    }
}

/// The anomalies of the sections that a query for `agent` reaches, section after section.
pub open spec fn pooled_anomalies(agents: Seq<AgentView>, agent: Seq<char>) -> Seq<AnomalyView>
    decreases agents.len(),
{
    if agents.len() == 0 {
        Seq::empty()
    } else {
        pooled_anomalies(agents.drop_last(), agent) + if reaches(agents.last().names, agent) {
            agents.last().anomalies
        } else {
            Seq::empty()
        }
    }
}

/// The verdict of a list of rules on `path`: the last rule that applies decides, and a path
/// that no rule applies to is allowed.
pub open spec fn last_decides(rules: Seq<RuleView>, path: Seq<char>) -> bool
    decreases rules.len(),
{
    if rules.len() == 0 {
        true
    } else if rule_applies(rules.last().1, path) {
        view_allows(rules.last())
    } else {
        last_decides(rules.drop_last(), path)
    }
}

/// Whether the document allows `agent` to visit `path`.
pub open spec fn allowed(doc: DocView, path: Seq<char>, agent: Seq<char>) -> bool {
    last_decides(pooled_rules(doc.agents, agent), path)
}

/// A parsed robots document.
pub struct RobotsParser {
    host: BaseUrl,
    sitemaps: Vec<BaseUrl>,
    sitemap_sources: Ghost<Seq<Seq<char>>>,
    agents: Vec<UserAgent>,
    anomalies: Vec<Anomaly>,
}

impl View for RobotsParser {
    type V = DocView;

    closed spec fn view(&self) -> DocView {
        DocView {
            sitemaps: self.sitemap_sources@,
            agents: agent_views(self.agents@),
            anomalies: anomaly_views(self.anomalies@),
        }
    }
}

impl RobotsParser {
    /// The sitemap URLs, in the order they were declared.
    pub closed spec fn sitemap_urls(&self) -> Seq<BaseUrl> {
        self.sitemaps@
    }

    /// The document keeps one URL for each sitemap text.
    pub closed spec fn wf(&self) -> bool {
        self.sitemaps@.len() == self.sitemap_sources@.len()
    }

    /// An empty document for `host`.
    pub(crate) fn empty(host: BaseUrl) -> (r: RobotsParser)
        ensures
            r.wf(),
            r@ == (DocView { sitemaps: Seq::empty(), agents: Seq::empty(), anomalies: Seq::empty() }),
    {
        let r = RobotsParser {
            host,
            sitemaps: Vec::new(),
            sitemap_sources: Ghost(Seq::empty()),
            agents: Vec::new(),
            anomalies: Vec::new(),
        };
        assert(r@.agents =~= Seq::<AgentView>::empty());
        assert(r@.anomalies =~= Seq::<AnomalyView>::empty());
        r
    }

    /// Records `comment`, attached to `context`, at the top level.
    pub(crate) fn add_comment(&mut self, context: String, comment: String)
        requires
            old(self).wf(),
        ensures
            final(self).wf(),
            final(self)@ == (DocView {
                anomalies: old(self)@.anomalies.push(AnomalyView::Comment(comment@, context@)),
                ..old(self)@
            }),
    {
        self.add_anomaly(Anomaly::Comment(comment, context));
    }

    /// Appends a closed section.
    pub(crate) fn add_agent(&mut self, agent: UserAgent)
        requires
            old(self).wf(),
        ensures
            final(self).wf(),
            final(self)@ == (DocView { agents: old(self)@.agents.push(agent@), ..old(self)@ }),
    {
        let ghost a = self.agents@;
        self.agents.push(agent);
        assert(agent_views(self.agents@) =~= agent_views(a).push(agent@));
    }

    /// Appends a sitemap URL, read from the text `source`.
    pub(crate) fn add_sitemap(&mut self, url: BaseUrl, Ghost(source): Ghost<Seq<char>>)
        requires
            old(self).wf(),
        ensures
            final(self).wf(),
            final(self)@ == (DocView { sitemaps: old(self)@.sitemaps.push(source), ..old(self)@ }),
            final(self).sitemap_urls() == old(self).sitemap_urls().push(url),
    {
        self.sitemaps.push(url);
        self.sitemap_sources = Ghost(self.sitemap_sources@.push(source));
    }

    /// Records an anomaly at the top level.
    pub(crate) fn add_anomaly(&mut self, anomaly: Anomaly)
        requires
            old(self).wf(),
        ensures
            final(self).wf(),
            final(self)@ == (DocView {
                anomalies: old(self)@.anomalies.push(anomaly@),
                ..old(self)@
            }),
    {
        proof {
            lemma_anomaly_views_push(self.anomalies@, anomaly);
        }
        self.anomalies.push(anomaly);
    }

    /// Records a line of unknown format at the top level.
    pub(crate) fn add_unknown(&mut self, line: String)
        requires
            old(self).wf(),
        ensures
            final(self).wf(),
            final(self)@ == (DocView {
                anomalies: old(self)@.anomalies.push(AnomalyView::UnknownFormat(line@)),
                ..old(self)@
            }),
    {
        self.add_anomaly(Anomaly::UnknownFormat(line));
    }

    /// The document with its sections put in order.
    pub(crate) fn with_agents(self, agents: Vec<UserAgent>) -> (r: RobotsParser)
        requires
            self.wf(),
        ensures
            r.wf(),
            r@ == (DocView { agents: agent_views(agents@), ..self@ }),
    {
        let RobotsParser { host, sitemaps, sitemap_sources, agents: _, anomalies } = self;
        RobotsParser { host, sitemaps, sitemap_sources, agents, anomalies }
    }

    /// Takes the sections out of the document.
    pub(crate) fn take_agents(self) -> (r: (RobotsParser, Vec<UserAgent>))
        requires
            self.wf(),
        ensures
            r.0.wf(),
            r.0@ == (DocView { agents: Seq::empty(), ..self@ }),
            agent_views(r.1@) == self@.agents,
    {
        let RobotsParser { host, sitemaps, sitemap_sources, agents, anomalies } = self;
        let r = RobotsParser { host, sitemaps, sitemap_sources, agents: Vec::new(), anomalies };
        assert(r@.agents =~= Seq::<AgentView>::empty());
        (r, agents)
    }

    /// The sections of the document, in order.
    pub fn agents(&self) -> (r: &Vec<UserAgent>)
        ensures
            agent_views(r@) == self@.agents,
    {
        &self.agents
    }

    /// The rules of every section that applies to `user_agent`, section after section.
    pub fn get_allowances(&self, user_agent: &str) -> (r: Vec<Rule>)
        ensures
            rule_views(r@) == pooled_rules(self@.agents, user_agent@),
    {
        let mut ret: Vec<Rule> = Vec::new();
        let mut i: usize = 0;
        proof {
            assert(self@.agents.subrange(0, 0) =~= Seq::<AgentView>::empty());
            assert(rule_views(ret@) =~= Seq::<RuleView>::empty());
        }
        while i < self.agents.len()
            invariant
                i <= self.agents.len(),
                self@.agents == agent_views(self.agents@),
                rule_views(ret@) == pooled_rules(
                    self@.agents.subrange(0, i as int),
                    user_agent@,
                ),
            decreases self.agents.len() - i,
        {
            let agent = &self.agents[i];
            let ghost before = rule_views(ret@);
            proof {
                assert(self@.agents.subrange(0, i + 1).drop_last() =~= self@.agents.subrange(
                    0,
                    i as int,
                ));
                assert(self@.agents[i as int] == agent@);
            }
            if agent.applies(user_agent) {
                let rules = agent.rules();
                let mut j: usize = 0;
                proof {
                    assert(before + rule_views(rules@).subrange(0, 0) =~= before);
                }
                while j < rules.len()
                    invariant
                        j <= rules.len(),
                        rule_views(ret@) == before + rule_views(rules@).subrange(0, j as int),
                    decreases rules.len() - j,
                {
                    let ghost r0 = ret@;
                    ret.push(rules[j].duplicate());
                    proof {
                        assert(rule_views(ret@) =~= rule_views(r0).push(rules@[j as int]@));
                        assert(rule_views(rules@).subrange(0, j + 1) =~= rule_views(
                            rules@,
                        ).subrange(0, j as int).push(rules@[j as int]@));
                        assert(before + rule_views(rules@).subrange(0, j + 1) =~= (before
                            + rule_views(rules@).subrange(0, j as int)).push(rules@[j as int]@));
                    }
                    j += 1;
                }
                proof {
                    assert(rule_views(rules@).subrange(0, j as int) =~= rule_views(rules@));
                }
            } else {
                assert(before + Seq::<RuleView>::empty() =~= before);
            }
            i += 1;
        }
        assert(self@.agents.subrange(0, i as int) =~= self@.agents);
        ret
    }

    /// Whether the document allows `user_agent` to visit the URL path `path`: of the rules
    /// that apply, the last one decides, and with none the visit is allowed.
    pub fn is_allowed_path(&self, path: &str, user_agent: &str) -> (r: bool)
        ensures
            r == allowed(self@, path@, user_agent@),
    {
        let rules = self.get_allowances(user_agent);
        let p = chars_of(path);
        let mut ans = true;
        let mut i: usize = 0;
        let ghost rv = rule_views(rules@);
        proof {
            assert(rv.subrange(0, 0) =~= Seq::<RuleView>::empty());
        }
        while i < rules.len()
            invariant
                i <= rules.len(),
                rv == rule_views(rules@),
                p@ == path@,
                ans == last_decides(rv.subrange(0, i as int), path@),
            decreases rules.len() - i,
        {
            proof {
                assert(rv.subrange(0, i + 1).drop_last() =~= rv.subrange(0, i as int));
                assert(rv.subrange(0, i + 1).last() == rules@[i as int]@);
            }
            if rules[i].applies(&p) {
                ans = rules[i].is_allow();
            }
            i += 1;
        }
        assert(rv.subrange(0, i as int) =~= rv);
        ans
    }

    /// Whether the document allows `user_agent` to visit `url`, judged on the URL's path.
    pub fn is_allowed(&self, url: &BaseUrl, user_agent: &str) -> (r: bool)
        ensures
            exists|path: Seq<char>| r == allowed(self@, path, user_agent@),
    {
        let path = url_path(url);
        self.is_allowed_path(path.as_str(), user_agent)
    }

    /// The host the document was read for.
    pub fn host_url(&self) -> (r: BaseUrl) {
        clone_url(&self.host)
    }

    /// The place of the robots document on the host: its URL with the path `/robots.txt` and
    /// without query or fragment, and without user name and password where the URL can
    /// carry them (a `file` URL cannot, and is left with what it has).
    pub fn guess_robots_url(&self) -> (r: BaseUrl) {
        let mut ret = clone_url(&self.host);
        clear_query(&mut ret);
        clear_fragment(&mut ret);
        let mut u = url_of(clone_url(&ret));
        if url_set_username(&mut u, "") && url_clear_password(&mut u) {
            if let Some(b) = base_of(u) {
                ret = b;
            }
        }
        set_url_path(&mut ret, "/robots.txt");
        ret
    }

    /// The sitemap URLs, in the order they were declared.
    pub fn get_sitemaps(&self) -> (r: Vec<BaseUrl>)
        requires
            self.wf(),
        ensures
            r@ == self.sitemap_urls(),
            r@.len() == self@.sitemaps.len(),
    {
        let mut ret: Vec<BaseUrl> = Vec::new();
        let mut i: usize = 0;
        while i < self.sitemaps.len()
            invariant
                i <= self.sitemaps.len(),
                ret@ == self.sitemaps@.subrange(0, i as int),
            decreases self.sitemaps.len() - i,
        {
            ret.push(clone_url(&self.sitemaps[i]));
            i += 1;
            assert(ret@ =~= self.sitemaps@.subrange(0, i as int));
        }
        assert(self.sitemaps@.subrange(0, i as int) =~= self.sitemaps@);
        ret
    }

    /// The anomalies found outside any User-agent section.
    pub fn get_toplevel_anomalies(&self) -> (r: &Vec<Anomaly>)
        ensures
            anomaly_views(r@) == self@.anomalies,
    {
        &self.anomalies
    }

    /// The anomalies of every section that applies to `user_agent`, section after section;
    /// the agent string `*` stands for every section.
    pub fn get_agent_anomalies(&self, user_agent: &str) -> (r: Vec<&Anomaly>)
        ensures
            r@.map_values(|a: &Anomaly| a@) == pooled_anomalies(self@.agents, user_agent@),
    {
        let star: Vec<char> = vec!['*'];
        assert(star@ =~= wildcard());
        let every = chars_eq(chars_of(user_agent).as_slice(), star.as_slice());
        let mut ret: Vec<&Anomaly> = Vec::new();
        let mut i: usize = 0;
        proof {
            assert(self@.agents.subrange(0, 0) =~= Seq::<AgentView>::empty());
            assert(ret@.map_values(|a: &Anomaly| a@) =~= Seq::<AnomalyView>::empty());
        }
        while i < self.agents.len()
            invariant
                i <= self.agents.len(),
                self@.agents == agent_views(self.agents@),
                ret@.map_values(|a: &Anomaly| a@) == pooled_anomalies(
                    self@.agents.subrange(0, i as int),
                    user_agent@,
                ),
                every == (user_agent@ == wildcard()),
            decreases self.agents.len() - i,
        {
            let agent = &self.agents[i];
            let ghost before = ret@.map_values(|a: &Anomaly| a@);
            proof {
                assert(self@.agents.subrange(0, i + 1).drop_last() =~= self@.agents.subrange(
                    0,
                    i as int,
                ));
                assert(self@.agents[i as int] == agent@);
            }
            if every || agent.applies(user_agent) {
                let an = agent.anomalies();
                let mut j: usize = 0;
                proof {
                    assert(before + anomaly_views(an@).subrange(0, 0) =~= before);
                }
                while j < an.len()
                    invariant
                        j <= an.len(),
                        ret@.map_values(|a: &Anomaly| a@) == before + anomaly_views(
                            an@,
                        ).subrange(0, j as int),
                    decreases an.len() - j,
                {
                    let ghost r0 = ret@;
                    ret.push(&an[j]);
                    proof {
                        assert(ret@.map_values(|a: &Anomaly| a@) =~= r0.map_values(
                            |a: &Anomaly| a@,
                        ).push(an@[j as int]@));
                        assert(anomaly_views(an@).subrange(0, j + 1) =~= anomaly_views(
                            an@,
                        ).subrange(0, j as int).push(an@[j as int]@));
                        assert(before + anomaly_views(an@).subrange(0, j + 1) =~= (before
                            + anomaly_views(an@).subrange(0, j as int)).push(an@[j as int]@));
                    }
                    j += 1;
                }
                proof {
                    assert(anomaly_views(an@).subrange(0, j as int) =~= anomaly_views(an@));
                }
            } else {
                assert(before + Seq::<AnomalyView>::empty() =~= before);
            }
            i += 1;
        }
        assert(self@.agents.subrange(0, i as int) =~= self@.agents);
        ret
    }

    /// The top-level anomalies followed by those of every section, section after section.
    pub fn get_all_anomalies(&self) -> (r: Vec<&Anomaly>)
        ensures
            r@.map_values(|a: &Anomaly| a@) == self@.anomalies + section_anomalies(self@.agents),
    {
        let mut ret: Vec<&Anomaly> = Vec::new();
        let mut i: usize = 0;
        proof {
            assert(ret@.map_values(|a: &Anomaly| a@) =~= Seq::<AnomalyView>::empty());
        }
        while i < self.anomalies.len()
            invariant
                i <= self.anomalies.len(),
                self@.anomalies == anomaly_views(self.anomalies@),
                ret@.map_values(|a: &Anomaly| a@) == self@.anomalies.subrange(0, i as int),
            decreases self.anomalies.len() - i,
        {
            let ghost r0 = ret@;
            ret.push(&self.anomalies[i]);
            proof {
                assert(ret@.map_values(|a: &Anomaly| a@) =~= r0.map_values(|a: &Anomaly| a@).push(
                    self.anomalies@[i as int]@,
                ));
                assert(self@.anomalies.subrange(0, i + 1) =~= self@.anomalies.subrange(
                    0,
                    i as int,
                ).push(self.anomalies@[i as int]@));
            }
            i += 1;
        }
        let ghost top = ret@.map_values(|a: &Anomaly| a@);
        proof {
            reveal_strlit("*");
            assert("*"@ =~= wildcard());
            lemma_wildcard_reaches_all(self@.agents);
        }
        let rest = self.get_agent_anomalies("*");
        let ghost r0 = ret@;
        let mut k: usize = 0;
        proof {
            assert(self@.anomalies.subrange(0, i as int) =~= self@.anomalies);
            assert(top + rest@.map_values(|a: &Anomaly| a@).subrange(0, 0) =~= top);
        }
        while k < rest.len()
            invariant
                k <= rest.len(),
                ret@.map_values(|a: &Anomaly| a@) == top + rest@.map_values(
                    |a: &Anomaly| a@,
                ).subrange(0, k as int),
            decreases rest.len() - k,
        {
            let ghost r1 = ret@;
            ret.push(rest[k]);
            proof {
                assert(ret@.map_values(|a: &Anomaly| a@) =~= r1.map_values(|a: &Anomaly| a@).push(
                    rest@[k as int]@,
                ));
                assert(top + rest@.map_values(|a: &Anomaly| a@).subrange(0, k + 1) =~= (top
                    + rest@.map_values(|a: &Anomaly| a@).subrange(0, k as int)).push(
                    rest@[k as int]@,
                ));
            }
            k += 1;
        }
        assert(rest@.map_values(|a: &Anomaly| a@).subrange(0, k as int) =~= rest@.map_values(
            |a: &Anomaly| a@,
        ));
        ret
    }
}

} // verus!
