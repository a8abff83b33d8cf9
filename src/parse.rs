//! Reading a robots document: the interpretation of directives and the state machine that
//! consumes the text line by line.
use vstd::prelude::*;

use base_url::BaseUrl;

use core::cmp::Ordering;

use crate::agent::{AgentView, UserAgent, agent_lt, agent_less, agent_sorted, agent_with_anomaly, agent_with_name, new_agent_view};
use crate::anomaly::{Anomaly, AnomalyView};
use crate::order::{sorted_by, lemma_insert_index_at};
use crate::robots::{DocView, RobotsParser, agent_views};
use crate::rule::{Rule, RuleView, root_path};
use crate::text::{char_is_lower, chars_eq, chars_of, find_char, find_first, is_lower, to_upper, upper_chars, slice_chars, split_chars, split_on, string_of, trim, trim_chars, trim_start, views, lemma_find_char_range};
use crate::url::{is_base_url, parse_base_url};

verus! {

/// The text `User-agent`.
pub open spec fn user_agent_word() -> Seq<char> {
    seq!['U', 's', 'e', 'r', '-', 'a', 'g', 'e', 'n', 't']
}

/// The text `Allow`.
pub open spec fn allow_word() -> Seq<char> {
    seq!['A', 'l', 'l', 'o', 'w']
}

/// The text `Disallow`.
pub open spec fn disallow_word() -> Seq<char> {
    seq!['D', 'i', 's', 'a', 'l', 'l', 'o', 'w']
}

/// The text `Sitemap`.
pub open spec fn sitemap_word() -> Seq<char> {
    seq!['S', 'i', 't', 'e', 'm', 'a', 'p']
}

/// The context given to a comment still open at the end of the text: `[EOF]`.
pub open spec fn eof_context() -> Seq<char> {
    seq!['[', 'E', 'O', 'F', ']']
}

/// The line a directive stands for: `directive: argument`.
pub open spec fn directive_text(d: Seq<char>, a: Seq<char>) -> Seq<char> {
    d + seq![':', ' '] + a
}

/// What a directive asks for.
pub enum DirectiveModel {
    UserAgent(Seq<char>),
    Rule(RuleView),
    Sitemap,
    BadArg,
    Unknown,
}

/// The rule that an `Allow` (when `allow`) or `Disallow` line with argument `a` stands for.
pub open spec fn rule_of(allow: bool, a: Seq<char>) -> RuleView {
    (allow, if a.len() == 0 {
        root_path()
    } else {
        a
    })
}

/// The meaning of directive `d` with argument `a`: the four directive names are recognised
/// as written; a sitemap whose argument is not a base URL is a bad argument.
pub open spec fn directive_model(d: Seq<char>, a: Seq<char>) -> DirectiveModel {
    if d == user_agent_word() {
        DirectiveModel::UserAgent(a)
    } else if d == disallow_word() {
        DirectiveModel::Rule(rule_of(false, a))
    } else if d == allow_word() {
        DirectiveModel::Rule(rule_of(true, a))
    } else if d == sitemap_word() {
        if is_base_url(a) {
            DirectiveModel::Sitemap
        } else {
            DirectiveModel::BadArg
        }
    } else {
        DirectiveModel::Unknown
    }
}

/// Whether a directive name starts with a lower-case character.
pub open spec fn is_lower_start(d: Seq<char>) -> bool {
    d.len() > 0 && is_lower(d[0])
}

/// The directive name with its first character in upper case; only names that start in
/// lower case are changed.
pub open spec fn normalized(d: Seq<char>) -> Seq<char> {
    if is_lower_start(d) {
        upper_chars(d[0]) + d.drop_first()
    } else {
        d
    }
}

/// The state inside a User-agent section.
pub enum SectionModel {
    /// A comment is being collected; it has no context yet.
    Comment(AgentView, Seq<char>),
    Normal(AgentView),
}

/// The state of the whole document.
pub enum StateModel {
    /// A comment is being collected at the top level; it has no context yet.
    Comment(DocView, Seq<char>),
    /// Inside a User-agent section.
    Agent(DocView, SectionModel),
    Normal(DocView),
}

/// The document with one more top-level anomaly.
pub open spec fn doc_with(d: DocView, a: AnomalyView) -> DocView {
    DocView { anomalies: d.anomalies.push(a), ..d }
}

/// Two comment texts joined by a line break.
pub open spec fn joined(s: Seq<char>, line: Seq<char>) -> Seq<char> {
    s + seq!['\n'] + line
}

/// Closes a section: a comment still open is recorded with `context`, and the rules are
/// put in order.
pub open spec fn sec_close(s: SectionModel, context: Seq<char>) -> AgentView {
    match s {
        SectionModel::Comment(u, c) => agent_sorted(
            agent_with_anomaly(u, AnomalyView::Comment(c, context)),
        ),
        SectionModel::Normal(u) => agent_sorted(u),
    }
}

pub open spec fn sec_comment(s: SectionModel, line: Seq<char>) -> SectionModel {
    match s {
        SectionModel::Comment(u, c) => SectionModel::Comment(u, joined(c, line)),
        SectionModel::Normal(u) => SectionModel::Comment(u, line),
    }
}

pub open spec fn sec_context_comment(
    s: SectionModel,
    context: Seq<char>,
    comment: Seq<char>,
) -> SectionModel {
    match s {
        SectionModel::Comment(u, c) => SectionModel::Normal(
            agent_with_anomaly(
                agent_with_anomaly(u, AnomalyView::Comment(c, context)),
                AnomalyView::Comment(comment, context),
            ),
        ),
        SectionModel::Normal(u) => SectionModel::Normal(
            agent_with_anomaly(u, AnomalyView::Comment(comment, context)),
        ),
    }
}

/// A directive line inside a section.
pub open spec fn sec_directive(s: SectionModel, d: Seq<char>, a: Seq<char>) -> SectionModel {
    let u0 = match s {
        SectionModel::Comment(u, c) => agent_with_anomaly(
            u,
            AnomalyView::Comment(c, directive_text(d, a)),
        ),
        SectionModel::Normal(u) => u,
    };
    let u1 = if is_lower_start(d) {
        agent_with_anomaly(u0, AnomalyView::Casing(d, a))
    } else {
        u0
    };
    let d2 = normalized(d);
    SectionModel::Normal(
        match directive_model(d2, a) {
            DirectiveModel::UserAgent(n) => agent_with_name(u1, n),
            DirectiveModel::Rule(r) => AgentView { rules: u1.rules.push(r), ..u1 },
            DirectiveModel::Unknown => agent_with_anomaly(
                u1,
                AnomalyView::UnknownDirective(d2, a),
            ),
            DirectiveModel::BadArg => agent_with_anomaly(u1, AnomalyView::BadArgument(d2, a)),
            DirectiveModel::Sitemap => agent_with_anomaly(
                u1,
                AnomalyView::MissSectionedDirective(d2, a),
            ),
        },
    )
}

pub open spec fn sec_anomaly(s: SectionModel, line: Seq<char>) -> SectionModel {
    match s {
        SectionModel::Comment(u, c) => SectionModel::Normal(
            agent_with_anomaly(u, AnomalyView::Comment(c, line)),
        ),
        SectionModel::Normal(u) => SectionModel::Normal(
            agent_with_anomaly(u, AnomalyView::UnknownFormat(line)),
        ),
    }
}

/// An empty line: a section is closed; a top-level comment is recorded with empty context.
pub open spec fn st_empty_line(st: StateModel) -> StateModel {
    match st {
        StateModel::Comment(r, s) => StateModel::Normal(
            doc_with(r, AnomalyView::Comment(s, Seq::empty())),
        ),
        StateModel::Agent(r, s) => StateModel::Normal(
            DocView { agents: r.agents.push(sec_close(s, Seq::empty())), ..r },
        ),
        StateModel::Normal(r) => StateModel::Normal(r),
    }
}

/// A comment line: it is collected until its context is known.
pub open spec fn st_comment(st: StateModel, line: Seq<char>) -> StateModel {
    match st {
        StateModel::Comment(r, s) => StateModel::Comment(r, joined(s, line)),
        StateModel::Agent(r, s) => StateModel::Agent(r, sec_comment(s, line)),
        StateModel::Normal(r) => StateModel::Comment(r, line),
    }
}

/// A comment at the end of a line, with the line before it as context.
pub open spec fn st_context_comment(
    st: StateModel,
    context: Seq<char>,
    comment: Seq<char>,
) -> StateModel {
    match st {
        StateModel::Comment(r, s) => StateModel::Normal(
            doc_with(
                doc_with(r, AnomalyView::Comment(s, context)),
                AnomalyView::Comment(comment, context),
            ),
        ),
        StateModel::Agent(r, s) => StateModel::Agent(r, sec_context_comment(s, context, comment)),
        StateModel::Normal(r) => StateModel::Normal(
            doc_with(r, AnomalyView::Comment(comment, context)),
        ),
    }
}

/// A directive line at the top level (outside a section).
pub open spec fn root_directive_model(r: DocView, d: Seq<char>, a: Seq<char>) -> StateModel {
    let r1 = if is_lower_start(d) {
        doc_with(r, AnomalyView::Casing(d, a))
    } else {
        r
    };
    let d2 = normalized(d);
    match directive_model(d2, a) {
        DirectiveModel::UserAgent(n) => StateModel::Agent(
            r1,
            SectionModel::Normal(new_agent_view(n)),
        ),
        DirectiveModel::Rule(rule) => StateModel::Normal(
            doc_with(r1, AnomalyView::OrphanRule(rule)),
        ),
        DirectiveModel::Sitemap => StateModel::Normal(
            DocView { sitemaps: r1.sitemaps.push(a), ..r1 },
        ),
        DirectiveModel::BadArg => StateModel::Normal(
            doc_with(r1, AnomalyView::BadArgument(d2, a)),
        ),
        DirectiveModel::Unknown => StateModel::Normal(
            doc_with(r1, AnomalyView::UnknownDirective(d2, a)),
        ),
    }
}

/// A directive line `d: a`; a collected comment takes the line as its context.
pub open spec fn st_directive(st: StateModel, d: Seq<char>, a: Seq<char>) -> StateModel {
    match st {
        StateModel::Comment(r, s) => root_directive_model(
            doc_with(r, AnomalyView::Comment(s, directive_text(d, a))),
            d,
            a,
        ),
        StateModel::Agent(r, s) => StateModel::Agent(r, sec_directive(s, d, a)),
        StateModel::Normal(r) => root_directive_model(r, d, a),
    }
}

/// A line that is neither empty, a comment, nor a directive: a collected comment takes it
/// as context; otherwise it is recorded as of unknown format.
pub open spec fn st_anomaly(st: StateModel, line: Seq<char>) -> StateModel {
    match st {
        StateModel::Comment(r, s) => StateModel::Normal(
            doc_with(r, AnomalyView::Comment(s, line)),
        ),
        StateModel::Agent(r, s) => StateModel::Agent(r, sec_anomaly(s, line)),
        StateModel::Normal(r) => StateModel::Normal(doc_with(r, AnomalyView::UnknownFormat(line))),
    }
}

/// The end of the text: an open comment is recorded with context `[EOF]`, an open section is
/// closed, and the sections are put in order.
pub open spec fn st_eof(st: StateModel) -> DocView {
    let r = match st {
        StateModel::Comment(r, s) => doc_with(r, AnomalyView::Comment(s, eof_context())),
        StateModel::Agent(r, s) => DocView { agents: r.agents.push(sec_close(s, eof_context())), ..r },
        StateModel::Normal(r) => r,
    };
    DocView { agents: sorted_by(r.agents, agent_less()), ..r }
}

/// A line that is not empty and not a comment, once a trailing comment has been split off:
/// a directive when it holds a `:`, else an anomaly.
pub open spec fn st_body(st: StateModel, line: Seq<char>) -> StateModel {
    match find_char(line, ':') {
        Some(j) => st_directive(
            st,
            line.subrange(0, j),
            trim_start(line.subrange(j, line.len() as int), true),
        ),
        None => st_anomaly(st, line),
    }
}

/// One line of the text, trimmed of surrounding whitespace.
pub open spec fn st_line(st: StateModel, raw: Seq<char>) -> StateModel {
    let line = trim(raw);
    if line.len() == 0 {
        st_empty_line(st)
    } else if line[0] == '#' {
        st_comment(st, line)
    } else {
        match find_char(line, '#') {
            Some(i) => st_body(
                st_context_comment(
                    st,
                    line.subrange(0, i),
                    line.subrange(i, line.len() as int),
                ),
                trim(line.subrange(0, i)),
            ),
            None => st_body(st, line),
        }
    }
}

/// The state after the given lines, one after another.
pub open spec fn st_lines(st: StateModel, lines: Seq<Seq<char>>) -> StateModel
    decreases lines.len(),
{
    if lines.len() == 0 {
        st
    } else {
        st_line(st_lines(st, lines.drop_last()), lines.last())
    }
}

/// The empty document.
pub open spec fn empty_doc() -> DocView {
    DocView { sitemaps: Seq::empty(), agents: Seq::empty(), anomalies: Seq::empty() }
}

/// The lines of a text: the pieces between line breaks, without the empty piece after a
/// final line break (so an empty text has no lines).
pub open spec fn lines_of(text: Seq<char>) -> Seq<Seq<char>> {
    let ps = split_on(text, '\n');
    if ps.len() > 0 && ps.last().len() == 0 {
        ps.drop_last()
    } else {
        ps
    }
}

/// The document that a text stands for: its lines run through the state machine from the
/// empty document, and then the end of the text.
pub open spec fn parse_model(text: Seq<char>) -> DocView {
    st_eof(st_lines(StateModel::Normal(empty_doc()), lines_of(text)))
}

/// Appends the characters of `src` to `dst`.
fn push_all(dst: &mut Vec<char>, src: &Vec<char>)
    ensures
        final(dst)@ == old(dst)@ + src@,
{
    let mut i: usize = 0;
    while i < src.len()
        invariant
            i <= src.len(),
            dst@ == old(dst)@ + src@.subrange(0, i as int),
        decreases src.len() - i,
    {
        dst.push(src[i]);
        i += 1;
        assert(dst@ =~= old(dst)@ + src@.subrange(0, i as int));
    }
    assert(src@.subrange(0, i as int) =~= src@);
}

/// A copy of the characters `v`.
fn copy_chars(v: &Vec<char>) -> (r: Vec<char>)
    ensures
        r@ == v@,
{
    let mut r: Vec<char> = Vec::new();
    push_all(&mut r, v);
    assert(r@ =~= v@);
    r
}

/// The text `directive: argument`.
fn directive_string(d: &Vec<char>, a: &Vec<char>) -> (r: String)
    ensures
        r@ == directive_text(d@, a@),
{
    let mut v = copy_chars(d);
    v.push(':');
    v.push(' ');
    push_all(&mut v, a);
    assert(v@ =~= directive_text(d@, a@));
    string_of(v.as_slice())
}

/// What a directive asks for, with the values it carries.
enum DirectiveResult {
    UserAgent(String),
    Rule(Rule),
    Sitemap(BaseUrl),
    BadArg,
    Unknown,
}

impl DirectiveResult {
    spec fn model(&self) -> DirectiveModel {
        match self {
            DirectiveResult::UserAgent(s) => DirectiveModel::UserAgent(s@),
            DirectiveResult::Rule(r) => DirectiveModel::Rule(r@),
            DirectiveResult::Sitemap(_) => DirectiveModel::Sitemap,
            DirectiveResult::BadArg => DirectiveModel::BadArg,
            DirectiveResult::Unknown => DirectiveModel::Unknown,
        }
    }
}

/// Interprets the directive `directive` with argument `argument`.
fn parse_directive(directive: &Vec<char>, argument: &Vec<char>) -> (r: DirectiveResult)
    ensures
        r.model() == directive_model(directive@, argument@),
{
    let ua: Vec<char> = vec!['U', 's', 'e', 'r', '-', 'a', 'g', 'e', 'n', 't'];
    let dis: Vec<char> = vec!['D', 'i', 's', 'a', 'l', 'l', 'o', 'w'];
    let al: Vec<char> = vec!['A', 'l', 'l', 'o', 'w'];
    let sm: Vec<char> = vec!['S', 'i', 't', 'e', 'm', 'a', 'p'];
    proof {
        assert(ua@ =~= user_agent_word());
        assert(dis@ =~= disallow_word());
        assert(al@ =~= allow_word());
        assert(sm@ =~= sitemap_word());
    }
    let a = string_of(argument.as_slice());
    if chars_eq(directive.as_slice(), ua.as_slice()) {
        DirectiveResult::UserAgent(a)
    } else if chars_eq(directive.as_slice(), dis.as_slice()) {
        DirectiveResult::Rule(Rule::new(false, a))
    } else if chars_eq(directive.as_slice(), al.as_slice()) {
        DirectiveResult::Rule(Rule::new(true, a))
    } else if chars_eq(directive.as_slice(), sm.as_slice()) {
        match parse_base_url(a.as_str()) {
            Some(u) => DirectiveResult::Sitemap(u),
            None => DirectiveResult::BadArg,
        }
    } else {
        DirectiveResult::Unknown
    }
}

/// Puts the first character of a directive name in upper case when the name starts in lower
/// case; tells whether it did.
fn normalize(d: Vec<char>) -> (r: (bool, Vec<char>))
    ensures
        r.0 == is_lower_start(d@),
        r.1@ == normalized(d@),
{
    if d.len() > 0 && char_is_lower(d[0]) {
        let mut v = to_upper(d[0]);
        let ghost v0 = v@;
        let mut i: usize = 1;
        while i < d.len()
            invariant
                1 <= i <= d.len(),
                v@ == v0 + d@.subrange(1, i as int),
            decreases d.len() - i,
        {
            v.push(d[i]);
            i += 1;
            assert(v@ =~= v0 + d@.subrange(1, i as int));
        }
        assert(d@.subrange(1, i as int) =~= d@.drop_first());
        (true, v)
    } else {
        (false, d)
    }
}

/// The state inside a User-agent section.
enum SectionState {
    Comment(UserAgent, Vec<char>),
    Normal(UserAgent),
}

impl View for SectionState {
    type V = SectionModel;

    closed spec fn view(&self) -> SectionModel {
        match self {
            SectionState::Comment(u, s) => SectionModel::Comment(u@, s@),
            SectionState::Normal(u) => SectionModel::Normal(u@),
        }
    }
}

impl SectionState {
    fn close(self, context: &Vec<char>) -> (r: UserAgent)
        ensures
            r@ == sec_close(self@, context@),
    {
        match self {
            SectionState::Comment(mut u, s) => {
                u.add_comment(string_of(context.as_slice()), string_of(s.as_slice()));
                u.into_sorted()
            },
            SectionState::Normal(u) => u.into_sorted(),
        }
    }

    fn comment(self, line: &Vec<char>) -> (r: SectionState)
        ensures
            r@ == sec_comment(self@, line@),
    {
        match self {
            SectionState::Comment(u, mut s) => {
                let ghost s0 = s@;
                s.push('\n');
                push_all(&mut s, line);
                assert(s@ =~= joined(s0, line@));
                SectionState::Comment(u, s)
            },
            SectionState::Normal(u) => SectionState::Comment(u, copy_chars(line)),
        }
    }

    fn context_comment(self, context: &Vec<char>, comment: &Vec<char>) -> (r: SectionState)
        ensures
            r@ == sec_context_comment(self@, context@, comment@),
    {
        match self {
            SectionState::Comment(mut u, s) => {
                u.add_comment(string_of(context.as_slice()), string_of(s.as_slice()));
                u.add_comment(string_of(context.as_slice()), string_of(comment.as_slice()));
                SectionState::Normal(u)
            },
            SectionState::Normal(mut u) => {
                u.add_comment(string_of(context.as_slice()), string_of(comment.as_slice()));
                SectionState::Normal(u)
            },
        }
    }

    fn directive_line(self, directive: Vec<char>, argument: Vec<char>) -> (r: SectionState)
        ensures
            r@ == sec_directive(self@, directive@, argument@),
    {
        let mut user_agent = match self {
            SectionState::Comment(mut u, s) => {
                u.add_comment(directive_string(&directive, &argument), string_of(s.as_slice()));
                u
            },
            SectionState::Normal(u) => u,
        };
        let as_written = string_of(directive.as_slice());
        let (lower, directive) = normalize(directive);
        if lower {
            user_agent.add_anomaly(Anomaly::Casing(as_written, string_of(argument.as_slice())));
        }
        match parse_directive(&directive, &argument) {
            DirectiveResult::UserAgent(ua) => {
                user_agent.add_agent(ua);
            },
            DirectiveResult::Rule(r) => {
                user_agent.add_rule(r);
            },
            DirectiveResult::Unknown => {
                user_agent.add_anomaly(
                    Anomaly::UnknownDirective(
                        string_of(directive.as_slice()),
                        string_of(argument.as_slice()),
                    ),
                );
            },
            DirectiveResult::BadArg => {
                user_agent.add_anomaly(
                    Anomaly::BadArgument(
                        string_of(directive.as_slice()),
                        string_of(argument.as_slice()),
                    ),
                );
            },
            DirectiveResult::Sitemap(_) => {
                user_agent.add_anomaly(
                    Anomaly::MissSectionedDirective(
                        string_of(directive.as_slice()),
                        string_of(argument.as_slice()),
                    ),
                );
            },
        }
        SectionState::Normal(user_agent)
    }

    fn anomaly(self, line: &Vec<char>) -> (r: SectionState)
        ensures
            r@ == sec_anomaly(self@, line@),
    {
        match self {
            SectionState::Comment(mut u, s) => {
                u.add_comment(string_of(line.as_slice()), string_of(s.as_slice()));
                SectionState::Normal(u)
            },
            SectionState::Normal(mut u) => {
                u.add_anomaly(Anomaly::UnknownFormat(string_of(line.as_slice())));
                SectionState::Normal(u)
            },
        }
    }
}

/// Sorts sections into their order, keeping the order of sections that compare equal.
fn sort_agents(v: Vec<UserAgent>) -> (r: Vec<UserAgent>)
    ensures
        agent_views(r@) == sorted_by(agent_views(v@), agent_less()),
{
    let ghost orig = agent_views(v@);
    let mut v = v;
    let mut out: Vec<UserAgent> = Vec::new();
    let n = v.len();
    proof {
        assert(orig.subrange(n as int, n as int) =~= Seq::<AgentView>::empty());
        assert(agent_views(out@) =~= Seq::<AgentView>::empty());
    }
    while v.len() > 0
        invariant
            v.len() <= n,
            n == orig.len(),
            agent_views(v@) == orig.subrange(0, v.len() as int),
            agent_views(out@) == sorted_by(orig.subrange(v.len() as int, n as int), agent_less()),
        decreases v.len(),
    {
        let ghost before = v@;
        let x = v.pop().unwrap();
        let ghost m = v.len();
        proof {
            assert(orig.subrange(m as int, n as int).drop_first() =~= orig.subrange(
                m + 1,
                n as int,
            ));
            assert(before[m as int] == x);
            assert(agent_views(before)[m as int] == x@);
            assert(orig.subrange(m as int, n as int)[0] == x@);
            assert(agent_views(v@) =~= orig.subrange(0, m as int));
        }
        let mut j: usize = 0;
        let mut done = false;
        while !done && j < out.len()
            invariant
                j <= out.len(),
                forall|i: int| 0 <= i < j ==> agent_lt(agent_views(out@)[i], x@),
                done ==> j < out.len() && !agent_lt(agent_views(out@)[j as int], x@),
            decreases out.len() - j + if done {
                0int
            } else {
                1int
            },
        {
            let c = out[j].compare(&x);
            if matches!(c, Ordering::Less) {
                j += 1;
            } else {
                done = true;
            }
        }
        let ghost old_out = out@;
        proof {
            lemma_insert_index_at(agent_views(out@), x@, agent_less(), j as int);
        }
        out.insert(j, x);
        proof {
            assert(agent_views(out@) =~= agent_views(old_out).insert(j as int, x@));
        }
    }
    proof {
        assert(orig.subrange(0, n as int) =~= orig);
    }
    out
}

/// The state of the whole document.
enum State {
    Comment(RobotsParser, Vec<char>),
    Agent(RobotsParser, SectionState),
    Normal(RobotsParser),
}

impl View for State {
    type V = StateModel;

    closed spec fn view(&self) -> StateModel {
        match self {
            State::Comment(r, s) => StateModel::Comment(r@, s@),
            State::Agent(r, s) => StateModel::Agent(r@, s@),
            State::Normal(r) => StateModel::Normal(r@),
        }
    }
}

/// A directive line at the top level.
fn root_directive(robots: RobotsParser, directive: Vec<char>, argument: Vec<char>) -> (r: State)
    requires
        robots.wf(),
    ensures
        r.wf(),
        r@ == root_directive_model(robots@, directive@, argument@),
{
    let mut robots = robots;
    let as_written = string_of(directive.as_slice());
    let (lower, directive) = normalize(directive);
    if lower {
        robots.add_anomaly(Anomaly::Casing(as_written, string_of(argument.as_slice())));
    }
    match parse_directive(&directive, &argument) {
        DirectiveResult::UserAgent(ua) => {
            State::Agent(robots, SectionState::Normal(UserAgent::new(ua)))
        },
        DirectiveResult::Rule(r) => {
            robots.add_anomaly(Anomaly::OrphanRule(r));
            State::Normal(robots)
        },
        DirectiveResult::Sitemap(s) => {
            robots.add_sitemap(s, Ghost(argument@));
            State::Normal(robots)
        },
        DirectiveResult::BadArg => {
            robots.add_anomaly(
                Anomaly::BadArgument(string_of(directive.as_slice()), string_of(argument.as_slice())),
            );
            State::Normal(robots)
        },
        DirectiveResult::Unknown => {
            robots.add_anomaly(
                Anomaly::UnknownDirective(
                    string_of(directive.as_slice()),
                    string_of(argument.as_slice()),
                ),
            );
            State::Normal(robots)
        },
    }
}

impl State {
    spec fn wf(&self) -> bool {
        match self {
            State::Comment(r, _) => r.wf(),
            State::Agent(r, _) => r.wf(),
            State::Normal(r) => r.wf(),
        }
    }

    fn empty_line(self) -> (r: State)
        requires
            self.wf(),
        ensures
            r.wf(),
            r@ == st_empty_line(self@),
    {
        match self {
            State::Comment(mut r, s) => {
                r.add_comment(String::new(), string_of(s.as_slice()));
                State::Normal(r)
            },
            State::Agent(mut r, s) => {
                let empty: Vec<char> = Vec::new();
                r.add_agent(s.close(&empty));
                State::Normal(r)
            },
            State::Normal(r) => State::Normal(r),
        }
    }

    fn comment(self, line: &Vec<char>) -> (r: State)
        requires
            self.wf(),
        ensures
            r.wf(),
            r@ == st_comment(self@, line@),
    {
        match self {
            State::Comment(r, mut s) => {
                let ghost s0 = s@;
                s.push('\n');
                push_all(&mut s, line);
                assert(s@ =~= joined(s0, line@));
                State::Comment(r, s)
            },
            State::Agent(r, s) => State::Agent(r, s.comment(line)),
            State::Normal(r) => State::Comment(r, copy_chars(line)),
        }
    }

    fn context_comment(self, context: &Vec<char>, comment: &Vec<char>) -> (r: State)
        requires
            self.wf(),
        ensures
            r.wf(),
            r@ == st_context_comment(self@, context@, comment@),
    {
        match self {
            State::Comment(mut r, s) => {
                r.add_comment(string_of(context.as_slice()), string_of(s.as_slice()));
                r.add_comment(string_of(context.as_slice()), string_of(comment.as_slice()));
                State::Normal(r)
            },
            State::Agent(r, s) => State::Agent(r, s.context_comment(context, comment)),
            State::Normal(mut r) => {
                r.add_comment(string_of(context.as_slice()), string_of(comment.as_slice()));
                State::Normal(r)
            },
        }
    }

    fn directive_line(self, directive: Vec<char>, argument: Vec<char>) -> (r: State)
        requires
            self.wf(),
        ensures
            r.wf(),
            r@ == st_directive(self@, directive@, argument@),
    {
        match self {
            State::Comment(mut r, s) => {
                r.add_comment(directive_string(&directive, &argument), string_of(s.as_slice()));
                root_directive(r, directive, argument)
            },
            State::Agent(r, s) => State::Agent(r, s.directive_line(directive, argument)),
            State::Normal(r) => root_directive(r, directive, argument),
        }
    }

    fn anomaly(self, line: &Vec<char>) -> (r: State)
        requires
            self.wf(),
        ensures
            r.wf(),
            r@ == st_anomaly(self@, line@),
    {
        match self {
            State::Comment(mut r, s) => {
                r.add_comment(string_of(line.as_slice()), string_of(s.as_slice()));
                State::Normal(r)
            },
            State::Agent(r, s) => State::Agent(r, s.anomaly(line)),
            State::Normal(mut r) => {
                r.add_unknown(string_of(line.as_slice()));
                State::Normal(r)
            },
        }
    }

    fn eof(self) -> (r: RobotsParser)
        requires
            self.wf(),
        ensures
            r.wf(),
            r@ == st_eof(self@),
    {
        let eof: Vec<char> = vec!['[', 'E', 'O', 'F', ']'];
        assert(eof@ =~= eof_context());
        let ret = match self {
            State::Comment(mut r, s) => {
                r.add_comment(string_of(eof.as_slice()), string_of(s.as_slice()));
                r
            },
            State::Agent(mut r, s) => {
                r.add_agent(s.close(&eof));
                r
            },
            State::Normal(r) => r,
        };
        let (ret, agents) = ret.take_agents();
        ret.with_agents(sort_agents(agents))
    }

    /// A line that is not empty and not a comment, once a trailing comment is split off.
    fn body(self, line: &Vec<char>) -> (r: State)
        requires
            self.wf(),
        ensures
            r.wf(),
            r@ == st_body(self@, line@),
    {
        proof {
            lemma_find_char_range(line@, ':');
        }
        match find_first(line, ':') {
            Some(j) => {
                let d = slice_chars(line, 0, j);
                let rest = slice_chars(line, j, line.len());
                let a = trim_chars(&rest, true, false);
                self.directive_line(d, a)
            },
            None => self.anomaly(line),
        }
    }

    /// One raw line of the text.
    fn line(self, raw: &Vec<char>) -> (r: State)
        requires
            self.wf(),
        ensures
            r.wf(),
            r@ == st_line(self@, raw@),
    {
        let line = trim_chars(raw, false, true);
        if line.len() == 0 {
            return self.empty_line();
        }
        if line[0] == '#' {
            return self.comment(&line);
        }
        proof {
            lemma_find_char_range(line@, '#');
        }
        match find_first(&line, '#') {
            Some(i) => {
                let l = slice_chars(&line, 0, i);
                let c = slice_chars(&line, i, line.len());
                let st = self.context_comment(&l, &c);
                let t = trim_chars(&l, false, true);
                st.body(&t)
            },
            None => self.body(&line),
        }
    }
}

impl RobotsParser {
    /// Parses the robots document `text`, read for `host`. Parsing never fails: whatever
    /// cannot be acted on is kept as an anomaly.
    pub fn parse(host: BaseUrl, text: &str) -> (r: RobotsParser)
        ensures
            r.wf(),
            r@ == parse_model(text@),
    {
        let chars = chars_of(text);
        let mut lines = split_chars(&chars, '\n');
        if lines.len() > 0 && lines[lines.len() - 1].len() == 0 {
            let ghost before = lines@;
            lines.pop();
            assert(views(lines@) =~= views(before).drop_last());
        }
        let ghost ls = lines_of(text@);
        let mut state = State::Normal(RobotsParser::empty(host));
        let mut i: usize = 0;
        proof {
            assert(ls.subrange(0, 0) =~= Seq::<Seq<char>>::empty());
        }
        while i < lines.len()
            invariant
                i <= lines.len(),
                views(lines@) == ls,
                state.wf(),
                state@ == st_lines(StateModel::Normal(empty_doc()), ls.subrange(0, i as int)),
            decreases lines.len() - i,
        {
            proof {
                assert(ls.subrange(0, i + 1).drop_last() =~= ls.subrange(0, i as int));
                assert(ls.subrange(0, i + 1).last() == lines@[i as int]@);
            }
            state = state.line(&lines[i]);
            i += 1;
        }
        proof {
            assert(ls.subrange(0, i as int) =~= ls);
        }
        state.eof()
    }

    /// Parses the robots document `stringable`, read for `host`.
    pub fn from_stringable(stringable: &str, host: BaseUrl) -> (r: RobotsParser)
        ensures
            r.wf(),
            r@ == parse_model(stringable@),
    {
        Self::parse(host, stringable)
    }
}

} // verus!
