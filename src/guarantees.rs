//! Facts about parsing and answering that follow from the definitions: a disallow-all
//! document, repeatability, robustness against malformed lines, and where comments attach.
use vstd::prelude::*;

use crate::agent::{AgentView, agent_with_anomaly, names_apply, new_agent_view, wildcard};
use crate::anomaly::AnomalyView;
use crate::order::{insert_index, sorted_by};
use crate::parse::{DirectiveModel, SectionModel, StateModel, directive_model, directive_text, disallow_word, doc_with, empty_doc, eof_context, is_lower_start, lines_of, normalized, parse_model, sec_directive, st_directive, st_eof, st_line, st_lines, user_agent_word};
use crate::robots::{DocView, allowed, last_decides, pooled_rules};
use crate::rule::{RuleView, root_path, rule_applies, view_allows};
use crate::text::{find_char, is_lead, is_ws, lemma_find_char_range, split_on, trim, trim_end, trim_start};

verus! {

proof fn lemma_trim_start_keeps_absence(s: Seq<char>, colon: bool, x: char)
    requires
        !s.contains(x),
    ensures
        !trim_start(s, colon).contains(x),
    decreases s.len(),
{
    if s.len() > 0 && is_lead(s[0], colon) {
        assert forall|i: int| 0 <= i < s.drop_first().len() implies s.drop_first()[i] != x by {
            assert(s.drop_first()[i] == s[i + 1]);
        }
        lemma_trim_start_keeps_absence(s.drop_first(), colon, x);
    }
}

proof fn lemma_trim_end_keeps_absence(s: Seq<char>, x: char)
    requires
        !s.contains(x),
    ensures
        !trim_end(s).contains(x),
    decreases s.len(),
{
    if s.len() > 0 && is_ws(s.last()) {
        assert forall|i: int| 0 <= i < s.drop_last().len() implies s.drop_last()[i] != x by {
            assert(s.drop_last()[i] == s[i]);
        }
        lemma_trim_end_keeps_absence(s.drop_last(), x);
    }
}

proof fn lemma_trim_keeps_absence(s: Seq<char>, x: char)
    requires
        !s.contains(x),
    ensures
        !trim(s).contains(x),
{
    lemma_trim_start_keeps_absence(s, false, x);
    lemma_trim_end_keeps_absence(trim_start(s, false), x);
}

proof fn lemma_find_none(s: Seq<char>, x: char)
    requires
        !s.contains(x),
    ensures
        find_char(s, x) is None,
{
    lemma_find_char_range(s, x);
    if let Some(i) = find_char(s, x) {
        assert(s[i] == x);
    }
}

/// What a trailing comment on a trimmed line adds at the top level.
pub open spec fn doc_with_trailing_comment(r: DocView, line: Seq<char>) -> DocView {
    match find_char(line, '#') {
        Some(i) => doc_with(
            r,
            AnomalyView::Comment(line.subrange(i, line.len() as int), line.subrange(0, i)),
        ),
        None => r,
    }
}

/// What a trailing comment on a trimmed line adds inside a section.
pub open spec fn agent_with_trailing_comment(u: AgentView, line: Seq<char>) -> AgentView {
    match find_char(line, '#') {
        Some(i) => agent_with_anomaly(
            u,
            AnomalyView::Comment(line.subrange(i, line.len() as int), line.subrange(0, i)),
        ),
        None => u,
    }
}

/// A trimmed line without its trailing comment, trimmed again.
pub open spec fn line_content(line: Seq<char>) -> Seq<char> {
    match find_char(line, '#') {
        Some(i) => trim(line.subrange(0, i)),
        None => line,
    }
}

/// A line with no `:` that is neither empty nor a comment, read while no comment is being
/// collected, adds exactly one anomaly of unknown format (after the record of a trailing
/// comment, if it has one), and parsing goes on from an ordinary state.
pub proof fn lemma_malformed_line(st: StateModel, raw: Seq<char>)
    requires
        trim(raw).len() > 0,
        trim(raw)[0] != '#',
        !trim(raw).contains(':'),
        st is Normal || (st is Agent && st->Agent_1 is Normal),
    ensures
        st matches StateModel::Normal(r) ==> st_line(st, raw) == StateModel::Normal(
            doc_with(
                doc_with_trailing_comment(r, trim(raw)),
                AnomalyView::UnknownFormat(line_content(trim(raw))),
            ),
        ),
        st matches StateModel::Agent(r, SectionModel::Normal(u)) ==> st_line(st, raw)
            == StateModel::Agent(
            r,
            SectionModel::Normal(
                agent_with_anomaly(
                    agent_with_trailing_comment(u, trim(raw)),
                    AnomalyView::UnknownFormat(line_content(trim(raw))),
                ),
            ),
        ),
{
    let line = trim(raw);
    match find_char(line, '#') {
        Some(i) => {
            lemma_find_char_range(line, '#');
            let left = line.subrange(0, i);
            assert forall|k: int| 0 <= k < left.len() implies left[k] != ':' by {
                assert(left[k] == line[k]);
            }
            lemma_trim_keeps_absence(left, ':');
            lemma_find_none(trim(left), ':');
        },
        None => {
            lemma_find_none(line, ':');
        },
    }
}

/// A comment line followed by a directive line: the collected comment is recorded with the
/// directive's own text (`directive: argument`) as its context, and the directive is then
/// read as if no comment had been collected.
pub proof fn lemma_comment_then_directive(st: StateModel, c: Seq<char>, l: Seq<char>, j: int)
    requires
        trim(c).len() > 0,
        trim(c)[0] == '#',
        !trim(l).contains('#'),
        find_char(trim(l), ':') == Some(j),
        st is Normal || (st is Agent && st->Agent_1 is Normal),
    ensures
        ({
            let line = trim(l);
            let d = line.subrange(0, j);
            let a = trim_start(line.subrange(j, line.len() as int), true);
            &&& st matches StateModel::Normal(r) ==> st_line(st_line(st, c), l) == st_directive(
                StateModel::Normal(
                    doc_with(r, AnomalyView::Comment(trim(c), directive_text(d, a))),
                ),
                d,
                a,
            )
            &&& st matches StateModel::Agent(r, SectionModel::Normal(u)) ==> st_line(
                st_line(st, c),
                l,
            ) == StateModel::Agent(
                r,
                sec_directive(
                    SectionModel::Normal(
                        agent_with_anomaly(u, AnomalyView::Comment(trim(c), directive_text(d, a))),
                    ),
                    d,
                    a,
                ),
            )
        }),
{
    let line = trim(l);
    lemma_find_char_range(line, ':');
    lemma_find_none(line, '#');
    assert(line[0] != '#');
}

/// Parsing is repeatable: two documents read from the same text have the same anomalies,
/// the same sections with the same names, rules and anomalies, and the same sitemaps.
pub proof fn lemma_parse_repeatable(text: Seq<char>, a: DocView, b: DocView)
    requires
        a == parse_model(text),
        b == parse_model(text),
    ensures
        a.anomalies == b.anomalies,
        a.agents == b.agents,
        a.sitemaps == b.sitemaps,
        forall|path: Seq<char>, agent: Seq<char>| allowed(a, path, agent) == allowed(b, path, agent),
{
}

proof fn lemma_split_without_sep(s: Seq<char>, sep: char)
    requires
        !s.contains(sep),
    ensures
        split_on(s, sep) == seq![s],
    decreases s.len(),
{
    if s.len() > 0 {
        assert forall|i: int| 0 <= i < s.drop_last().len() implies s.drop_last()[i] != sep by {
            assert(s.drop_last()[i] == s[i]);
        }
        lemma_split_without_sep(s.drop_last(), sep);
        assert(s.last() != sep);
        assert(s.drop_last().push(s.last()) =~= s);
        assert(seq![s.drop_last()].update(0, s.drop_last().push(s.last())) =~= seq![s]);
    } else {
        assert(s =~= Seq::<char>::empty());
    }
}

proof fn lemma_split_concat(a: Seq<char>, b: Seq<char>, sep: char)
    ensures
        split_on(a + seq![sep] + b, sep) == split_on(a, sep) + split_on(b, sep),
    decreases b.len(),
{
    let s = a + seq![sep] + b;
    crate::text::lemma_split_nonempty(b, sep);
    crate::text::lemma_split_nonempty(a, sep);
    if b.len() == 0 {
        assert(s.drop_last() =~= a);
        assert(split_on(a, sep).push(Seq::<char>::empty()) =~= split_on(a, sep) + split_on(
            b,
            sep,
        ));
    } else {
        let b0 = b.drop_last();
        lemma_split_concat(a, b0, sep);
        crate::text::lemma_split_nonempty(b0, sep);
        assert(s.drop_last() =~= a + seq![sep] + b0);
        assert(s.last() == b.last());
        let pa = split_on(a, sep);
        let pb = split_on(b0, sep);
        if b.last() == sep {
            assert((pa + pb).push(Seq::<char>::empty()) =~= pa + pb.push(Seq::<char>::empty()));
        } else {
            let p = pa + pb;
            assert(p.update(p.len() - 1, p.last().push(b.last())) =~= pa + pb.update(
                pb.len() - 1,
                pb.last().push(b.last()),
            ));
        }
    }
}

proof fn lemma_find_char_at(s: Seq<char>, c: char, i: int)
    requires
        0 <= i < s.len(),
        s[i] == c,
        forall|k: int| 0 <= k < i ==> s[k] != c,
    ensures
        find_char(s, c) == Some(i),
    decreases s.len(),
{
    if i < s.len() - 1 {
        lemma_find_char_at(s.drop_last(), c, i);
    } else {
        lemma_find_none(s.drop_last(), c);
    }
}

/// The line `User-agent: *`.
pub open spec fn any_agent_line() -> Seq<char> {
    user_agent_word() + seq![':', ' ', '*']
}

/// The line `Disallow: /`.
pub open spec fn disallow_root_line() -> Seq<char> {
    disallow_word() + seq![':', ' ', '/']
}

/// The document `User-agent: *` followed by `Disallow: /`.
pub open spec fn disallow_all_text() -> Seq<char> {
    any_agent_line() + seq!['\n'] + disallow_root_line()
}

/// The result of a directive line `name: x` whose name is one of the recognised words.
proof fn lemma_directive_line(st: StateModel, word: Seq<char>, x: char)
    requires
        word.len() > 0,
        !(word[0] >= 'a' && word[0] <= 'z'),
        word[0] <= '\u{7f}',
        !word.contains(':'),
        !word.contains('#'),
        !is_ws(word[0]),
        x != ':' && x != '#' && !is_ws(x),
    ensures
        st_line(st, word + seq![':', ' ', x]) == st_directive(st, word, seq![x]),
        normalized(word) == word,
{
    let line = word + seq![':', ' ', x];
    assert(line[0] == word[0]);
    assert(line.last() == x);
    assert(trim_start(line, false) == line);
    assert(trim_end(line) == line);
    assert(trim(line) == line);
    assert forall|k: int| 0 <= k < line.len() implies line[k] != '#' by {
        if k < word.len() {
            assert(line[k] == word[k]);
        }
    }
    lemma_find_none(line, '#');
    assert forall|k: int| 0 <= k < word.len() implies line[k] != ':' by {
        assert(line[k] == word[k]);
    }
    lemma_find_char_at(line, ':', word.len() as int);
    assert(line.subrange(0, word.len() as int) =~= word);
    let rest = line.subrange(word.len() as int, line.len() as int);
    assert(rest =~= seq![':', ' ', x]);
    assert(rest.drop_first() =~= seq![' ', x]);
    assert(rest.drop_first().drop_first() =~= seq![x]);
    assert(trim_start(seq![x], true) == seq![x]);
    assert(trim_start(rest.drop_first(), true) == seq![x]);
    assert(trim_start(rest, true) == seq![x]);
    assert(!is_lower_start(word));
}

/// A document that consists of `User-agent: *` followed by `Disallow: /` forbids every path
/// to every agent.
pub proof fn lemma_disallow_all(path: Seq<char>, agent: Seq<char>)
    ensures
        !allowed(parse_model(disallow_all_text()), path, agent),
{
    let l1 = any_agent_line();
    let l2 = disallow_root_line();
    let text = disallow_all_text();
    assert forall|k: int| 0 <= k < l1.len() implies l1[k] != '\n' by {}
    assert forall|k: int| 0 <= k < l2.len() implies l2[k] != '\n' by {}
    lemma_split_without_sep(l1, '\n');
    lemma_split_without_sep(l2, '\n');
    lemma_split_concat(l1, l2, '\n');
    assert(split_on(text, '\n') =~= seq![l1, l2]);
    assert(l2.len() > 0);
    let lines = lines_of(text);
    assert(lines =~= seq![l1, l2]);
    let st0 = StateModel::Normal(empty_doc());
    assert(lines.drop_last() =~= seq![l1]);
    assert(seq![l1].drop_last() =~= Seq::<Seq<char>>::empty());
    let st1 = st_line(st0, l1);
    assert(st_lines(st0, Seq::<Seq<char>>::empty()) == st0);
    assert(seq![l1].last() == l1);
    assert(st_lines(st0, seq![l1]) == st1);
    let st2 = st_line(st1, l2);
    assert(st_lines(st0, lines) == st2);

    let ua = user_agent_word();
    assert forall|k: int| 0 <= k < ua.len() implies ua[k] != ':' && ua[k] != '#' by {}
    lemma_directive_line(st0, ua, '*');
    assert(directive_model(ua, seq!['*']) == DirectiveModel::UserAgent(seq!['*']));
    let u0 = new_agent_view(seq!['*']);
    assert(st1 is Agent);
    assert(st1->Agent_1 == SectionModel::Normal(u0));
    let r1 = st1->Agent_0;

    let dw = disallow_word();
    assert forall|k: int| 0 <= k < dw.len() implies dw[k] != ':' && dw[k] != '#' by {}
    lemma_directive_line(st1, dw, '/');
    assert(dw != ua);
    assert(directive_model(dw, seq!['/']) == DirectiveModel::Rule((false, seq!['/'])));
    assert(st2 is Agent);
    let s2 = st2->Agent_1;
    assert(s2 is Normal);
    let u2 = s2->Normal_0;
    assert(u2.names == u0.names);
    assert(u2.rules =~= seq![(false, seq!['/'])]);
    let rule: RuleView = (false, seq!['/']);

    let closed = crate::parse::sec_close(s2, eof_context());
    let sorted_rules = sorted_by(u2.rules, crate::rule::rule_less());
    assert(u2.rules.drop_first() =~= Seq::<RuleView>::empty());
    assert(insert_index(Seq::<RuleView>::empty(), rule, crate::rule::rule_less()) == 0);
    assert(sorted_by(u2.rules.drop_first(), crate::rule::rule_less()) == Seq::<RuleView>::empty());
    assert(sorted_rules =~= seq![rule]);
    assert(closed.rules == seq![rule]);
    assert(closed.names == u0.names);
    let agents = r1.agents.push(closed);
    assert(empty_doc().agents.len() == 0);
    let doc = parse_model(text);
    assert(doc == st_eof(st2));
    assert(r1.agents.len() == 0);
    assert(agents =~= seq![closed]);
    assert(agents.drop_first() =~= Seq::<AgentView>::empty());
    assert(insert_index(Seq::<AgentView>::empty(), closed, crate::agent::agent_less()) == 0);
    assert(sorted_by(agents.drop_first(), crate::agent::agent_less()) == Seq::<AgentView>::empty());
    assert(sorted_by(agents, crate::agent::agent_less()) =~= seq![closed]);
    assert(doc.agents =~= seq![closed]);
    assert(closed.names[0] == wildcard());
    assert(names_apply(closed.names, agent));
    assert(doc.agents.drop_last() =~= Seq::<AgentView>::empty());
    let pooled = pooled_rules(doc.agents, agent);
    assert(pooled_rules(doc.agents.drop_last(), agent) == Seq::<RuleView>::empty());
    assert(doc.agents.last() == closed);
    assert(pooled == Seq::<RuleView>::empty() + closed.rules);
    assert(pooled =~= seq![rule]);
    assert(rule.1 == root_path());
    assert(rule_applies(rule.1, path));
    assert(!view_allows(rule));
    assert(!last_decides(pooled, path));
}

/// The document with `x` put before its top-level anomalies.
pub open spec fn doc_prepend(r: DocView, x: AnomalyView) -> DocView {
    DocView { anomalies: seq![x] + r.anomalies, ..r }
}

/// The state with `x` put before the document's top-level anomalies.
pub open spec fn st_prepend(st: StateModel, x: AnomalyView) -> StateModel {
    match st {
        StateModel::Comment(r, s) => StateModel::Comment(doc_prepend(r, x), s),
        StateModel::Agent(r, s) => StateModel::Agent(doc_prepend(r, x), s),
        StateModel::Normal(r) => StateModel::Normal(doc_prepend(r, x)),
    }
}

proof fn lemma_doc_with_prepend(x: AnomalyView)
    ensures
        forall|r: DocView, a: AnomalyView|
            #[trigger] doc_with(doc_prepend(r, x), a) == doc_prepend(doc_with(r, a), x),
{
    assert forall|r: DocView, a: AnomalyView|
        #[trigger] doc_with(doc_prepend(r, x), a) == doc_prepend(doc_with(r, a), x) by {
        assert((seq![x] + r.anomalies).push(a) =~= seq![x] + r.anomalies.push(a));
    }
}

proof fn lemma_line_prepend(st: StateModel, raw: Seq<char>, x: AnomalyView)
    ensures
        st_line(st_prepend(st, x), raw) == st_prepend(st_line(st, raw), x),
        forall|d: Seq<char>, a: Seq<char>|
            #[trigger] st_directive(st_prepend(st, x), d, a) == st_prepend(st_directive(st, d, a), x),
{
    lemma_doc_with_prepend(x);
}

proof fn lemma_lines_prepend(st: StateModel, ls: Seq<Seq<char>>, x: AnomalyView)
    ensures
        st_lines(st_prepend(st, x), ls) == st_prepend(st_lines(st, ls), x),
    decreases ls.len(),
{
    if ls.len() > 0 {
        lemma_lines_prepend(st, ls.drop_last(), x);
        lemma_line_prepend(st_lines(st, ls.drop_last()), ls.last(), x);
    }
}

proof fn lemma_eof_prepend(st: StateModel, x: AnomalyView)
    ensures
        st_eof(st_prepend(st, x)) == doc_prepend(st_eof(st), x),
{
    lemma_doc_with_prepend(x);
}

proof fn lemma_lines_concat(st: StateModel, a: Seq<Seq<char>>, b: Seq<Seq<char>>)
    ensures
        st_lines(st, a + b) == st_lines(st_lines(st, a), b),
    decreases b.len(),
{
    if b.len() == 0 {
        assert(a + b =~= a);
    } else {
        assert((a + b).drop_last() =~= a + b.drop_last());
        lemma_lines_concat(st, a, b.drop_last());
    }
}

proof fn lemma_lines_of_first(l: Seq<char>, rest: Seq<char>)
    requires
        !l.contains('\n'),
    ensures
        lines_of(l + seq!['\n'] + rest) == seq![l] + lines_of(rest),
{
    lemma_split_without_sep(l, '\n');
    lemma_split_concat(l, rest, '\n');
    crate::text::lemma_split_nonempty(rest, '\n');
    let pr = split_on(rest, '\n');
    assert((seq![l] + pr).last() == pr.last());
    assert((seq![l] + pr).drop_last() =~= seq![l] + pr.drop_last());
}

proof fn lemma_one_line(st: StateModel, l: Seq<char>)
    ensures
        st_lines(st, seq![l]) == st_line(st, l),
{
    assert(seq![l].drop_last() =~= Seq::<Seq<char>>::empty());
    assert(st_lines(st, Seq::<Seq<char>>::empty()) == st);
    assert(seq![l].last() == l);
}

proof fn lemma_two_lines(st: StateModel, c: Seq<char>, l: Seq<char>)
    ensures
        st_lines(st, seq![c, l]) == st_line(st_line(st, c), l),
{
    assert(seq![c, l].drop_last() =~= seq![c]);
    assert(seq![c, l].last() == l);
    lemma_one_line(st, c);
}

/// A malformed line (no `:`, no `#`, nothing around it to trim) at the start of a text adds
/// exactly one anomaly, of unknown format, before everything else; the rest of the text is
/// read as if the line were absent.
pub proof fn lemma_malformed_line_in_text(l: Seq<char>, rest: Seq<char>)
    requires
        l.len() > 0,
        trim(l) == l,
        !l.contains(':'),
        !l.contains('#'),
        !l.contains('\n'),
    ensures
        parse_model(l + seq!['\n'] + rest) == doc_prepend(
            parse_model(rest),
            AnomalyView::UnknownFormat(l),
        ),
{
    let x = AnomalyView::UnknownFormat(l);
    let st0 = StateModel::Normal(empty_doc());
    lemma_lines_of_first(l, rest);
    lemma_lines_concat(st0, seq![l], lines_of(rest));
    lemma_one_line(st0, l);
    lemma_malformed_line(st0, l);
    lemma_find_none(l, '#');
    assert(doc_with(empty_doc(), x) == doc_prepend(empty_doc(), x)) by {
        assert(empty_doc().anomalies.push(x) =~= seq![x] + empty_doc().anomalies);
    }
    assert(st_line(st0, l) == st_prepend(st0, x));
    lemma_lines_prepend(st0, lines_of(rest), x);
    lemma_eof_prepend(st_lines(st0, lines_of(rest)), x);
}

/// A comment line followed by a directive line at the start of a text: the first anomaly of
/// the document is the comment, with the directive's own text (`directive: argument`) as its
/// context.
pub proof fn lemma_comment_then_directive_in_text(
    c: Seq<char>,
    l: Seq<char>,
    j: int,
    rest: Seq<char>,
)
    requires
        trim(c).len() > 0,
        trim(c)[0] == '#',
        !c.contains('\n'),
        !l.contains('\n'),
        !trim(l).contains('#'),
        find_char(trim(l), ':') == Some(j),
    ensures
        ({
            let line = trim(l);
            let d = line.subrange(0, j);
            let a = trim_start(line.subrange(j, line.len() as int), true);
            let doc = parse_model(c + seq!['\n'] + l + seq!['\n'] + rest);
            &&& doc.anomalies.len() > 0
            &&& doc.anomalies[0] == AnomalyView::Comment(trim(c), directive_text(d, a))
        }),
{
    let line = trim(l);
    let d = line.subrange(0, j);
    let a = trim_start(line.subrange(j, line.len() as int), true);
    let x = AnomalyView::Comment(trim(c), directive_text(d, a));
    let st0 = StateModel::Normal(empty_doc());
    let tail = l + seq!['\n'] + rest;
    assert(c + seq!['\n'] + l + seq!['\n'] + rest =~= c + seq!['\n'] + tail);
    lemma_lines_of_first(c, tail);
    lemma_lines_of_first(l, rest);
    let ls = seq![c] + (seq![l] + lines_of(rest));
    assert(ls =~= seq![c, l] + lines_of(rest));
    lemma_lines_concat(st0, seq![c, l], lines_of(rest));
    lemma_two_lines(st0, c, l);
    lemma_comment_then_directive(st0, c, l, j);
    assert(doc_with(empty_doc(), x) == doc_prepend(empty_doc(), x)) by {
        assert(empty_doc().anomalies.push(x) =~= seq![x] + empty_doc().anomalies);
    }
    lemma_line_prepend(st0, l, x);
    let st2 = st_directive(st0, d, a);
    assert(st_lines(st0, seq![c, l]) == st_prepend(st2, x));
    lemma_lines_prepend(st2, lines_of(rest), x);
    lemma_eof_prepend(st_lines(st2, lines_of(rest)), x);
}

} // verus!
