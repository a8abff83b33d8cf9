//! The anomalies found while parsing: input that is kept for inspection rather than acted on.
use vstd::prelude::*;

use crate::rule::{Rule, RuleView};
use crate::text::{chars_of, string_of};

verus! {

/// Something in a robots document that is not a clean, actionable directive.
#[derive(PartialEq, Debug, Clone)]
pub enum Anomaly {
    /// A comment (first) and the line it was attached to (second).
    Comment(String, String),
    /// A directive (with its argument) whose first character was lower case.
    Casing(String, String),
    /// A rule line outside any User-agent section.
    OrphanRule(Rule),
    /// A User-agent line inside a section that already has rules.
    RecursedUserAgent(String),
    /// A User-agent named together with the wildcard `*`.
    RedundantWildcardUserAgent(String),
    /// A directive (with its argument) found where it does not belong.
    MissSectionedDirective(String, String),
    /// A directive (with its argument) that is not recognised.
    UnknownDirective(String, String),
    /// A recognised directive (with its argument) whose argument could not be used.
    BadArgument(String, String),
    /// A line that is neither empty, a comment, nor a directive.
    UnknownFormat(String),
}

/// An anomaly as a value.
pub enum AnomalyView {
    Comment(Seq<char>, Seq<char>),
    Casing(Seq<char>, Seq<char>),
    OrphanRule(RuleView),
    RecursedUserAgent(Seq<char>),
    RedundantWildcardUserAgent(Seq<char>),
    MissSectionedDirective(Seq<char>, Seq<char>),
    UnknownDirective(Seq<char>, Seq<char>),
    BadArgument(Seq<char>, Seq<char>),
    UnknownFormat(Seq<char>),
}

impl View for Anomaly {
    type V = AnomalyView;

    open spec fn view(&self) -> AnomalyView {
        match self {
            Anomaly::Comment(a, b) => AnomalyView::Comment(a@, b@),
            Anomaly::Casing(a, b) => AnomalyView::Casing(a@, b@),
            Anomaly::OrphanRule(r) => AnomalyView::OrphanRule(r@),
            Anomaly::RecursedUserAgent(a) => AnomalyView::RecursedUserAgent(a@),
            Anomaly::RedundantWildcardUserAgent(a) => AnomalyView::RedundantWildcardUserAgent(a@),
            Anomaly::MissSectionedDirective(a, b) => AnomalyView::MissSectionedDirective(a@, b@),
            Anomaly::UnknownDirective(a, b) => AnomalyView::UnknownDirective(a@, b@),
            Anomaly::BadArgument(a, b) => AnomalyView::BadArgument(a@, b@),
            Anomaly::UnknownFormat(a) => AnomalyView::UnknownFormat(a@),
        }
    }
}

/// The views of a sequence of anomalies.
pub open spec fn anomaly_views(s: Seq<Anomaly>) -> Seq<AnomalyView> {
    s.map_values(|a: Anomaly| a@)
}

pub proof fn lemma_anomaly_views_push(s: Seq<Anomaly>, a: Anomaly)
    ensures
        anomaly_views(s.push(a)) == anomaly_views(s).push(a@),
{
    assert(anomaly_views(s.push(a)) =~= anomaly_views(s).push(a@));
}

/// The heading under which anomalies of a kind are listed.
pub open spec fn header_of(a: AnomalyView) -> Seq<char> {
    match a {
        AnomalyView::Comment(..) => "Comments:"@,
        AnomalyView::Casing(..) => "Non-standard casing in directives:"@,
        AnomalyView::OrphanRule(..) => "Rules found outside of User-agent sections:"@,
        AnomalyView::RecursedUserAgent(..) => "User-agents found after a rule line:"@,
        AnomalyView::RedundantWildcardUserAgent(..) => "Specified User-agents in a wildcard section:"@,
        AnomalyView::MissSectionedDirective(..) => "Root directives found in a User-agent section:"@,
        AnomalyView::UnknownDirective(..) => "Unimplemented or unknown directives found:"@,
        AnomalyView::BadArgument(..) => "Poorly formatted arguments:"@,
        AnomalyView::UnknownFormat(..) => "Poorly formatted lines:"@,
    }
}

/// The text of a rule view: `Allow: path` or `Disallow: path`.
pub open spec fn rule_text(r: RuleView) -> Seq<char> {
    (if r.0 {
        "Allow: "@
    } else {
        "Disallow: "@
    }) + r.1
}

/// The sentence that describes an anomaly.
pub open spec fn describe_view(a: AnomalyView) -> Seq<char> {
    match a {
        AnomalyView::Comment(comment, context) => context + " \nWas commented on:\n"@ + comment,
        AnomalyView::Casing(d, arg) => "Directive "@ + d + ":"@ + arg + " has odd casing"@,
        AnomalyView::OrphanRule(r) => "Orphaned rule line: "@ + rule_text(r),
        AnomalyView::RecursedUserAgent(n) => "User-agent "@ + n
            + " was found nested ambiguously and ignored"@,
        AnomalyView::RedundantWildcardUserAgent(n) => "User-agent "@ + n
            + " was mentioned after a wildcard"@,
        AnomalyView::MissSectionedDirective(d, arg) => "Directive "@ + d + ": "@ + arg
            + " found under a User-agent"@,
        AnomalyView::UnknownDirective(d, arg) => "Unknown directive: "@ + d + ": "@ + arg,
        AnomalyView::BadArgument(d, arg) => "The argument "@ + arg + " couldn't be parsed for a "@
            + d + " directive"@,
        AnomalyView::UnknownFormat(l) => "Unknown line format: "@ + l,
    }
}

/// Appends the characters of `s` to `v`.
fn push_str_chars(v: &mut Vec<char>, s: &str)
    ensures
        final(v)@ == old(v)@ + s@,
{
    let c = chars_of(s);
    let mut i: usize = 0;
    while i < c.len()
        invariant
            i <= c.len(),
            c@ == s@,
            v@ == old(v)@ + c@.subrange(0, i as int),
        decreases c.len() - i,
    {
        v.push(c[i]);
        i += 1;
        assert(v@ =~= old(v)@ + c@.subrange(0, i as int));
    }
    assert(c@.subrange(0, i as int) =~= c@);
}

/// The concatenation of the given pieces.
fn concat(parts: &[&str]) -> (r: String)
    ensures
        r@ == parts@.fold_left(Seq::<char>::empty(), |acc: Seq<char>, p: &str| acc + p@),
{
    let mut v: Vec<char> = Vec::new();
    let mut i: usize = 0;
    proof {
        assert(parts@.subrange(0, 0) =~= Seq::<&str>::empty());
    }
    while i < parts.len()
        invariant
            i <= parts.len(),
            v@ == parts@.subrange(0, i as int).fold_left(
                Seq::<char>::empty(),
                |acc: Seq<char>, p: &str| acc + p@,
            ),
        decreases parts.len() - i,
    {
        proof {
            assert(parts@.subrange(0, i + 1).drop_last() =~= parts@.subrange(0, i as int));
        }
        push_str_chars(&mut v, parts[i]);
        i += 1;
    }
    assert(parts@.subrange(0, i as int) =~= parts@);
    string_of(v.as_slice())
}

impl Anomaly {
    /// A sentence that describes the anomaly.
    pub fn describe(&self) -> (r: String)
        ensures
            r@ == describe_view(self@),
    {
        let r = match self {
            Anomaly::Comment(comment, context) => concat(
                &[context.as_str(), " \nWas commented on:\n", comment.as_str()],
            ),
            Anomaly::Casing(d, arg) => concat(
                &["Directive ", d.as_str(), ":", arg.as_str(), " has odd casing"],
            ),
            Anomaly::OrphanRule(rule) => {
                let text = rule.to_text();
                concat(&["Orphaned rule line: ", text.as_str()])
            },
            Anomaly::RecursedUserAgent(n) => concat(
                &["User-agent ", n.as_str(), " was found nested ambiguously and ignored"],
            ),
            Anomaly::RedundantWildcardUserAgent(n) => concat(
                &["User-agent ", n.as_str(), " was mentioned after a wildcard"],
            ),
            Anomaly::MissSectionedDirective(d, arg) => concat(
                &["Directive ", d.as_str(), ": ", arg.as_str(), " found under a User-agent"],
            ),
            Anomaly::UnknownDirective(d, arg) => concat(
                &["Unknown directive: ", d.as_str(), ": ", arg.as_str()],
            ),
            Anomaly::BadArgument(d, arg) => concat(
                &["The argument ", arg.as_str(), " couldn't be parsed for a ", d.as_str(), " directive"],
            ),
            Anomaly::UnknownFormat(l) => concat(&["Unknown line format: ", l.as_str()]),
        };
        proof {
            reveal_with_fuel(Seq::fold_left, 6);
        }
        r
    }

    /// The heading under which anomalies of this kind are listed.
    pub fn header_string(&self) -> (r: &'static str)
        ensures
            r@ == header_of(self@),
    {
        match self {
            Anomaly::Comment(..) => "Comments:",
            Anomaly::Casing(..) => "Non-standard casing in directives:",
            Anomaly::OrphanRule(..) => "Rules found outside of User-agent sections:",
            Anomaly::RecursedUserAgent(..) => "User-agents found after a rule line:",
            Anomaly::RedundantWildcardUserAgent(..) => "Specified User-agents in a wildcard section:",
            Anomaly::MissSectionedDirective(..) => "Root directives found in a User-agent section:",
            Anomaly::UnknownDirective(..) => "Unimplemented or unknown directives found:",
            Anomaly::BadArgument(..) => "Poorly formatted arguments:",
            Anomaly::UnknownFormat(..) => "Poorly formatted lines:",
        }
    }
}

} // verus!
