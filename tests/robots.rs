use std::convert::TryFrom;

use base_url::BaseUrl;
use rs_pider_robots::{Anomaly, RobotsParser, Rule};

const ROBOTS_SIMPLE: &str = "User-agent:* \n\
     Disallow:/ \n";

const ROBOTS_OVERLAPPING: &str = "User-agent:* \n\
     Disallow:/foo \n\
     \n\
     User-agent:Bot \n\
     Allow:/foo/bar \n\
     \n\
     User-agent:Bot-1 \n\
     Disallow:/foo/bar/baz \n";

const ROBOTS_SITEMAPS: &str = "Sitemap:http://www.example.web/sitemap.xml \n\
     Sitemap:http://www.example.web/sitemaps/archive1.xml \n\
     Sitemap:https://www.example.web/a/man/with/three/buttocks/sitemap.xml \n";

fn url(s: &str) -> BaseUrl {
    BaseUrl::try_from(s).ok().unwrap()
}

fn doc(text: &str) -> RobotsParser {
    RobotsParser::parse(url("https://example.com/"), text)
}

fn s(x: &str) -> String {
    String::from(x)
}

#[test]
fn test_simple_robots() {
    let host = url("https://example.com/");
    let simple = RobotsParser::from_stringable(ROBOTS_SIMPLE, host);
    assert!(!simple.is_allowed(&url("https://example.com/a/path/"), "bot"));
}

#[test]
fn test_overlapping_robots() {
    let host = url("https://example.com/");
    let overlapping = RobotsParser::from_stringable(ROBOTS_OVERLAPPING, host);
    let url1 = url("https://example.com/foo");
    let url2 = url("https://example.com/foo/bar");
    let url3 = url("https://example.com/foo/bar/baz");
    assert!(!overlapping.is_allowed(&url1, "Bot"));
    // The wildcard section is scanned last, so its Disallow of /foo has the last word.
    assert!(!overlapping.is_allowed(&url2, "Bot"));
    assert!(!overlapping.is_allowed(&url2, "Bot-1"));
    assert!(!overlapping.is_allowed(&url2, "aBot"));
    assert!(!overlapping.is_allowed(&url3, "Bot"));
    assert!(!overlapping.is_allowed(&url3, "Bot-1"));
}

#[test]
fn test_sitemaps_robots() {
    let host = url("https://example.web");
    let sitemaps = RobotsParser::from_stringable(ROBOTS_SITEMAPS, host);
    assert!(sitemaps.get_sitemaps().len() == 3);
}

#[test]
fn sitemaps_keep_declaration_order() {
    let d = RobotsParser::from_stringable(ROBOTS_SITEMAPS, url("https://example.web"));
    let maps = d.get_sitemaps();
    assert_eq!(maps[0].as_str(), "http://www.example.web/sitemap.xml");
    assert_eq!(maps[1].as_str(), "http://www.example.web/sitemaps/archive1.xml");
    assert_eq!(maps[2].as_str(), "https://www.example.web/a/man/with/three/buttocks/sitemap.xml");
}

#[test]
fn disallow_all_blocks_every_path_and_agent() {
    let d = doc("User-agent: *\nDisallow: /");
    for p in ["/", "/a", "/a/b/", "/x.html"] {
        for a in ["bot", "", "Googlebot", "*"] {
            assert!(!d.is_allowed_path(p, a));
        }
    }
}

#[test]
fn overlapping_sections_by_path() {
    let d = doc(ROBOTS_OVERLAPPING);
    assert!(!d.is_allowed_path("/foo", "Bot"));
    assert!(d.is_allowed_path("/other", "Bot"));
    assert!(d.is_allowed_path("/", "Bot"));
    let names: Vec<Vec<String>> = d.agents().iter().map(|a| a.names().clone()).collect();
    assert_eq!(names, vec![vec![s("Bot")], vec![s("Bot-1")], vec![s("*")]]);
}

#[test]
fn later_more_specific_rule_decides_within_a_section() {
    let d = doc("User-agent: bot\nAllow: /a/b\nDisallow: /a\n");
    // Rules are ordered by specificity, so Allow /a/b is scanned after Disallow /a.
    assert!(d.is_allowed_path("/a/b", "bot"));
    assert!(!d.is_allowed_path("/a/c", "bot"));
    assert!(d.is_allowed_path("/b", "bot"));
    assert!(d.is_allowed_path("/a", "other"));
    let rules = d.get_allowances("bot");
    assert_eq!(rules, vec![Rule::Disallow(s("/a")), Rule::Allow(s("/a/b"))]);
}

#[test]
fn allow_wins_a_tie_of_specificity() {
    let d = doc("User-agent: bot\nAllow: /a\nDisallow: /a\n");
    assert!(d.is_allowed_path("/a", "bot"));
    let d = doc("User-agent: bot\nDisallow: /a\nAllow: /a\n");
    assert!(d.is_allowed_path("/a", "bot"));
}

#[test]
fn wildcard_rule_segments() {
    let d = doc("User-agent: *\nDisallow: /*/comments/*/\nDisallow: /*.embed\n");
    assert!(!d.is_allowed_path("/post/comments/1/", "bot"));
    assert!(!d.is_allowed_path("/video.embed", "bot"));
    assert!(d.is_allowed_path("/post/likes/1/", "bot"));
}

#[test]
fn no_rules_means_allowed() {
    let d = doc("");
    assert!(d.is_allowed_path("/anything", "bot"));
    assert!(d.get_toplevel_anomalies().is_empty());
    assert!(d.get_all_anomalies().is_empty());
    assert!(d.get_sitemaps().is_empty());
}

#[test]
fn malformed_line_is_one_unknown_format() {
    let d = doc("garbage line\nUser-agent: *\nDisallow: /x\n");
    assert_eq!(d.get_toplevel_anomalies(), &vec![Anomaly::UnknownFormat(s("garbage line"))]);
    assert!(!d.is_allowed_path("/x", "bot"));
}

#[test]
fn malformed_line_inside_a_section() {
    let d = doc("User-agent: bot\nnonsense\nDisallow: /x\n");
    assert_eq!(d.get_agent_anomalies("bot"), vec![&Anomaly::UnknownFormat(s("nonsense"))]);
    assert!(!d.is_allowed_path("/x", "bot"));
}

#[test]
fn comment_attaches_to_following_directive() {
    let d = doc("# hello\nSitemap: notaurl\n");
    assert_eq!(
        d.get_toplevel_anomalies(),
        &vec![
            Anomaly::Comment(s("# hello"), s("Sitemap: notaurl")),
            Anomaly::BadArgument(s("Sitemap"), s("notaurl")),
        ]
    );
}

#[test]
fn multi_line_comment_and_eof() {
    let d = doc("# one\n# two");
    assert_eq!(d.get_toplevel_anomalies(), &vec![Anomaly::Comment(s("# one\n# two"), s("[EOF]"))]);
}

#[test]
fn comment_closed_by_empty_line_and_by_malformed_line() {
    let d = doc("# one\n\n# two\nwhat\n");
    assert_eq!(
        d.get_toplevel_anomalies(),
        &vec![Anomaly::Comment(s("# one"), s("")), Anomaly::Comment(s("# two"), s("what"))]
    );
}

#[test]
fn trailing_comment_on_a_directive() {
    let d = doc("User-agent: bot # the bot\nDisallow: /x\n");
    assert_eq!(
        d.get_toplevel_anomalies(),
        &vec![Anomaly::Comment(s("# the bot"), s("User-agent: bot "))]
    );
    assert_eq!(d.agents()[0].names(), &vec![s("bot")]);
    assert!(!d.is_allowed_path("/x", "bot"));
}

#[test]
fn buffered_and_trailing_comment_share_a_context() {
    let d = doc("# above\nFoo: bar # beside\n");
    assert_eq!(
        d.get_toplevel_anomalies(),
        &vec![
            Anomaly::Comment(s("# above"), s("Foo: bar ")),
            Anomaly::Comment(s("# beside"), s("Foo: bar ")),
            Anomaly::UnknownDirective(s("Foo"), s("bar")),
        ]
    );
}

#[test]
fn casing_is_recorded_and_normalised() {
    let d = doc("user-agent: bot\ndisallow: /x\n");
    assert_eq!(d.get_toplevel_anomalies(), &vec![Anomaly::Casing(s("user-agent"), s("bot"))]);
    assert_eq!(d.get_agent_anomalies("bot"), vec![&Anomaly::Casing(s("disallow"), s("/x"))]);
    assert!(!d.is_allowed_path("/x", "bot"));
}

#[test]
fn orphan_rule_and_unknown_directive() {
    let d = doc("Disallow: /x\nCrawl-delay: 10\n");
    assert_eq!(
        d.get_toplevel_anomalies(),
        &vec![
            Anomaly::OrphanRule(Rule::Disallow(s("/x"))),
            Anomaly::UnknownDirective(s("Crawl-delay"), s("10")),
        ]
    );
    assert!(d.is_allowed_path("/x", "bot"));
}

#[test]
fn section_anomalies() {
    let d = doc("User-agent: *\nUser-agent: bot\nDisallow: /x\nUser-agent: late\nSitemap: https://example.com/s.xml\nSitemap: bad\nFoo: bar\n");
    assert_eq!(
        d.get_agent_anomalies("*"),
        vec![
            &Anomaly::RedundantWildcardUserAgent(s("bot")),
            &Anomaly::RedundantWildcardUserAgent(s("late")),
            &Anomaly::RecursedUserAgent(s("late")),
            &Anomaly::MissSectionedDirective(s("Sitemap"), s("https://example.com/s.xml")),
            &Anomaly::BadArgument(s("Sitemap"), s("bad")),
            &Anomaly::UnknownDirective(s("Foo"), s("bar")),
        ]
    );
    assert_eq!(d.get_all_anomalies().len(), 6);
    assert!(d.get_sitemaps().is_empty());
}

#[test]
fn argument_loses_leading_colons_and_spaces() {
    let d = doc("User-agent:: : bot\r\nDisallow:\t/x  \r\n");
    assert_eq!(d.agents()[0].names(), &vec![s("bot")]);
    assert_eq!(d.agents()[0].rules(), &vec![Rule::Disallow(s("/x"))]);
}

#[test]
fn empty_disallow_allows_everything() {
    let d = doc("User-agent: *\nDisallow:\n");
    assert_eq!(d.agents()[0].rules(), &vec![Rule::Disallow(s("/"))]);
    assert!(!d.is_allowed_path("/x", "bot"));
    let d = doc("User-agent: *\nAllow:\n");
    assert!(d.is_allowed_path("/x", "bot"));
}

#[test]
fn parsing_twice_gives_equal_documents() {
    let text = "# c\nUser-agent: a\nDisallow: /x\nbad\n\nUser-agent: *\nAllow: /y\nFoo: 1\n";
    let a = doc(text);
    let b = doc(text);
    assert_eq!(a.get_toplevel_anomalies(), b.get_toplevel_anomalies());
    assert_eq!(a.get_all_anomalies(), b.get_all_anomalies());
    assert_eq!(a.get_allowances("a"), b.get_allowances("a"));
    assert_eq!(a.get_agent_anomalies("a"), b.get_agent_anomalies("a"));
}

#[test]
fn sections_are_sorted_wildcard_last_then_by_shortest_name() {
    let d = doc("User-agent: *\nDisallow: /\n\nUser-agent: longname\nDisallow: /\n\nUser-agent: ab\nDisallow: /\n");
    let names: Vec<Vec<String>> = d.agents().iter().map(|a| a.names().clone()).collect();
    assert_eq!(names, vec![vec![s("ab")], vec![s("longname")], vec![s("*")]]);
}

#[test]
fn is_allowed_uses_the_url_path() {
    let d = doc("User-agent: *\nDisallow: /private\n");
    assert!(!d.is_allowed(&url("https://example.com/private/x?q=1"), "bot"));
    assert!(d.is_allowed(&url("https://example.com/public"), "bot"));
}

#[test]
fn robots_url_guess_and_host() {
    let d = RobotsParser::parse(url("https://user:pw@example.com/some/page?x=1#f"), "");
    assert_eq!(d.guess_robots_url().as_str(), "https://example.com/robots.txt");
    assert_eq!(d.host_url().as_str(), "https://user:pw@example.com/some/page?x=1#f");
}

#[test]
fn header_strings() {
    assert_eq!(Anomaly::UnknownFormat(s("x")).header_string(), "Poorly formatted lines:");
    assert_eq!(Anomaly::Comment(s("x"), s("y")).header_string(), "Comments:");
}

#[test]
fn anomaly_descriptions() {
    assert_eq!(Anomaly::Comment(s("# hi"), s("Allow: /")).describe(), "Allow: / \nWas commented on:\n# hi");
    assert_eq!(Anomaly::Casing(s("allow"), s("/x")).describe(), "Directive allow:/x has odd casing");
    assert_eq!(Anomaly::OrphanRule(Rule::Disallow(s("/x"))).describe(), "Orphaned rule line: Disallow: /x");
    assert_eq!(
        Anomaly::RecursedUserAgent(s("bot")).describe(),
        "User-agent bot was found nested ambiguously and ignored"
    );
    assert_eq!(
        Anomaly::RedundantWildcardUserAgent(s("bot")).describe(),
        "User-agent bot was mentioned after a wildcard"
    );
    assert_eq!(
        Anomaly::MissSectionedDirective(s("Sitemap"), s("u")).describe(),
        "Directive Sitemap: u found under a User-agent"
    );
    assert_eq!(Anomaly::UnknownDirective(s("Foo"), s("1")).describe(), "Unknown directive: Foo: 1");
    assert_eq!(
        Anomaly::BadArgument(s("Sitemap"), s("x")).describe(),
        "The argument x couldn't be parsed for a Sitemap directive"
    );
    assert_eq!(Anomaly::UnknownFormat(s("what")).describe(), "Unknown line format: what");
}

#[test]
fn rule_text() {
    assert_eq!(Rule::Allow(s("/a")).to_text(), "Allow: /a");
    assert_eq!(Rule::Disallow(s("/")).to_text(), "Disallow: /");
}

#[test]
fn sitemap_accepts_absolute_urls_only() {
    let d = doc("Sitemap: https://example.com/map.xml\nSitemap: /relative.xml\n");
    assert_eq!(d.get_sitemaps().len(), 1);
    assert_eq!(d.get_sitemaps()[0].as_str(), "https://example.com/map.xml");
    assert_eq!(
        d.get_toplevel_anomalies(),
        &vec![Anomaly::BadArgument(s("Sitemap"), s("/relative.xml"))]
    );
}

#[test]
fn non_ascii_lowercase_start_is_recorded_and_upper_cased() {
    let d = doc("été: 1\n");
    assert_eq!(
        d.get_toplevel_anomalies(),
        &vec![Anomaly::Casing(s("été"), s("1")), Anomaly::UnknownDirective(s("Été"), s("1"))]
    );
}

#[test]
fn wildcard_added_to_wildcard_section_is_no_anomaly() {
    let d = doc("User-agent: *\nUser-agent: *\nDisallow: /x\n");
    assert!(d.get_all_anomalies().is_empty());
    assert_eq!(d.agents()[0].names(), &vec![s("*"), s("*")]);
    let d = doc("User-agent: bot\nUser-agent: *\n");
    assert_eq!(d.get_all_anomalies(), vec![&Anomaly::RedundantWildcardUserAgent(s("*"))]);
}

#[test]
fn all_anomalies_cover_every_section() {
    let d = doc("User-agent: Bot\nFoo");
    assert_eq!(d.get_all_anomalies(), vec![&Anomaly::UnknownFormat(s("Foo"))]);
    assert_eq!(d.get_agent_anomalies("*"), vec![&Anomaly::UnknownFormat(s("Foo"))]);
    assert!(d.get_agent_anomalies("Other").is_empty());
    let d = doc("bad\nUser-agent: a\nx\n\nUser-agent: b\ny\n");
    assert_eq!(
        d.get_all_anomalies(),
        vec![
            &Anomaly::UnknownFormat(s("bad")),
            &Anomaly::UnknownFormat(s("x")),
            &Anomaly::UnknownFormat(s("y")),
        ]
    );
}

#[test]
fn lowercase_user_agent_opens_a_section() {
    let d = doc("user-agent: bot\nallow: /x\n");
    assert_eq!(d.agents()[0].names(), &vec![s("bot")]);
    assert_eq!(d.agents()[0].rules(), &vec![Rule::Allow(s("/x"))]);
}

#[test]
fn open_comment_before_final_newline_gets_eof_context() {
    let d = doc("# c\n");
    assert_eq!(d.get_toplevel_anomalies(), &vec![Anomaly::Comment(s("# c"), s("[EOF]"))]);
    let d = doc("# c\n\n");
    assert_eq!(d.get_toplevel_anomalies(), &vec![Anomaly::Comment(s("# c"), s(""))]);
}

#[test]
fn malformed_first_line_leaves_the_rest_alone() {
    let rest = "User-agent: a\nDisallow: /x\nFoo: 1\n";
    let with = doc(&format!("junk\n{}", rest));
    let without = doc(rest);
    let mut expected = vec![Anomaly::UnknownFormat(s("junk"))];
    expected.extend(without.get_toplevel_anomalies().iter().cloned());
    assert_eq!(with.get_toplevel_anomalies(), &expected);
    assert_eq!(with.get_agent_anomalies("*"), without.get_agent_anomalies("*"));
    assert_eq!(with.get_allowances("a"), without.get_allowances("a"));
}

#[test]
fn robots_url_guess_for_a_file_url() {
    let d = RobotsParser::parse(url("file:///srv/site/index.html"), "");
    assert_eq!(d.guess_robots_url().as_str(), "file:///robots.txt");
}
