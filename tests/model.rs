use std::cmp::Ordering;

use rs_pider_robots::{Rule, UserAgent};

#[test]
fn rule_creation() {
    let rule = Rule::new(true, String::from("/foo/"));
    assert_eq!(Rule::Allow(String::from("/foo/")), rule);
}

#[test]
fn rule_specificity() {
    let mut path = String::from("");
    let rule_a = Rule::new(true, path.clone());
    assert_eq!(rule_a.specificity(), 0);
    path.push_str("/foo");
    let rule_b = Rule::new(true, path.clone());
    path.push_str("/");
    let rule_c = Rule::new(false, path.clone());
    assert_eq!(rule_b.specificity(), rule_c.specificity());
}

#[test]
fn rule_ordering() {
    let mut path = String::from("/");
    let rule_a = Rule::new(false, path.clone());
    let rule_b = Rule::new(true, path.clone());
    path.push_str("foo");
    let rule_c = Rule::new(false, path.clone());
    path.push_str("/bar");
    let rule_d = Rule::new(true, path.clone());
    let mut rule_vec_a = vec![rule_b.clone(), rule_a.clone(), rule_d.clone(), rule_c.clone()];
    let mut rule_vec_b = vec![rule_a.clone(), rule_c.clone(), rule_b.clone(), rule_d.clone()];
    rule_vec_a.sort_by(|x, y| x.compare(y));
    rule_vec_b.sort_by(|x, y| x.compare(y));
    assert_eq!(rule_vec_a, rule_vec_b);
}

#[test]
fn useragent_ordering() {
    let ua_1 = UserAgent::new(String::from("*"));
    let ua_2 = UserAgent::new(String::from("foogle"));
    let ua_3 = UserAgent::new(String::from("foogle-news"));
    assert_eq!(ua_1.compare(&ua_2), Ordering::Greater);
    // Among named sections the shorter name sorts first.
    assert_eq!(ua_2.compare(&ua_3), Ordering::Less);
}

#[test]
fn empty_rule_path_becomes_root() {
    assert_eq!(Rule::new(false, String::new()), Rule::Disallow(String::from("/")));
    assert!(!Rule::new(false, String::new()).is_allow());
    assert!(Rule::new(true, String::new()).is_allow());
}

#[test]
fn empty_path_turns_allowance_around() {
    assert!(!Rule::Allow(String::new()).is_allow());
    assert!(Rule::Disallow(String::new()).is_allow());
    assert!(Rule::Allow(String::from("/a")).is_allow());
    assert!(!Rule::Disallow(String::from("/a")).is_allow());
}

#[test]
fn path_specificity_counts_nonempty_segments() {
    assert_eq!(Rule::path_specificity(""), 0);
    assert_eq!(Rule::path_specificity("/"), 0);
    assert_eq!(Rule::path_specificity("/a/b/c"), 3);
    assert_eq!(Rule::path_specificity("//a//b/"), 2);
    assert_eq!(Rule::path_specificity("a"), 1);
}

#[test]
fn rule_order_is_by_specificity_then_allowance() {
    let a = Rule::new(false, String::from("/x"));
    let b = Rule::new(true, String::from("/y"));
    let c = Rule::new(false, String::from("/x/y"));
    let d = Rule::new(false, String::from("/z"));
    assert_eq!(a.compare(&b), Ordering::Less);
    assert_eq!(b.compare(&a), Ordering::Greater);
    assert_eq!(b.compare(&c), Ordering::Less);
    assert_eq!(a.compare(&d), Ordering::Equal);
}

#[test]
fn useragent_applies_by_prefix_or_wildcard() {
    let ua = UserAgent::new(String::from("Bot"));
    assert!(ua.applies("Bot"));
    assert!(ua.applies("Bot-1"));
    assert!(!ua.applies("aBot"));
    let wild = UserAgent::new(String::new());
    assert_eq!(wild.names(), &vec![String::from("*")]);
    assert!(wild.applies("anything"));
}

#[test]
fn useragent_names_and_anomalies() {
    let mut ua = UserAgent::new(String::from("a"));
    ua.add_agent(String::from("bb"));
    assert_eq!(ua.names(), &vec![String::from("a"), String::from("bb")]);
    assert_eq!(ua.specificity(), 1);
    ua.add_agent(String::from("*"));
    assert_eq!(ua.anomalies(), &vec![rs_pider_robots::Anomaly::RedundantWildcardUserAgent(String::from("*"))]);
    ua.add_rule(Rule::new(false, String::from("/x")));
    assert!(!ua.is_empty());
    ua.add_agent(String::from("c"));
    assert_eq!(
        ua.anomalies(),
        &vec![
            rs_pider_robots::Anomaly::RedundantWildcardUserAgent(String::from("*")),
            rs_pider_robots::Anomaly::RedundantWildcardUserAgent(String::from("c")),
            rs_pider_robots::Anomaly::RecursedUserAgent(String::from("c")),
        ]
    );
}
