use rs_pider_robots::{match_with_asterisk, prefix_asterisk};

#[test]
fn asterisk_only() {
    assert!(match_with_asterisk("This can be literally anything", "*"));
    assert!(match_with_asterisk("No really, anything +-=*//\\", "*"));
    assert!(match_with_asterisk("", "*"));
}

#[test]
fn no_asterisk() {
    assert!(match_with_asterisk("No Asterisk", "No Asterisk"));
}

#[test]
fn leading_asterisk() {
    assert!(match_with_asterisk("Target", "*Target"));
    assert!(match_with_asterisk("Some things we don't care about and the Target", "*Target"));
    assert!(match_with_asterisk("The Target needs to be last to match", "*Target"));
    assert!(!match_with_asterisk("Really just things we don't care about", "*Target"));
}

#[test]
fn trailing_asterisk() {
    assert!(match_with_asterisk("Target", "Target*"));
    assert!(match_with_asterisk("Target and some things we don't care about", "Target*"));
    assert!(!match_with_asterisk("We care about Target, but this won't match", "Target*"));
    assert!(!match_with_asterisk("No instance of the string we want", "Target*"));
}

#[test]
fn segmented_asterisks() {
    assert!(match_with_asterisk("A bit more complex, but still works", "A bit*but still*work*"));
    assert!(!match_with_asterisk("more complex by a bit and doesn't work", "*a bit*more complex*work*"));
}

#[test]
fn redundant_asterisks() {
    assert!(match_with_asterisk("This should match", "**sh**ma*"));
    // "oe" occurs only before "at", and pieces must be found in order.
    assert!(!match_with_asterisk("Doesn't match", "**at**oe*"));
}

#[test]
fn no_asterisk_needs_equality() {
    assert!(!match_with_asterisk("No Asterisk here", "No Asterisk"));
    assert!(!match_with_asterisk("", "a"));
    assert!(match_with_asterisk("", ""));
}

#[test]
fn empty_haystack_against_patterns() {
    assert!(match_with_asterisk("", "**"));
    assert!(!match_with_asterisk("", "*a"));
    assert!(!match_with_asterisk("", "a*"));
}

#[test]
fn trailing_literal_need_not_reach_the_end() {
    assert!(match_with_asterisk("Target and more", "Target*"));
    assert!(match_with_asterisk("xxTargetyy", "*Target"));
    assert!(!match_with_asterisk("none of this", "*Target"));
}

#[test]
fn pieces_are_found_after_each_other() {
    assert!(match_with_asterisk("abcabc", "a*c*a*c"));
    assert!(!match_with_asterisk("abc", "a*c*c"));
    assert!(match_with_asterisk("aXbXc", "a*b*c"));
    assert!(!match_with_asterisk("aXcXb", "a*b*c"));
}

#[test]
fn prefix_asterisk_finds_first_occurrence() {
    let h: Vec<char> = "abcabc".chars().collect();
    let s: Vec<char> = "bc".chars().collect();
    assert_eq!(prefix_asterisk(&s, &h, 0), Some(1));
    assert_eq!(prefix_asterisk(&s, &h, 2), Some(4));
    assert_eq!(prefix_asterisk(&s, &h, 5), None);
    let long: Vec<char> = "abcabcabc".chars().collect();
    assert_eq!(prefix_asterisk(&long, &h, 0), None);
    let empty: Vec<char> = Vec::new();
    assert_eq!(prefix_asterisk(&empty, &h, 6), Some(6));
}
