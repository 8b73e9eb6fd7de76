use mqtt_session::topic::{chars_of, filter_matches, find_nul, is_valid_filter, is_valid_topic};

fn m(filter: &str, topic: &str) -> bool {
    filter_matches(&chars_of(filter), &chars_of(topic))
}

#[test]
fn multi_level_wildcard_matches_parent_and_descendants() {
    assert!(m("a/#", "a"));
    assert!(m("a/#", "a/b/c"));
    assert!(m("#", "a/b"));
    assert!(!m("a/#", "b/c"));
}

#[test]
fn single_level_wildcard_takes_one_level() {
    assert!(!m("a/+", "a/b/c"));
    assert!(m("+/b", "a/b"));
    assert!(m("a/+/c", "a//c"));
    assert!(m("sensors/+/temp", "sensors/room1/temp"));
    assert!(!m("sensors/+/temp", "sensors/room1/humidity"));
}

#[test]
fn system_topics_escape_leading_wildcards() {
    assert!(!m("$SYS/x", "+/x"));
    assert!(!m("+/x", "$SYS/x"));
    assert!(!m("#", "$SYS/x"));
    assert!(m("$SYS/#", "$SYS/x"));
}

#[test]
fn matching_is_deterministic() {
    for _ in 0..3 {
        assert!(m("a/#", "a/b/c"));
        assert!(!m("a/+", "a/b/c"));
    }
}

#[test]
fn exact_filters_match_exactly() {
    assert!(m("a/b", "a/b"));
    assert!(!m("a/b", "a/b/c"));
    assert!(!m("a/b/c", "a/b"));
}

#[test]
fn filter_validation() {
    assert!(is_valid_filter(&chars_of("a/+/c")));
    assert!(is_valid_filter(&chars_of("a/#")));
    assert!(is_valid_filter(&chars_of("#")));
    assert!(!is_valid_filter(&chars_of("")));
    assert!(!is_valid_filter(&chars_of("a/#/c")));
    assert!(!is_valid_filter(&chars_of("a+/b")));
    assert!(!is_valid_filter(&chars_of("a/b#")));
}

#[test]
fn topic_validation() {
    assert!(is_valid_topic(&chars_of("a/b")));
    assert!(!is_valid_topic(&chars_of("")));
    assert!(!is_valid_topic(&chars_of("a/#")));
    assert!(!is_valid_topic(&chars_of("a/+")));
}

#[test]
fn nul_positions() {
    assert_eq!(find_nul(&chars_of("ab\0c\0")), Some(2));
    assert_eq!(find_nul(&chars_of("abc")), None);
}
