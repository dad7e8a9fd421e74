use terrashift::feedback::{
    percent_encode, prompt_needed, record_event, record_for, state_from, truncate, url_encode, Event,
    FeedbackCategory, FeedbackReport, OptIn, TelemetryError,
};
use terrashift::strmap::StrMap;

#[test]
fn url_encodes_message_and_includes_category() {
    let r = FeedbackReport {
        category: FeedbackCategory::Bug,
        message: "scan crashed when path has spaces & symbols".to_string(),
        run_id: None,
        version: "0.1.2".to_string(),
    };
    let url = r.to_github_issue_url("https://github.com/MohamedGouda99/terrashift");
    assert!(url.starts_with("https://github.com/MohamedGouda99/terrashift/issues/new?"));
    assert!(url.contains("template=feedback.md"));
    assert!(url.contains("labels=user-feedback"));
    assert!(url.contains("scan%20crashed%20when%20path%20has%20spaces"));
    assert!(url.contains("%26"));
}

#[test]
fn issue_url_orders_query_by_key_and_trims_repo_slashes() {
    let r = FeedbackReport {
        category: FeedbackCategory::Idea,
        message: "hi".to_string(),
        run_id: Some(0x0123_4567_89ab_cdef_0123_4567_89ab_cdef),
        version: "1".to_string(),
    };
    let url = r.to_github_issue_url("https://x/repo//");
    assert_eq!(
        url,
        "https://x/repo/issues/new?body=%2A%2ACategory%3A%2A%2A%20idea%0A%0A%2A%2AMessage%3A%2A%2A%0A%0Ahi%0A%0A%2A%2AVersion%3A%2A%2A%201%0A%2A%2ARun%20ID%3A%2A%2A%2001234567-89ab-cdef-0123-456789abcdef&labels=user-feedback&template=feedback.md&title=%5Bidea%5D%20hi"
    );
}

#[test]
fn category_labels() {
    assert_eq!(FeedbackCategory::Bug.as_label(), "bug");
    assert_eq!(FeedbackCategory::Idea.as_label(), "idea");
    assert_eq!(FeedbackCategory::Other.as_label(), "other");
}

#[test]
fn truncate_keeps_short_text_and_marks_cut_text() {
    assert_eq!(truncate("short", 60), "short");
    assert_eq!(truncate("abcdef", 4), "abc…");
    assert_eq!(truncate("héllo wörld", 5), "héll…");
    assert_eq!(truncate("", 0), "");
}

#[test]
fn percent_encode_bytes() {
    assert_eq!(percent_encode("a-Z_9.~"), "a-Z_9.~");
    assert_eq!(percent_encode("a b&c=d"), "a%20b%26c%3Dd");
    assert_eq!(percent_encode("é"), "%C3%A9");
}

#[test]
fn url_encode_joins_pairs_in_key_order() {
    let mut pairs = StrMap::new();
    pairs.insert("b".to_string(), "2 3".to_string());
    pairs.insert("a".to_string(), "1".to_string());
    assert_eq!(url_encode(&pairs), "a=1&b=2%203");
    assert_eq!(url_encode(&StrMap::new()), "");
}

#[test]
fn opt_in_default_is_disabled() {
    assert_eq!(state_from(None), OptIn::Disabled);
    assert!(prompt_needed(None));
}

#[test]
fn opt_in_persists_across_reads() {
    let rec = record_for(OptIn::Enabled);
    assert_eq!(state_from(Some(&rec)), OptIn::Enabled);
    assert!(!prompt_needed(Some(&rec)));
}

#[test]
fn opt_in_record_is_idempotent() {
    let _first = record_for(OptIn::Enabled);
    let second = record_for(OptIn::Disabled);
    assert_eq!(state_from(Some(&second)), OptIn::Disabled);
}

#[test]
fn telemetry_drops_event_when_disabled() {
    let ev = Event { name: "scan_completed".to_string(), properties: StrMap::new() };
    assert!(record_event(OptIn::Disabled, ev).is_ok());
}

#[test]
fn telemetry_refuses_unnamed_event() {
    let ev = Event { name: String::new(), properties: StrMap::new() };
    assert_eq!(record_event(OptIn::Enabled, ev), Err(TelemetryError::EmptyName));
}
