use import_videos::source::tesla::{default_events, EventCategory, Reasons, TeslaSource};
use import_videos::source::Verdict;

fn source(events: Vec<EventCategory>, reasons: Option<Reasons>) -> TeslaSource {
    TeslaSource { events, reasons }
}

#[test]
fn category_not_enabled_yields_ignore() {
    let verdict = source(vec![EventCategory::Saved], None).event_verdict(
        EventCategory::Sentry,
        true,
        Some("sentry_aware_object_detection"),
    );
    assert_eq!(verdict, Verdict::Ignore("event type 'sentry' not enabled".to_string()));
}

#[test]
fn deny_list_filters_matching_reason() {
    let reasons = Reasons::Deny(vec!["sentry_aware_object_detection".to_string()]);
    let verdict = source(default_events(), Some(reasons)).event_verdict(
        EventCategory::Sentry,
        true,
        Some("sentry_aware_object_detection"),
    );
    assert_eq!(verdict, Verdict::Ignore("reason 'sentry_aware_object_detection' denied".to_string()));
}

#[test]
fn allow_list_keeps_only_listed_reason() {
    let reasons = Reasons::Allow(vec!["user_interaction_honk".to_string()]);
    let verdict = source(default_events(), Some(reasons.clone())).event_verdict(
        EventCategory::Sentry,
        true,
        Some("sentry_aware_object_detection"),
    );
    assert!(matches!(verdict, Verdict::Ignore(_)));
    assert_eq!(
        reasons.filtered_reason("sentry_aware_object_detection").as_deref(),
        Some("reason 'sentry_aware_object_detection' not in allow list")
    );
    assert_eq!(reasons.filtered_reason("user_interaction_honk"), None);
}

#[test]
fn unknown_reason_is_kept() {
    let reasons = Reasons::Allow(vec!["user_interaction_honk".to_string()]);
    let verdict = source(default_events(), Some(reasons)).event_verdict(EventCategory::Saved, true, None);
    assert_eq!(verdict, Verdict::Keep);
}

#[test]
fn unparseable_folder_and_no_timestamp_is_ignored() {
    let verdict = source(default_events(), None).event_verdict(EventCategory::Saved, false, None);
    assert_eq!(verdict, Verdict::Ignore("unparseable event folder".to_string()));
}

#[test]
fn never_produces_quarantine_verdict() {
    let reasons = Reasons::Deny(vec!["sentry_aware_object_detection".to_string()]);
    let s = source(vec![EventCategory::Saved], Some(reasons));
    for category in [EventCategory::Saved, EventCategory::Sentry, EventCategory::Recent] {
        for has_timestamp in [true, false] {
            for reason in [None, Some("sentry_aware_object_detection"), Some("user_interaction_honk")] {
                let v = s.event_verdict(category, has_timestamp, reason);
                assert!(!matches!(v, Verdict::Quarantine), "Tesla verdicts must never be Quarantine");
            }
        }
    }
}

#[test]
fn default_events_are_saved_and_sentry() {
    assert_eq!(default_events(), vec![EventCategory::Saved, EventCategory::Sentry]);
    assert_eq!(EventCategory::Recent.as_str(), "recent");
}
