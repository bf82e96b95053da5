use import_videos::config::layout::LayoutTemplate;

fn resolve_at(template: &LayoutTemplate, context: &[(&str, &str)], secs: i64, tz: &jiff::tz::TimeZone) -> Result<String, String> {
    let context: Vec<(String, String)> = context.iter().map(|(k, v)| (k.to_string(), v.to_string())).collect();
    template
        .resolve(&context, import_videos::clock::UtcInstant { secs, nanos: 0 }, tz)
        .map_err(|e| e.message())
}

#[test]
fn parses_literal_and_date_tokens() {
    let template = LayoutTemplate::parse("{date:%Y}/{date:%Y-%m-%d}").unwrap();
    assert_eq!(resolve_at(&template, &[], 0, &jiff::tz::TimeZone::UTC).unwrap(), "1970/1970-01-01");
}

#[test]
fn bare_date_field_uses_default_format() {
    let template = LayoutTemplate::parse("{date}").unwrap();
    assert_eq!(resolve_at(&template, &[], 0, &jiff::tz::TimeZone::UTC).unwrap(), "1970-01-01");
}

#[test]
fn resolves_context_field() {
    let template = LayoutTemplate::parse("{event_type}/clip").unwrap();
    assert_eq!(
        resolve_at(&template, &[("event_type", "sentry")], 0, &jiff::tz::TimeZone::UTC).unwrap(),
        "sentry/clip"
    );
}

#[test]
fn unknown_field_fails_at_resolution() {
    let template = LayoutTemplate::parse("{missing}").unwrap();
    let err = resolve_at(&template, &[], 0, &jiff::tz::TimeZone::UTC).unwrap_err();
    assert!(err.contains("missing"));
}

#[test]
fn unclosed_brace_rejected_at_parse() {
    let err = LayoutTemplate::parse("{date:%Y").unwrap_err();
    assert!(err.message().contains("unclosed"));
}

#[test]
fn unmatched_closing_brace_rejected_at_parse() {
    let err = LayoutTemplate::parse("stray}brace").unwrap_err();
    assert!(err.message().contains("unmatched"));
    assert_eq!(err.message(), "template error: unmatched '}' at position 5");
}

#[test]
fn empty_field_name_rejected_at_parse() {
    let err = LayoutTemplate::parse("{:%Y}").unwrap_err();
    assert!(err.message().contains("empty field name"));
}

#[test]
fn invalid_strftime_spec_rejected_at_parse() {
    let err = LayoutTemplate::parse("{date:%-}").unwrap_err();
    assert!(err.message().contains("invalid strftime"));
}

#[test]
fn date_renders_in_configured_zone() {
    let vilnius = jiff::tz::TimeZone::get("Europe/Vilnius").unwrap();
    let template = LayoutTemplate::parse("{date:%Y-%m-%d}/{date:%H-%M-%S}").unwrap();
    assert_eq!(resolve_at(&template, &[], 1783178631, &vilnius).unwrap(), "2026-07-04/18-23-51");
}

#[test]
fn evening_instant_lands_on_local_calendar_day() {
    let la = jiff::tz::TimeZone::get("America/Los_Angeles").unwrap();
    let template = LayoutTemplate::parse("{date:%Y-%m-%d}").unwrap();
    assert_eq!(resolve_at(&template, &[], 1783204200, &la).unwrap(), "2026-07-04");
}

#[test]
fn date_formats_list_each_date_field() {
    let template = LayoutTemplate::parse("{date}/{session}/{date:%H}").unwrap();
    assert_eq!(template.date_formats(), vec!["%Y-%m-%d".to_string(), "%H".to_string()]);
    let resolved = template
        .resolve_rendered(&vec![("session".to_string(), "0123".to_string())], &vec!["A".to_string(), "B".to_string()])
        .unwrap();
    assert_eq!(resolved, "A/0123/B");
}
