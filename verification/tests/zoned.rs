use import_videos::cleanup::cleanup_cutoff;
use import_videos::clock::{resolve_in_zone, CivilTime, UtcInstant};
use import_videos::source::gopro::marker_offset;
use import_videos::config::layout::LayoutTemplate;
use import_videos::zoned::{is_zone_free, render_full, render_short, render_stamp, zone_offset};

fn at(secs: i64, nanos: i32) -> UtcInstant {
    UtcInstant { secs, nanos }
}

fn jiff_text(fmt: &str, secs: i64, nanos: i32, off: i32) -> String {
    let ts = jiff::Timestamp::new(secs, nanos).unwrap();
    let tz = jiff::tz::TimeZone::fixed(jiff::tz::Offset::from_seconds(off).unwrap());
    jiff::fmt::strtime::format(fmt, &ts.to_zoned(tz)).unwrap()
}

#[test]
fn full_form_at_utc() {
    assert_eq!(render_full(at(1_700_000_000, 0), 0), "2023-11-14T22:13:20+00:00");
}

#[test]
fn full_form_moves_to_the_local_day() {
    assert_eq!(render_full(at(1_700_000_000, 0), -5 * 3600), "2023-11-14T17:13:20-05:00");
    assert_eq!(render_full(at(1_700_000_000, 0), 2 * 3600), "2023-11-15T00:13:20+02:00");
}

#[test]
fn short_form_at_an_offset() {
    assert_eq!(render_short(at(1_700_000_000, 999_000_000), 5 * 3600 + 1800), "2023-11-15 03:43");
}

#[test]
fn offset_with_seconds_shows_them() {
    assert_eq!(render_full(at(0, 0), 3661), "1970-01-01T01:01:01+01:01:01");
}

#[test]
fn instants_before_the_epoch() {
    assert_eq!(render_full(at(-1, 500_000_000), 0), "1969-12-31T23:59:59+00:00");
    assert_eq!(render_short(at(-86_400 * 365, 0), 0), "1969-01-01 00:00");
}

#[test]
fn leap_day_fields() {
    // 2024-02-29T12:34:56Z
    assert_eq!(render_full(at(1_709_210_096, 0), 0), "2024-02-29T12:34:56+00:00");
}

#[test]
fn negative_year_renders_as_jiff_does() {
    let min = jiff::Timestamp::MIN.as_second();
    assert_eq!(render_full(at(min, 0), 0), jiff_text("%Y-%m-%dT%H:%M:%S%:z", min, 0, 0));
    assert_eq!(render_short(at(min, 0), 0), jiff_text("%Y-%m-%d %H:%M", min, 0, 0));
}

#[test]
fn renderers_agree_with_jiff_across_the_range() {
    let offsets = [0, 3600, -3600, 19_800, -34_200, 93_599, -93_599, 45, -61];
    let min = jiff::Timestamp::MIN.as_second() + 93_600;
    let max = jiff::Timestamp::MAX.as_second() - 93_600;
    let step = (max - min) / 997;
    let mut secs = min;
    while secs <= max {
        for off in offsets {
            let t = at(secs, 123_456_789);
            assert_eq!(render_full(t, off), jiff_text("%Y-%m-%dT%H:%M:%S%:z", secs, 123_456_789, off));
            assert_eq!(render_short(t, off), jiff_text("%Y-%m-%d %H:%M", secs, 123_456_789, off));
        }
        secs += step;
    }
}

#[test]
fn zone_offset_reads_the_zone() {
    let tz = jiff::tz::TimeZone::fixed(jiff::tz::Offset::from_seconds(-4 * 3600).unwrap());
    assert_eq!(zone_offset(at(1_700_000_000, 0), &tz), -4 * 3600);
    assert_eq!(zone_offset(at(1_700_000_000, 0), &jiff::tz::TimeZone::UTC), 0);
}

#[test]
fn layout_dates_land_on_the_local_day() {
    let template = LayoutTemplate::parse("{date:%Y/%m/%d}/{date:%H%M}").unwrap();
    let tz = jiff::tz::TimeZone::fixed(jiff::tz::Offset::from_seconds(-5 * 3600).unwrap());
    let r = template.resolve(&Vec::new(), at(1_700_006_400, 0), &tz).map_err(|e| e.message());
    assert_eq!(r.unwrap(), "2023/11/14/1900");
}

#[test]
fn layout_month_names_render() {
    let template = LayoutTemplate::parse("{date:%b %e}").unwrap();
    let r = template.resolve(&Vec::new(), at(1_700_000_000, 0), &jiff::tz::TimeZone::UTC).map_err(|e| e.message());
    assert_eq!(r.unwrap(), "Nov 14");
}

#[test]
fn a_format_jiff_refuses_shows_the_instant_itself() {
    assert_eq!(render_stamp("%", at(0, 0), 3600), jiff::Timestamp::UNIX_EPOCH.to_string());
    assert_eq!(render_stamp("%H:%M", at(0, 0), 3600), "01:00");
}

#[test]
fn zone_naming_formats_are_told_apart() {
    assert!(is_zone_free("%Y-%m-%d %H:%M:%S%:z"));
    assert!(!is_zone_free("%Y %Z"));
    assert!(!is_zone_free("%Q"));
    assert!(!is_zone_free("Zulu"));
}

#[test]
fn layout_zone_names_are_refused_when_the_config_loads() {
    let err = LayoutTemplate::parse("{date:%Y-%m-%d %Z}").unwrap_err();
    assert!(err.message().contains("invalid strftime"));
}

#[test]
fn marker_offsets_read_as_minutes_seconds_millis() {
    assert_eq!(marker_offset(5_000), "0:05.000");
    assert_eq!(marker_offset(734_120), "12:14.120");
    assert_eq!(marker_offset(0), "0:00.000");
    assert_eq!(marker_offset(3_600_000), "60:00.000");
}

#[test]
fn camera_clock_reads_in_the_configured_zone() {
    let civil = CivilTime { year: 2024, month: 1, day: 15, hour: 12, minute: 0, second: 0 };
    let tz = jiff::tz::TimeZone::fixed(jiff::tz::Offset::from_seconds(-5 * 3600).unwrap());
    assert_eq!(resolve_in_zone(civil, 250, &tz), at(1_705_338_000, 250));
    assert_eq!(resolve_in_zone(civil, 0, &jiff::tz::TimeZone::UTC), at(1_705_320_000, 0));
}

#[test]
fn cleanup_cutoff_steps_back_on_the_calendar() {
    let now = at(1_700_000_000, 0);
    let day = jiff::Span::new().days(1);
    assert_eq!(cleanup_cutoff(now, None, &jiff::tz::TimeZone::UTC).unwrap(), None);
    assert_eq!(cleanup_cutoff(now, Some(day), &jiff::tz::TimeZone::UTC).unwrap(), Some(at(1_699_913_600, 0)));
    let too_far = jiff::Span::new().years(19_000);
    let err = cleanup_cutoff(now, Some(too_far), &jiff::tz::TimeZone::UTC).unwrap_err();
    assert!(matches!(err, import_videos::error::Error::Config(m) if m.starts_with("--older-than: ")));
}
