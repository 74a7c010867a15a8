use chrono::{DateTime, Datelike, Local, TimeZone, Timelike, Utc};
use herbie::segment::{Segment, SegmentKind};
use herbie::time::{
    bounds_from_start, day_bounds, iso_utc_z_millis, local_date_string, parse_iso_to_ms, parse_u64,
    split_at_midnight, split_in_day, ymd_of,
};

fn local_at(ms: i64) -> DateTime<Local> {
    Local.timestamp_millis_opt(ms).unwrap()
}

fn seg(start: &str, end: Option<&str>) -> Segment {
    Segment {
        id: "s".into(),
        start_at: start.into(),
        end_at: end.map(str::to_string),
        process_name: "app.exe".into(),
        title: String::new(),
        note: String::new(),
        todo_id: None,
        kind: SegmentKind::Activity,
    }
}

fn now_at(y: i32, m: u32, d: u32, h: u32, mi: u32) -> i64 {
    Local.with_ymd_and_hms(y, m, d, h, mi, 0).single().unwrap().with_timezone(&Utc).timestamp_millis()
}

fn utc_now() -> i64 {
    Utc::now().timestamp_millis()
}

#[test]
fn day_bounds_returns_invalid_for_malformed() {
    assert!(day_bounds("bad").is_none());
    assert!(day_bounds("2026-08").is_none());
    assert!(day_bounds("abc-def-ghi").is_none());
    assert!(day_bounds("2026-13-01").is_none());
}

#[test]
fn day_bounds_normalizes_overflow_day_like_js() {
    let overflow = day_bounds("2026-02-30").unwrap();
    let normalized = day_bounds("2026-03-02").unwrap();
    assert_eq!(overflow.start_ms, normalized.start_ms);
    assert_eq!(overflow.end_ms, normalized.end_ms);
}

#[test]
fn day_bounds_marks_local_midnight_to_next_midnight() {
    let b = day_bounds("2026-08-03").unwrap();
    let s = local_at(b.start_ms);
    let e = local_at(b.end_ms);
    assert_eq!(s.day(), 3);
    assert_eq!(s.hour(), 0);
    assert_eq!(s.minute(), 0);
    assert_eq!(e.day(), 4);
    assert_eq!(e.hour(), 0);
}

#[test]
fn local_date_string_formats_local_calendar_date() {
    let noon = now_at(2026, 8, 3, 12, 0);
    assert_eq!(local_date_string(noon), "2026-08-03");
    let late = now_at(2026, 8, 3, 23, 59);
    assert_eq!(local_date_string(late), "2026-08-03");
}

#[test]
fn split_unchanged_when_fully_within_day() {
    let s = seg("2026-08-03T10:00:00", Some("2026-08-03T11:30:00"));
    let out = split_at_midnight(&s, "2026-08-03", utc_now()).unwrap();
    assert_eq!(local_at(parse_iso_to_ms(&out.start_at).unwrap()).hour(), 10);
    let e = local_at(parse_iso_to_ms(out.end_at.as_ref().unwrap()).unwrap());
    assert_eq!(e.hour(), 11);
    assert_eq!(e.minute(), 30);
    assert_eq!(out.id, "s");
}

#[test]
fn split_into_day_segment_starts() {
    let s = seg("2026-08-03T23:30:00", Some("2026-08-04T00:30:00"));
    let out = split_at_midnight(&s, "2026-08-03", utc_now()).unwrap();
    assert_eq!(local_at(parse_iso_to_ms(&out.start_at).unwrap()).hour(), 23);
    let e = local_at(parse_iso_to_ms(out.end_at.as_ref().unwrap()).unwrap());
    assert_eq!(e.day(), 4);
    assert_eq!(e.hour(), 0);
}

#[test]
fn split_into_day_segment_ends() {
    let s = seg("2026-08-03T23:30:00", Some("2026-08-04T00:30:00"));
    let out = split_at_midnight(&s, "2026-08-04", utc_now()).unwrap();
    let st = local_at(parse_iso_to_ms(&out.start_at).unwrap());
    assert_eq!(st.hour(), 0);
    let e = local_at(parse_iso_to_ms(out.end_at.as_ref().unwrap()).unwrap());
    assert_eq!(e.hour(), 0);
    assert_eq!(e.minute(), 30);
}

#[test]
fn split_null_when_on_a_different_day() {
    let s = seg("2026-08-03T10:00:00", Some("2026-08-03T11:00:00"));
    assert!(split_at_midnight(&s, "2026-08-05", utc_now()).is_none());
}

#[test]
fn split_clamps_open_segment_to_now() {
    let now = now_at(2026, 8, 3, 15, 0);
    let s = seg("2026-08-03T10:00:00", None);
    let out = split_at_midnight(&s, "2026-08-03", now).unwrap();
    assert_eq!(out.end_at.unwrap(), iso_utc_z_millis(now));
}

#[test]
fn split_open_yesterday_appears_today_as_midnight_to_now() {
    let now = now_at(2026, 8, 4, 9, 0);
    let s = seg("2026-08-03T22:00:00", None);
    let out = split_at_midnight(&s, "2026-08-04", now).unwrap();
    assert_eq!(local_at(parse_iso_to_ms(&out.start_at).unwrap()).hour(), 0);
    assert_eq!(out.end_at.unwrap(), iso_utc_z_millis(now));
}

#[test]
fn split_handles_malformed_start_as_null() {
    let s = seg("not-a-date", Some("2026-08-03T11:00:00"));
    assert!(split_at_midnight(&s, "2026-08-03", utc_now()).is_none());
}

#[test]
fn split_boundary_exactly_at_midnight_keeps_start() {
    let s = seg("2026-08-03T00:00:00", Some("2026-08-04T00:00:00"));
    let out = split_at_midnight(&s, "2026-08-03", utc_now()).unwrap();
    assert_eq!(parse_iso_to_ms(&out.start_at).unwrap(), parse_iso_to_ms("2026-08-03T00:00:00").unwrap());
}

#[test]
fn iso_form_is_utc_with_milliseconds_and_z() {
    assert_eq!(iso_utc_z_millis(0), "1970-01-01T00:00:00.000Z");
    assert_eq!(iso_utc_z_millis(1_785_744_000_123), "2026-08-03T08:00:00.123Z");
}

#[test]
fn rfc3339_times_are_read_as_they_say() {
    assert_eq!(parse_iso_to_ms("1970-01-01T00:00:01.500Z"), Some(1500));
    assert_eq!(parse_iso_to_ms("1970-01-01T01:00:00+01:00"), Some(0));
    assert_eq!(parse_iso_to_ms("nope"), None);
}

#[test]
fn segments_ending_before_they_start_give_no_slice() {
    let s = seg("2026-08-03T11:00:00Z", Some("2026-08-03T10:00:00Z"));
    assert!(split_at_midnight(&s, "2026-08-03", utc_now()).is_none());
}

#[test]
fn year_month_day_fields_are_read_like_str_parse() {
    assert_eq!(ymd_of("2026-08-03"), Some((2026, 8, 3)));
    assert_eq!(ymd_of("+2026-+8-03"), Some((2026, 8, 3)));
    assert_eq!(ymd_of("2026-08-03-01"), None);
    assert_eq!(ymd_of("2026--03"), None);
    assert_eq!(ymd_of("99999999999-01-01"), None);
    assert_eq!(parse_u64("18446744073709551615"), Some(u64::MAX));
    assert_eq!(parse_u64("18446744073709551616"), None);
    assert_eq!(parse_u64(""), None);
}

#[test]
fn split_in_day_clips_to_a_utc_day_and_refuses_what_it_cannot_read() {
    let day_start = Utc.with_ymd_and_hms(2026, 8, 3, 0, 0, 0).unwrap().timestamp_millis();
    let bounds = bounds_from_start(day_start).unwrap();
    let now = Utc.with_ymd_and_hms(2026, 8, 3, 12, 0, 0).unwrap().timestamp_millis();
    let out = split_in_day(&seg("2026-08-02T22:00:00.000Z", Some("2026-08-03T01:30:00.000Z")), &bounds, now)
        .unwrap();
    assert_eq!(out.start_at, "2026-08-03T00:00:00.000Z");
    assert_eq!(out.end_at.as_deref(), Some("2026-08-03T01:30:00.000Z"));
    let open = split_in_day(&seg("2026-08-03T10:00:00.000Z", None), &bounds, now).unwrap();
    assert_eq!(open.end_at.as_deref(), Some("2026-08-03T12:00:00.000Z"));
    assert!(split_in_day(&seg("2026-08-03T10:00:00.000Z", Some("not a time")), &bounds, now).is_none());
    assert!(split_in_day(&seg("2026-08-03T10:00:00.000Z", Some("2026-08-03T09:00:00.000Z")), &bounds, now)
        .is_none());
    assert!(split_in_day(&seg("2026-08-05T10:00:00.000Z", Some("2026-08-05T11:00:00.000Z")), &bounds, now)
        .is_none());
}

#[test]
fn day_bounds_refuses_a_month_outside_the_year() {
    assert!(day_bounds("2026-00-10").is_none());
    assert!(day_bounds("2026-13-01").is_none());
}

#[test]
fn a_naive_time_past_the_calendar_range_reads_as_none() {
    assert_eq!(parse_iso_to_ms("+262142-12-31T23:59:60"), None);
    assert_eq!(parse_iso_to_ms("not a time"), None);
}
