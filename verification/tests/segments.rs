use chrono::TimeZone;
use herbie::segment::{
    close_open, get_open_segment, kind_from_db_str, list_all, list_segments_by_day, merge_decision,
    open_segment, open_segment_at, patch_todo_id, replace_open_process_title, should_merge_open,
    start_tracking, stop_tracking, update_segment, OpenSegmentInput, SegmentKind, SegmentPatch,
    WinHookEvent, fetch_todo_titles, segments_in_day,
};
use herbie::settings::KEY_MIN_SEGMENT_SEC;
use herbie::store::Store;
use herbie::time::bounds_from_start;
use herbie::todos::{create_todo_at, TodoInput};

fn make() -> Store {
    Store::new()
}

fn open_input(p: &str, t: &str) -> OpenSegmentInput {
    OpenSegmentInput { process_name: p.into(), title: t.into(), kind: None, todo_id: None, start_at: None }
}

fn open_at(p: &str, t: &str, start: &str) -> OpenSegmentInput {
    OpenSegmentInput {
        process_name: p.into(),
        title: t.into(),
        kind: None,
        todo_id: None,
        start_at: Some(start.into()),
    }
}

fn idle_at(start: &str) -> OpenSegmentInput {
    OpenSegmentInput {
        process_name: "[idle]".into(),
        title: String::new(),
        kind: Some(SegmentKind::Idle),
        todo_id: None,
        start_at: Some(start.into()),
    }
}

fn foreground(hwnd: i64, process: &str, title: &str) -> WinHookEvent {
    WinHookEvent { kind: "foreground", hwnd, process_name: process.into(), title: title.into() }
}

fn name_change(hwnd: i64, process: &str, title: &str) -> WinHookEvent {
    WinHookEvent { kind: "namechange", hwnd, process_name: process.into(), title: title.into() }
}

#[test]
fn open_segment_inserts_an_open_activity_row() {
    let mut store = make();
    let s = open_segment(&mut store, &open_input("app.exe", "Main")).unwrap();
    assert!(s.end_at.is_none());
    assert_eq!(s.process_name, "app.exe");
    assert_eq!(s.title, "Main");
    assert_eq!(s.kind, SegmentKind::Activity);
    assert!(uuid::Uuid::parse_str(&s.id).is_ok());
}

#[test]
fn close_open_sets_endat_and_is_idempotent() {
    let mut store = make();
    open_segment(&mut store, &open_input("a", "t")).unwrap();
    let at = "2026-08-03T10:30:00Z";
    assert_eq!(close_open(&mut store, at), 1);
    assert_eq!(close_open(&mut store, at), 0);
}

#[test]
fn get_open_segment_returns_none_then_some() {
    let mut store = make();
    assert!(get_open_segment(&store).is_none());
    open_segment(&mut store, &open_at("a", "t", "2026-08-03T10:00:00Z")).unwrap();
    let open = get_open_segment(&store).unwrap();
    assert_eq!(open.process_name, "a");
    assert!(open.end_at.is_none());
}

#[test]
fn replace_open_process_title_keeps_start_at_and_kind() {
    let mut store = make();
    let s = open_segment(&mut store, &open_at("a", "A", "2026-08-03T10:00:00Z")).unwrap();
    replace_open_process_title(&mut store, "b.exe", "B");
    let open = get_open_segment(&store).unwrap();
    assert_eq!(open.id, s.id);
    assert_eq!(open.start_at, "2026-08-03T10:00:00Z");
    assert_eq!(open.process_name, "b.exe");
    assert_eq!(open.title, "B");
    assert_eq!(open.kind, SegmentKind::Activity);
    assert!(open.end_at.is_none());
}

#[test]
fn should_merge_open_merges_short_activity_open() {
    let mut store = make();
    open_segment(&mut store, &open_at("a", "A", "2026-08-03T10:00:00Z")).unwrap();
    assert!(should_merge_open(&store, "2026-08-03T10:00:30Z", 60));
}

#[test]
fn should_merge_open_does_not_merge_at_or_beyond_threshold() {
    let mut store = make();
    open_segment(&mut store, &open_at("a", "A", "2026-08-03T10:00:00Z")).unwrap();
    assert!(!should_merge_open(&store, "2026-08-03T10:01:00Z", 60));
    assert!(!should_merge_open(&store, "2026-08-03T10:02:00Z", 60));
}

#[test]
fn should_merge_open_does_not_merge_idle_open() {
    let mut store = make();
    open_segment(&mut store, &idle_at("2026-08-03T10:00:00Z")).unwrap();
    assert!(!should_merge_open(&store, "2026-08-03T10:00:30Z", 60));
}

#[test]
fn should_merge_open_false_when_no_open_or_zero_threshold() {
    let mut store = make();
    assert!(!should_merge_open(&store, "2026-08-03T10:00:30Z", 60));
    open_segment(&mut store, &open_at("a", "A", "2026-08-03T10:00:00Z")).unwrap();
    assert!(!should_merge_open(&store, "2026-08-03T10:00:30Z", 0));
}

#[test]
fn list_segments_by_day_clips_and_orders() {
    let mut store = make();
    open_segment(&mut store, &open_at("a", "in", "2026-08-03T10:00:00")).unwrap();
    close_open(&mut store, "2026-08-03T11:00:00");
    open_segment(&mut store, &open_at("b", "out", "2026-08-05T10:00:00")).unwrap();
    close_open(&mut store, "2026-08-05T11:00:00");
    let now = chrono::Local.with_ymd_and_hms(2026, 8, 3, 23, 0, 0).single().unwrap().timestamp_millis();
    let day = list_segments_by_day(&store, "2026-08-03", now);
    assert_eq!(day.len(), 1);
    assert_eq!(day[0].process_name, "a");
    assert!(day[0].end_at.is_some());
}

#[test]
fn update_segment_note_and_todo_id_three_states() {
    let mut store = make();
    create_todo_at(
        &mut store,
        "todo1",
        "2026-01-01T00:00:00Z",
        &TodoInput { title: "todo1".into(), detail: String::new() },
    )
    .unwrap();
    let s = open_segment(&mut store, &open_input("a", "t")).unwrap();
    let updated = update_segment(
        &mut store,
        &s.id,
        &SegmentPatch { note: Some("hi".into()), todo_id: Some(Some("todo1".into())) },
    );
    let updated = updated.expect("seg exists after update");
    assert_eq!(updated.note, "hi");
    assert_eq!(updated.todo_id, Some("todo1".to_string()));
    let same = update_segment(&mut store, &s.id, &SegmentPatch { note: None, todo_id: None }).unwrap();
    assert_eq!(same.note, "hi");
    assert_eq!(same.todo_id, Some("todo1".to_string()));
    let cleared = update_segment(&mut store, &s.id, &SegmentPatch { note: None, todo_id: Some(None) }).unwrap();
    assert!(cleared.todo_id.is_none());
    assert_eq!(cleared.note, "hi");
}

#[test]
fn update_segment_unknown_id_returns_none() {
    let mut store = make();
    let patch = SegmentPatch { note: None, todo_id: None };
    assert!(update_segment(&mut store, "no-such-id", &patch).is_none());
}

/// The to-do link of a patch as it arrives: absent, `null`, or a string.
fn todo_id_field(json: &str) -> Option<Option<String>> {
    let v: serde_json::Value = serde_json::from_str(json).unwrap();
    match v.get("todoId") {
        None => None,
        Some(serde_json::Value::Null) => patch_todo_id(None),
        Some(t) => patch_todo_id(Some(t.as_str().unwrap().to_string())),
    }
}

#[test]
fn segment_patch_deserializes_three_states() {
    assert!(todo_id_field(r#"{"note":"x"}"#).is_none());
    assert_eq!(todo_id_field(r#"{"note":"x","todoId":null}"#), Some(None));
    assert_eq!(todo_id_field(r#"{"note":"x","todoId":"t"}"#), Some(Some("t".into())));
    assert_eq!(todo_id_field(r#"{"todoId":""}"#), Some(None));
}

#[test]
fn start_tracking_opens_new_and_closes_previous_on_each_foreground() {
    let mut store = make();
    herbie::settings::set(&mut store, KEY_MIN_SEGMENT_SEC, "0");
    let mut tracking = start_tracking();
    tracking.on_event(&mut store, &foreground(1, "a.exe", "A"));
    tracking.on_event(&mut store, &foreground(2, "b.exe", "B"));
    let rows = list_all(&store);
    assert_eq!(rows.len(), 2);
    assert_eq!(rows[0].process_name, "a.exe");
    assert!(rows[0].end_at.is_some());
    assert_eq!(rows[1].process_name, "b.exe");
    assert!(rows[1].end_at.is_none());
}

#[test]
fn namechange_for_current_hwnd_updates_title_via_close_open() {
    let mut store = make();
    herbie::settings::set(&mut store, KEY_MIN_SEGMENT_SEC, "0");
    let mut tracking = start_tracking();
    tracking.on_event(&mut store, &foreground(5, "c.exe", "Doc1"));
    tracking.on_event(&mut store, &name_change(5, "c.exe", "Doc2"));
    let rows = list_all(&store);
    assert_eq!(rows.len(), 2);
    assert_eq!(rows[0].title, "Doc1");
    assert_eq!(rows[1].title, "Doc2");
    assert!(rows[0].end_at.is_some());
    assert!(rows[1].end_at.is_none());
}

#[test]
fn namechange_for_non_foreground_hwnd_is_ignored() {
    let mut store = make();
    let mut tracking = start_tracking();
    tracking.on_event(&mut store, &foreground(7, "c.exe", "X"));
    tracking.on_event(&mut store, &name_change(99, "other.exe", "Y"));
    let rows = list_all(&store);
    assert_eq!(rows.len(), 1);
    assert_eq!(rows[0].title, "X");
    assert!(rows[0].end_at.is_none());
}

#[test]
fn foreground_events_within_debounce_merge_into_one_segment() {
    let mut store = make();
    herbie::settings::set(&mut store, KEY_MIN_SEGMENT_SEC, "3600");
    let mut tracking = start_tracking();
    tracking.on_event(&mut store, &foreground(1, "a.exe", "A"));
    tracking.on_event(&mut store, &foreground(2, "b.exe", "B"));
    let rows = list_all(&store);
    assert_eq!(rows.len(), 1);
    assert_eq!(rows[0].process_name, "b.exe");
    assert_eq!(rows[0].title, "B");
    assert!(rows[0].end_at.is_none());
}

#[test]
fn foreground_does_not_merge_an_open_idle_segment() {
    let mut store = make();
    herbie::settings::set(&mut store, KEY_MIN_SEGMENT_SEC, "3600");
    open_segment(&mut store, &idle_at("2026-08-03T10:00:00Z")).unwrap();
    let mut tracking = start_tracking();
    tracking.on_event(&mut store, &foreground(2, "b.exe", "B"));
    let rows = list_all(&store);
    assert_eq!(rows.len(), 2);
    let idle = rows.iter().find(|r| r.kind == SegmentKind::Idle).unwrap();
    assert!(idle.end_at.is_some());
    let act = rows.iter().find(|r| r.kind == SegmentKind::Activity).unwrap();
    assert_eq!(act.process_name, "b.exe");
    assert!(act.end_at.is_none());
}

#[test]
fn stop_tracking_closes_open_and_stops_the_notifier() {
    let mut store = make();
    let mut tracking = start_tracking();
    tracking.on_event(&mut store, &foreground(1, "a.exe", "A"));
    stop_tracking(&mut store, "2026-08-03T12:00:00Z");
    let rows = list_all(&store);
    assert_eq!(rows[0].end_at.as_deref(), Some("2026-08-03T12:00:00Z"));
}

#[test]
fn repeated_window_names_are_not_rewritten() {
    let mut store = make();
    herbie::settings::set(&mut store, KEY_MIN_SEGMENT_SEC, "0");
    let mut tracking = start_tracking();
    tracking.on_event(&mut store, &foreground(5, "c.exe", "Doc"));
    tracking.on_event(&mut store, &name_change(5, "c.exe", "Doc"));
    tracking.on_event(&mut store, &name_change(5, "c.exe", ""));
    assert_eq!(list_all(&store).len(), 1);
}

#[test]
fn at_most_one_segment_stays_open_while_tracking() {
    let mut store = make();
    herbie::settings::set(&mut store, KEY_MIN_SEGMENT_SEC, "0");
    let mut tracking = start_tracking();
    for i in 0..5 {
        tracking.on_event(&mut store, &foreground(i, &format!("p{}.exe", i), "T"));
        let open = list_all(&store).iter().filter(|s| s.end_at.is_none()).count();
        assert_eq!(open, 1);
    }
}

#[test]
fn open_segment_refuses_a_missing_todo_and_a_taken_id() {
    let mut store = make();
    let mut linked = open_input("a", "t");
    linked.todo_id = Some("ghost".into());
    assert!(open_segment(&mut store, &linked).is_err());
    open_segment_at(&mut store, "s1", "2026-08-03T10:00:00.000Z", &open_input("a", "t")).unwrap();
    assert!(open_segment_at(&mut store, "s1", "2026-08-03T10:00:00.000Z", &open_input("b", "t")).is_err());
    assert_eq!(store.segments.len(), 1);
    assert_eq!(store.segments[0].start_at, "2026-08-03T10:00:00.000Z");
}

#[test]
fn update_segment_linking_a_missing_todo_changes_nothing() {
    let mut store = make();
    let s = open_segment(&mut store, &open_input("a", "t")).unwrap();
    let back = update_segment(
        &mut store,
        &s.id,
        &SegmentPatch { note: Some("n".into()), todo_id: Some(Some("ghost".into())) },
    )
    .unwrap();
    assert_eq!(back.note, "");
    assert!(back.todo_id.is_none());
}

#[test]
fn merge_decision_follows_the_threshold() {
    assert!(merge_decision(Some(SegmentKind::Activity), Some(0), Some(59_999), 60));
    assert!(!merge_decision(Some(SegmentKind::Activity), Some(0), Some(60_000), 60));
    assert!(!merge_decision(Some(SegmentKind::Idle), Some(0), Some(1), 60));
    assert!(!merge_decision(Some(SegmentKind::Activity), None, Some(1), 60));
    assert!(merge_decision(Some(SegmentKind::Activity), Some(10), Some(5), 1));
    assert!(!merge_decision(None, Some(0), Some(1), 60));
}

#[test]
fn kinds_are_stored_as_lowercase_text() {
    assert_eq!(SegmentKind::Activity.as_db_str(), "activity");
    assert_eq!(SegmentKind::Idle.as_db_str(), "idle");
    assert_eq!(kind_from_db_str("idle"), SegmentKind::Idle);
    assert_eq!(kind_from_db_str("activity"), SegmentKind::Activity);
    assert_eq!(kind_from_db_str("other"), SegmentKind::Activity);
}

#[test]
fn fetch_todo_titles_returns_known_non_empty_ids_once() {
    let mut store = make();
    for (id, title) in [("t1", "one"), ("t2", "two"), ("t3", "three")] {
        create_todo_at(
            &mut store,
            id,
            "2026-01-01T00:00:00Z",
            &TodoInput { title: title.into(), detail: String::new() },
        )
        .unwrap();
    }
    let ids = vec!["t3".to_string(), "".to_string(), "t1".to_string(), "t3".to_string(), "zz".to_string()];
    assert_eq!(
        fetch_todo_titles(&store, &ids),
        vec![("t1".to_string(), "one".to_string()), ("t3".to_string(), "three".to_string())]
    );
    assert!(fetch_todo_titles(&store, &[]).is_empty());
}

fn plain_segment(id: &str) -> herbie::segment::Segment {
    herbie::segment::Segment {
        id: id.into(),
        start_at: String::new(),
        end_at: None,
        process_name: "p".into(),
        title: "t".into(),
        note: "n".into(),
        todo_id: None,
        kind: SegmentKind::Activity,
    }
}

#[test]
fn day_slices_cut_to_the_day_and_skip_what_misses_it() {
    let day_start = 86_400_000;
    let day_end = 2 * 86_400_000;
    let cands = vec![plain_segment("a"), plain_segment("b"), plain_segment("c"), plain_segment("d"), plain_segment("e")];
    let times = vec![
        Some((80_000_000, 90_000_000)),
        None,
        Some((100_000_000, 200_000_000)),
        Some((10, 20)),
        Some((100_000_000, 90_000_000)),
    ];
    let out = herbie::segment::day_slices(&cands, &times, day_start, day_end);
    assert_eq!(out.len(), 2);
    assert_eq!(out[0].id, "a");
    assert_eq!(out[0].start_at, "1970-01-02T00:00:00.000Z");
    assert_eq!(out[0].end_at.as_deref(), Some("1970-01-02T01:00:00.000Z"));
    assert_eq!(out[1].id, "c");
    assert_eq!(out[1].start_at, "1970-01-02T03:46:40.000Z");
    assert_eq!(out[1].end_at.as_deref(), Some("1970-01-03T00:00:00.000Z"));
    assert_eq!(out[1].note, "n");
}

#[test]
fn segments_in_day_cuts_at_both_ends_earliest_first() {
    let mut store = make();
    open_segment(&mut store, &open_at("late", "x", "2026-08-03T23:30:00.000Z")).unwrap();
    close_open(&mut store, "2026-08-04T01:00:00.000Z");
    open_segment(&mut store, &open_at("early", "y", "2026-08-02T23:00:00.000Z")).unwrap();
    close_open(&mut store, "2026-08-03T00:30:00.000Z");
    open_segment(&mut store, &open_at("away", "z", "2026-08-05T10:00:00.000Z")).unwrap();
    close_open(&mut store, "2026-08-05T11:00:00.000Z");
    let day_start = chrono::Utc.with_ymd_and_hms(2026, 8, 3, 0, 0, 0).unwrap().timestamp_millis();
    let bounds = bounds_from_start(day_start).unwrap();
    let day = segments_in_day(&store, &bounds, day_start);
    assert_eq!(day.len(), 2);
    assert_eq!(day[0].process_name, "early");
    assert_eq!(day[0].start_at, "2026-08-03T00:00:00.000Z");
    assert_eq!(day[0].end_at.as_deref(), Some("2026-08-03T00:30:00.000Z"));
    assert_eq!(day[1].process_name, "late");
    assert_eq!(day[1].start_at, "2026-08-03T23:30:00.000Z");
    assert_eq!(day[1].end_at.as_deref(), Some("2026-08-04T00:00:00.000Z"));
}
