use chrono::TimeZone;
use herbie::segment::{list_all, open_segment, start_tracking, OpenSegmentInput, SegmentKind, WinHookEvent};
use herbie::settings::KEY_IDLE_THRESHOLD_SEC;
use herbie::store::Store;
use herbie::tracker::{PowerEvent, Tracker};

struct FakeDeps {
    idle: u64,
    now_ms: i64,
}

impl FakeDeps {
    fn new() -> Self {
        Self { idle: 0, now_ms: chrono::Utc.with_ymd_and_hms(2026, 8, 3, 10, 0, 0).unwrap().timestamp_millis() }
    }
    fn set_idle(&mut self, s: u64) {
        self.idle = s;
    }
    fn advance(&mut self, ms: i64) {
        self.now_ms += ms;
    }
}

fn poll(t: &mut Tracker, store: &mut Store, deps: &FakeDeps) {
    t.poll(store, deps.idle, deps.now_ms);
}

fn foreground(hwnd: i64, process: &str, title: &str) -> WinHookEvent {
    WinHookEvent { kind: "foreground", hwnd, process_name: process.into(), title: title.into() }
}

#[test]
fn opens_an_idle_segment_when_idle_crosses_threshold() {
    let mut store = Store::new();
    let mut deps = FakeDeps::new();
    herbie::settings::set(&mut store, KEY_IDLE_THRESHOLD_SEC, "10");
    let mut t = Tracker::new();
    t.start();
    deps.set_idle(12);
    deps.advance(12_000);
    poll(&mut t, &mut store, &deps);
    let rows = list_all(&store);
    assert_eq!(rows.len(), 1);
    assert_eq!(rows[0].kind, SegmentKind::Idle);
    assert_eq!(rows[0].process_name, "[idle]");
    assert!(rows[0].end_at.is_none());
}

#[test]
fn closes_the_idle_segment_when_idle_returns_to_0() {
    let mut store = Store::new();
    let mut deps = FakeDeps::new();
    herbie::settings::set(&mut store, KEY_IDLE_THRESHOLD_SEC, "10");
    let mut t = Tracker::new();
    t.start();
    deps.set_idle(12);
    deps.advance(12_000);
    poll(&mut t, &mut store, &deps);
    assert_eq!(list_all(&store).len(), 1);
    deps.set_idle(0);
    deps.advance(5_000);
    poll(&mut t, &mut store, &deps);
    let rows = list_all(&store);
    assert_eq!(rows.len(), 1);
    assert!(rows[0].end_at.is_some());
}

#[test]
fn suspend_and_lock_close_open_segment_without_creating_idle() {
    let mut store = Store::new();
    let mut t = Tracker::new();
    t.start();
    t.on_power(&mut store, PowerEvent::SessionLock);
    t.on_power(&mut store, PowerEvent::Suspend);
    assert_eq!(list_all(&store).len(), 0);
}

#[test]
fn set_off_work_true_closes_open_and_gated_foreground_clears_off_work() {
    let mut store = Store::new();
    let mut t = Tracker::new();
    let gated = t.gate_notifier(());
    t.start();
    t.set_off_work(&mut store, true);
    assert!(t.get_off_work());
    let received: Option<WinHookEvent> = Some(gated.forward_event(&mut t, foreground(1, "a.exe", "A")));
    assert!(!t.get_off_work());
    let got = received.unwrap();
    assert_eq!(got.kind, "foreground");
    assert_eq!(got.hwnd, 1);
    assert_eq!(got.process_name, "a.exe");
    assert_eq!(got.title, "A");
}

#[test]
fn idle_poll_during_off_work_writes_nothing() {
    let mut store = Store::new();
    let mut deps = FakeDeps::new();
    herbie::settings::set(&mut store, KEY_IDLE_THRESHOLD_SEC, "10");
    let mut t = Tracker::new();
    t.start();
    t.set_off_work(&mut store, true);
    deps.set_idle(60);
    deps.advance(60_000);
    poll(&mut t, &mut store, &deps);
    assert_eq!(list_all(&store).len(), 0);
    deps.set_idle(0);
    poll(&mut t, &mut store, &deps);
    assert!(!t.get_off_work());
}

#[test]
fn gated_foreground_opens_new_segment_after_ending_off_work() {
    let mut store = Store::new();
    let mut t = Tracker::new();
    let gated = t.gate_notifier(());
    let mut tracking = start_tracking();
    t.start();
    t.set_off_work(&mut store, true);
    let e = gated.forward_event(&mut t, foreground(1, "a.exe", "A"));
    tracking.on_event(&mut store, &e);
    let rows = list_all(&store);
    assert_eq!(rows.len(), 1);
    assert_eq!(rows[0].process_name, "a.exe");
}

#[test]
fn returning_from_idle_via_foreground_keeps_next_activity_open() {
    let mut store = Store::new();
    let mut deps = FakeDeps::new();
    herbie::settings::set(&mut store, KEY_IDLE_THRESHOLD_SEC, "10");
    let mut t = Tracker::new();
    let gated = t.gate_notifier(());
    let mut tracking = start_tracking();
    t.start();
    deps.set_idle(15);
    deps.advance(15_000);
    poll(&mut t, &mut store, &deps);
    let rows = list_all(&store);
    assert_eq!(rows.len(), 1);
    assert_eq!(rows[0].kind, SegmentKind::Idle);
    assert!(rows[0].end_at.is_none());
    let e = gated.forward_event(&mut t, foreground(2, "a.exe", "A"));
    tracking.on_event(&mut store, &e);
    let rows = list_all(&store);
    assert_eq!(rows.len(), 2);
    let idle_seg = rows.iter().find(|r| r.kind == SegmentKind::Idle).unwrap();
    let act_seg = rows.iter().find(|r| r.kind == SegmentKind::Activity).unwrap();
    assert!(idle_seg.end_at.is_some());
    assert!(act_seg.end_at.is_none());
    deps.set_idle(0);
    deps.advance(5_000);
    poll(&mut t, &mut store, &deps);
    let rows = list_all(&store);
    assert_eq!(rows.len(), 2);
    let act_seg_after = rows.iter().find(|r| r.kind == SegmentKind::Activity).unwrap();
    assert!(act_seg_after.end_at.is_none());
}

#[test]
fn idle_segment_starts_at_the_last_input() {
    let mut store = Store::new();
    let mut t = Tracker::new();
    t.poll_at(&mut store, 400, 1_000_000, "idle-1");
    assert_eq!(store.segments.len(), 1);
    assert_eq!(store.segments[0].start_at, "1970-01-01T00:10:00.000Z");
    assert_eq!(store.segments[0].id, "idle-1");
    assert!(t.was_idle);
}

#[test]
fn threshold_defaults_to_300_and_ignores_zero_and_garbage() {
    let mut store = Store::new();
    let t = Tracker::new();
    assert_eq!(t.threshold(&store), 300);
    herbie::settings::set(&mut store, KEY_IDLE_THRESHOLD_SEC, "0");
    assert_eq!(t.threshold(&store), 300);
    herbie::settings::set(&mut store, KEY_IDLE_THRESHOLD_SEC, "abc");
    assert_eq!(t.threshold(&store), 300);
    herbie::settings::set(&mut store, KEY_IDLE_THRESHOLD_SEC, "+45");
    assert_eq!(t.threshold(&store), 45);
}

#[test]
fn off_work_closes_the_open_segment_and_resume_writes_nothing() {
    let mut store = Store::new();
    let mut t = Tracker::new();
    open_segment(&mut store, &OpenSegmentInput {
        process_name: "a".into(),
        title: "A".into(),
        kind: None,
        todo_id: None,
        start_at: None,
    })
    .unwrap();
    t.set_off_work_at(&mut store, true, "2026-08-03T12:00:00.000Z");
    assert_eq!(store.segments[0].end_at.as_deref(), Some("2026-08-03T12:00:00.000Z"));
    t.set_off_work_at(&mut store, false, "2026-08-03T13:00:00.000Z");
    assert!(!t.get_off_work());
    assert_eq!(store.segments.len(), 1);
    assert!(!t.off_work_state().off_work);
}
