use herbie::db::close;
use herbie::spike_power::{message_event, PowerEvent as SpikeEvent};
use herbie::system::{start_tracking_system, stop_tracking_system, tracking_system};
use herbie::tracker::PowerEvent;
use herbie::win_foreground::{
    event_kind, pid_to_basename, process_basename_from_path, Dedup, PidCache, EVENT_OBJECT_NAMECHANGE,
    EVENT_SYSTEM_FOREGROUND,
};
use herbie::win_idle::{idle_delta_ms, tick_delta_to_sec};
use herbie::win_power::{
    map_event, PBT_APMRESUMEAUTOMATIC, PBT_APMSUSPEND, WM_POWERBROADCAST, WM_WTSSESSION_CHANGE,
    WTS_SESSION_LOCK, WTS_SESSION_UNLOCK,
};

#[test]
fn event_names() {
    assert_eq!(SpikeEvent::Suspend.as_str(), "suspend");
    assert_eq!(SpikeEvent::ResumeAutomatic.as_str(), "resume-automatic");
    assert_eq!(SpikeEvent::SessionLock.as_str(), "session-lock");
    assert_eq!(SpikeEvent::SessionUnlock.as_str(), "session-unlock");
}

#[test]
fn power_event_roundtrip() {
    let cases = [SpikeEvent::Suspend, SpikeEvent::ResumeAutomatic, SpikeEvent::SessionLock, SpikeEvent::SessionUnlock];
    for ev in cases {
        for other in cases {
            assert_eq!(ev == other, ev.as_str() == other.as_str());
        }
    }
}

#[test]
fn message_constants_nonzero() {
    assert!(WM_POWERBROADCAST != 0, "WM_POWERBROADCAST must be non-zero");
    assert!(WM_WTSSESSION_CHANGE != 0, "WM_WTSSESSION_CHANGE must be non-zero");
}

#[test]
fn wts_change_is_power_distinct() {
    assert_ne!(WM_POWERBROADCAST, WM_WTSSESSION_CHANGE);
}

#[test]
fn spike_messages_map_to_named_events() {
    assert_eq!(message_event(WM_POWERBROADCAST, PBT_APMSUSPEND), Some(SpikeEvent::Suspend));
    assert_eq!(message_event(WM_POWERBROADCAST, PBT_APMRESUMEAUTOMATIC), Some(SpikeEvent::ResumeAutomatic));
    assert_eq!(message_event(WM_WTSSESSION_CHANGE, WTS_SESSION_LOCK), Some(SpikeEvent::SessionLock));
    assert_eq!(message_event(WM_WTSSESSION_CHANGE, WTS_SESSION_UNLOCK), Some(SpikeEvent::SessionUnlock));
    assert_eq!(message_event(WM_WTSSESSION_CHANGE, PBT_APMSUSPEND), None);
}

#[test]
fn maps_power_and_session_messages() {
    assert_eq!(map_event(WM_POWERBROADCAST, PBT_APMSUSPEND), Some(PowerEvent::Suspend));
    assert_eq!(map_event(WM_POWERBROADCAST, PBT_APMRESUMEAUTOMATIC), Some(PowerEvent::Resume));
    assert_eq!(map_event(WM_WTSSESSION_CHANGE, WTS_SESSION_LOCK), Some(PowerEvent::SessionLock));
    assert_eq!(map_event(WM_WTSSESSION_CHANGE, WTS_SESSION_UNLOCK), Some(PowerEvent::SessionUnlock));
}

#[test]
fn ignores_unrelated_messages_and_params() {
    assert_eq!(map_event(WM_POWERBROADCAST, 1234), None);
    assert_eq!(map_event(WM_WTSSESSION_CHANGE, 999), None);
    assert_eq!(map_event(0x0111, PBT_APMSUSPEND), None);
    assert_eq!(map_event(0x0111, 0), None);
}

#[test]
fn message_constants_nonzero_and_distinct() {
    assert_ne!(WM_POWERBROADCAST, 0);
    assert_ne!(WM_WTSSESSION_CHANGE, 0);
    assert_ne!(WM_POWERBROADCAST, WM_WTSSESSION_CHANGE);
}

#[test]
fn process_basename_from_path_extracts_base() {
    assert_eq!(process_basename_from_path(r"C:\a\b.exe"), "b.exe");
    assert_eq!(process_basename_from_path("C:/a/b.exe"), "b.exe");
    assert_eq!(process_basename_from_path("b.exe"), "b.exe");
    assert_eq!(process_basename_from_path(r"C:\a\"), "");
    assert_eq!(process_basename_from_path(r"C:\"), "");
}

#[test]
fn event_kind_maps_foreground_and_namechange() {
    assert_eq!(event_kind(EVENT_SYSTEM_FOREGROUND), "foreground");
    assert_eq!(event_kind(EVENT_OBJECT_NAMECHANGE), "namechange");
    assert_eq!(event_kind(99999), "namechange");
}

#[test]
fn dedup_skips_repeated_triples_and_keeps_changes() {
    let mut d = Dedup::new();
    assert!(d.should_emit("foreground", "a.exe", "A"));
    assert!(!d.should_emit("foreground", "a.exe", "A"));
    assert!(d.should_emit("foreground", "a.exe", "B"));
    assert!(d.should_emit("namechange", "a.exe", "B"));
    assert!(!d.should_emit("namechange", "a.exe", "B"));
    assert!(d.should_emit("namechange", "b.exe", "B"));
    assert!(d.should_emit("namechange", "b.exe", ""));
}

#[test]
fn tick_delta_to_sec_truncates() {
    assert_eq!(tick_delta_to_sec(0), 0);
    assert_eq!(tick_delta_to_sec(999), 0);
    assert_eq!(tick_delta_to_sec(1000), 1);
    assert_eq!(tick_delta_to_sec(60_999), 60);
    assert_eq!(tick_delta_to_sec(3_600_000), 3600);
}

#[test]
fn idle_delta_wraps_at_32_bits() {
    assert_eq!(idle_delta_ms(5_000, 2_000), 3_000);
    assert_eq!(idle_delta_ms(0x1_0000_0010, 0xFFFF_FFF0), 0x20);
    assert_eq!(idle_delta_ms(0x2_0000_0000 + 7, 7), 0);
}

#[test]
fn pid_names_are_looked_up_once_and_cached() {
    let mut cache = PidCache::new();
    let calls = std::cell::Cell::new(0);
    let query = |pid: u32| {
        calls.set(calls.get() + 1);
        format!("p{}.exe", pid)
    };
    assert_eq!(pid_to_basename(&mut cache, None, &query), "");
    assert_eq!(pid_to_basename(&mut cache, Some(7), &query), "p7.exe");
    assert_eq!(pid_to_basename(&mut cache, Some(7), &query), "p7.exe");
    assert_eq!(pid_to_basename(&mut cache, Some(8), &query), "p8.exe");
    assert_eq!(calls.get(), 2);
}

#[test]
fn tracking_system_starts_once_and_stops_in_order() {
    let mut sys = tracking_system();
    let stop_before = stop_tracking_system(&mut sys);
    assert!(!stop_before.signal_poll_stop && !stop_before.join_poll_thread && !stop_before.close_and_unhook);
    let first = start_tracking_system(&mut sys);
    assert!(first.start_tracker && first.start_foreground_hook && first.spawn_poll_thread && first.start_power_watcher);
    let again = start_tracking_system(&mut sys);
    assert!(!again.start_tracker && !again.start_foreground_hook);
    let stop = stop_tracking_system(&mut sys);
    assert!(stop.signal_poll_stop && stop.join_poll_thread && stop.close_and_unhook);
    let stop_again = stop_tracking_system(&mut sys);
    assert!(stop_again.signal_poll_stop && !stop_again.join_poll_thread && !stop_again.close_and_unhook);
}

#[test]
fn close_empties_the_slot() {
    let mut slot = Some(5);
    assert_eq!(close(&mut slot), Some(5));
    assert_eq!(slot, None);
    assert_eq!(close(&mut slot), None);
}
