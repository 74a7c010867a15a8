//! The tracker: idle detection, power and session events, and the user's
//! "off work" switch, each deciding which segments to end and open.
//!
//! While off work nothing is written; idle time opens an idle segment from
//! the moment of the last input, and coming back ends it.  Suspending or
//! locking the machine ends the open segment.  A foreground-window event
//! that the tracker sees first counts as coming back to work.

use vstd::prelude::*;

use crate::segment::{
    after_close, at_most_one_open, close_open, has_segment, is_open, open_segment_at,
    segments_others_kept, OpenSegmentInput, SegmentKind, SegmentView, WinHookEvent,
};
use crate::settings::{get_with_default, setting_or_default, KEY_IDLE_THRESHOLD_SEC};
use crate::store::{is_uuid_v4_text, Store};
use crate::time::{in_range, iso_utc_millis, iso_utc_z_millis, parse_decimal, parse_u64};

verus! {

/// The process name of idle segments.
pub const IDLE_PROCESS: &'static str = "[idle]";

/// The idle threshold, in seconds, when the settings give none.
pub const DEFAULT_THRESHOLD_SEC: u64 = 300;

/// Whether the user is off work, as the user interface shows it.
pub struct OffWorkState {
    pub off_work: bool,
}

/// A power or session event of the machine.
#[derive(Debug, Clone, Copy, PartialEq, Eq, Structural)]
pub enum PowerEvent {
    Suspend,
    Resume,
    SessionLock,
    SessionUnlock,
}

/// The tracker's state: off work, idle at the last poll, started.
pub struct Tracker {
    pub off_work: bool,
    pub was_idle: bool,
    pub started: bool,
}

/// A window-event source whose events pass the tracker's gate first.
pub struct GatedNotifier<R> {
    pub inner: R,
}

/// The idle threshold of the settings: `idleThresholdSec` read as a whole
/// number when it is one and positive, else 300.
pub open spec fn idle_threshold(store: Store) -> int {
    match parse_decimal(setting_or_default(store.settings@, KEY_IDLE_THRESHOLD_SEC@), u64::MAX as int) {
        Some(n) => if n > 0 {
            n
        } else {
            DEFAULT_THRESHOLD_SEC as int
        },
        None => DEFAULT_THRESHOLD_SEC as int,
    }
}

/// The idle segment opened at `start`.
pub open spec fn idle_segment(id: Seq<char>, start: Seq<char>) -> SegmentView {
    SegmentView {
        id: id,
        start_at: start,
        end_at: None,
        process_name: "[idle]"@,
        title: Seq::empty(),
        note: Seq::empty(),
        todo_id: None,
        kind: SegmentKind::Idle,
    }
}

/// The poll enters idle: not off work, idle for at least the threshold,
/// and not idle at the last poll.
pub open spec fn enters_idle(t: Tracker, store: Store, idle_sec: int) -> bool {
    !t.off_work && idle_sec >= idle_threshold(store) && !t.was_idle
}

/// The poll comes back from idle.
pub open spec fn leaves_idle(t: Tracker, store: Store, idle_sec: int) -> bool {
    !t.off_work && !(idle_sec >= idle_threshold(store) && !t.was_idle) && idle_sec == 0 && t.was_idle
}

/// Every open segment of `before` ended at `at`, the rest as they were.
pub open spec fn all_closed_at(before: Store, after: Store, at: Seq<char>) -> bool {
    &&& after.segments@.len() == before.segments@.len()
    &&& forall|i: int|
        0 <= i < after.segments@.len() ==> (#[trigger] after.segments@[i])@ == after_close(
            before.segments@[i],
            at,
        )
}

/// Ending every open segment leaves none open.
proof fn lemma_closed_none_open(before: Store, after: Store, at: Seq<char>)
    requires
        all_closed_at(before, after, at),
    ensures
        at_most_one_open(after.segments@),
        forall|i: int| 0 <= i < after.segments@.len() ==> !is_open(#[trigger] after.segments@[i]),
{
    assert forall|i: int| 0 <= i < after.segments@.len() implies !is_open(
        #[trigger] after.segments@[i],
    ) by {
        assert(after.segments@[i]@ == after_close(before.segments@[i], at));
    }
}

/// One idle poll, `idle_sec` seconds after the last input, at `now_ms`,
/// with `id` for an idle segment it opens: the tracker `t0` and store `s0`
/// before, `t1` and `s1` after (see `Tracker::poll_at`).
pub open spec fn poll_outcome(
    t0: Tracker,
    s0: Store,
    idle_sec: u64,
    now_ms: i64,
    id: Seq<char>,
    t1: Tracker,
    s1: Store,
) -> bool {
    &&& t1.started == t0.started
    &&& t0.off_work ==> s1 == s0 && if idle_sec == 0 && t0.was_idle {
        !t1.off_work && !t1.was_idle
    } else {
        t1.off_work && t1.was_idle == (t0.was_idle || idle_sec > 0)
    }
    &&& enters_idle(t0, s0, idle_sec as int) ==> {
        let last_input = iso_utc_millis(now_ms - idle_sec * 1000);
        &&& t1.was_idle && !t1.off_work
        &&& forall|i: int|
            0 <= i < s0.segments@.len() ==> (#[trigger] s1.segments@[i])@ == after_close(
                s0.segments@[i],
                last_input,
            )
        &&& if has_segment(s0.segments@, id) {
            s1.segments@.len() == s0.segments@.len()
        } else {
            &&& s1.segments@.len() == s0.segments@.len() + 1
            &&& s1.segments@.last()@ == idle_segment(id, last_input)
        }
    }
    &&& leaves_idle(t0, s0, idle_sec as int) ==> {
        &&& !t1.was_idle && !t1.off_work
        &&& all_closed_at(s0, s1, iso_utc_millis(now_ms as int))
    }
    &&& !t0.off_work && !enters_idle(t0, s0, idle_sec as int) && !leaves_idle(
        t0,
        s0,
        idle_sec as int,
    ) ==> t1 == t0 && s1 == s0
}

impl Tracker {
    /// A tracker that is not started, not off work and not idle.
    pub fn new() -> (t: Tracker)
        ensures
            !t.off_work,
            !t.was_idle,
            !t.started,
    {
        Tracker { off_work: false, was_idle: false, started: false }
    }

    /// The idle threshold of the settings (see `idle_threshold`).
    pub fn threshold(&self, store: &Store) -> (r: u64)
        requires
            store.wf(),
        ensures
            r == idle_threshold(*store),
    {
        let raw = get_with_default(store, KEY_IDLE_THRESHOLD_SEC);
        match parse_u64(raw.as_str()) {
            Some(n) => if n > 0 {
                n
            } else {
                DEFAULT_THRESHOLD_SEC
            },
            None => DEFAULT_THRESHOLD_SEC,
        }
    }

    /// One idle poll, `idle_sec` seconds after the last input, at `now_ms`.
    /// Off work nothing is written: input again (idle 0 after idle time)
    /// ends off work.  Otherwise, entering idle ends the open segment at the
    /// last input and opens an idle segment (id `id`) from there; input
    /// again after idle ends the open segment at `now_ms`.
    pub fn poll_at(&mut self, store: &mut Store, idle_sec: u64, now_ms: i64, id: &str)
        requires
            old(store).wf(),
            in_range(now_ms as int),
            enters_idle(*old(self), *old(store), idle_sec as int) ==> in_range(
                now_ms - idle_sec * 1000,
            ),
        ensures
            final(store).wf(),
            segments_others_kept(*old(store), *final(store)),
            poll_outcome(*old(self), *old(store), idle_sec, now_ms, id@, *final(self), *final(store)),
            at_most_one_open(old(store).segments@) ==> at_most_one_open(final(store).segments@),
    {
        if self.off_work {
            if idle_sec == 0 && self.was_idle {
                self.off_work = false;
                self.was_idle = false;
            } else if idle_sec > 0 {
                self.was_idle = true;
            }
            return ;
        }
        let thr = self.threshold(store);
        if idle_sec >= thr && !self.was_idle {
            let last_ms = now_ms - idle_sec as i64 * 1000;
            let last_input = iso_utc_z_millis(last_ms);
            let ghost before = *store;
            let _ = close_open(store, last_input.as_str());
            let ghost closed = *store;
            let input = OpenSegmentInput {
                process_name: IDLE_PROCESS.to_owned(),
                title: String::new(),
                kind: Some(SegmentKind::Idle),
                todo_id: None,
                start_at: Some(last_input.clone()),
            };
            let res = open_segment_at(store, id, last_input.as_str(), &input);
            proof {
                reveal_strlit("[idle]");
                lemma_closed_none_open(before, closed, last_input@);
                assert(has_segment(closed.segments@, id@) == has_segment(before.segments@, id@)) by {
                    if has_segment(closed.segments@, id@) {
                        let j = choose|j: int|
                            0 <= j < closed.segments@.len() && #[trigger] closed.segments@[j].id@
                                == id@;
                        assert(closed.segments@[j]@ == after_close(before.segments@[j], last_input@));
                    }
                    if has_segment(before.segments@, id@) {
                        let j = choose|j: int|
                            0 <= j < before.segments@.len() && #[trigger] before.segments@[j].id@
                                == id@;
                        assert(closed.segments@[j]@ == after_close(before.segments@[j], last_input@));
                    }
                }
                assert forall|i: int| 0 <= i < before.segments@.len() implies (
                #[trigger] store.segments@[i])@ == after_close(before.segments@[i], last_input@) by {
                    assert(closed.segments@[i]@ == after_close(before.segments@[i], last_input@));
                    if res is Ok {
                        assert(store.segments@[i] == closed.segments@[i]);
                    }
                }
                assert forall|i: int, j: int|
                    0 <= i < store.segments@.len() && 0 <= j < store.segments@.len() && is_open(
                        #[trigger] store.segments@[i],
                    ) && is_open(#[trigger] store.segments@[j]) implies i == j by {
                    if i < closed.segments@.len() {
                        assert(!is_open(closed.segments@[i]));
                    }
                    if j < closed.segments@.len() {
                        assert(!is_open(closed.segments@[j]));
                    }
                }
            }
            self.was_idle = true;
        } else if idle_sec == 0 && self.was_idle {
            let iso = iso_utc_z_millis(now_ms);
            let ghost before = *store;
            let _ = close_open(store, iso.as_str());
            proof {
                lemma_closed_none_open(before, *store, iso@);
            }
            self.was_idle = false;
        }
    }

    /// One idle poll now, with a fresh random id: what `poll_at` does with
    /// some id in uuid's version-4 form (see `poll_outcome`).
    pub fn poll(&mut self, store: &mut Store, idle_sec: u64, now_ms: i64)
        requires
            old(store).wf(),
            in_range(now_ms as int),
            enters_idle(*old(self), *old(store), idle_sec as int) ==> in_range(
                now_ms - idle_sec * 1000,
            ),
        ensures
            final(store).wf(),
            segments_others_kept(*old(store), *final(store)),
            exists|id: Seq<char>|
                is_uuid_v4_text(id) && #[trigger] poll_outcome(
                    *old(self),
                    *old(store),
                    idle_sec,
                    now_ms,
                    id,
                    *final(self),
                    *final(store),
                ),
            at_most_one_open(old(store).segments@) ==> at_most_one_open(final(store).segments@),
    {
        let id = crate::store::new_uuid();
        self.poll_at(store, idle_sec, now_ms, id.as_str());
    }

    /// A power or session event at `now`: suspending or locking ends the
    /// open segment; resuming or unlocking opens nothing (the next window
    /// event does).  Either way the tracker is no longer idle.
    pub fn on_power_at(&mut self, store: &mut Store, name: PowerEvent, now: &str)
        requires
            old(store).wf(),
        ensures
            final(store).wf(),
            segments_others_kept(*old(store), *final(store)),
            !final(self).was_idle,
            final(self).off_work == old(self).off_work,
            final(self).started == old(self).started,
            name == PowerEvent::Suspend || name == PowerEvent::SessionLock ==> all_closed_at(
                *old(store),
                *final(store),
                now@,
            ),
            name == PowerEvent::Resume || name == PowerEvent::SessionUnlock ==> *final(store)
                == *old(store),
            at_most_one_open(old(store).segments@) ==> at_most_one_open(final(store).segments@),
    {
        match name {
            PowerEvent::Suspend | PowerEvent::SessionLock => {
                let ghost before = *store;
                let _ = close_open(store, now);
                proof {
                    lemma_closed_none_open(before, *store, now@);
                }
                self.was_idle = false;
            },
            PowerEvent::Resume | PowerEvent::SessionUnlock => {
                self.was_idle = false;
            },
        }
    }

    /// A power or session event now (see `on_power_at`).
    pub fn on_power(&mut self, store: &mut Store, name: PowerEvent)
        requires
            old(store).wf(),
        ensures
            final(store).wf(),
            segments_others_kept(*old(store), *final(store)),
            !final(self).was_idle,
            final(self).off_work == old(self).off_work,
            name == PowerEvent::Suspend || name == PowerEvent::SessionLock ==> exists|ms: int|
                in_range(ms) && all_closed_at(*old(store), *final(store), #[trigger] iso_utc_millis(ms)),
            name == PowerEvent::Resume || name == PowerEvent::SessionUnlock ==> *final(store)
                == *old(store),
            at_most_one_open(old(store).segments@) ==> at_most_one_open(final(store).segments@),
    {
        let now = crate::time::now_iso();
        self.on_power_at(store, name, now.as_str());
    }

    /// Switches off work on or off at `now`.  Going off work ends the open
    /// segment; coming back writes nothing (the next window event opens a
    /// segment).  Asking for the state it is in changes nothing.
    pub fn set_off_work_at(&mut self, store: &mut Store, on: bool, now: &str)
        requires
            old(store).wf(),
        ensures
            final(store).wf(),
            segments_others_kept(*old(store), *final(store)),
            final(self).off_work == on,
            final(self).started == old(self).started,
            on && !old(self).off_work ==> !final(self).was_idle && all_closed_at(
                *old(store),
                *final(store),
                now@,
            ),
            !(on && !old(self).off_work) ==> *final(store) == *old(store) && final(self).was_idle
                == old(self).was_idle,
            at_most_one_open(old(store).segments@) ==> at_most_one_open(final(store).segments@),
    {
        if on && !self.off_work {
            let ghost before = *store;
            let _ = close_open(store, now);
            proof {
                lemma_closed_none_open(before, *store, now@);
            }
            self.off_work = true;
            self.was_idle = false;
        } else if !on && self.off_work {
            self.off_work = false;
        }
    }

    /// Switches off work on or off now (see `set_off_work_at`).
    pub fn set_off_work(&mut self, store: &mut Store, on: bool)
        requires
            old(store).wf(),
        ensures
            final(store).wf(),
            segments_others_kept(*old(store), *final(store)),
            final(self).off_work == on,
            on && !old(self).off_work ==> !final(self).was_idle && exists|ms: int|
                in_range(ms) && all_closed_at(*old(store), *final(store), #[trigger] iso_utc_millis(ms)),
            !(on && !old(self).off_work) ==> *final(store) == *old(store),
            at_most_one_open(old(store).segments@) ==> at_most_one_open(final(store).segments@),
    {
        let now = crate::time::now_iso();
        self.set_off_work_at(store, on, now.as_str());
    }

    /// Whether the user is off work.
    pub fn get_off_work(&self) -> (r: bool)
        ensures
            r == self.off_work,
    {
        self.off_work
    }

    /// The off-work state as the user interface shows it.
    pub fn off_work_state(&self) -> (r: OffWorkState)
        ensures
            r.off_work == self.off_work,
    {
        OffWorkState { off_work: self.off_work }
    }

    /// Marks the tracker started.
    pub fn start(&mut self)
        ensures
            final(self).started,
            final(self).off_work == old(self).off_work,
            final(self).was_idle == old(self).was_idle,
    {
        self.started = true;
    }

    /// Puts the tracker's gate in front of a window-event source.
    pub fn gate_notifier<R>(&self, source: R) -> (g: GatedNotifier<R>)
        ensures
            g.inner == source,
    {
        GatedNotifier { inner: source }
    }
}

impl Default for Tracker {
    fn default() -> (t: Tracker)
        ensures
            !t.off_work,
            !t.was_idle,
            !t.started,
    {
        Tracker::new()
    }
}

impl<R> GatedNotifier<R> {
    /// What a window event does to the tracker before it reaches its
    /// handler: a window coming to the front means the user is at work and
    /// not idle.  The event itself is given back as it came.
    pub fn forward_event(&self, tracker: &mut Tracker, e: WinHookEvent) -> (out: WinHookEvent)
        ensures
            out == e,
            !final(tracker).off_work,
            !final(tracker).was_idle,
            final(tracker).started == old(tracker).started,
    {
        tracker.off_work = false;
        tracker.was_idle = false;
        e
    }
}


/// The machine's readings for the tracker in production: the present
/// instant, and no idle time (idle time is read by the window layer).
pub struct ProdDeps;

impl ProdDeps {
    /// Seconds since the last input, as production reports it here: none.
    pub fn get_idle_sec(&mut self) -> (r: u64)
        ensures
            r == 0,
    {
        0
    }

    /// The present instant in milliseconds.
    pub fn now_ms(&mut self) -> (ms: i64)
        ensures
            in_range(ms as int),
    {
        crate::time::utc_now_millis()
    }
}

} // verus!
