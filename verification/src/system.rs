//! Starting and stopping tracking for the whole process: the window hook,
//! the idle poll and the power watcher are started once, and stopping
//! halts the poll before the hook is taken down and the open segment ended.

use vstd::prelude::*;

verus! {

/// What is running.
pub struct TrackingSystem {
    pub started: bool,
    pub poll_stop: bool,
    pub poll_thread: bool,
    pub foreground_hook: bool,
}

/// What a start does: every step, or (when tracking was started before)
/// none.
pub struct StartSteps {
    pub start_tracker: bool,
    pub start_foreground_hook: bool,
    pub spawn_poll_thread: bool,
    pub start_power_watcher: bool,
}

/// What a stop does, in this order: tell the poll to stop and wait for it,
/// then end the open segment and take down the window hook.
pub struct StopSteps {
    pub signal_poll_stop: bool,
    pub join_poll_thread: bool,
    pub close_and_unhook: bool,
}

/// Nothing running yet.
pub fn tracking_system() -> (s: TrackingSystem)
    ensures
        !s.started && !s.poll_stop && !s.poll_thread && !s.foreground_hook,
{
    TrackingSystem { started: false, poll_stop: false, poll_thread: false, foreground_hook: false }
}

/// Starts tracking once: the first call starts everything, later calls do
/// nothing.
pub fn start_tracking_system(sys: &mut TrackingSystem) -> (steps: StartSteps)
    ensures
        final(sys).started,
        old(sys).started ==> *final(sys) == *old(sys) && !steps.start_tracker
            && !steps.start_foreground_hook && !steps.spawn_poll_thread
            && !steps.start_power_watcher,
        !old(sys).started ==> steps.start_tracker && steps.start_foreground_hook
            && steps.spawn_poll_thread && steps.start_power_watcher && final(sys).foreground_hook
            && final(sys).poll_thread && final(sys).poll_stop == old(sys).poll_stop,
{
    if sys.started {
        return StartSteps {
            start_tracker: false,
            start_foreground_hook: false,
            spawn_poll_thread: false,
            start_power_watcher: false,
        };
    }
    sys.started = true;
    sys.foreground_hook = true;
    sys.poll_thread = true;
    StartSteps {
        start_tracker: true,
        start_foreground_hook: true,
        spawn_poll_thread: true,
        start_power_watcher: true,
    }
}

/// Stops tracking: nothing when it was never started; else the poll is
/// told to stop and (if it runs) waited for, then (if the hook is up) the
/// open segment is ended and the hook taken down.
pub fn stop_tracking_system(sys: &mut TrackingSystem) -> (steps: StopSteps)
    ensures
        !old(sys).started ==> *final(sys) == *old(sys) && !steps.signal_poll_stop
            && !steps.join_poll_thread && !steps.close_and_unhook,
        old(sys).started ==> {
            &&& steps.signal_poll_stop
            &&& steps.join_poll_thread == old(sys).poll_thread
            &&& steps.close_and_unhook == old(sys).foreground_hook
            &&& final(sys).started
            &&& final(sys).poll_stop
            &&& !final(sys).poll_thread
            &&& !final(sys).foreground_hook
        },
{
    if !sys.started {
        return StopSteps { signal_poll_stop: false, join_poll_thread: false, close_and_unhook: false };
    }
    sys.poll_stop = true;
    let join = sys.poll_thread;
    sys.poll_thread = false;
    let unhook = sys.foreground_hook;
    sys.foreground_hook = false;
    StopSteps { signal_poll_stop: true, join_poll_thread: join, close_and_unhook: unhook }
}

} // verus!
