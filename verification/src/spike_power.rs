//! The first power-event watcher: machine messages mapped to named power
//! and session events, as the user interface receives them.

use vstd::prelude::*;

use crate::win_power::{
    PBT_APMRESUMEAUTOMATIC, PBT_APMSUSPEND, WM_POWERBROADCAST, WM_WTSSESSION_CHANGE,
    WTS_SESSION_LOCK, WTS_SESSION_UNLOCK,
};

verus! {

/// A power or session event, as sent to the user interface.
#[derive(Clone, Copy, Debug, PartialEq, Eq, Structural)]
pub enum PowerEvent {
    Suspend,
    ResumeAutomatic,
    SessionLock,
    SessionUnlock,
}

/// The name an event is sent under.
pub open spec fn event_name(e: PowerEvent) -> Seq<char> {
    match e {
        PowerEvent::Suspend => "suspend"@,
        PowerEvent::ResumeAutomatic => "resume-automatic"@,
        PowerEvent::SessionLock => "session-lock"@,
        PowerEvent::SessionUnlock => "session-unlock"@,
    }
}

impl PowerEvent {
    /// The name the event is sent under.
    pub fn as_str(self) -> (s: &'static str)
        ensures
            s@ == event_name(self),
    {
        match self {
            PowerEvent::Suspend => "suspend",
            PowerEvent::ResumeAutomatic => "resume-automatic",
            PowerEvent::SessionLock => "session-lock",
            PowerEvent::SessionUnlock => "session-unlock",
        }
    }
}

/// Two events have the same name exactly when they are the same event.
pub proof fn lemma_event_names_distinct(a: PowerEvent, b: PowerEvent)
    ensures
        (event_name(a) == event_name(b)) <==> (a == b),
{
    reveal_strlit("suspend");
    reveal_strlit("resume-automatic");
    reveal_strlit("session-lock");
    reveal_strlit("session-unlock");
    if a != b && event_name(a) == event_name(b) {
        assert(event_name(a).len() == event_name(b).len());
        assert(event_name(a)[8] == event_name(b)[8]);
    }
}

/// The event a window message announces, if it announces one.
pub fn message_event(msg: u32, wparam: u32) -> (r: Option<PowerEvent>)
    ensures
        r == if msg == WM_POWERBROADCAST {
            if wparam == PBT_APMSUSPEND {
                Some(PowerEvent::Suspend)
            } else if wparam == PBT_APMRESUMEAUTOMATIC {
                Some(PowerEvent::ResumeAutomatic)
            } else {
                None
            }
        } else if msg == WM_WTSSESSION_CHANGE {
            if wparam == WTS_SESSION_LOCK {
                Some(PowerEvent::SessionLock)
            } else if wparam == WTS_SESSION_UNLOCK {
                Some(PowerEvent::SessionUnlock)
            } else {
                None
            }
        } else {
            None
        },
{
    if msg == WM_POWERBROADCAST {
        if wparam == PBT_APMSUSPEND {
            Some(PowerEvent::Suspend)
        } else if wparam == PBT_APMRESUMEAUTOMATIC {
            Some(PowerEvent::ResumeAutomatic)
        } else {
            None
        }
    } else if msg == WM_WTSSESSION_CHANGE {
        if wparam == WTS_SESSION_LOCK {
            Some(PowerEvent::SessionLock)
        } else if wparam == WTS_SESSION_UNLOCK {
            Some(PowerEvent::SessionUnlock)
        } else {
            None
        }
    } else {
        None
    }
}

} // verus!
