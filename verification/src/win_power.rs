//! Power and session messages of Windows, mapped to the tracker's events.

use vstd::prelude::*;

use crate::tracker::PowerEvent;

verus! {

/// The window message of power changes.
pub const WM_POWERBROADCAST: u32 = 0x0218;

/// The window message of session changes.
pub const WM_WTSSESSION_CHANGE: u32 = 0x02B1;

/// The machine is about to suspend.
pub const PBT_APMSUSPEND: u32 = 4;

/// The machine resumed.
pub const PBT_APMRESUMEAUTOMATIC: u32 = 18;

/// The session was locked.
pub const WTS_SESSION_LOCK: u32 = 7;

/// The session was unlocked.
pub const WTS_SESSION_UNLOCK: u32 = 8;

/// The tracker event a window message announces, if it announces one.
pub fn map_event(msg: u32, wparam: u32) -> (r: Option<PowerEvent>)
    ensures
        r == if msg == WM_POWERBROADCAST {
            if wparam == PBT_APMSUSPEND {
                Some(PowerEvent::Suspend)
            } else if wparam == PBT_APMRESUMEAUTOMATIC {
                Some(PowerEvent::Resume)
            } else {
                None
            }
        } else if msg == WM_WTSSESSION_CHANGE {
            if wparam == WTS_SESSION_LOCK {
                Some(PowerEvent::SessionLock)
            } else if wparam == WTS_SESSION_UNLOCK {
                Some(PowerEvent::SessionUnlock)
            } else {
                None
            }
        } else {
            None
        },
{
    if msg == WM_POWERBROADCAST {
        if wparam == PBT_APMSUSPEND {
            Some(PowerEvent::Suspend)
        } else if wparam == PBT_APMRESUMEAUTOMATIC {
            Some(PowerEvent::Resume)
        } else {
            None
        }
    } else if msg == WM_WTSSESSION_CHANGE {
        if wparam == WTS_SESSION_LOCK {
            Some(PowerEvent::SessionLock)
        } else if wparam == WTS_SESSION_UNLOCK {
            Some(PowerEvent::SessionUnlock)
        } else {
            None
        }
    } else {
        None
    }
}

} // verus!
