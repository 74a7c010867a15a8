//! The one open database of the process.

use vstd::prelude::*;

verus! {

/// Takes the open database out of its slot, leaving none, and hands it to
/// the caller to close.
pub fn close<T>(slot: &mut Option<T>) -> (closed: Option<T>)
    ensures
        *final(slot) is None,
        closed == *old(slot),
{
    let taken = match slot {
        Some(_) => {
            let mut out: Option<T> = None;
            std::mem::swap(&mut out, slot);
            out
        },
        None => None,
    };
    taken
}

} // verus!
