//! The standby playlist: filler for when the guest queue is empty. The playlist itself is a
//! table; adding to it checks the track first.

use vstd::prelude::*;

use super::EngineError;

verus! {

/// Adding a track to the standby playlist: refused with 400 when the track isn't in the
/// library.
pub fn standby_add_check(track_found: bool) -> (r: Result<(), EngineError>)
    ensures
        track_found ==> r is Ok,
        !track_found ==> (r matches Err(e) && e.view_of() == (400u16, "Track not found"@)),
{
    if track_found {
        Ok(())
    } else {
        Err(EngineError::rejected(400, "Track not found"))
    }
}

} // verus!
