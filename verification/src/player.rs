//! What the queue engine hears from the player.

use vstd::prelude::*;

verus! {

/// Which `load` a report is about: each load gets the next number, from 1.
pub type LoadId = u64;

/// What the player reports about a song it was given.
pub enum PlayerEvent {
    /// Audio of the load reached the output.
    Started { load: LoadId },
    /// The load played to its end.
    Ended { load: LoadId },
    /// The load couldn't be played, and why.
    Failed { load: LoadId, reason: String },
}

impl PlayerEvent {
    /// The load the event is about.
    pub open spec fn load_of(&self) -> LoadId {
        match self {
            PlayerEvent::Started { load } => *load,
            PlayerEvent::Ended { load } => *load,
            PlayerEvent::Failed { load, .. } => *load,
        }
    }

    /// The load the event is about.
    pub fn load(&self) -> (l: LoadId)
        ensures
            l == self.load_of(),
    {
        match self {
            PlayerEvent::Started { load } => *load,
            PlayerEvent::Ended { load } => *load,
            PlayerEvent::Failed { load, .. } => *load,
        }
    }
}

} // verus!
