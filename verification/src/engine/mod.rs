//! The jukebox engine's rules: which song plays next (guests' first, then the standby
//! playlist, then random fill), what the player's reports do, downvotes, the checks a guest's
//! add must pass, removing and reordering, and what a client sees of the votes. The database
//! reads and writes happen around these decisions; each decision takes what was read and
//! says what to do.

use vstd::prelude::*;

use crate::player::LoadId;
use crate::text::{same_text, texts};

pub mod bans;
pub mod chance;
pub mod queue;
pub mod standby;
pub mod stats;

verus! {

/// After this many songs in a row fail, the engine stops rather than trying the rest of the
/// queue, or the whole library with random fill on and the music drive unplugged.
pub const MAX_FAILURES_IN_A_ROW: u32 = 5;

/// "Added by" for standby playlist songs: never a guest's, never votable.
pub open spec fn standby_ip() -> Seq<char> {
    "__standby__"@
}

/// "Added by" for random library fills: nobody's request either, but otherwise an ordinary
/// song, counted in the stats, and guests can downvote it.
pub open spec fn random_ip() -> Seq<char> {
    "__random__"@
}

/// A request the rules turn down, with the HTTP status and message a guest sees.
#[derive(Debug)]
pub enum EngineError {
    Rejected { status: u16, message: String },
}

impl EngineError {
    /// The status and text of a rejection.
    pub open spec fn view_of(&self) -> (u16, Seq<char>) {
        match self {
            EngineError::Rejected { status, message } => (*status, message@),
        }
    }

    /// A rejection with this status and message.
    pub fn rejected(status: u16, message: &str) -> (e: EngineError)
        ensures
            e.view_of() == (status, message@),
    {
        EngineError::Rejected { status, message: crate::text::owned(message) }
    }

    /// The message a guest sees.
    pub fn message(&self) -> (r: String)
        ensures
            r@ == self.view_of().1,
    {
        match self {
            EngineError::Rejected { message, .. } => message.clone(),
        }
    }
}

/// A song handed to the player, and what's known about how it went.
pub struct Playing {
    pub load: LoadId,
    /// Its play_history row, written when it was sent: removed again if it never plays.
    pub history_id: i64,
    pub title: String,
    pub started: bool,
}

/// Queue state that lives only in memory.
pub struct Runtime {
    /// The playing entry the current downvotes are for, and who cast them.
    pub downvote_entry: Option<i64>,
    pub downvoters: Vec<String>,
    /// Position in the standby playlist when it plays in order, starting before the first.
    pub standby_cursor: Option<usize>,
    /// The last standby track, so shuffle doesn't repeat it straight away.
    pub last_standby: Option<i64>,
    /// The song the engine last sent to the player.
    pub playing: Option<Playing>,
    /// Songs in a row the player couldn't play.
    pub failures: u32,
    /// Why playback stopped by itself, shown to everyone until something plays again.
    pub problem: Option<String>,
    /// The draws behind the last shuffled standby pick, in the order they were taken.
    pub shuffle_draws: Vec<chance::Draw>,
    /// What the shuffle draws with.
    pub dice: chance::Dice,
}

impl Runtime {
    /// Who has downvoted, as text.
    pub open spec fn voters(&self) -> Seq<Seq<char>> {
        texts(self.downvoters@)
    }

    /// What every operation keeps: each voter counted once, the failure count within its
    /// limit, and the playlist cursor able to move on.
    pub open spec fn wf(&self) -> bool {
        &&& self.voters().no_duplicates()
        &&& self.failures <= MAX_FAILURES_IN_A_ROW
        &&& (self.failures == MAX_FAILURES_IN_A_ROW ==> self.playing.is_none())
        &&& (self.standby_cursor matches Some(c) ==> c < usize::MAX)
    }

    /// The state a freshly started engine has.
    pub fn new() -> (rt: Runtime)
        ensures
            rt.wf(),
            rt.downvote_entry.is_none(),
            rt.voters().len() == 0,
            rt.standby_cursor.is_none(),
            rt.last_standby.is_none(),
            rt.playing.is_none(),
            rt.failures == 0,
            rt.problem.is_none(),
            rt.shuffle_draws@.len() == 0,
            rt.dice.count() == 0,
    {
        Runtime {
            downvote_entry: None,
            downvoters: Vec::new(),
            standby_cursor: None,
            last_standby: None,
            playing: None,
            failures: 0,
            problem: None,
            shuffle_draws: Vec::new(),
            dice: chance::Dice::new(),
        }
    }

    /// Records the song just handed to the player. Songs are handed over only while the
    /// failures in a row are below the limit.
    pub fn now_playing(&mut self, load: LoadId, history_id: i64, title: String)
        requires
            old(self).wf(),
            old(self).failures < MAX_FAILURES_IN_A_ROW,
        ensures
            final(self).wf(),
            final(self).playing matches Some(p) && p.load == load && p.history_id == history_id
                && p.title@ == title@ && !p.started,
            final(self).downvote_entry == old(self).downvote_entry,
            final(self).voters() == old(self).voters(),
            final(self).standby_cursor == old(self).standby_cursor,
            final(self).last_standby == old(self).last_standby,
            final(self).failures == old(self).failures,
            final(self).problem == old(self).problem,
    {
        self.playing = Some(Playing { load, history_id, title, started: false });
    }
}

/// A queue row, as the rules read it.
pub struct QueueRow {
    pub id: i64,
    pub track_id: i64,
    pub added_by_ip: String,
    pub added_by_name: Option<String>,
    /// Its status is `playing` (otherwise `pending`).
    pub playing: bool,
}

/// Whether an "added by" address marks filler: standby or random.
pub open spec fn is_filler_ip(ip: Seq<char>) -> bool {
    ip == standby_ip() || ip == random_ip()
}

/// Whether an "added by" address marks filler.
pub fn is_filler(ip: &str) -> (r: bool)
    ensures
        r == is_filler_ip(ip@),
{
    same_text(ip, "__standby__") || same_text(ip, "__random__")
}

} // verus!
