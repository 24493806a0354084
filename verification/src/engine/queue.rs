//! The play queue's decisions.

use vstd::prelude::*;

use super::{
    is_filler, is_filler_ip, standby_ip, EngineError, Playing, QueueRow, Runtime,
    MAX_FAILURES_IN_A_ROW,
};
use crate::config::AppConfig;
use crate::js::{in_chrono_range, iso_from_ms, iso_millis, iso_text, js_trim, ms_from_iso, now_ms, trim, ClockError};
use crate::player::{LoadId, PlayerEvent};
use crate::text::{
    chars_of, contains_text, decimal, owned, push_all, push_str, same_text, string_of, texts,
    u64_decimal,
};
use super::chance::{count_after, draw, drawn_indices, Draw};
use crate::types::PlaySource;

verus! {

/// A random index below `n`: `rand::random_range(0..n)`. Chance decides which.
#[verifier::external_body]
pub(crate) fn random_below(n: usize) -> (r: usize)
    requires
        n > 0,
    ensures
        r < n,
{
    rand::random_range(0..n)
}

/// Where the in-order standby playlist goes next: one past the last pick, wrapping round.
pub open spec fn next_cursor(cursor: Option<usize>, len: nat) -> int {
    (match cursor {
        None => 0int,
        Some(c) => c + 1,
    }) % (len as int)
}

/// Everything but the standby playlist's position is as it was.
pub open spec fn same_but_standby(a: &Runtime, b: &Runtime) -> bool {
    &&& a.downvote_entry == b.downvote_entry
    &&& a.voters() == b.voters()
    &&& a.playing == b.playing
    &&& a.failures == b.failures
    &&& a.problem == b.problem
}

/// The shuffled playlist's pick from nine draws (indices into `ids`), made in order: the
/// first draw that isn't the previous track `last`, from the `k`th on, or else the ninth.
pub open spec fn first_fresh(ids: Seq<i64>, draws: Seq<usize>, last: Option<i64>, k: int) -> i64
    decreases 8 - k,
{
    if k >= 8 || Some(ids[draws[k] as int]) != last {
        ids[draws[k] as int]
    } else {
        first_fresh(ids, draws, last, k + 1)
    }
}

/// Nine draws, each an index into a list of `n`.
pub open spec fn valid_draws(draws: Seq<usize>, n: nat) -> bool {
    draws.len() == 9 && forall|k: int| 0 <= k < 9 ==> draws[k] < n
}

proof fn lemma_first_fresh_drawn(ids: Seq<i64>, draws: Seq<usize>, last: Option<i64>, k: int)
    requires
        valid_draws(draws, ids.len()),
        0 <= k <= 8,
    ensures
        exists|j: int| k <= j <= 8 && first_fresh(ids, draws, last, k) == ids[draws[j] as int],
    decreases 8 - k,
{
    if k >= 8 || Some(ids[draws[k] as int]) != last {
        assert(first_fresh(ids, draws, last, k) == ids[draws[k] as int]);
    } else {
        lemma_first_fresh_drawn(ids, draws, last, k + 1);
        let j = choose|j: int| k + 1 <= j <= 8 && first_fresh(ids, draws, last, k + 1) == ids[draws[j] as int];
        assert(first_fresh(ids, draws, last, k) == ids[draws[j] as int]);
    }
}

/// The shuffled pick is the first of the nine draws that isn't the previous track, or the
/// ninth when every draw before it is: so the previous track comes back only when every
/// draw landed on it (or the playlist holds nothing else).
pub proof fn shuffle_takes_the_first_fresh_draw(ids: Seq<i64>, draws: Seq<usize>, last: Option<i64>)
    requires
        valid_draws(draws, ids.len()),
    ensures
        exists|k: int| 0 <= k < 9 && first_fresh(ids, draws, last, 0) == ids[draws[k] as int]
            && (k < 8 ==> Some(ids[draws[k] as int]) != last)
            && forall|j: int| 0 <= j < k ==> Some(ids[#[trigger] draws[j] as int]) == last,
        Some(first_fresh(ids, draws, last, 0)) == last ==> forall|j: int| 0 <= j < 9
            ==> Some(ids[#[trigger] draws[j] as int]) == last,
{
    lemma_first_fresh_first(ids, draws, last, 0);
}

proof fn lemma_first_fresh_first(ids: Seq<i64>, draws: Seq<usize>, last: Option<i64>, k: int)
    requires
        valid_draws(draws, ids.len()),
        0 <= k <= 8,
    ensures
        exists|m: int| k <= m < 9 && first_fresh(ids, draws, last, k) == ids[draws[m] as int]
            && (m < 8 ==> Some(ids[draws[m] as int]) != last)
            && forall|j: int| k <= j < m ==> Some(ids[#[trigger] draws[j] as int]) == last,
        Some(first_fresh(ids, draws, last, k)) == last ==> forall|j: int| k <= j < 9
            ==> Some(ids[#[trigger] draws[j] as int]) == last,
    decreases 8 - k,
{
    if k >= 8 || Some(ids[draws[k] as int]) != last {
        assert(first_fresh(ids, draws, last, k) == ids[draws[k] as int]);
        if k >= 8 {
            assert(k == 8);
        }
    } else {
        lemma_first_fresh_first(ids, draws, last, k + 1);
        assert(first_fresh(ids, draws, last, k) == first_fresh(ids, draws, last, k + 1));
        let m = choose|m: int| k + 1 <= m < 9 && first_fresh(ids, draws, last, k + 1) == ids[draws[m] as int]
            && (m < 8 ==> Some(ids[draws[m] as int]) != last)
            && forall|j: int| k + 1 <= j < m ==> Some(ids[#[trigger] draws[j] as int]) == last;
        assert forall|j: int| k <= j < m implies Some(ids[#[trigger] draws[j] as int]) == last by {
            if j > k {
            }
        }
    }
}

/// The shuffled playlist's pick, given the nine indices drawn for it: the first draw that
/// isn't the previous track `last`, or the ninth draw when all of them are. A playlist of
/// one track has to repeat it.
pub fn shuffle_pick(ids: &Vec<i64>, draws: &Vec<usize>, last: Option<i64>) -> (r: i64)
    requires
        valid_draws(draws@, ids@.len()),
    ensures
        r == first_fresh(ids@, draws@, last, 0),
        ids@.contains(r),
{
    proof { lemma_first_fresh_drawn(ids@, draws@, last, 0); }
    let mut k: usize = 0;
    while k < 8 && Some(ids[draws[k]]) == last
        invariant
            k <= 8,
            valid_draws(draws@, ids@.len()),
            first_fresh(ids@, draws@, last, 0) == first_fresh(ids@, draws@, last, k as int),
        decreases 8 - k,
    {
        k = k + 1;
    }
    let r = ids[draws[k]];
    assert(ids@[draws@[k as int] as int] == r);
    r
}

/// The next standby track, in order or shuffled. Shuffle avoids repeating the previous
/// track when there's more than one, trying up to nine draws.
pub fn pick_standby_track(rt: &mut Runtime, ids: &Vec<i64>, shuffle: bool) -> (r: Option<i64>)
    requires
        old(rt).wf(),
    ensures
        final(rt).wf(),
        same_but_standby(&*final(rt), &*old(rt)),
        ids@.len() == 0 ==> r.is_none() && final(rt).standby_cursor == old(rt).standby_cursor
            && final(rt).last_standby == old(rt).last_standby,
        ids@.len() == 0 || !shuffle ==> final(rt).shuffle_draws@ == old(rt).shuffle_draws@
            && final(rt).dice == old(rt).dice,
        ids@.len() > 0 && shuffle ==> (r matches Some(t) && ids@.contains(t)
            && final(rt).shuffle_draws@.len() == 9
            && (forall|k: int| 0 <= k < 9 ==> (#[trigger] final(rt).shuffle_draws@[k]).below() == ids@.len()
                && final(rt).shuffle_draws@[k].serial() == count_after(old(rt).dice.count(), k as nat))
            && final(rt).dice.count() == count_after(old(rt).dice.count(), 9)
            && valid_draws(drawn_indices(final(rt).shuffle_draws@), ids@.len())
            && t == first_fresh(ids@, drawn_indices(final(rt).shuffle_draws@), old(rt).last_standby, 0)
            && (exists|draws: Seq<usize>| valid_draws(draws, ids@.len())
                && t == first_fresh(ids@, draws, old(rt).last_standby, 0))
            && final(rt).last_standby == Some(t)
            && final(rt).standby_cursor == old(rt).standby_cursor),
        ids@.len() > 0 && !shuffle ==> ({
            let c = next_cursor(old(rt).standby_cursor, ids@.len());
            &&& r == Some(ids@[c])
            &&& final(rt).standby_cursor == Some(c as usize)
            &&& final(rt).last_standby == Some(ids@[c])
        }),
{
    let n = ids.len();
    if n == 0 {
        return None;
    }
    if shuffle {
        let mut taken: Vec<Draw> = Vec::new();
        let mut draws: Vec<usize> = Vec::new();
        let ghost start = rt.dice.count();
        while taken.len() < 9
            invariant
                n == ids@.len(),
                n > 0,
                taken@.len() <= 9,
                draws@ == drawn_indices(taken@),
                forall|k: int| 0 <= k < taken@.len() ==> (#[trigger] taken@[k]).below() == n
                    && taken@[k].drawn() < n && taken@[k].serial() == count_after(start, k as nat),
                rt.dice.count() == count_after(start, taken@.len()),
                rt.wf(),
                same_but_standby(&*rt, &*old(rt)),
                rt.standby_cursor == old(rt).standby_cursor,
                rt.last_standby == old(rt).last_standby,
            decreases 9 - taken@.len(),
        {
            let d = draw(&mut rt.dice, n);
            draws.push(d.index());
            taken.push(d);
            assert(draws@ =~= drawn_indices(taken@));
        }
        assert(forall|k: int| 0 <= k < 9 ==> draws@[k] == (#[trigger] taken@[k]).drawn());
        let pick = shuffle_pick(ids, &draws, rt.last_standby);
        assert(valid_draws(draws@, ids@.len()) && pick == first_fresh(ids@, draws@, old(rt).last_standby, 0));
        rt.shuffle_draws = taken;
        rt.last_standby = Some(pick);
        return Some(pick);
    }
    let cursor = match rt.standby_cursor {
        None => 0,
        Some(c) => c + 1,
    } % n;
    rt.standby_cursor = Some(cursor);
    rt.last_standby = Some(ids[cursor]);
    Some(ids[cursor])
}

/// What the database says about what could play next: the first pending guest entry, the
/// standby playlist's track ids in order, and a random library track for random fill.
pub struct NextInputs {
    pub next_pending: Option<QueueRow>,
    pub standby_ids: Vec<i64>,
    pub random_pick: Option<i64>,
}

/// What to play next.
pub enum NextSong {
    /// The guest entry: mark it playing and send its track.
    Guest { row: QueueRow },
    /// Filler: insert it as playing, from `source`, and send it.
    Filler { track_id: i64, source: PlaySource },
    /// Nothing: pause.
    Stop,
}

/// The votes are cleared; the failure count and the problem are as they were.
pub open spec fn votes_cleared(after: &Runtime, before: &Runtime) -> bool {
    &&& after.voters().len() == 0
    &&& after.downvote_entry.is_none()
    &&& after.failures == before.failures
    &&& after.problem == before.problem
}

/// Moves on to another song. Guests first; then the curated playlist, the admin's explicit
/// choice; then random fill. Picking a standby track moves the playlist on, so it's picked
/// only once. A new song clears the votes.
pub fn next_song(rt: &mut Runtime, inputs: NextInputs, config: &AppConfig) -> (r: NextSong)
    requires
        old(rt).wf(),
    ensures
        final(rt).wf(),
        votes_cleared(&*final(rt), &*old(rt)),
        match r {
            NextSong::Guest { row } => inputs.next_pending == Some(row)
                && final(rt).playing == old(rt).playing
                && final(rt).standby_cursor == old(rt).standby_cursor
                && final(rt).last_standby == old(rt).last_standby,
            NextSong::Filler { track_id, source } => inputs.next_pending.is_none() && (
                if config.standby_enabled && inputs.standby_ids@.len() > 0 {
                    &&& source == PlaySource::Standby
                    &&& inputs.standby_ids@.contains(track_id)
                    &&& final(rt).last_standby == Some(track_id)
                    &&& (!config.standby_shuffle ==> {
                        let c = next_cursor(old(rt).standby_cursor, inputs.standby_ids@.len());
                        track_id == inputs.standby_ids@[c] && final(rt).standby_cursor == Some(c as usize)
                    })
                    &&& (config.standby_shuffle ==> final(rt).standby_cursor == old(rt).standby_cursor)
                    &&& (config.standby_shuffle ==> exists|draws: Seq<usize>|
                        valid_draws(draws, inputs.standby_ids@.len())
                        && track_id == first_fresh(inputs.standby_ids@, draws, old(rt).last_standby, 0))
                    &&& (config.standby_shuffle ==> final(rt).shuffle_draws@.len() == 9
                        && (forall|k: int| 0 <= k < 9 ==> (#[trigger] final(rt).shuffle_draws@[k]).below()
                            == inputs.standby_ids@.len()
                            && final(rt).shuffle_draws@[k].serial() == count_after(old(rt).dice.count(), k as nat))
                        && final(rt).dice.count() == count_after(old(rt).dice.count(), 9)
                        && track_id == first_fresh(inputs.standby_ids@,
                            drawn_indices(final(rt).shuffle_draws@), old(rt).last_standby, 0))
                } else {
                    &&& source == PlaySource::Random
                    &&& config.standby_random_enabled
                    &&& inputs.random_pick == Some(track_id)
                    &&& final(rt).standby_cursor == old(rt).standby_cursor
                    &&& final(rt).last_standby == old(rt).last_standby
                })
                && final(rt).playing == old(rt).playing,
            NextSong::Stop => inputs.next_pending.is_none()
                && !(config.standby_enabled && inputs.standby_ids@.len() > 0)
                && !(config.standby_random_enabled && inputs.random_pick.is_some())
                && final(rt).playing.is_none()
                && final(rt).standby_cursor == old(rt).standby_cursor
                && final(rt).last_standby == old(rt).last_standby,
        },
{
    rt.downvoters = Vec::new();
    rt.downvote_entry = None;
    assert(rt.voters() == Seq::<Seq<char>>::empty());
    let NextInputs { next_pending, standby_ids, random_pick } = inputs;
    if let Some(row) = next_pending {
        return NextSong::Guest { row };
    }
    if config.standby_enabled {
        if let Some(id) = pick_standby_track(rt, &standby_ids, config.standby_shuffle) {
            return NextSong::Filler { track_id: id, source: PlaySource::Standby };
        }
    }
    if config.standby_random_enabled {
        if let Some(id) = random_pick {
            return NextSong::Filler { track_id: id, source: PlaySource::Random };
        }
    }
    rt.playing = None;
    NextSong::Stop
}

/// Moves on because someone or something asked to: a skip, an add, a song that ended. That's
/// a fresh start, so earlier playback failures no longer count.
pub fn advance(rt: &mut Runtime, inputs: NextInputs, config: &AppConfig) -> (r: NextSong)
    requires
        old(rt).wf(),
    ensures
        final(rt).wf(),
        final(rt).failures == 0,
        final(rt).problem.is_none(),
        final(rt).voters().len() == 0,
        final(rt).downvote_entry.is_none(),
        match r {
            NextSong::Guest { row } => inputs.next_pending == Some(row),
            NextSong::Filler { track_id, source } => inputs.next_pending.is_none()
                && if config.standby_enabled && inputs.standby_ids@.len() > 0 {
                    source == PlaySource::Standby && inputs.standby_ids@.contains(track_id)
                } else {
                    source == PlaySource::Random && config.standby_random_enabled
                        && inputs.random_pick == Some(track_id)
                },
            NextSong::Stop => inputs.next_pending.is_none()
                && !(config.standby_enabled && inputs.standby_ids@.len() > 0)
                && !(config.standby_random_enabled && inputs.random_pick.is_some())
                && final(rt).playing.is_none(),
        },
{
    rt.failures = 0;
    rt.problem = None;
    next_song(rt, inputs, config)
}


/// What the engine does about a player's report.
pub enum EventDecision {
    /// About a song that has since been replaced, or nothing to do: nothing changes.
    Ignored,
    /// The song started: earlier failures are forgotten, and guests are told if a problem
    /// notice went away.
    Started { broadcast: bool },
    /// The song ended: advance.
    Advance,
    /// A song the queue didn't send couldn't be played: it isn't the queue's to skip.
    NotQueued,
    /// The queue's song couldn't be played: drop its play_history row if it never started
    /// (`forget_history`), then move on to the next song without resetting the failures.
    Skip { forget_history: Option<i64> },
    /// Too many failures in a row: drop the row if needed, delete the playing entry, pause,
    /// and tell everyone why.
    Stop { forget_history: Option<i64> },
}

/// The notice shown when playback stops after too many failures.
pub open spec fn stop_message(title: Seq<char>, reason: Seq<char>) -> Seq<char> {
    "Playback stopped: the last 5 songs couldn't be played. The last was \u{201c}"@ + title
        + "\u{201d}: "@ + reason + "."@
}

/// The runtime is unchanged.
pub open spec fn unchanged(a: &Runtime, b: &Runtime) -> bool {
    &&& a.downvote_entry == b.downvote_entry
    &&& a.voters() == b.voters()
    &&& a.standby_cursor == b.standby_cursor
    &&& a.last_standby == b.last_standby
    &&& a.playing == b.playing
    &&& a.failures == b.failures
    &&& a.problem == b.problem
}

/// Acts on what the player reports, given the load the player is on now: an ended song
/// advances the queue, a song that couldn't be played is skipped (and its play forgotten
/// if it never started), and a song that started clears any earlier failures. Events about
/// a load that has been replaced are ignored, so a song ending just as it's skipped doesn't
/// skip the next one too.
pub fn player_event(rt: &mut Runtime, event: PlayerEvent, current_load: Option<LoadId>) -> (r: EventDecision)
    requires
        old(rt).wf(),
    ensures
        final(rt).wf(),
        current_load != Some(event.load_of()) ==> r is Ignored && unchanged(&*final(rt), &*old(rt)),
        current_load == Some(event.load_of()) ==> match event {
            PlayerEvent::Started { load } => {
                &&& r == EventDecision::Started { broadcast: old(rt).problem.is_some() }
                &&& final(rt).failures == 0
                &&& final(rt).problem.is_none()
                &&& final(rt).voters() == old(rt).voters()
                &&& final(rt).downvote_entry == old(rt).downvote_entry
                &&& final(rt).standby_cursor == old(rt).standby_cursor
                &&& final(rt).last_standby == old(rt).last_standby
                &&& match old(rt).playing {
                    Some(p) => if p.load == load {
                        final(rt).playing == Some(Playing { started: true, ..p })
                    } else {
                        final(rt).playing == old(rt).playing
                    },
                    None => final(rt).playing.is_none(),
                }
            },
            PlayerEvent::Ended { .. } => r is Advance && unchanged(&*final(rt), &*old(rt)),
            PlayerEvent::Failed { load, reason } => {
                &&& final(rt).playing.is_none()
                &&& final(rt).standby_cursor == old(rt).standby_cursor
                &&& final(rt).last_standby == old(rt).last_standby
                &&& match old(rt).playing {
                    Some(p) if p.load == load => {
                        let forget = if p.started { None } else { Some(p.history_id) };
                        &&& final(rt).failures == old(rt).failures + 1
                        &&& if old(rt).failures + 1 < MAX_FAILURES_IN_A_ROW {
                            &&& r == EventDecision::Skip { forget_history: forget }
                            &&& final(rt).voters() == old(rt).voters()
                            &&& final(rt).downvote_entry == old(rt).downvote_entry
                            &&& final(rt).problem == old(rt).problem
                        } else {
                            &&& r == EventDecision::Stop { forget_history: forget }
                            &&& final(rt).voters().len() == 0
                            &&& final(rt).downvote_entry.is_none()
                            &&& final(rt).problem matches Some(m) && m@ == stop_message(p.title@, reason@)
                        }
                    },
                    _ => {
                        &&& r is NotQueued
                        &&& final(rt).failures == old(rt).failures
                        &&& final(rt).voters() == old(rt).voters()
                        &&& final(rt).downvote_entry == old(rt).downvote_entry
                        &&& final(rt).problem == old(rt).problem
                    },
                }
            },
        },
{
    let load = event.load();
    if current_load != Some(load) {
        return EventDecision::Ignored;
    }
    match event {
        PlayerEvent::Started { .. } => {
            if let Some(p) = rt.playing.take() {
                let started = p.load == load || p.started;
                rt.playing = Some(Playing { started, ..p });
            }
            rt.failures = 0;
            let broadcast = rt.problem.is_some();
            rt.problem = None;
            EventDecision::Started { broadcast }
        },
        PlayerEvent::Ended { .. } => EventDecision::Advance,
        PlayerEvent::Failed { reason, .. } => {
            let taken = rt.playing.take();
            let playing = match taken {
                Some(p) => if p.load == load { p } else { return EventDecision::NotQueued },
                None => return EventDecision::NotQueued,
            };
            let forget_history = if playing.started { None } else { Some(playing.history_id) };
            rt.failures = rt.failures + 1;
            if rt.failures < MAX_FAILURES_IN_A_ROW {
                return EventDecision::Skip { forget_history };
            }
            rt.downvoters = Vec::new();
            rt.downvote_entry = None;
            assert(rt.voters() == Seq::<Seq<char>>::empty());
            let mut m = chars_of("Playback stopped: the last 5 songs couldn't be played. The last was \u{201c}");
            push_str(&mut m, playing.title.as_str());
            push_str(&mut m, "\u{201d}: ");
            push_str(&mut m, reason.as_str());
            push_str(&mut m, ".");
            rt.problem = Some(string_of(m.as_slice()));
            EventDecision::Stop { forget_history }
        },
    }
}


/// What a guest's downvote comes to.
pub enum DownvoteDecision {
    /// Votes are off, nothing votable is playing, or this guest already voted on this song.
    Ignored,
    /// A new vote on the playing song, `track_id`: log it, then skip the song if the votes
    /// reached the threshold, or else tell everyone the new count.
    Counted { track_id: i64, skip: bool },
}

/// The votes on `entry` before a new one: those already cast on it, or none if the votes
/// were for another song.
pub open spec fn votes_on(rt: &Runtime, entry: i64) -> Seq<Seq<char>> {
    if rt.downvote_entry == Some(entry) {
        rt.voters()
    } else {
        Seq::empty()
    }
}

/// The absolute value of a setting where the sign only says whether to show a count.
pub open spec fn magnitude(raw: i32) -> int {
    if raw < 0 { -(raw as int) } else { raw as int }
}

proof fn lemma_texts_push(v: Seq<String>, s: String)
    ensures
        texts(v.push(s)) == texts(v).push(s@),
{
    assert(texts(v.push(s)) =~= texts(v).push(s@));
}

/// A guest's downvote of the playing song. A threshold of 0 turns votes off; a negative one
/// applies its absolute value. Standby filler isn't anyone's pick, so it can't be voted on;
/// random fill can. Each guest counts once per song, and votes for an earlier song are
/// dropped when the first vote on a new one comes in.
pub fn downvote(rt: &mut Runtime, playing: Option<&QueueRow>, raw_threshold: i32, ip: &str) -> (r: DownvoteDecision)
    requires
        old(rt).wf(),
    ensures
        final(rt).wf(),
        final(rt).standby_cursor == old(rt).standby_cursor,
        final(rt).last_standby == old(rt).last_standby,
        final(rt).playing == old(rt).playing,
        final(rt).failures == old(rt).failures,
        final(rt).problem == old(rt).problem,
        (raw_threshold == 0 || playing.is_none() || playing.unwrap().added_by_ip@ == standby_ip())
            ==> r is Ignored && unchanged(&*final(rt), &*old(rt)),
        !(raw_threshold == 0 || playing.is_none() || playing.unwrap().added_by_ip@ == standby_ip())
            ==> {
            let p = playing.unwrap();
            let before = votes_on(&*old(rt), p.id);
            &&& final(rt).downvote_entry == Some(p.id)
            &&& if before.contains(ip@) {
                r is Ignored && final(rt).voters() == before
            } else {
                &&& final(rt).voters() == before.push(ip@)
                &&& r == DownvoteDecision::Counted {
                    track_id: p.track_id,
                    skip: before.len() + 1 >= magnitude(raw_threshold),
                }
            }
        },
{
    if raw_threshold == 0 {
        return DownvoteDecision::Ignored;
    }
    let threshold: usize = if raw_threshold < 0 {
        if raw_threshold == i32::MIN { 2147483648usize } else { (-raw_threshold) as usize }
    } else {
        raw_threshold as usize
    };
    let p = match playing {
        None => return DownvoteDecision::Ignored,
        Some(p) => p,
    };
    if same_text(p.added_by_ip.as_str(), "__standby__") {
        return DownvoteDecision::Ignored;
    }
    if rt.downvote_entry != Some(p.id) {
        rt.downvote_entry = Some(p.id);
        rt.downvoters = Vec::new();
        assert(rt.voters() =~= Seq::<Seq<char>>::empty());
    }
    if contains_text(&rt.downvoters, ip) {
        return DownvoteDecision::Ignored;
    }
    let voter = owned(ip);
    proof { lemma_texts_push(rt.downvoters@, voter); }
    rt.downvoters.push(voter);
    DownvoteDecision::Counted { track_id: p.track_id, skip: rt.downvoters.len() >= threshold }
}


/// What a client sees of the votes on the playing song.
pub struct VoteView {
    /// The playing song is standby filler.
    pub is_standby: bool,
    /// Votes on it so far, or 0 when the count is hidden or votes are off.
    pub downvotes: usize,
    pub downvote_threshold: i32,
    /// This client has voted on it.
    pub downvoted_by_me: bool,
}

/// The votes as the client at `for_ip` sees them. Votes count only for the song being voted
/// on; a negative threshold keeps the skip but hides the count.
pub fn vote_view(rt: &Runtime, playing: Option<&QueueRow>, raw_threshold: i32, for_ip: &str) -> (v: VoteView)
    requires
        rt.wf(),
    ensures
        ({
            let active = playing matches Some(p) && rt.downvote_entry == Some(p.id);
            &&& v.is_standby == (playing matches Some(p) && p.added_by_ip@ == standby_ip())
            &&& v.downvotes == (if active && raw_threshold > 0 { rt.voters().len() as int } else { 0 })
            &&& v.downvote_threshold == raw_threshold
            &&& v.downvoted_by_me == (active && rt.voters().contains(for_ip@))
        }),
{
    let (active, is_standby) = match playing {
        Some(p) => (rt.downvote_entry == Some(p.id), same_text(p.added_by_ip.as_str(), "__standby__")),
        None => (false, false),
    };
    let count = rt.downvoters.len();
    assert(count as int == rt.voters().len());
    let downvotes: usize = if active && raw_threshold > 0 { count } else { 0 };
    let mine = active && contains_text(&rt.downvoters, for_ip);
    VoteView { is_standby, downvotes, downvote_threshold: raw_threshold, downvoted_by_me: mine }
}

/// What removing a queue entry does.
pub enum RemoveAction {
    /// It's the playing song: removing it skips it (advance).
    Skip,
    /// A pending entry: delete it and tell everyone.
    Delete,
}

/// A guest may remove only their own songs; an admin may remove any. `row` is the entry as
/// read by its id.
pub fn remove_entry(row: Option<&QueueRow>, ip: &str, is_admin: bool) -> (r: Result<RemoveAction, EngineError>)
    ensures
        row.is_none() ==> (r matches Err(e) && e.view_of() == (404u16, "Entry not found"@)),
        row matches Some(q) ==> if !is_admin && q.added_by_ip@ != ip@ {
            (r matches Err(e) && e.view_of() == (403u16, "You can only remove songs you added."@))
        } else if q.playing {
            r matches Ok(RemoveAction::Skip)
        } else {
            r matches Ok(RemoveAction::Delete)
        },
{
    let q = match row {
        None => {
            return Err(EngineError::Rejected { status: 404, message: owned("Entry not found") });
        },
        Some(q) => q,
    };
    if !is_admin && !same_text(q.added_by_ip.as_str(), ip) {
        return Err(EngineError::Rejected {
            status: 403,
            message: owned("You can only remove songs you added."),
        });
    }
    if q.playing {
        Ok(RemoveAction::Skip)
    } else {
        Ok(RemoveAction::Delete)
    }
}

/// The first index at or after `i` holding `x`, or the length if there is none.
pub open spec fn first_at(s: Seq<i64>, x: i64, i: int) -> int
    decreases s.len() - i,
{
    if i >= s.len() {
        s.len() as int
    } else if s[i] == x {
        i
    } else {
        first_at(s, x, i + 1)
    }
}

proof fn lemma_first_at(s: Seq<i64>, x: i64, i: int)
    requires
        0 <= i <= s.len(),
    ensures
        i <= first_at(s, x, i) <= s.len(),
        first_at(s, x, i) < s.len() ==> s[first_at(s, x, i)] == x,
        forall|k: int| i <= k < first_at(s, x, i) ==> s[k] != x,
    decreases s.len() - i,
{
    if i < s.len() && s[i] != x {
        lemma_first_at(s, x, i + 1);
    }
}

/// `min(max(to, 0), len)`: where a moved entry may land.
pub open spec fn clamp_index(to: i64, len: int) -> int {
    if to < 0 { 0 } else if to > len { len } else { to as int }
}

/// The pending order after moving `entry` to `to_index`: taken out, then put back at that
/// index among the others (clamped to the ends). `None` when it isn't pending.
pub open spec fn reordered(ids: Seq<i64>, entry: i64, to_index: i64) -> Option<Seq<i64>> {
    let from = first_at(ids, entry, 0);
    if from >= ids.len() {
        None
    } else {
        let rest = ids.remove(from);
        Some(rest.insert(clamp_index(to_index, rest.len() as int), entry))
    }
}

/// Moves a pending entry to a new index; the ids come in queue order and go out in the new
/// order, each to be given position index + 1. `None` when `entry` isn't pending, which
/// changes nothing.
pub fn reorder(ids: &Vec<i64>, entry: i64, to_index: i64) -> (r: Option<Vec<i64>>)
    ensures
        match r {
            Some(v) => reordered(ids@, entry, to_index) == Some(v@),
            None => reordered(ids@, entry, to_index).is_none(),
        },
{
    let mut from: usize = 0;
    while from < ids.len()
        invariant
            from <= ids@.len(),
            first_at(ids@, entry, 0) == first_at(ids@, entry, from as int),
        ensures
            from <= ids@.len(),
            first_at(ids@, entry, 0) == first_at(ids@, entry, from as int),
            from < ids@.len() ==> ids@[from as int] == entry,
        decreases ids@.len() - from,
    {
        if ids[from] == entry {
            break;
        }
        from = from + 1;
    }
    if from >= ids.len() {
        return None;
    }
    let mut v = ids.clone();
    let id = v.remove(from);
    let len = v.len();
    let dest: usize = if to_index < 0 {
        0
    } else if to_index as u64 > len as u64 {
        len
    } else {
        to_index as usize
    };
    v.insert(dest, id);
    Some(v)
}

/// A reorder keeps every pending entry exactly once: the new order is a permutation of the
/// old, and the moved entry sits at the requested index, clamped to the ends.
pub proof fn reorder_is_a_permutation(ids: Seq<i64>, entry: i64, to_index: i64)
    requires
        ids.contains(entry),
    ensures
        reordered(ids, entry, to_index) is Some,
        reordered(ids, entry, to_index).unwrap().to_multiset() == ids.to_multiset(),
        reordered(ids, entry, to_index).unwrap()[clamp_index(to_index, ids.len() - 1)] == entry,
{
    lemma_first_at(ids, entry, 0);
    let from = first_at(ids, entry, 0);
    let k = choose|k: int| 0 <= k < ids.len() && ids[k] == entry;
    assert(from < ids.len());
    let rest = ids.remove(from);
    let dest = clamp_index(to_index, rest.len() as int);
    vstd::seq_lib::to_multiset_remove(ids, from);
    vstd::seq_lib::to_multiset_insert(rest, dest, entry);
    assert(ids.to_multiset().remove(entry).insert(entry) =~= ids.to_multiset()) by {
        broadcast use vstd::multiset::group_multiset_axioms;
        vstd::seq_lib::to_multiset_contains(ids, entry);
    }
    rest.insert_ensures(dest, entry);
}


/// `name?.trim() || null`: a guest's name, trimmed, or none when that leaves nothing.
pub open spec fn cleaned_name(name: Option<Seq<char>>) -> Option<Seq<char>> {
    match name {
        Some(n) if js_trim(n).len() > 0 => Some(js_trim(n)),
        _ => None,
    }
}

/// The text of an optional string.
pub open spec fn opt_view(s: Option<String>) -> Option<Seq<char>> {
    match s {
        Some(t) => Some(t@),
        None => None,
    }
}

/// The text of an optional string slice.
pub open spec fn opt_str_view(s: Option<&str>) -> Option<Seq<char>> {
    match s {
        Some(t) => Some(t@),
        None => None,
    }
}

/// `name?.trim() || null`.
pub fn clean_name(name: Option<&str>) -> (r: Option<String>)
    ensures
        opt_view(r) == cleaned_name(opt_str_view(name)),
{
    match name {
        None => None,
        Some(n) => {
            let t = trim(n);
            let v = chars_of(t);
            if v.len() == 0 {
                None
            } else {
                Some(string_of(v.as_slice()))
            }
        },
    }
}

/// `new Date(now - minutes * 60_000).toISOString()`: the instant `minutes` before `now`.
pub fn minutes_ago_at(minutes: u32, now: i64) -> (r: String)
    requires
        in_chrono_range(now as int),
    ensures
        r@ == iso_text((now - minutes * 60000) as i64),
{
    iso_from_ms(now - minutes as i64 * 60000)
}

/// `new Date(Date.now() - minutes * 60_000).toISOString()`. The clock decides the instant.
pub fn minutes_ago(minutes: u32) -> (r: Result<String, ClockError>)
    ensures
        r matches Ok(t) ==> exists|now: i64| in_chrono_range(now as int)
            && t@ == iso_text((now - minutes * 60000) as i64),
{
    let now = now_ms()?;
    Ok(minutes_ago_at(minutes, now))
}

/// `Math.ceil(a / b)` for positive whole numbers.
pub open spec fn ceil_div(a: int, b: int) -> int {
    (a + b - 1) / b
}

/// The wait left, as the rate limit message words it: whole seconds, rounded up, under a
/// minute; whole minutes, rounded up, from there.
pub open spec fn wait_text(left_ms: int) -> Seq<char> {
    if left_ms < 60000 {
        decimal(ceil_div(left_ms, 1000) as nat) + " s"@
    } else {
        decimal(ceil_div(left_ms, 60000) as nat) + " min"@
    }
}

/// Why a guest must wait before adding again, given the gap in minutes, when their last
/// successful add was, and the time now.
pub open spec fn rate_limit_message(minutes: u32, last: Option<i64>, now: i64) -> Option<Seq<char>> {
    match last {
        Some(t) if minutes > 0 && minutes * 60000 - (now - t) > 0 => Some(
            "You're adding songs too quickly \u{2014} try again in "@
                + wait_text(minutes * 60000 - (now - t)) + "."@,
        ),
        _ => None,
    }
}

/// The minimum gap between one guest's adds, from their last successful one (`last`, in
/// milliseconds, `None` when there's none or it can't be read), at `now`. 0 turns it off.
pub fn rate_limit_error_at(minutes: u32, last: Option<i64>, now: i64) -> (r: Option<String>)
    requires
        in_chrono_range(now as int),
        last matches Some(t) ==> in_chrono_range(t as int),
    ensures
        opt_view(r) == rate_limit_message(minutes, last, now),
{
    if minutes == 0 {
        return None;
    }
    let t = match last {
        None => return None,
        Some(t) => t,
    };
    let left_ms: i64 = minutes as i64 * 60000 - (now - t);
    if left_ms <= 0 {
        return None;
    }
    let mut m = chars_of("You're adding songs too quickly \u{2014} try again in ");
    if left_ms < 60000 {
        let secs = (left_ms as u64 + 999) / 1000;
        let digits = u64_decimal(secs);
        push_all(&mut m, digits.as_slice());
        push_str(&mut m, " s");
    } else {
        let mins = (left_ms as u64 + 59999) / 60000;
        let digits = u64_decimal(mins);
        push_all(&mut m, digits.as_slice());
        push_str(&mut m, " min");
    }
    push_str(&mut m, ".");
    Some(string_of(m.as_slice()))
}

/// The rate limit check at the time the clock gives, with the last add's timestamp as
/// stored (`requested_at`). Which message comes depends on the clock; the timestamp is read
/// as chrono reads RFC 3339. With the limit off the clock isn't read; `OutOfRange` when it
/// reads a time no date can hold.
pub fn rate_limit_error(minutes: u32, last: Option<&str>) -> (r: Result<Option<String>, ClockError>)
    ensures
        r matches Ok(m) ==> exists|now: i64| in_chrono_range(now as int) && opt_view(m) == rate_limit_message(
            minutes,
            match last { Some(t) => iso_millis(t@), None => None },
            now,
        ),
        minutes == 0 ==> r == Ok::<Option<String>, ClockError>(None),
{
    if minutes == 0 {
        let ghost lm = match last { Some(t) => iso_millis(t@), None => None };
        assert(in_chrono_range(0i64 as int) && opt_view(None::<String>) == rate_limit_message(minutes, lm, 0i64));
        return Ok(None);
    }
    let last_ms = match last {
        Some(t) => ms_from_iso(t),
        None => None,
    };
    let now = now_ms()?;
    let r = rate_limit_error_at(minutes, last_ms, now);
    Ok(r)
}

/// What the database says about a track and the repeat cooldowns: whether a song with its
/// title and artist is playing or queued, or was played within the song window; whether its
/// artist is playing or queued, or was played within the artist window.
pub struct CooldownFacts {
    pub song_queued: bool,
    pub song_played_recently: bool,
    pub artist_queued: bool,
    pub artist_played_recently: bool,
}

/// The repeat cooldown message for a track, if any.
pub open spec fn cooldown_message(
    song_minutes: u32,
    artist_minutes: u32,
    title: Seq<char>,
    artist: Option<Seq<char>>,
    facts: CooldownFacts,
) -> Option<Seq<char>> {
    if song_minutes > 0 && facts.song_queued {
        Some("\""@ + title + "\" is already in the queue."@)
    } else if song_minutes > 0 && facts.song_played_recently {
        Some("\""@ + title + "\" was played in the last "@ + decimal(song_minutes as nat)
            + " min \u{2014} pick something else."@)
    } else if artist matches Some(a) && a.len() > 0 && artist_minutes > 0 && facts.artist_queued {
        Some(artist.unwrap() + " is already in the queue \u{2014} try another artist."@)
    } else if artist matches Some(a) && a.len() > 0 && artist_minutes > 0
        && facts.artist_played_recently {
        Some(artist.unwrap() + " was played in the last "@ + decimal(artist_minutes as nat)
            + " min \u{2014} try another artist."@)
    } else {
        None
    }
}

/// The repeat cooldowns: a song or artist is blocked while it's playing, queued, or played
/// within its window. Each window is independent, and 0 turns it off. Songs are matched on
/// title and artist rather than track id, as a library often holds the same song several
/// times over.
pub fn cooldown_error(
    song_minutes: u32,
    artist_minutes: u32,
    title: &str,
    artist: Option<&str>,
    facts: &CooldownFacts,
) -> (r: Option<String>)
    ensures
        opt_view(r) == cooldown_message(song_minutes, artist_minutes, title@, opt_str_view(artist), *facts),
{
    if song_minutes > 0 {
        if facts.song_queued {
            let mut m = chars_of("\"");
            push_str(&mut m, title);
            push_str(&mut m, "\" is already in the queue.");
            return Some(string_of(m.as_slice()));
        }
        if facts.song_played_recently {
            let mut m = chars_of("\"");
            push_str(&mut m, title);
            push_str(&mut m, "\" was played in the last ");
            let digits = u64_decimal(song_minutes as u64);
            push_all(&mut m, digits.as_slice());
            push_str(&mut m, " min \u{2014} pick something else.");
            return Some(string_of(m.as_slice()));
        }
    }
    if let Some(a) = artist {
        let name = chars_of(a);
        if name.len() > 0 && artist_minutes > 0 {
            if facts.artist_queued {
                let mut m = name;
                push_str(&mut m, " is already in the queue \u{2014} try another artist.");
                return Some(string_of(m.as_slice()));
            }
            if facts.artist_played_recently {
                let mut m = name;
                push_str(&mut m, " was played in the last ");
                let digits = u64_decimal(artist_minutes as u64);
                push_all(&mut m, digits.as_slice());
                push_str(&mut m, " min \u{2014} try another artist.");
                return Some(string_of(m.as_slice()));
            }
        }
    }
    None
}

/// The per-guest queue limit message. 0 is no limit; a negative limit applies its absolute
/// value but keeps the counter hidden.
pub open spec fn limit_message(raw_limit: i32, pending: i64) -> Option<Seq<char>> {
    if raw_limit != 0 && pending >= magnitude(raw_limit) {
        Some("You can have at most "@ + decimal(magnitude(raw_limit) as nat) + " song"@
            + (if magnitude(raw_limit) == 1 { ""@ } else { "s"@ }) + " in the queue."@)
    } else {
        None
    }
}

/// Whether a guest with `pending` songs waiting may add another.
pub fn limit_error(raw_limit: i32, pending: i64) -> (r: Option<String>)
    ensures
        opt_view(r) == limit_message(raw_limit, pending),
{
    if raw_limit == 0 {
        return None;
    }
    let limit: u64 = if raw_limit < 0 {
        if raw_limit == i32::MIN { 2147483648u64 } else { (-raw_limit) as u64 }
    } else {
        raw_limit as u64
    };
    if pending < 0 || (pending as u64) < limit {
        return None;
    }
    let mut m = chars_of("You can have at most ");
    let digits = u64_decimal(limit);
    push_all(&mut m, digits.as_slice());
    push_str(&mut m, " song");
    if limit != 1 {
        push_str(&mut m, "s");
    } else {
        push_str(&mut m, "");
    }
    push_str(&mut m, " in the queue.");
    Some(string_of(m.as_slice()))
}

/// Why an add is refused: the track is missing (404), the guest is banned (403), adding too
/// fast (429), the song or artist is on cooldown (409), or the guest's limit is reached
/// (409), checked in that order, so a banned guest is never told merely to wait.
pub open spec fn enqueue_refusal(
    track_found: bool,
    ban: Option<Seq<char>>,
    too_soon: Option<Seq<char>>,
    cooldown: Option<Seq<char>>,
    limit: Option<Seq<char>>,
) -> Option<(u16, Seq<char>)> {
    if !track_found {
        Some((404u16, "Track not found"@))
    } else if ban is Some {
        Some((403u16, ban.unwrap()))
    } else if too_soon is Some {
        Some((429u16, too_soon.unwrap()))
    } else if cooldown is Some {
        Some((409u16, cooldown.unwrap()))
    } else if limit is Some {
        Some((409u16, limit.unwrap()))
    } else {
        None
    }
}

/// Checks a guest's add against the rules, given what each check found.
pub fn enqueue_check(
    track_found: bool,
    ban: Option<String>,
    too_soon: Option<String>,
    cooldown: Option<String>,
    limit: Option<String>,
) -> (r: Result<(), EngineError>)
    ensures
        match enqueue_refusal(track_found, opt_view(ban), opt_view(too_soon), opt_view(cooldown), opt_view(limit)) {
            None => r is Ok,
            Some(refusal) => r matches Err(e) && e.view_of() == refusal,
        },
{
    if !track_found {
        return Err(EngineError::Rejected { status: 404, message: owned("Track not found") });
    }
    if let Some(message) = ban {
        return Err(EngineError::Rejected { status: 403, message });
    }
    if let Some(message) = too_soon {
        return Err(EngineError::Rejected { status: 429, message });
    }
    if let Some(message) = cooldown {
        return Err(EngineError::Rejected { status: 409, message });
    }
    if let Some(message) = limit {
        return Err(EngineError::Rejected { status: 409, message });
    }
    Ok(())
}

/// Where a guest's add goes, given what each check found and the queue's largest position:
/// refused exactly as `enqueue_check` says, in which case nothing is to be written; else at
/// the end of the queue, one past the largest position (1 for an empty queue).
pub fn enqueue_position(
    track_found: bool,
    ban: Option<String>,
    too_soon: Option<String>,
    cooldown: Option<String>,
    limit: Option<String>,
    max_position: Option<i64>,
) -> (r: Result<i64, EngineError>)
    requires
        max_position matches Some(m) ==> m < i64::MAX,
    ensures
        match enqueue_refusal(track_found, opt_view(ban), opt_view(too_soon), opt_view(cooldown), opt_view(limit)) {
            None => r matches Ok(p) && p == match max_position { Some(m) => m + 1, None => 1 },
            Some(refusal) => r matches Err(e) && e.view_of() == refusal,
        },
{
    match enqueue_check(track_found, ban, too_soon, cooldown, limit) {
        Err(e) => Err(e),
        Ok(()) => Ok(match max_position {
            Some(m) => m + 1,
            None => 1,
        }),
    }
}

/// After an add: when nothing is playing, start; when filler is playing, the guest's song
/// takes over now. Otherwise just tell everyone. `playing_ip` is who added the playing entry.
pub fn starts_after_add(playing_ip: Option<&str>) -> (advance: bool)
    ensures
        advance == match playing_ip {
            None => true,
            Some(ip) => is_filler_ip(ip@),
        },
{
    match playing_ip {
        None => true,
        Some(ip) => is_filler(ip),
    }
}

} // verus!
