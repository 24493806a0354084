//! Guests barred from adding songs, by address. A ban blocks new adds only: songs the guest
//! already queued keep their place, and they can still downvote. The table is read and
//! written around these rules; expired bans are pruned before every read.

use vstd::prelude::*;

use crate::js::{in_chrono_range, iso_from_ms, iso_millis, iso_text, ms_from_iso, now_ms, ClockError};
use crate::text::{chars_of, decimal, push_all, push_str, string_of, u64_decimal};
use crate::types::BanEntry;

verus! {

/// The whole minutes a ban has left, rounded up and never below one. `None` stands for an
/// expiry that can't be read.
pub open spec fn minutes_left(left_ms: Option<int>) -> int {
    match left_ms {
        Some(l) if l > 0 => (l + 59999) / 60000,
        _ => 1,
    }
}

/// "x min", "x hours" or "x days" left on a ban: minutes under an hour; hours, rounded to the
/// nearest, under two days; days, rounded to the nearest, beyond.
pub open spec fn remaining_words(left_ms: Option<int>) -> Seq<char> {
    let minutes = minutes_left(left_ms);
    let hours = (minutes + 30) / 60;
    if minutes < 60 {
        decimal(minutes as nat) + " min"@
    } else if hours < 48 {
        decimal(hours as nat) + " hour"@ + (if hours == 1 { ""@ } else { "s"@ })
    } else {
        decimal(((hours + 12) / 24) as nat) + " days"@
    }
}

/// The time a ban has left, `left_ms` milliseconds or `None` when its expiry can't be read,
/// in words.
pub fn remaining_text(left_ms: Option<i64>) -> (r: String)
    ensures
        r@ == remaining_words(match left_ms { Some(l) => Some(l as int), None => None }),
{
    let minutes: u64 = match left_ms {
        Some(l) => if l > 0 { (l as u64 + 59999) / 60000 } else { 1 },
        None => 1,
    };
    let mut m: Vec<char> = Vec::new();
    if minutes < 60 {
        let digits = u64_decimal(minutes);
        push_all(&mut m, digits.as_slice());
        push_str(&mut m, " min");
        return string_of(m.as_slice());
    }
    let hours = (minutes + 30) / 60;
    if hours < 48 {
        let digits = u64_decimal(hours);
        push_all(&mut m, digits.as_slice());
        push_str(&mut m, " hour");
        if hours != 1 {
            push_str(&mut m, "s");
        } else {
            push_str(&mut m, "");
        }
        return string_of(m.as_slice());
    }
    let digits = u64_decimal((hours + 12) / 24);
    push_all(&mut m, digits.as_slice());
    push_str(&mut m, " days");
    string_of(m.as_slice())
}

/// The time left until `expires_ms`, from `now`, in words.
pub open spec fn remaining_from(expires_ms: Option<i64>, now: i64) -> Seq<char> {
    remaining_words(match expires_ms { Some(t) => Some(t - now), None => None })
}

/// The time left on a ban expiring at `expires_at` (as stored), in words, at the time the
/// clock gives: which words depends on the clock. `OutOfRange` when the clock reads a time
/// no date can hold.
pub fn remaining(expires_at: &str) -> (r: Result<String, ClockError>)
    ensures
        r matches Ok(t) ==> exists|now: i64| in_chrono_range(now as int)
            && t@ == remaining_from(iso_millis(expires_at@), now),
{
    let expires = ms_from_iso(expires_at);
    let now = now_ms()?;
    let left = match expires {
        Some(t) => Some(t - now),
        None => None,
    };
    Ok(remaining_text(left))
}

/// What a guest with a permanent ban is told.
pub open spec fn permanent_ban_message() -> Seq<char> {
    "You have been blocked from adding songs."@
}

/// What a guest with a ban of `left` is told.
pub open spec fn timed_ban_message(left: Seq<char>) -> Seq<char> {
    "You have been blocked from adding songs for another "@ + left + "."@
}

/// Why this guest may not add songs, given their active ban, or `None` when they have none.
/// The time left on a timed ban is read from the clock, and only then can the clock's
/// `OutOfRange` come back.
pub fn ban_error(ban: Option<&BanEntry>) -> (r: Result<Option<String>, ClockError>)
    ensures
        match ban {
            None => r == Ok::<Option<String>, ClockError>(None),
            Some(b) => match b.expires_at {
                None => r matches Ok(Some(m)) && m@ == permanent_ban_message(),
                Some(e) => r matches Ok(om) ==> (om matches Some(m) && exists|now: i64| in_chrono_range(now as int)
                    && m@ == timed_ban_message(remaining_from(iso_millis(e@), now))),
            },
        },
{
    match ban {
        None => Ok(None),
        Some(b) => match &b.expires_at {
            None => {
                let m = chars_of("You have been blocked from adding songs.");
                Ok(Some(string_of(m.as_slice())))
            },
            Some(e) => {
                let left = remaining(e.as_str())?;
                let mut m = chars_of("You have been blocked from adding songs for another ");
                push_str(&mut m, left.as_str());
                push_str(&mut m, ".");
                let msg = string_of(m.as_slice());
                proof {
                    let now = choose|now: i64| in_chrono_range(now as int)
                        && left@ == remaining_from(iso_millis(e@), now);
                    assert(msg@ == timed_ban_message(remaining_from(iso_millis(e@), now)));
                }
                Ok(Some(msg))
            },
        },
    }
}

/// The most minutes a ban can be given: more would take its expiry past what a timestamp
/// holds.
pub open spec fn max_ban_minutes() -> int {
    153572747293333
}

/// The value of `max_ban_minutes`, for callers that check a request before banning.
pub fn max_ban_minutes_value() -> (r: i64)
    ensures
        r == max_ban_minutes(),
{
    153572747293333
}

/// When a ban given at `now` for `minutes` ends: `None` (permanent) for 0 or less.
pub fn ban_expiry_at(minutes: i64, now: i64) -> (r: Option<String>)
    requires
        in_chrono_range(now as int),
        minutes <= max_ban_minutes(),
    ensures
        minutes <= 0 ==> r.is_none(),
        minutes > 0 ==> (r matches Some(t) && t@ == iso_text((now + minutes * 60000) as i64)),
{
    if minutes > 0 {
        Some(iso_from_ms(now + minutes * 60000))
    } else {
        None
    }
}

/// When a ban given now for `minutes` ends, by the clock; `None` (permanent) for 0 or less,
/// without reading the clock. `OutOfRange` when the clock reads a time no date can hold.
pub fn ban_expiry(minutes: i64) -> (r: Result<Option<String>, ClockError>)
    requires
        minutes <= max_ban_minutes(),
    ensures
        minutes <= 0 ==> r == Ok::<Option<String>, ClockError>(None),
        minutes > 0 ==> (r matches Ok(ot) ==> (ot matches Some(t) && exists|now: i64| in_chrono_range(now as int)
            && t@ == iso_text((now + minutes * 60000) as i64))),
{
    if minutes <= 0 {
        return Ok(None);
    }
    let now = now_ms()?;
    Ok(ban_expiry_at(minutes, now))
}

} // verus!
