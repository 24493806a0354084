//! Rescanning the library folders into the `tracks` table: the scan's status, one scan at a
//! time, and what each file found means for its row. Walking, reading tags and writing rows
//! happen around these decisions.

use vstd::prelude::*;

use crate::js::{in_chrono_range, iso_now, iso_text, ClockError};
use crate::types::ScanStatus;

verus! {

/// The scan's progress, shared with whoever asks. One scan runs at a time.
pub struct Scanner {
    status: ScanStatus,
}

/// Proof that `start` claimed the scan, to be spent on `finish`.
pub struct ScanTicket {
    claimed: (),
}

/// A copy of an optional text.
fn copy_text(t: &Option<String>) -> (r: Option<String>)
    ensures
        r == *t,
{
    match t {
        Some(s) => Some(s.clone()),
        None => None,
    }
}

impl Scanner {
    /// The status as it stands.
    pub closed spec fn view_status(&self) -> ScanStatus {
        self.status
    }

    /// No scan has run yet.
    pub fn new() -> (s: Scanner)
        ensures
            s.view_status() == (ScanStatus {
                scanning: false,
                processed: 0,
                added: 0,
                updated: 0,
                removed: 0,
                total: 0,
                started_at: None,
                finished_at: None,
                error: None,
            }),
    {
        Scanner {
            status: ScanStatus {
                scanning: false,
                processed: 0,
                added: 0,
                updated: 0,
                removed: 0,
                total: 0,
                started_at: None,
                finished_at: None,
                error: None,
            },
        }
    }

    /// The status as it stands.
    pub fn status(&self) -> (r: ScanStatus)
        ensures
            r == self.view_status(),
    {
        ScanStatus {
            scanning: self.status.scanning,
            processed: self.status.processed,
            added: self.status.added,
            updated: self.status.updated,
            removed: self.status.removed,
            total: self.status.total,
            started_at: copy_text(&self.status.started_at),
            finished_at: copy_text(&self.status.finished_at),
            error: copy_text(&self.status.error),
        }
    }

    /// Claims the scan at `started_at` and resets the counters, or returns `None`, changing
    /// nothing, if a scan is already running.
    pub fn start_at(&mut self, started_at: String) -> (r: Option<ScanTicket>)
        ensures
            old(self).view_status().scanning ==> r is None && final(self).view_status() == old(self).view_status(),
            !old(self).view_status().scanning ==> r is Some
                && final(self).view_status() == claimed(old(self).view_status(), started_at),
            r is None <==> start_outcome(old(self).view_status(), started_at) is None,
            final(self).view_status() == match start_outcome(old(self).view_status(), started_at) {
                Some(s) => s,
                None => old(self).view_status(),
            },
    {
        if self.status.scanning {
            return None;
        }
        self.status = ScanStatus {
            scanning: true,
            processed: 0,
            added: 0,
            updated: 0,
            removed: 0,
            total: 0,
            started_at: Some(started_at),
            finished_at: None,
            error: None,
        };
        Some(ScanTicket { claimed: () })
    }

    /// Claims the scan now, by the clock, or returns `None` if a scan is already running
    /// (without reading the clock). `OutOfRange`, changing nothing, when the clock reads a
    /// time no date can hold.
    pub fn start(&mut self) -> (r: Result<Option<ScanTicket>, ClockError>)
        ensures
            old(self).view_status().scanning ==> (r matches Ok(None) && final(self).view_status() == old(self).view_status()),
            r is Err ==> !old(self).view_status().scanning && final(self).view_status() == old(self).view_status(),
            !old(self).view_status().scanning && r is Ok ==> (r matches Ok(Some(_)) && final(self).view_status().scanning
                && final(self).view_status().processed == 0 && final(self).view_status().added == 0
                && final(self).view_status().updated == 0 && final(self).view_status().removed == 0
                && final(self).view_status().total == 0 && final(self).view_status().finished_at is None
                && final(self).view_status().error is None
                && (final(self).view_status().started_at matches Some(t)
                    && exists|ms: i64| in_chrono_range(ms as int) && t@ == iso_text(ms))),
    {
        if self.status.scanning {
            return Ok(None);
        }
        let now = iso_now()?;
        Ok(self.start_at(now))
    }

    /// Counts a written batch: `files` walked, of which `added` were new and `updated`
    /// changed.
    pub fn batch_done(&mut self, files: i64, added: i64, updated: i64)
        requires
            0 <= files,
            0 <= added,
            0 <= updated,
            old(self).view_status().processed + files <= i64::MAX,
            old(self).view_status().added + added <= i64::MAX,
            old(self).view_status().updated + updated <= i64::MAX,
        ensures
            final(self).view_status() == (ScanStatus {
                processed: (old(self).view_status().processed + files) as i64,
                added: (old(self).view_status().added + added) as i64,
                updated: (old(self).view_status().updated + updated) as i64,
                ..old(self).view_status()
            }),
    {
        self.status.processed = self.status.processed + files;
        self.status.added = self.status.added + added;
        self.status.updated = self.status.updated + updated;
    }

    /// Ends the scan at `finished_at`: with the tracks removed and the library's total, or
    /// with the error that ended it partway. Returns the final status.
    pub fn finish(&mut self, ticket: ScanTicket, outcome: Result<(i64, i64), String>, finished_at: String) -> (r: ScanStatus)
        ensures
            r == final(self).view_status(),
            r == finished(old(self).view_status(), outcome, finished_at),
            !r.scanning,
            r.finished_at == Some(finished_at),
            r.processed == old(self).view_status().processed,
            r.added == old(self).view_status().added,
            r.updated == old(self).view_status().updated,
            r.started_at == old(self).view_status().started_at,
            match outcome {
                Ok((removed, total)) => r.removed == removed && r.total == total
                    && r.error == old(self).view_status().error,
                Err(e) => r.error == Some(e) && r.removed == old(self).view_status().removed
                    && r.total == old(self).view_status().total,
            },
    {
        let ScanTicket { claimed: () } = ticket;
        match outcome {
            Ok((removed, total)) => {
                self.status.removed = removed;
                self.status.total = total;
            },
            Err(e) => {
                self.status.error = Some(e);
            },
        }
        self.status.scanning = false;
        self.status.finished_at = Some(finished_at);
        self.status()
    }
}

/// The status once a scan is claimed at `started_at`: running, counters reset.
pub open spec fn claimed(status: ScanStatus, started_at: String) -> ScanStatus {
    ScanStatus {
        scanning: true,
        processed: 0,
        added: 0,
        updated: 0,
        removed: 0,
        total: 0,
        started_at: Some(started_at),
        finished_at: None,
        error: None,
    }
}

/// What asking to start a scan at `started_at` does to the status: `None` (refused, and the
/// status left as it is) while one runs, else the claimed status.
pub open spec fn start_outcome(status: ScanStatus, started_at: String) -> Option<ScanStatus> {
    if status.scanning {
        None
    } else {
        Some(claimed(status, started_at))
    }
}

/// The status once a scan ends at `finished_at` with `outcome`: the tracks removed and the
/// library's total, or the error that ended it.
pub open spec fn finished(status: ScanStatus, outcome: Result<(i64, i64), String>, finished_at: String) -> ScanStatus {
    match outcome {
        Ok((removed, total)) => ScanStatus {
            scanning: false,
            removed,
            total,
            finished_at: Some(finished_at),
            ..status
        },
        Err(e) => ScanStatus {
            scanning: false,
            error: Some(e),
            finished_at: Some(finished_at),
            ..status
        },
    }
}

/// One scan at a time: while a scan runs, a second start is refused and leaves the status
/// as it is; a start with none running claims the scan; once the scan finishes, however it
/// ended, another can start.
pub proof fn one_scan_at_a_time(status: ScanStatus, first: String, second: String, outcome: Result<(i64, i64), String>, done_at: String, third: String)
    ensures
        status.scanning ==> start_outcome(status, second) is None,
        !status.scanning ==> start_outcome(status, first) == Some(claimed(status, first)),
        start_outcome(claimed(status, first), second) is None,
        start_outcome(finished(claimed(status, first), outcome, done_at), third) is Some,
{
}


/// The ids of the rows a scan didn't see, in order.
pub open spec fn unseen(rows: Seq<(i64, bool)>) -> Seq<i64>
    decreases rows.len(),
{
    if rows.len() == 0 {
        Seq::empty()
    } else if rows.last().1 {
        unseen(rows.drop_last())
    } else {
        unseen(rows.drop_last()).push(rows.last().0)
    }
}

/// The tracks a finished walk removes, given each indexed row's id and whether this scan
/// found its file: exactly those it didn't find, in order. A library folder that can't be
/// walked contributes no files, so the tracks indexed from it are removed too.
pub fn pruned_ids(rows: &Vec<(i64, bool)>) -> (r: Vec<i64>)
    ensures
        r@ == unseen(rows@),
{
    let mut out: Vec<i64> = Vec::new();
    let mut i: usize = 0;
    while i < rows.len()
        invariant
            i <= rows@.len(),
            out@ == unseen(rows@.take(i as int)),
        decreases rows@.len() - i,
    {
        assert(rows@.take(i as int + 1).drop_last() =~= rows@.take(i as int));
        let (id, seen) = rows[i];
        if !seen {
            out.push(id);
        }
        i = i + 1;
    }
    assert(rows@.take(rows@.len() as int) =~= rows@);
    out
}

/// What looking at a file found.
pub enum Inspected {
    /// It couldn't even be stat'ed: left unmarked, so the sweep prunes it.
    Unreadable,
    /// Its modification time matches its row's.
    Unchanged,
    /// New or changed: its tags were read, and its modification time is `mtime_ms`.
    Parsed { mtime_ms: i64 },
}

/// Whether a file's row, with modification time `stored` if it has one, is up to date for
/// a file modified at `mtime_ms`: only then is it left unread.
pub fn is_unchanged(stored: Option<i64>, mtime_ms: i64) -> (r: bool)
    ensures
        r == (stored == Some(mtime_ms)),
{
    match stored {
        Some(t) => t == mtime_ms,
        None => false,
    }
}

/// What to write for a file.
pub enum FileAction {
    /// Nothing: the file couldn't be read.
    Skip,
    /// Mark the row `id` as seen.
    MarkSeen { id: i64 },
    /// Rewrite the row `id` from the tags read, and mark it seen.
    Update { id: i64 },
    /// Insert a row for the file.
    Insert,
}

/// The row write for a file, given what inspecting it found and its row as known now (its
/// id and stored modification time). Overlapping library folders reach the same file
/// twice; the second visit finds the row the first one just wrote, and only marks it.
pub fn file_action(file: &Inspected, existing: Option<(i64, i64)>) -> (r: FileAction)
    requires
        *file is Unchanged ==> existing is Some,
    ensures
        match *file {
            Inspected::Unreadable => r is Skip,
            Inspected::Unchanged => r == FileAction::MarkSeen { id: existing.unwrap().0 },
            Inspected::Parsed { mtime_ms } => match existing {
                Some((id, stored)) => if stored == mtime_ms {
                    r == FileAction::MarkSeen { id }
                } else {
                    r == FileAction::Update { id }
                },
                None => r is Insert,
            },
        },
{
    match file {
        Inspected::Unreadable => FileAction::Skip,
        Inspected::Unchanged => match existing {
            Some((id, _)) => FileAction::MarkSeen { id },
            None => FileAction::Skip,
        },
        Inspected::Parsed { mtime_ms } => match existing {
            Some((id, stored)) => if stored == *mtime_ms {
                FileAction::MarkSeen { id }
            } else {
                FileAction::Update { id }
            },
            None => FileAction::Insert,
        },
    }
}

/// `Math.floor(stat.mtimeMs)` for a time `secs` seconds and `nanos` nanoseconds after 1970,
/// or before it when `before_epoch`: whole milliseconds, rounded down, also before 1970.
pub open spec fn floored_millis(before_epoch: bool, secs: u64, nanos: u32) -> int {
    let ms = secs * 1000 + nanos / 1000000;
    if !before_epoch {
        ms
    } else if nanos % 1000000 == 0 {
        -ms
    } else {
        -ms - 1
    }
}

/// `Math.floor(stat.mtimeMs)`, including for times before 1970, from the duration between
/// the time and 1970 (`secs` seconds and `nanos` below a second).
pub fn floor_millis(before_epoch: bool, secs: u64, nanos: u32) -> (r: i64)
    requires
        nanos < 1000000000,
        secs < 9223372036854775,
    ensures
        r == floored_millis(before_epoch, secs, nanos),
{
    let ms: i64 = (secs * 1000 + (nanos / 1000000) as u64) as i64;
    if !before_epoch {
        ms
    } else if nanos % 1000000 == 0 {
        -ms
    } else {
        -ms - 1
    }
}

} // verus!
