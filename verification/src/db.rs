//! The database's migrations and how it is opened read-only: which migrations a database
//! still needs, their SQL with line endings normalized, and the `file:` URI of a path.
//! Running the SQL is the caller's.

use vstd::prelude::*;

use crate::text::{chars_of, push_str, string_of, texts};

verus! {

/// The number of migrations this build knows; their ids are 1 to this.
pub open spec fn known_migrations() -> u32 {
    10
}

/// The newest migration this build knows.
pub fn latest_migration() -> (n: u32)
    ensures
        n == known_migrations(),
{
    10
}

/// The bookkeeping table's SQL, whitespace included, since the text lands in
/// `sqlite_master`.
pub fn migrations_table() -> (r: &'static str)
    ensures
        r@ == "CREATE TABLE IF NOT EXISTS _migrations (\n    id         INTEGER PRIMARY KEY,\n    applied_at TEXT NOT NULL\n  )"@,
{
    "CREATE TABLE IF NOT EXISTS _migrations (\n    id         INTEGER PRIMARY KEY,\n    applied_at TEXT NOT NULL\n  )"
}

/// What opening a database did to its schema.
#[derive(Debug, Clone, PartialEq, Eq)]
pub struct MigrationReport {
    /// Migrations applied by this open, if any.
    pub applied: Vec<u32>,
    /// The newest migration this build knows.
    pub latest: u32,
    /// The newest migration the database records. Above `latest` means a newer version
    /// last opened it; this build carries on, which keeps a rollback working.
    pub recorded: u32,
}

/// `text` with every CRLF made LF.
pub open spec fn lf_only(text: Seq<char>) -> Seq<char>
    decreases text.len(),
{
    if text.len() == 0 {
        text
    } else if text.len() >= 2 && text[0] == '\r' && text[1] == '\n' {
        seq!['\n'] + lf_only(text.skip(2))
    } else {
        seq![text[0]] + lf_only(text.skip(1))
    }
}

/// `text.replace("\r\n", "\n")`.
pub fn lf_line_endings(text: &str) -> (r: String)
    ensures
        r@ == lf_only(text@),
{
    let v = chars_of(text);
    let mut out: Vec<char> = Vec::new();
    let mut i: usize = 0;
    assert(v@.skip(0) =~= v@);
    assert(out@ + lf_only(v@) =~= lf_only(v@));
    while i < v.len()
        invariant
            i <= v@.len(),
            out@ + lf_only(v@.skip(i as int)) == lf_only(v@),
        decreases v@.len() - i,
    {
        let ghost rest = v@.skip(i as int);
        if i + 1 < v.len() && v[i] == '\r' && v[i + 1] == '\n' {
            out.push('\n');
            assert(rest.skip(2) =~= v@.skip(i as int + 2));
            assert(out@ + lf_only(v@.skip(i as int + 2)) =~= lf_only(v@));
            i = i + 2;
        } else {
            out.push(v[i]);
            assert(rest.skip(1) =~= v@.skip(i as int + 1));
            assert(out@ + lf_only(v@.skip(i as int + 1)) =~= lf_only(v@));
            i = i + 1;
        }
    }
    assert(v@.skip(v@.len() as int) =~= Seq::<char>::empty());
    assert(out@ + Seq::<char>::empty() =~= out@);
    string_of(out.as_slice())
}

/// Every migration's SQL, oldest first, with line endings normalized to LF: the text ends
/// up verbatim in `sqlite_master`, so a checkout with CRLF line endings must still create
/// the schema text other builds create. `raw` is the migration files' text, oldest first.
pub fn migrations(raw: &Vec<String>) -> (r: Vec<String>)
    ensures
        texts(r@) == texts(raw@).map_values(|s: Seq<char>| lf_only(s)),
{
    let mut out: Vec<String> = Vec::new();
    let mut i: usize = 0;
    while i < raw.len()
        invariant
            i <= raw@.len(),
            texts(out@) == texts(raw@).map_values(|s: Seq<char>| lf_only(s)).take(i as int),
        decreases raw@.len() - i,
    {
        let s = lf_line_endings(raw[i].as_str());
        let ghost before = out@;
        out.push(s);
        assert(texts(raw@)[i as int] == raw@[i as int]@);
        assert(texts(out@) =~= texts(before).push(s@));
        assert(texts(out@) =~= texts(raw@).map_values(|s: Seq<char>| lf_only(s)).take(i as int + 1));
        i = i + 1;
    }
    assert(texts(raw@).map_values(|s: Seq<char>| lf_only(s)).take(raw@.len() as int)
        =~= texts(raw@).map_values(|s: Seq<char>| lf_only(s)));
    out
}

/// The migrations from id `from` up to `latest` that the database hasn't applied, in order.
pub open spec fn pending_from(applied: Seq<u32>, from: int, latest: int) -> Seq<u32>
    decreases latest - from + 1,
{
    if from > latest || from < 1 {
        Seq::empty()
    } else if applied.contains(from as u32) {
        pending_from(applied, from + 1, latest)
    } else {
        seq![from as u32] + pending_from(applied, from + 1, latest)
    }
}

/// The migrations a database still needs, oldest first: every id from 1 to `latest` that
/// it hasn't recorded.
pub fn pending_migrations(applied: &Vec<u32>, latest: u32) -> (r: Vec<u32>)
    ensures
        r@ == pending_from(applied@, 1, latest as int),
{
    let mut out: Vec<u32> = Vec::new();
    let mut id: u32 = latest;
    assert(out@ =~= pending_from(applied@, latest as int + 1, latest as int));
    while id >= 1
        invariant
            id <= latest,
            out@ == pending_from(applied@, id as int + 1, latest as int),
        decreases id,
    {
        let mut seen = false;
        let mut k: usize = 0;
        while k < applied.len()
            invariant
                k <= applied@.len(),
                seen == (exists|j: int| 0 <= j < k && applied@[j] == id),
            decreases applied@.len() - k,
        {
            if applied[k] == id {
                seen = true;
            }
            k = k + 1;
        }
        if !seen {
            let mut next: Vec<u32> = Vec::new();
            next.push(id);
            let ghost rest = out@;
            next.append(&mut out);
            out = next;
            assert(out@ =~= seq![id] + rest);
        } else {
            assert(applied@.contains(id));
        }
        id = id - 1;
    }
    out
}

/// A path as a SQLite `file:` URI path: forward slashes, and the characters the URI parser
/// treats specially percent-encoded.
pub open spec fn uri_path(p: Seq<char>) -> Seq<char>
    decreases p.len(),
{
    if p.len() == 0 {
        p
    } else {
        uri_path(p.drop_last()) + (if p.last() == '\\' {
            seq!['/']
        } else if p.last() == '%' {
            "%25"@
        } else if p.last() == ' ' {
            "%20"@
        } else if p.last() == '?' {
            "%3f"@
        } else if p.last() == '#' {
            "%23"@
        } else {
            seq![p.last()]
        })
    }
}

/// A SQLite `file:` URI for a path and a query: a leading slash before a Windows drive
/// letter.
pub open spec fn file_uri_of(path: Seq<char>, query: Seq<char>) -> Seq<char> {
    let e = uri_path(path);
    let e2 = if e.len() > 0 && e[0] == '/' { e } else { seq!['/'] + e };
    "file://"@ + e2 + "?"@ + query
}

/// A SQLite `file:` URI for a path: forward slashes, a leading slash before a Windows drive
/// letter, and the characters the URI parser treats specially percent-encoded.
pub fn file_uri(path: &str, query: &str) -> (r: String)
    ensures
        r@ == file_uri_of(path@, query@),
{
    let p = chars_of(path);
    let mut e: Vec<char> = Vec::new();
    let mut i: usize = 0;
    while i < p.len()
        invariant
            i <= p@.len(),
            e@ == uri_path(p@.take(i as int)),
        decreases p@.len() - i,
    {
        let c = p[i];
        assert(p@.take(i as int + 1).drop_last() =~= p@.take(i as int));
        assert(p@.take(i as int + 1).last() == c);
        if c == '\\' {
            e.push('/');
            assert(e@ =~= uri_path(p@.take(i as int + 1)));
        } else if c == '%' {
            push_str(&mut e, "%25");
        } else if c == ' ' {
            push_str(&mut e, "%20");
        } else if c == '?' {
            push_str(&mut e, "%3f");
        } else if c == '#' {
            push_str(&mut e, "%23");
        } else {
            e.push(c);
            assert(e@ =~= uri_path(p@.take(i as int + 1)));
        }
        i = i + 1;
    }
    assert(p@.take(p@.len() as int) =~= p@);
    let mut out = chars_of("file://");
    if !(e.len() > 0 && e[0] == '/') {
        out.push('/');
    }
    let ghost head = out@;
    crate::text::push_all(&mut out, e.as_slice());
    push_str(&mut out, "?");
    push_str(&mut out, query);
    proof {
        if !(e@.len() > 0 && e@[0] == '/') {
            assert(out@ =~= "file://"@ + (seq!['/'] + e@) + "?"@ + query@);
        }
    }
    string_of(out.as_slice())
}


proof fn lemma_pending_from(applied: Seq<u32>, from: int, latest: int)
    requires
        1 <= from,
        latest <= u32::MAX,
    ensures
        forall|k: int| 0 <= k < pending_from(applied, from, latest).len() ==>
            from <= #[trigger] pending_from(applied, from, latest)[k] <= latest,
        forall|k: int, l: int| 0 <= k < l < pending_from(applied, from, latest).len() ==>
            pending_from(applied, from, latest)[k] < pending_from(applied, from, latest)[l],
        forall|id: u32| from <= id <= latest ==>
            (pending_from(applied, from, latest).contains(id) <==> !applied.contains(id)),
    decreases latest - from + 1,
{
    if from <= latest {
        lemma_pending_from(applied, from + 1, latest);
        let rest = pending_from(applied, from + 1, latest);
        let p = pending_from(applied, from, latest);
        if !applied.contains(from as u32) {
            assert(p == seq![from as u32] + rest);
            assert forall|id: u32| from <= id <= latest implies (p.contains(id) <==> !applied.contains(id)) by {
                if id == from {
                    assert(p[0] == id);
                } else {
                    if p.contains(id) {
                        let k = choose|k: int| 0 <= k < p.len() && p[k] == id;
                        assert(k > 0);
                        assert(rest[k - 1] == id);
                    }
                    if rest.contains(id) {
                        let k = choose|k: int| 0 <= k < rest.len() && rest[k] == id;
                        assert(p[k + 1] == id);
                    }
                }
            }
            assert forall|k: int, l: int| 0 <= k < l < p.len() implies p[k] < p[l] by {
                if k > 0 {
                    assert(p[k] == rest[k - 1] && p[l] == rest[l - 1]);
                } else {
                    assert(p[l] == rest[l - 1]);
                }
            }
            assert forall|k: int| 0 <= k < p.len() implies from <= #[trigger] p[k] <= latest by {
                if k > 0 {
                    assert(p[k] == rest[k - 1]);
                }
            }
        } else {
            assert forall|id: u32| from <= id <= latest implies (p.contains(id) <==> !applied.contains(id)) by {
                if id == from {
                    if p.contains(id) {
                        let k = choose|k: int| 0 <= k < p.len() && p[k] == id;
                        assert(rest[k] >= from + 1);
                    }
                }
            }
        }
    }
}

/// The migrations a database is given are exactly the ones from 1 to the latest that it
/// hasn't recorded, oldest first, each once.
pub proof fn pending_migrations_are_exactly_the_missing_ones(applied: Seq<u32>, latest: u32)
    ensures
        forall|id: u32| 1 <= id <= latest ==>
            (pending_from(applied, 1, latest as int).contains(id) <==> !applied.contains(id)),
        forall|k: int| 0 <= k < pending_from(applied, 1, latest as int).len() ==>
            1 <= #[trigger] pending_from(applied, 1, latest as int)[k] <= latest,
        forall|k: int, l: int| 0 <= k < l < pending_from(applied, 1, latest as int).len() ==>
            pending_from(applied, 1, latest as int)[k] < pending_from(applied, 1, latest as int)[l],
{
    lemma_pending_from(applied, 1, latest as int);
}

} // verus!
