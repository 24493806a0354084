//! Browsing and searching the library: what `/api/tracks`, `/api/artists` and `/api/albums`
//! ask the database, built from their query parameters. The filters, grouping and ordering
//! are fixed SQL; the logic around them (clamping, trimming, the full-text query, the A–Z
//! index) is stated here, and the database runs what comes out.

use vstd::prelude::*;

use unicode_normalization::UnicodeNormalization;

use crate::js::{js_trim, trim};
use crate::text::{chars_of, decimal, push_all, push_str, string_of, u64_decimal};
use crate::types::TracksQuery;

verus! {

/// `/api/artists`' query parameters.
#[derive(Debug, Clone, PartialEq)]
pub struct ArtistsQuery {
    pub search: Option<String>,
    pub letter: Option<String>,
    pub limit: Option<i64>,
    pub offset: Option<i64>,
}

/// `/api/albums`' query parameters.
#[derive(Debug, Clone, PartialEq)]
pub struct AlbumsQuery {
    pub search: Option<String>,
    pub artist: Option<String>,
    pub limit: Option<i64>,
    pub offset: Option<i64>,
}

/// `query.x?.trim()` followed by `if (x)`: the trimmed text, or nothing when that's empty.
pub open spec fn present_text(value: Option<String>) -> Option<Seq<char>> {
    match value {
        Some(v) if js_trim(v@).len() > 0 => Some(js_trim(v@)),
        _ => None,
    }
}

/// A trimmed, non-empty string, or nothing.
pub fn present(value: &Option<String>) -> (r: Option<&str>)
    ensures
        match present_text(*value) {
            Some(t) => r matches Some(s) && s@ == t,
            None => r is None,
        },
{
    match value {
        None => None,
        Some(v) => {
            let t = trim(v.as_str());
            if t.is_empty() {
                None
            } else {
                Some(t)
            }
        },
    }
}

/// A page size: `default` when absent, else between 1 and `max`.
pub open spec fn clamped(value: Option<i64>, max: i64, default: i64) -> i64 {
    match value {
        None => default,
        Some(v) => if v < 1 { 1 } else if v > max { max } else { v },
    }
}

/// A page size: `default` when absent, else between 1 and `max`.
pub fn clamp(value: Option<i64>, max: i64, default: i64) -> (r: i64)
    requires
        1 <= max,
    ensures
        r == clamped(value, max, default),
{
    match value {
        None => default,
        Some(v) => if v < 1 { 1 } else if v > max { max } else { v },
    }
}

/// An offset: 0 when absent, and never below 0.
pub fn page_offset(value: Option<i64>) -> (r: i64)
    ensures
        r == match value {
            None => 0,
            Some(o) => if o < 0 { 0 } else { o },
        },
{
    match value {
        None => 0,
        Some(o) => if o < 0 { 0 } else { o },
    }
}

/// The runs of letters and digits in a text, in order: the matches of the regex
/// `[\p{L}\p{N}]+`.
pub uninterp spec fn word_runs(text: Seq<char>) -> Seq<Seq<char>>;

/// The matches of `[\p{L}\p{N}]+` in `text`, in order, as found by the `regex` crate's
/// `Regex::find_iter`. Each match is a nonempty run (the pattern ends in `+`).
#[verifier::external_body]
fn words(text: &str) -> (r: Vec<String>)
    ensures
        r@.map_values(|w: String| w@) == word_runs(text@),
        forall|i: int| 0 <= i < r@.len() ==> (#[trigger] r@[i])@.len() > 0,
{
    regex::Regex::new(r"[\p{L}\p{N}]+").unwrap().find_iter(text).map(|m| m.as_str().to_string()).collect()
}

/// An FTS5 prefix match on every word: each in double quotes with a `*`, separated by
/// spaces.
pub open spec fn fts_of(words: Seq<Seq<char>>) -> Seq<char>
    decreases words.len(),
{
    if words.len() == 0 {
        Seq::empty()
    } else if words.len() == 1 {
        "\""@ + words[0] + "\"*"@
    } else {
        fts_of(words.drop_last()) + " "@ + "\""@ + words.last() + "\"*"@
    }
}

/// The FTS5 query for a list of words.
pub fn fts_from_words(words: &Vec<String>) -> (r: String)
    ensures
        r@ == fts_of(words@.map_values(|w: String| w@)),
{
    let ghost ws = words@.map_values(|w: String| w@);
    let mut v: Vec<char> = Vec::new();
    let mut i: usize = 0;
    while i < words.len()
        invariant
            i <= words@.len(),
            ws == words@.map_values(|w: String| w@),
            v@ == fts_of(ws.take(i as int)),
        decreases words@.len() - i,
    {
        if i > 0 {
            push_str(&mut v, " ");
        }
        push_str(&mut v, "\"");
        push_str(&mut v, words[i].as_str());
        push_str(&mut v, "\"*");
        proof {
            assert(ws.take(i as int + 1).drop_last() =~= ws.take(i as int));
            assert(ws.take(i as int + 1).last() == words@[i as int]@);
            if i == 0 {
                assert(ws.take(1)[0] == words@[0]@);
            }
        }
        i = i + 1;
    }
    assert(ws.take(words@.len() as int) =~= ws);
    string_of(v.as_slice())
}

/// A free-text search as an FTS5 prefix match on every word: `daft pu` becomes
/// `"daft"* "pu"*`. Anything but letters and digits, FTS syntax included, is dropped.
pub fn fts_query(search: &str) -> (r: String)
    ensures
        r@ == fts_of(word_runs(search@)),
{
    let ws = words(search);
    fts_from_words(&ws)
}

/// The columns a track is read with.
pub open spec fn track_columns() -> Seq<char> {
    "t.id, t.title, t.artist, t.album, t.album_artist, t.genre, t.duration, t.track_no, t.disc_no, t.year, t.art_hash"@
}

/// A query to run: the SQL for the total, the SQL for the page (which also takes `@limit`
/// and `@offset`), and the named text parameters both take.
pub struct SqlPlan {
    pub count_sql: String,
    pub rows_sql: String,
    pub params: Vec<(String, String)>,
}

/// The named parameters' names and texts.
pub open spec fn params_view(params: Seq<(String, String)>) -> Seq<(Seq<char>, Seq<char>)> {
    params.map_values(|p: (String, String)| (p.0@, p.1@))
}

/// What `/api/tracks` runs. `None` when the search has no words: nothing matches.
pub enum TracksPlan {
    NoWords,
    Run(SqlPlan),
}

/// The filter, parameters and order of a browse (no search): by album (with the album
/// artist), by artist (optionally only their tracks without an album), or everything.
pub open spec fn browse(query: TracksQuery) -> (Seq<char>, Seq<(Seq<char>, Seq<char>)>, Seq<char>) {
    if present_text(query.album) is Some {
        let album = present_text(query.album).unwrap();
        match present_text(query.album_artist) {
            Some(aa) => (
                "album = @album COLLATE NOCASE"@
                    + " AND COALESCE(album_artist, artist) = @aa COLLATE NOCASE"@,
                seq![("@album"@, album), ("@aa"@, aa)],
                "disc_no, track_no, title COLLATE NOCASE"@,
            ),
            None => (
                "album = @album COLLATE NOCASE"@,
                seq![("@album"@, album)],
                "disc_no, track_no, title COLLATE NOCASE"@,
            ),
        }
    } else if present_text(query.artist) is Some {
        let artist = present_text(query.artist).unwrap();
        if query.no_album == Some(true) {
            (
                "(artist = @artist COLLATE NOCASE OR album_artist = @artist COLLATE NOCASE)"@
                    + " AND (album IS NULL OR album = '')"@,
                seq![("@artist"@, artist)],
                "title COLLATE NOCASE"@,
            )
        } else {
            (
                "(artist = @artist COLLATE NOCASE OR album_artist = @artist COLLATE NOCASE)"@,
                seq![("@artist"@, artist)],
                "album COLLATE NOCASE, disc_no, track_no, title COLLATE NOCASE"@,
            )
        }
    } else {
        (
            Seq::empty(),
            Seq::empty(),
            "artist COLLATE NOCASE, album COLLATE NOCASE, disc_no, track_no, title COLLATE NOCASE"@,
        )
    }
}

/// `WHERE filter`, or nothing for no filter.
pub open spec fn where_clause(filter: Seq<char>) -> Seq<char> {
    if filter.len() == 0 { Seq::empty() } else { "WHERE "@ + filter }
}

/// The SQL and parameters of `/api/tracks`: a full-text search takes precedence over the
/// browse filters, and ranks its matches.
pub open spec fn tracks_sql(query: TracksQuery, search_words: Seq<Seq<char>>) -> Option<(Seq<char>, Seq<char>, Seq<(Seq<char>, Seq<char>)>)> {
    if present_text(query.search) is Some {
        let fts = fts_of(search_words);
        if fts.len() == 0 {
            None
        } else {
            Some((
                "SELECT COUNT(*) AS c FROM tracks_fts WHERE tracks_fts MATCH @fts"@,
                "SELECT "@ + track_columns() + " FROM tracks t\n         JOIN tracks_fts f ON f.rowid = t.id\n         WHERE tracks_fts MATCH @fts\n         ORDER BY rank\n         LIMIT @limit OFFSET @offset"@,
                seq![("@fts"@, fts)],
            ))
        }
    } else {
        let (filter, params, order) = browse(query);
        Some((
            "SELECT COUNT(*) AS c FROM tracks "@ + where_clause(filter),
            "SELECT "@ + track_columns() + " FROM tracks t "@ + where_clause(filter) + " ORDER BY "@
                + order + " LIMIT @limit OFFSET @offset"@,
            params,
        ))
    }
}

/// The ORDER BY and paging that end the page query of a browse: `order`, then the page.
pub open spec fn ordered_page(order: Seq<char>) -> Seq<char> {
    " ORDER BY "@ + order + " LIMIT @limit OFFSET @offset"@
}

/// How a browse without a search orders its tracks: an album's by disc, then track number,
/// then title; an artist's by album, then disc, then track number, then title (so the discs
/// of an album don't interleave); an artist's tracks without an album by title; and the
/// whole library by artist, album, disc, track number and title.
pub proof fn browse_orders(query: TracksQuery, search_words: Seq<Seq<char>>)
    requires
        present_text(query.search) is None,
    ensures
        ({
            let rows = tracks_sql(query, search_words).unwrap().1;
            let head = "SELECT "@ + track_columns() + " FROM tracks t "@ + where_clause(browse(query).0);
            &&& tracks_sql(query, search_words) is Some
            &&& present_text(query.album) is Some ==>
                rows == head + ordered_page("disc_no, track_no, title COLLATE NOCASE"@)
            &&& present_text(query.album) is None && present_text(query.artist) is Some
                && query.no_album != Some(true) ==>
                rows == head + ordered_page("album COLLATE NOCASE, disc_no, track_no, title COLLATE NOCASE"@)
            &&& present_text(query.album) is None && present_text(query.artist) is Some
                && query.no_album == Some(true) ==>
                rows == head + ordered_page("title COLLATE NOCASE"@)
            &&& present_text(query.album) is None && present_text(query.artist) is None ==>
                rows == head + ordered_page(
                    "artist COLLATE NOCASE, album COLLATE NOCASE, disc_no, track_no, title COLLATE NOCASE"@)
        }),
{
    let (filter, params, order) = browse(query);
    let head = "SELECT "@ + track_columns() + " FROM tracks t "@ + where_clause(filter);
    let rows = tracks_sql(query, search_words).unwrap().1;
    assert(rows =~= head + ordered_page(order));
}

fn text_param(name: &str, value: &str) -> (p: (String, String))
    ensures
        p.0@ == name@,
        p.1@ == value@,
{
    let n = chars_of(name);
    let v = chars_of(value);
    (string_of(n.as_slice()), string_of(v.as_slice()))
}

/// The SQL `/api/tracks` runs for `query`, and the page it asks for: `limit` between 1 and
/// 500 (100 by default), `offset` at least 0.
pub fn plan_tracks(query: &TracksQuery) -> (r: (i64, i64, TracksPlan))
    ensures
        r.0 == clamped(query.limit, 500, 100),
        r.1 == match query.offset { None => 0, Some(o) => if o < 0 { 0 } else { o } },
        match present_text(query.search) {
            Some(s) => match r.2 {
                TracksPlan::NoWords => tracks_sql(*query, word_runs(s)).is_none(),
                TracksPlan::Run(p) => tracks_sql(*query, word_runs(s))
                    == Some((p.count_sql@, p.rows_sql@, params_view(p.params@))),
            },
            None => r.2 matches TracksPlan::Run(p) && tracks_sql(*query, Seq::empty())
                == Some((p.count_sql@, p.rows_sql@, params_view(p.params@))),
        },
{
    let limit = clamp(query.limit, 500, 100);
    let offset = page_offset(query.offset);
    if let Some(search) = present(&query.search) {
        let fts = fts_query(search);
        if fts.as_str().is_empty() {
            return (limit, offset, TracksPlan::NoWords);
        }
        let count = chars_of("SELECT COUNT(*) AS c FROM tracks_fts WHERE tracks_fts MATCH @fts");
        let mut rows = chars_of("SELECT ");
        push_str(&mut rows, "t.id, t.title, t.artist, t.album, t.album_artist, t.genre, t.duration, t.track_no, t.disc_no, t.year, t.art_hash");
        push_str(&mut rows, " FROM tracks t\n         JOIN tracks_fts f ON f.rowid = t.id\n         WHERE tracks_fts MATCH @fts\n         ORDER BY rank\n         LIMIT @limit OFFSET @offset");
        let mut params: Vec<(String, String)> = Vec::new();
        params.push(text_param("@fts", fts.as_str()));
        assert(params_view(params@) =~= seq![("@fts"@, fts@)]);
        let plan = SqlPlan {
            count_sql: string_of(count.as_slice()),
            rows_sql: string_of(rows.as_slice()),
            params,
        };
        return (limit, offset, TracksPlan::Run(plan));
    }
    let mut filter: Vec<char> = Vec::new();
    let mut params: Vec<(String, String)> = Vec::new();
    let order: &str;
    if let Some(album) = present(&query.album) {
        push_str(&mut filter, "album = @album COLLATE NOCASE");
        params.push(text_param("@album", album));
        if let Some(aa) = present(&query.album_artist) {
            push_str(&mut filter, " AND COALESCE(album_artist, artist) = @aa COLLATE NOCASE");
            params.push(text_param("@aa", aa));
        }
        order = "disc_no, track_no, title COLLATE NOCASE";
    } else if let Some(artist) = present(&query.artist) {
        push_str(&mut filter, "(artist = @artist COLLATE NOCASE OR album_artist = @artist COLLATE NOCASE)");
        params.push(text_param("@artist", artist));
        if query.no_album == Some(true) {
            push_str(&mut filter, " AND (album IS NULL OR album = '')");
            order = "title COLLATE NOCASE";
        } else {
            order = "album COLLATE NOCASE, disc_no, track_no, title COLLATE NOCASE";
        }
    } else {
        order = "artist COLLATE NOCASE, album COLLATE NOCASE, disc_no, track_no, title COLLATE NOCASE";
    }
    let mut where_sql: Vec<char> = Vec::new();
    if filter.len() > 0 {
        push_str(&mut where_sql, "WHERE ");
        push_all(&mut where_sql, filter.as_slice());
    }
    let mut count = chars_of("SELECT COUNT(*) AS c FROM tracks ");
    push_all(&mut count, where_sql.as_slice());
    let mut rows = chars_of("SELECT ");
    push_str(&mut rows, "t.id, t.title, t.artist, t.album, t.album_artist, t.genre, t.duration, t.track_no, t.disc_no, t.year, t.art_hash");
    push_str(&mut rows, " FROM tracks t ");
    push_all(&mut rows, where_sql.as_slice());
    push_str(&mut rows, " ORDER BY ");
    push_str(&mut rows, order);
    push_str(&mut rows, " LIMIT @limit OFFSET @offset");
    let ghost b = browse(*query);
    assert(filter@ == b.0);
    assert(params_view(params@) =~= b.1);
    assert(order@ == b.2);
    let plan = SqlPlan {
        count_sql: string_of(count.as_slice()),
        rows_sql: string_of(rows.as_slice()),
        params,
    };
    (limit, offset, TracksPlan::Run(plan))
}


/// The canonical decomposition (NFD) of a text: `unicode_normalization`'s `nfd`.
pub uninterp spec fn canonical_decomposition(text: Seq<char>) -> Seq<char>;

/// `text.nfd()`, from the `unicode_normalization` crate: the text's canonical decomposition,
/// one character at a time.
#[verifier::external_body]
fn decompose(text: &str) -> (r: Vec<char>)
    ensures
        r@ == canonical_decomposition(text@),
{
    text.nfd().collect()
}

/// A text in upper case, by Unicode's case mapping: std's `str::to_uppercase`.
pub uninterp spec fn upper_case(text: Seq<char>) -> Seq<char>;

/// `str::to_uppercase`: the text with each character mapped to its Unicode upper case
/// (which may be more than one character, as `ß` becomes `SS`).
#[verifier::external_body]
fn to_upper(text: &str) -> (r: String)
    ensures
        r@ == upper_case(text@),
{
    text.to_uppercase()
}

/// A combining diacritical mark, U+0300 to U+036F: what's left of an accent after
/// decomposition.
pub open spec fn is_mark(c: char) -> bool {
    '\u{300}' <= c && c <= '\u{36f}'
}

/// The text without combining diacritical marks.
pub open spec fn unmarked(s: Seq<char>) -> Seq<char>
    decreases s.len(),
{
    if s.len() == 0 {
        s
    } else if is_mark(s.last()) {
        unmarked(s.drop_last())
    } else {
        unmarked(s.drop_last()).push(s.last())
    }
}

/// The A–Z index bucket for an artist's first character: its letter with accents folded
/// away, or `#` for digits, symbols, other scripts, and anything that upper-cases to more
/// than one character.
pub open spec fn bucket(initial: Seq<char>) -> Seq<char> {
    let folded = upper_case(unmarked(canonical_decomposition(initial)));
    if folded.len() == 1 && 'A' <= folded[0] && folded[0] <= 'Z' {
        folded
    } else {
        "#"@
    }
}

/// The A–Z index bucket for an artist's first character: its letter with accents folded
/// away (Ä becomes A), or `#` for digits, symbols and other scripts. SQLite's `upper()` only
/// knows ASCII, so this happens here rather than in SQL. Every bucket is one capital letter
/// A to Z, or `#`.
pub fn initial_bucket(initial: &str) -> (r: String)
    ensures
        r@ == bucket(initial@),
        r@ == "#"@ || (r@.len() == 1 && 'A' <= r@[0] && r@[0] <= 'Z'),
{
    let d = decompose(initial);
    let mut kept: Vec<char> = Vec::new();
    let mut i: usize = 0;
    while i < d.len()
        invariant
            i <= d@.len(),
            kept@ == unmarked(d@.take(i as int)),
        decreases d@.len() - i,
    {
        assert(d@.take(i as int + 1).drop_last() =~= d@.take(i as int));
        let c = d[i];
        if !('\u{300}' <= c && c <= '\u{36f}') {
            kept.push(c);
        }
        i = i + 1;
    }
    assert(d@.take(d@.len() as int) =~= d@);
    let text = string_of(kept.as_slice());
    let upper = to_upper(text.as_str());
    let u = chars_of(upper.as_str());
    if u.len() == 1 && 'A' <= u[0] && u[0] <= 'Z' {
        upper
    } else {
        let h = chars_of("#");
        proof { reveal_strlit("#"); }
        string_of(h.as_slice())
    }
}

/// The index's entries in order: A to Z, then `#`.
pub open spec fn index_entry(i: int) -> Seq<char> {
    if i < 26 { seq![(65 + i) as char] } else { "#"@ }
}

/// The index entries from the `i`th on that some bucket holds.
pub open spec fn letters_from(buckets: Seq<Seq<char>>, i: int) -> Seq<Seq<char>>
    decreases 27 - i,
{
    if i >= 27 || i < 0 {
        Seq::empty()
    } else if buckets.contains(index_entry(i)) {
        seq![index_entry(i)] + letters_from(buckets, i + 1)
    } else {
        letters_from(buckets, i + 1)
    }
}

/// The buckets of some initials.
pub open spec fn buckets_of(initials: Seq<Seq<char>>) -> Seq<Seq<char>> {
    initials.map_values(|c: Seq<char>| bucket(c))
}

/// The texts of some strings.
pub open spec fn texts_of(v: Seq<String>) -> Seq<Seq<char>> {
    v.map_values(|s: String| s@)
}

fn index_entry_exec(i: u32) -> (r: String)
    requires
        i < 27,
    ensures
        r@ == index_entry(i as int),
{
    let mut v: Vec<char> = Vec::new();
    if i < 26 {
        v.push(((65 + i) as u8) as char);
        assert(v@ =~= seq![(65 + i) as char]);
    } else {
        v.push('#');
        proof { reveal_strlit("#"); }
        assert(v@ =~= "#"@);
    }
    string_of(v.as_slice())
}

/// The letters of the artist index that the library's initials fill: A to Z, then `#` last.
pub fn index_letters(buckets: &Vec<String>) -> (r: Vec<String>)
    ensures
        texts_of(r@) == letters_from(texts_of(buckets@), 0),
{
    let ghost bs = texts_of(buckets@);
    let mut out: Vec<String> = Vec::new();
    let mut i: u32 = 27;
    assert(texts_of(out@) =~= letters_from(bs, 27));
    while i > 0
        invariant
            i <= 27,
            bs == texts_of(buckets@),
            texts_of(out@) == letters_from(bs, i as int),
        decreases i,
    {
        i = i - 1;
        let e = index_entry_exec(i);
        if crate::text::contains_text(buckets, e.as_str()) {
            let mut next: Vec<String> = Vec::new();
            next.push(e);
            let ghost rest = texts_of(out@);
            next.append(&mut out);
            out = next;
            assert(texts_of(out@) =~= seq![index_entry(i as int)] + rest);
        }
        proof {
            assert(crate::text::texts(buckets@) == bs);
        }
    }
    out
}

/// The positions in the index (0 to 25 for A to Z, 26 for `#`) of the entries
/// `letters_from(buckets, i)` lists.
pub open spec fn letter_positions(buckets: Seq<Seq<char>>, i: int) -> Seq<int>
    decreases 27 - i,
{
    if i >= 27 || i < 0 {
        Seq::empty()
    } else if buckets.contains(index_entry(i)) {
        seq![i] + letter_positions(buckets, i + 1)
    } else {
        letter_positions(buckets, i + 1)
    }
}

proof fn lemma_letters_from(buckets: Seq<Seq<char>>, i: int)
    requires
        0 <= i <= 27,
    ensures
        ({
            let l = letters_from(buckets, i);
            let pos = letter_positions(buckets, i);
            &&& pos.len() == l.len()
            &&& forall|k: int| 0 <= k < l.len() ==> i <= #[trigger] pos[k] < 27
                && l[k] == index_entry(pos[k]) && buckets.contains(l[k])
            &&& forall|a: int, b: int| 0 <= a < b < pos.len() ==> #[trigger] pos[a] < #[trigger] pos[b]
            &&& forall|m: int| i <= m < 27 && buckets.contains(index_entry(m)) ==> pos.contains(m)
        }),
    decreases 27 - i,
{
    if i < 27 {
        lemma_letters_from(buckets, i + 1);
        let rest = letter_positions(buckets, i + 1);
        if buckets.contains(index_entry(i)) {
            let pos = letter_positions(buckets, i);
            let l = letters_from(buckets, i);
            assert(pos == seq![i] + rest);
            assert forall|k: int| 0 <= k < l.len() implies i <= #[trigger] pos[k] < 27
                && l[k] == index_entry(pos[k]) && buckets.contains(l[k]) by {
                if k > 0 {
                    assert(pos[k] == rest[k - 1]);
                    assert(l[k] == letters_from(buckets, i + 1)[k - 1]);
                }
            }
            assert forall|a: int, b: int| 0 <= a < b < pos.len() implies #[trigger] pos[a] < #[trigger] pos[b] by {
                assert(pos[b] == rest[b - 1]);
                if a > 0 {
                    assert(pos[a] == rest[a - 1]);
                }
            }
            assert forall|m: int| i <= m < 27 && buckets.contains(index_entry(m)) implies pos.contains(m) by {
                if m == i {
                    assert(pos[0] == i);
                } else {
                    assert(i + 1 <= m < 27 && buckets.contains(index_entry(m)));
                    assert(rest.contains(m));
                    let k = choose|k: int| 0 <= k < rest.len() && rest[k] == m;
                    assert(pos[k + 1] == rest[k]);
                    assert(pos[k + 1] == m);
                }
            }
        }
    }
}

/// The artist index runs A to Z, then `#`, each entry once: every letter listed is one
/// some artist's initial falls in (entry `m` is the letter `'A' + m` for `m` below 26, and
/// `#` for 26), listed in index order, and every entry some initial falls in is listed.
pub proof fn artist_index_runs_a_to_z_then_hash(buckets: Seq<Seq<char>>)
    ensures
        ({
            let l = letters_from(buckets, 0);
            let pos = letter_positions(buckets, 0);
            &&& pos.len() == l.len()
            &&& forall|k: int| 0 <= k < l.len() ==> 0 <= #[trigger] pos[k] < 27
                && l[k] == index_entry(pos[k]) && buckets.contains(l[k])
            &&& forall|a: int, b: int| 0 <= a < b < pos.len() ==> #[trigger] pos[a] < #[trigger] pos[b]
            &&& forall|m: int| 0 <= m < 27 && buckets.contains(index_entry(m)) ==> pos.contains(m)
        }),
{
    lemma_letters_from(buckets, 0);
}

/// The initials that fall in `letter`'s bucket, in their order.
pub open spec fn initials_in(initials: Seq<Seq<char>>, letter: Seq<char>) -> Seq<Seq<char>>
    decreases initials.len(),
{
    if initials.len() == 0 {
        Seq::empty()
    } else if bucket(initials.last()) == letter {
        initials_in(initials.drop_last(), letter).push(initials.last())
    } else {
        initials_in(initials.drop_last(), letter)
    }
}


/// The bucket of each initial.
pub fn initial_buckets(initials: &Vec<String>) -> (r: Vec<String>)
    ensures
        texts_of(r@) == buckets_of(texts_of(initials@)),
{
    let mut out: Vec<String> = Vec::new();
    let mut i: usize = 0;
    while i < initials.len()
        invariant
            i <= initials@.len(),
            texts_of(out@) == buckets_of(texts_of(initials@)).take(i as int),
        decreases initials@.len() - i,
    {
        let b = initial_bucket(initials[i].as_str());
        let ghost before = out@;
        out.push(b);
        assert(texts_of(initials@)[i as int] == initials@[i as int]@);
        assert(buckets_of(texts_of(initials@))[i as int] == b@);
        assert(texts_of(out@) =~= texts_of(before).push(b@));
        assert(texts_of(out@) =~= buckets_of(texts_of(initials@)).take(i as int + 1));
        i = i + 1;
    }
    assert(buckets_of(texts_of(initials@)).take(initials@.len() as int) =~= buckets_of(texts_of(initials@)));
    out
}

/// The initials whose bucket (given alongside) is `letter`, in order.
pub fn initials_for(initials: &Vec<String>, buckets: &Vec<String>, letter: &str) -> (r: Vec<String>)
    requires
        texts_of(buckets@) == buckets_of(texts_of(initials@)),
    ensures
        texts_of(r@) == initials_in(texts_of(initials@), letter@),
{
    let ghost ins = texts_of(initials@);
    let mut out: Vec<String> = Vec::new();
    let mut i: usize = 0;
    assert(texts_of(out@) =~= initials_in(ins.take(0), letter@));
    assert(buckets@.len() == texts_of(buckets@).len());
    while i < initials.len()
        invariant
            i <= initials@.len(),
            buckets@.len() == initials@.len(),
            ins == texts_of(initials@),
            texts_of(buckets@) == buckets_of(ins),
            texts_of(out@) == initials_in(ins.take(i as int), letter@),
        decreases initials@.len() - i,
    {
        assert(ins.take(i as int + 1).drop_last() =~= ins.take(i as int));
        assert(buckets@[i as int]@ == texts_of(buckets@)[i as int]);
        assert(buckets_of(ins)[i as int] == bucket(ins[i as int]));
        assert(ins.take(i as int + 1).last() == ins[i as int]);
        if crate::text::same_text(buckets[i].as_str(), letter) {
            let ghost before = out@;
            let c = initials[i].clone();
            out.push(c);
            assert(texts_of(out@) =~= texts_of(before).push(ins[i as int]));
        }
        i = i + 1;
    }
    assert(ins.take(initials@.len() as int) =~= ins);
    out
}

/// `@c0, @c1, …` for `n` initials.
pub open spec fn placeholders(n: nat) -> Seq<char>
    decreases n,
{
    if n == 0 {
        Seq::empty()
    } else if n == 1 {
        "@c"@ + decimal(0)
    } else {
        placeholders((n - 1) as nat) + ", "@ + "@c"@ + decimal((n - 1) as nat)
    }
}

/// The initials as parameters `@c0`, `@c1`, ….
pub open spec fn initial_params(initials: Seq<Seq<char>>) -> Seq<(Seq<char>, Seq<char>)> {
    Seq::new(initials.len(), |i: int| ("@c"@ + decimal(i as nat), initials[i]))
}

/// The letter asked for, trimmed and upper-cased, if anything is left.
pub open spec fn letter_asked(letter: Option<String>) -> Option<Seq<char>> {
    match letter {
        Some(l) if upper_case(js_trim(l@)).len() > 0 => Some(upper_case(js_trim(l@))),
        _ => None,
    }
}

/// `%search%` as a parameter.
pub open spec fn like_param(search: Seq<char>) -> (Seq<char>, Seq<char>) {
    ("@like"@, "%"@ + search + "%"@)
}

/// The filter and parameters of `/api/artists` before any letter: named artists, and those
/// matching the search.
pub open spec fn searched_artists(query: ArtistsQuery) -> (Seq<char>, Seq<(Seq<char>, Seq<char>)>) {
    let base = "artist IS NOT NULL AND artist <> ''"@;
    match present_text(query.search) {
        Some(s) => (base + " AND artist LIKE @like"@, seq![like_param(s)]),
        None => (base, Seq::empty()),
    }
}

/// The filter and parameters of `/api/artists` for the initials of a letter, or `None` when
/// the letter asked for has no initials.
pub open spec fn artists_filter(query: ArtistsQuery, initials: Seq<Seq<char>>) -> Option<(Seq<char>, Seq<(Seq<char>, Seq<char>)>)> {
    let (f1, p1) = searched_artists(query);
    match letter_asked(query.letter) {
        None => Some((f1, p1)),
        Some(l) => {
            let ins = initials_in(initials, l);
            if ins.len() == 0 {
                None
            } else {
                Some((f1 + " AND substr(artist, 1, 1) IN ("@ + placeholders(ins.len()) + ")"@,
                    p1 + initial_params(ins)))
            }
        },
    }
}

proof fn lemma_bucket_is_an_entry(initial: Seq<char>)
    ensures
        exists|m: int| 0 <= m < 27 && bucket(initial) == index_entry(m),
{
    let folded = upper_case(unmarked(canonical_decomposition(initial)));
    if folded.len() == 1 && 'A' <= folded[0] && folded[0] <= 'Z' {
        let m = folded[0] as int - 65;
        assert((65 + m) as char == folded[0]);
        assert(index_entry(m) =~= folded);
    } else {
        assert(bucket(initial) == index_entry(26));
    }
}

proof fn lemma_initials_in_bucket(initials: Seq<Seq<char>>, letter: Seq<char>)
    ensures
        initials_in(initials, letter).len() > 0 ==> buckets_of(initials).contains(letter),
    decreases initials.len(),
{
    if initials.len() > 0 {
        let init = initials.drop_last();
        lemma_initials_in_bucket(init, letter);
        assert(buckets_of(init) =~= buckets_of(initials).drop_last());
        if bucket(initials.last()) == letter {
            assert(buckets_of(initials)[initials.len() - 1] == letter);
        } else if initials_in(init, letter).len() > 0 {
            let k = choose|k: int| 0 <= k < buckets_of(init).len() && buckets_of(init)[k] == letter;
            assert(buckets_of(initials)[k] == letter);
        }
    }
}

/// A letter the index doesn't list has no artists: asking for it gives no rows (`None`), as
/// the initials that fall in it are none.
pub proof fn unlisted_letters_have_no_artists(query: ArtistsQuery, initials: Seq<Seq<char>>)
    requires
        letter_asked(query.letter) matches Some(l) && !letters_from(buckets_of(initials), 0).contains(l),
    ensures
        artists_filter(query, initials) is None,
{
    let l = letter_asked(query.letter).unwrap();
    lemma_initials_in_bucket(initials, l);
    if initials_in(initials, l).len() > 0 {
        let b = buckets_of(initials);
        let k = choose|k: int| 0 <= k < b.len() && b[k] == l;
        assert(b[k] == bucket(initials[k]));
        lemma_bucket_is_an_entry(initials[k]);
        let m = choose|m: int| 0 <= m < 27 && bucket(initials[k]) == index_entry(m);
        artist_index_runs_a_to_z_then_hash(b);
        assert(b.contains(index_entry(m)));
        let pos = letter_positions(b, 0);
        assert(pos.contains(m));
        let j = choose|j: int| 0 <= j < pos.len() && pos[j] == m;
        assert(letters_from(b, 0)[j] == l);
    }
}

/// The SQL of `/api/artists` for a filter.
pub open spec fn artists_sql(filter: Seq<char>) -> (Seq<char>, Seq<char>) {
    (
        "SELECT COUNT(*) AS c FROM (SELECT 1 FROM tracks WHERE "@ + filter + " GROUP BY artist COLLATE NOCASE)"@,
        "SELECT artist, COUNT(*) AS trackCount, COUNT(DISTINCT album) AS albumCount\n       FROM tracks WHERE "@
            + filter + "\n       GROUP BY artist COLLATE NOCASE\n       ORDER BY artist COLLATE NOCASE\n       LIMIT @limit OFFSET @offset"@,
    )
}

/// What `/api/artists` runs, given the library's initials (the distinct nonempty first
/// characters of artists): the page (`limit` between 1 and 1000, 200 by default; `offset` at
/// least 0), the index letters present, and the SQL, or `None` when the letter asked for has
/// no artists.
pub fn plan_artists(query: &ArtistsQuery, initials: &Vec<String>) -> (r: (i64, i64, Vec<String>, Option<SqlPlan>))
    ensures
        r.0 == clamped(query.limit, 1000, 200),
        r.1 == match query.offset { None => 0, Some(o) => if o < 0 { 0 } else { o } },
        texts_of(r.2@) == letters_from(buckets_of(texts_of(initials@)), 0),
        match artists_filter(*query, texts_of(initials@)) {
            None => r.3 is None,
            Some((filter, params)) => r.3 matches Some(p) && (p.count_sql@, p.rows_sql@) == artists_sql(filter)
                && params_view(p.params@) == params,
        },
{
    let limit = clamp(query.limit, 1000, 200);
    let offset = page_offset(query.offset);
    let buckets = initial_buckets(initials);
    let letters = index_letters(&buckets);
    let mut filter = chars_of("artist IS NOT NULL AND artist <> ''");
    let mut params: Vec<(String, String)> = Vec::new();
    if let Some(search) = present(&query.search) {
        push_str(&mut filter, " AND artist LIKE @like");
        let mut like = chars_of("%");
        push_str(&mut like, search);
        push_str(&mut like, "%");
        let l = string_of(like.as_slice());
        params.push(text_param("@like", l.as_str()));
    }
    assert(params_view(params@) =~= searched_artists(*query).1);
    assert(filter@ == searched_artists(*query).0);
    if let Some(l) = &query.letter {
        let letter = to_upper(trim(l.as_str()));
        if !letter.as_str().is_empty() {
            let ins = initials_for(initials, &buckets, letter.as_str());
            if ins.len() == 0 {
                return (limit, offset, letters, None);
            }
            push_str(&mut filter, " AND substr(artist, 1, 1) IN (");
            let ghost p1 = params_view(params@);
            let ghost insv = texts_of(ins@);
            let mut k: usize = 0;
            while k < ins.len()
                invariant
                    k <= ins@.len(),
                    insv == texts_of(ins@),
                    k > 0 ==> filter@ == searched_artists(*query).0 + " AND substr(artist, 1, 1) IN ("@ + placeholders(k as nat),
                    k == 0 ==> filter@ == searched_artists(*query).0 + " AND substr(artist, 1, 1) IN ("@,
                    params_view(params@) == p1 + initial_params(insv.take(k as int)),
                decreases ins@.len() - k,
            {
                if k > 0 {
                    push_str(&mut filter, ", ");
                }
                let mut name = chars_of("@c");
                let digits = u64_decimal(k as u64);
                push_all(&mut name, digits.as_slice());
                let ghost before_filter = filter@;
                push_all(&mut filter, name.as_slice());
                proof {
                    if k > 0 {
                        assert(filter@ =~= searched_artists(*query).0 + " AND substr(artist, 1, 1) IN ("@ + placeholders(k as nat + 1));
                    } else {
                        assert(filter@ =~= searched_artists(*query).0 + " AND substr(artist, 1, 1) IN ("@ + placeholders(1));
                    }
                }
                let n = string_of(name.as_slice());
                let ghost before_params = params@;
                let p = text_param(n.as_str(), ins[k].as_str());
                params.push(p);
                proof {
                    assert(insv[k as int] == ins@[k as int]@);
                    assert(p.0@ == "@c"@ + decimal(k as nat));
                    assert(params_view(params@) =~= params_view(before_params).push((p.0@, p.1@)));
                    assert(initial_params(insv.take(k as int + 1)) =~= initial_params(insv.take(k as int)).push(("@c"@ + decimal(k as nat), insv[k as int])));
                    assert(params_view(params@) =~= p1 + initial_params(insv.take(k as int + 1)));
                }
                k = k + 1;
            }
            push_str(&mut filter, ")");
            assert(insv.take(ins@.len() as int) =~= insv);
        }
    }
    let mut count = chars_of("SELECT COUNT(*) AS c FROM (SELECT 1 FROM tracks WHERE ");
    push_all(&mut count, filter.as_slice());
    push_str(&mut count, " GROUP BY artist COLLATE NOCASE)");
    let mut rows = chars_of("SELECT artist, COUNT(*) AS trackCount, COUNT(DISTINCT album) AS albumCount\n       FROM tracks WHERE ");
    push_all(&mut rows, filter.as_slice());
    push_str(&mut rows, "\n       GROUP BY artist COLLATE NOCASE\n       ORDER BY artist COLLATE NOCASE\n       LIMIT @limit OFFSET @offset");
    let plan = SqlPlan {
        count_sql: string_of(count.as_slice()),
        rows_sql: string_of(rows.as_slice()),
        params,
    };
    (limit, offset, letters, Some(plan))
}


/// The filter and parameters of `/api/albums`: named albums, those matching the search on
/// album or album artist, and those by the artist asked for.
pub open spec fn albums_filter(query: AlbumsQuery) -> (Seq<char>, Seq<(Seq<char>, Seq<char>)>) {
    let base = "album IS NOT NULL AND album <> ''"@;
    let (f1, p1) = match present_text(query.search) {
        Some(s) => (base + " AND (album LIKE @like OR COALESCE(album_artist, artist) LIKE @like)"@, seq![like_param(s)]),
        None => (base, Seq::empty()),
    };
    match present_text(query.artist) {
        Some(a) => (f1 + " AND (artist = @artist COLLATE NOCASE OR album_artist = @artist COLLATE NOCASE)"@,
            p1.push(("@artist"@, a))),
        None => (f1, p1),
    }
}

/// The SQL of `/api/albums` for a filter: albums grouped by title and album artist, oldest
/// first.
pub open spec fn albums_sql(filter: Seq<char>) -> (Seq<char>, Seq<char>) {
    (
        "SELECT COUNT(*) AS c FROM (\n           SELECT 1 FROM tracks WHERE "@ + filter
            + "\n           GROUP BY album COLLATE NOCASE, COALESCE(album_artist, artist) COLLATE NOCASE)"@,
        "SELECT album,\n              COALESCE(album_artist, artist) AS artist,\n              COUNT(*) AS trackCount,\n              MAX(art_hash) AS artHash,\n              MAX(year) AS year\n       FROM tracks WHERE "@
            + filter
            + "\n       GROUP BY album COLLATE NOCASE, COALESCE(album_artist, artist) COLLATE NOCASE\n       ORDER BY year, album COLLATE NOCASE\n       LIMIT @limit OFFSET @offset"@,
    )
}

/// What `/api/albums` runs: the page (`limit` between 1 and 1000, 200 by default; `offset`
/// at least 0) and the SQL.
pub fn plan_albums(query: &AlbumsQuery) -> (r: (i64, i64, SqlPlan))
    ensures
        r.0 == clamped(query.limit, 1000, 200),
        r.1 == match query.offset { None => 0, Some(o) => if o < 0 { 0 } else { o } },
        (r.2.count_sql@, r.2.rows_sql@) == albums_sql(albums_filter(*query).0),
        params_view(r.2.params@) == albums_filter(*query).1,
{
    let limit = clamp(query.limit, 1000, 200);
    let offset = page_offset(query.offset);
    let mut filter = chars_of("album IS NOT NULL AND album <> ''");
    let mut params: Vec<(String, String)> = Vec::new();
    if let Some(search) = present(&query.search) {
        push_str(&mut filter, " AND (album LIKE @like OR COALESCE(album_artist, artist) LIKE @like)");
        let mut like = chars_of("%");
        push_str(&mut like, search);
        push_str(&mut like, "%");
        let l = string_of(like.as_slice());
        params.push(text_param("@like", l.as_str()));
    }
    if let Some(artist) = present(&query.artist) {
        push_str(&mut filter, " AND (artist = @artist COLLATE NOCASE OR album_artist = @artist COLLATE NOCASE)");
        params.push(text_param("@artist", artist));
    }
    assert(params_view(params@) =~= albums_filter(*query).1);
    let mut count = chars_of("SELECT COUNT(*) AS c FROM (\n           SELECT 1 FROM tracks WHERE ");
    push_all(&mut count, filter.as_slice());
    push_str(&mut count, "\n           GROUP BY album COLLATE NOCASE, COALESCE(album_artist, artist) COLLATE NOCASE)");
    let mut rows = chars_of("SELECT album,\n              COALESCE(album_artist, artist) AS artist,\n              COUNT(*) AS trackCount,\n              MAX(art_hash) AS artHash,\n              MAX(year) AS year\n       FROM tracks WHERE ");
    push_all(&mut rows, filter.as_slice());
    push_str(&mut rows, "\n       GROUP BY album COLLATE NOCASE, COALESCE(album_artist, artist) COLLATE NOCASE\n       ORDER BY year, album COLLATE NOCASE\n       LIMIT @limit OFFSET @offset");
    let plan = SqlPlan {
        count_sql: string_of(count.as_slice()),
        rows_sql: string_of(rows.as_slice()),
        params,
    };
    (limit, offset, plan)
}

/// The SQL that reads one track by id (`?`).
pub fn track_by_id_sql() -> (r: String)
    ensures
        r@ == "SELECT "@ + track_columns() + " FROM tracks t WHERE id = ?"@,
{
    let mut v = chars_of("SELECT ");
    push_str(&mut v, "t.id, t.title, t.artist, t.album, t.album_artist, t.genre, t.duration, t.track_no, t.disc_no, t.year, t.art_hash");
    push_str(&mut v, " FROM tracks t WHERE id = ?");
    string_of(v.as_slice())
}

} // verus!
