//! The admin panel's CSV download of the whole library: a byte-order mark so spreadsheet
//! programs read accents as UTF-8, a header row, then one RFC 4180 row per track, every
//! line ending in CRLF. Reading the rows is the caller's; each cell comes as its text, or
//! none for NULL.

use vstd::prelude::*;

use crate::text::{chars_of, push_all, push_str, string_of};

verus! {

/// The columns, in order.
pub open spec fn csv_header() -> Seq<char> {
    "id,title,artist,album,albumArtist,genre,year,trackNo,discNo,duration,path,addedAt"@
}

/// The SQL that reads the rows, in the order they are written.
pub fn export_sql() -> (r: &'static str)
    ensures
        r@ == "SELECT id, title, artist, album, album_artist AS albumArtist, genre, year,\n              track_no AS trackNo, disc_no AS discNo, duration, path, added_at AS addedAt\n         FROM tracks\n        ORDER BY artist COLLATE NOCASE, album COLLATE NOCASE, disc_no, track_no, title COLLATE NOCASE"@,
{
    "SELECT id, title, artist, album, album_artist AS albumArtist, genre, year,\n              track_no AS trackNo, disc_no AS discNo, duration, path, added_at AS addedAt\n         FROM tracks\n        ORDER BY artist COLLATE NOCASE, album COLLATE NOCASE, disc_no, track_no, title COLLATE NOCASE"
}

/// Whether a cell's text must be quoted: it holds a quote, comma or line break.
pub open spec fn needs_quotes(t: Seq<char>) -> bool {
    exists|i: int| 0 <= i < t.len() && (t[i] == '"' || t[i] == ',' || t[i] == '\r' || t[i] == '\n')
}

/// The text with each quote doubled.
pub open spec fn doubled_quotes(t: Seq<char>) -> Seq<char>
    decreases t.len(),
{
    if t.len() == 0 {
        t
    } else if t.last() == '"' {
        doubled_quotes(t.drop_last()) + "\"\""@
    } else {
        doubled_quotes(t.drop_last()).push(t.last())
    }
}

/// `csvCell(String(value))`: empty for NULL, quoted when it holds a quote, comma or line
/// break, with quotes doubled.
pub open spec fn csv_cell(value: Option<Seq<char>>) -> Seq<char> {
    match value {
        None => Seq::empty(),
        Some(t) => if needs_quotes(t) { "\""@ + doubled_quotes(t) + "\""@ } else { t },
    }
}

/// One cell of the CSV.
pub fn cell(value: &Option<String>) -> (r: Vec<char>)
    ensures
        r@ == csv_cell(match value { Some(t) => Some(t@), None => None }),
{
    let t = match value {
        None => return Vec::new(),
        Some(t) => chars_of(t.as_str()),
    };
    let mut quote = false;
    let mut q: Vec<char> = Vec::new();
    let mut i: usize = 0;
    while i < t.len()
        invariant
            i <= t@.len(),
            quote == exists|j: int| 0 <= j < i && (t@[j] == '"' || t@[j] == ',' || t@[j] == '\r' || t@[j] == '\n'),
            q@ == doubled_quotes(t@.take(i as int)),
        decreases t@.len() - i,
    {
        let c = t[i];
        assert(t@.take(i as int + 1).drop_last() =~= t@.take(i as int));
        if c == '"' || c == ',' || c == '\r' || c == '\n' {
            quote = true;
        }
        if c == '"' {
            push_str(&mut q, "\"\"");
        } else {
            q.push(c);
        }
        i = i + 1;
    }
    assert(t@.take(t@.len() as int) =~= t@);
    if quote {
        let mut out = chars_of("\"");
        push_all(&mut out, q.as_slice());
        push_str(&mut out, "\"");
        out
    } else {
        t
    }
}

/// Cells joined with commas.
pub open spec fn csv_line(cells: Seq<Option<Seq<char>>>) -> Seq<char>
    decreases cells.len(),
{
    if cells.len() == 0 {
        Seq::empty()
    } else if cells.len() == 1 {
        csv_cell(cells[0])
    } else {
        csv_line(cells.drop_last()) + ","@ + csv_cell(cells.last())
    }
}

/// The cells of a row, as text.
pub open spec fn row_view(row: Seq<Option<String>>) -> Seq<Option<Seq<char>>> {
    row.map_values(|c: Option<String>| match c { Some(t) => Some(t@), None => None })
}

/// The rows written one after another, each ending in CRLF.
pub open spec fn csv_rows(rows: Seq<Vec<Option<String>>>) -> Seq<char>
    decreases rows.len(),
{
    if rows.len() == 0 {
        Seq::empty()
    } else {
        csv_rows(rows.drop_last()) + csv_line(row_view(rows.last()@)) + "\r\n"@
    }
}

/// The export file's contents: the byte-order mark, the header row, then the rows.
pub fn library_csv(rows: &Vec<Vec<Option<String>>>) -> (r: String)
    ensures
        r@ == "\u{feff}"@ + csv_header() + "\r\n"@ + csv_rows(rows@),
{
    let mut out = chars_of("\u{feff}");
    push_str(&mut out, "id,title,artist,album,albumArtist,genre,year,trackNo,discNo,duration,path,addedAt");
    push_str(&mut out, "\r\n");
    let ghost head = out@;
    let mut i: usize = 0;
    assert(head + csv_rows(rows@.take(0)) =~= head);
    while i < rows.len()
        invariant
            i <= rows@.len(),
            out@ == head + csv_rows(rows@.take(i as int)),
        decreases rows@.len() - i,
    {
        let row = &rows[i];
        let ghost before = out@;
        let mut j: usize = 0;
        while j < row.len()
            invariant
                j <= row@.len(),
                out@ == before + csv_line(row_view(row@).take(j as int)),
            decreases row@.len() - j,
        {
            if j > 0 {
                push_str(&mut out, ",");
            }
            let c = cell(&row[j]);
            push_all(&mut out, c.as_slice());
            proof {
                let rv = row_view(row@);
                assert(rv.take(j as int + 1).drop_last() =~= rv.take(j as int));
                assert(rv[j as int] == match row@[j as int] { Some(t) => Some(t@), None => None });
                if j == 0 {
                    assert(out@ =~= before + csv_line(rv.take(1)));
                } else {
                    assert(out@ =~= before + csv_line(rv.take(j as int + 1)));
                }
            }
            j = j + 1;
        }
        assert(row_view(row@).take(row@.len() as int) =~= row_view(row@));
        push_str(&mut out, "\r\n");
        assert(rows@.take(i as int + 1).drop_last() =~= rows@.take(i as int));
        assert(out@ =~= head + csv_rows(rows@.take(i as int + 1)));
        i = i + 1;
    }
    assert(rows@.take(rows@.len() as int) =~= rows@);
    string_of(out.as_slice())
}

} // verus!
