//! The library folders: `libraryPaths` in the config, and the prefix the tracks under each
//! are counted by. Checking a folder on disk and saving the config happen around these.

use vstd::prelude::*;

use crate::config::ConfigError;
use crate::js::{js_trim, main_separator, posix_normalize, trim, win32_normalize};
use crate::text::{chars_of, owned, same_text, string_of, texts};

verus! {

/// Why a folder can't be added.
pub enum FolderError {
    /// Nothing but whitespace was given.
    Required,
    /// There is no directory at the path.
    NotFound,
    /// The directory can't be listed, and why.
    Unreadable { reason: String },
    /// The config couldn't be saved.
    Config(ConfigError),
}

/// `text` without the `sep` characters at its end.
pub open spec fn trim_end_sep(text: Seq<char>, sep: char) -> Seq<char>
    decreases text.len(),
{
    if text.len() > 0 && text.last() == sep {
        trim_end_sep(text.drop_last(), sep)
    } else {
        text
    }
}

/// A folder spelled the way the scanner spells paths on a platform with separator `sep`,
/// with exactly one trailing separator.
pub open spec fn prefix_on(path: Seq<char>, sep: char) -> Seq<char> {
    if sep == '\\' {
        trim_end_sep(win32_normalize(path), '\\').push('\\')
    } else {
        trim_end_sep(posix_normalize(path), '/').push('/')
    }
}

proof fn lemma_trim_end_sep(text: Seq<char>, sep: char)
    ensures
        trim_end_sep(text, sep).len() <= text.len(),
        trim_end_sep(text, sep) == text.take(trim_end_sep(text, sep).len() as int),
        trim_end_sep(text, sep).len() > 0 ==> trim_end_sep(text, sep).last() != sep,
    decreases text.len(),
{
    if text.len() > 0 && text.last() == sep {
        lemma_trim_end_sep(text.drop_last(), sep);
        let t = trim_end_sep(text.drop_last(), sep);
        assert(text.drop_last().take(t.len() as int) =~= text.take(t.len() as int));
    } else {
        assert(text.take(text.len() as int) =~= text);
    }
}

/// The folder with exactly one trailing separator, on a platform with separator `sep`.
pub fn folder_prefix_on(path: &str, sep: char) -> (r: String)
    ensures
        r@ == prefix_on(path@, sep),
{
    let v = chars_of(path);
    let s = if sep == '\\' { '\\' } else { '/' };
    let mut n = if sep == '\\' {
        crate::js::normalize_win32_chars(&v)
    } else {
        crate::js::normalize_posix_chars(&v)
    };
    let ghost normalized = n@;
    let mut len = n.len();
    assert(normalized.take(len as int) =~= normalized);
    while len > 0 && n[len - 1] == s
        invariant
            len <= n@.len(),
            n@ == normalized,
            trim_end_sep(normalized, s) == trim_end_sep(normalized.take(len as int), s),
        decreases len,
    {
        assert(normalized.take(len as int).drop_last() =~= normalized.take(len as int - 1));
        len = len - 1;
    }
    n.truncate(len);
    assert(n@ =~= normalized.take(len as int));
    n.push(s);
    string_of(n.as_slice())
}

/// The folder spelled the way the scanner spells the paths under it, with exactly one
/// trailing separator, so a stored trailing slash, or the lack of one, doesn't change which
/// tracks count as under it. The separator is this platform's.
pub fn folder_prefix(path: &str) -> (r: String)
    ensures
        exists|sep: char| (sep == '/' || sep == '\\') && r@ == prefix_on(path@, sep),
{
    let sep = main_separator();
    folder_prefix_on(path, sep)
}

/// A folder prefix ends in exactly one separator: the last character is the separator and
/// the one before it, if any, is not.
pub proof fn folder_prefix_ends_in_one_separator(path: Seq<char>, sep: char)
    requires
        sep == '/' || sep == '\\',
    ensures
        prefix_on(path, sep).last() == sep,
        prefix_on(path, sep).len() >= 2 ==> prefix_on(path, sep)[prefix_on(path, sep).len() - 2] != sep,
{
    if sep == '\\' {
        lemma_trim_end_sep(win32_normalize(path), '\\');
    } else {
        lemma_trim_end_sep(posix_normalize(path), '/');
    }
}

proof fn lemma_segments_ignore_trailing_slash(p: Seq<char>, allow_above_root: bool)
    ensures
        crate::js::normalized_segments(p.push('/'), '/', allow_above_root)
            == crate::js::normalized_segments(p, '/', allow_above_root),
{
    let q = p.push('/');
    assert(q.drop_last() =~= p);
    assert(crate::js::split_on(q, '/') == crate::js::split_on(p, '/').push(Seq::empty()));
    let segs = crate::js::split_on(p, '/');
    assert(segs.push(Seq::empty()).drop_last() =~= segs);
    assert(crate::js::resolve_segments(segs.push(Seq::empty()), allow_above_root)
        == crate::js::resolve_segments(segs, allow_above_root));
}

proof fn lemma_trim_end_sep_push(x: Seq<char>, sep: char)
    ensures
        trim_end_sep(x.push(sep), sep) == trim_end_sep(x, sep),
{
    assert(x.push(sep).drop_last() =~= x);
}

/// A stored trailing slash doesn't change a folder's prefix: `/srv/music/` counts the same
/// tracks as `/srv/music`.
pub proof fn trailing_slash_keeps_the_folder_prefix(path: Seq<char>)
    requires
        path.len() > 0,
    ensures
        prefix_on(path.push('/'), '/') == prefix_on(path, '/'),
{
    let q = path.push('/');
    assert(q[0] == path[0]);
    assert(q.last() == '/');
    let absolute = path[0] == '/';
    lemma_segments_ignore_trailing_slash(path, !absolute);
    let t0 = crate::js::normalized_segments(path, '/', !absolute);
    let t1 = if t0.len() == 0 && !absolute { seq!['.'] } else { t0 };
    let a: Seq<char> = if absolute { seq!['/'] } else { Seq::empty() };
    assert(posix_normalize(path) == a + (if t1.len() > 0 && path.last() == '/' { t1.push('/') } else { t1 }));
    assert(posix_normalize(q) == a + (if t1.len() > 0 { t1.push('/') } else { t1 }));
    assert((a + t1).push('/') =~= a + t1.push('/'));
    lemma_trim_end_sep_push(a + t1, '/');
}

/// The folder to add: trimmed, or `Required` when that leaves nothing.
pub fn folder_to_add(path: &str) -> (r: Result<String, FolderError>)
    ensures
        js_trim(path@).len() == 0 ==> r matches Err(FolderError::Required),
        js_trim(path@).len() > 0 ==> (r matches Ok(p) && p@ == js_trim(path@)),
{
    let clean = trim(path);
    if clean.is_empty() {
        Err(FolderError::Required)
    } else {
        Ok(owned(clean))
    }
}

/// The folder list with `folder` added at the end, unless it's already there. Also says
/// whether the list changed (and must be saved).
pub fn with_folder(current: Vec<String>, folder: &str) -> (r: (Vec<String>, bool))
    ensures
        texts(current@).contains(folder@) ==> !r.1 && texts(r.0@) == texts(current@),
        !texts(current@).contains(folder@) ==> r.1 && texts(r.0@) == texts(current@).push(folder@),
{
    if crate::text::contains_text(&current, folder) {
        (current, false)
    } else {
        let mut next = current;
        let ghost before = next@;
        next.push(owned(folder));
        assert(texts(next@) =~= texts(before).push(folder@));
        (next, true)
    }
}

/// The folders other than `path`, matched exactly, in their order.
pub open spec fn without(folders: Seq<Seq<char>>, path: Seq<char>) -> Seq<Seq<char>>
    decreases folders.len(),
{
    if folders.len() == 0 {
        folders
    } else if folders.last() == path {
        without(folders.drop_last(), path)
    } else {
        without(folders.drop_last(), path).push(folders.last())
    }
}

/// Removes a folder, matched exactly. Its tracks stay until the next scan prunes them.
pub fn without_folder(current: &Vec<String>, path: &str) -> (r: Vec<String>)
    ensures
        texts(r@) == without(texts(current@), path@),
        !texts(r@).contains(path@),
{
    let ghost all = texts(current@);
    let mut out: Vec<String> = Vec::new();
    let mut i: usize = 0;
    assert(texts(out@) =~= without(all.take(0), path@));
    while i < current.len()
        invariant
            i <= current@.len(),
            all == texts(current@),
            texts(out@) == without(all.take(i as int), path@),
            !texts(out@).contains(path@),
        decreases current@.len() - i,
    {
        assert(all.take(i as int + 1).drop_last() =~= all.take(i as int));
        assert(all.take(i as int + 1).last() == current@[i as int]@);
        if !same_text(current[i].as_str(), path) {
            let ghost before = out@;
            out.push(current[i].clone());
            assert(texts(out@) =~= texts(before).push(current@[i as int]@));
            assert forall|k: int| 0 <= k < texts(out@).len() implies texts(out@)[k] != path@ by {
                if k < texts(before).len() {
                    assert(texts(out@)[k] == texts(before)[k]);
                }
            }
        }
        i = i + 1;
    }
    assert(all.take(current@.len() as int) =~= all);
    out
}

impl FolderError {
    /// The message a client is shown.
    pub fn message(&self) -> (r: String)
        ensures
            match self {
                FolderError::Required => r@ == "Path is required"@,
                FolderError::NotFound => r@ == "Folder does not exist"@,
                FolderError::Unreadable { reason } => r@ == "Folder can't be read: "@ + reason@,
                FolderError::Config(e) => r@ == e.message_text(),
            },
    {
        match self {
            FolderError::Required => owned("Path is required"),
            FolderError::NotFound => owned("Folder does not exist"),
            FolderError::Unreadable { reason } => {
                let mut m = chars_of("Folder can't be read: ");
                crate::text::push_str(&mut m, reason.as_str());
                string_of(m.as_slice())
            },
            FolderError::Config(e) => e.message(),
        }
    }
}

} // verus!
