//! Finding the audio files under a library folder, in the order the folders were always
//! walked: depth first, each directory's entries in byte order of their names, with a
//! subdirectory walked at its place in that order. Listing a directory is the caller's I/O;
//! the walk's order and what it keeps are decided here.

use vstd::prelude::*;

use crate::js::{main_separator, node_path_join, path_join_on};
use crate::text::{chars_of, same_text};

verus! {

/// The file name a path ends in: std's `Path::file_name`, by the path syntax of the
/// platform the library is built for.
pub uninterp spec fn file_name_part(path: Seq<char>) -> Option<Seq<char>>;

/// `Path::new(path).file_name()`: the final component of the path, if it is a file or
/// directory name (`None` for a path ending in `..`, or with no name at all). The component
/// rules are std's and are not stated here.
#[verifier::external_body]
fn file_name(path: &str) -> (r: Option<String>)
    ensures
        match r {
            Some(n) => file_name_part(path@) == Some(n@),
            None => file_name_part(path@).is_none(),
        },
{
    std::path::Path::new(path).file_name().map(|n| n.to_string_lossy().into_owned())
}

/// A text in lower case, by Unicode's case mapping: std's `str::to_lowercase`.
pub uninterp spec fn lower_case(text: Seq<char>) -> Seq<char>;

/// `str::to_lowercase`: the text with each character mapped to its Unicode lower case.
#[verifier::external_body]
pub(crate) fn to_lower(text: &str) -> (r: String)
    ensures
        r@ == lower_case(text@),
{
    text.to_lowercase()
}

/// The index of the last `.` before `j`, or -1.
pub open spec fn last_dot(s: Seq<char>, j: int) -> int
    decreases j,
{
    if j <= 0 {
        -1
    } else if s[j - 1] == '.' {
        j - 1
    } else {
        last_dot(s, j - 1)
    }
}

/// A file name's extension, without the dot: what follows its last `.`, unless the name is
/// `..`, has no dot, or its only dot leads it (`.mp3` has no extension, as in Node's
/// `extname`).
pub open spec fn extension_of(name: Seq<char>) -> Option<Seq<char>> {
    let k = last_dot(name, name.len() as int);
    if name == ".."@ || k <= 0 {
        None
    } else {
        Some(name.subrange(k + 1, name.len() as int))
    }
}

/// The extensions the scanner indexes, in lower case.
pub open spec fn is_audio_extension(e: Seq<char>) -> bool {
    ||| e == "mp3"@
    ||| e == "m4a"@
    ||| e == "aac"@
    ||| e == "flac"@
    ||| e == "ogg"@
    ||| e == "oga"@
    ||| e == "opus"@
    ||| e == "wav"@
}

/// Whether a path names an audio file: its file name has one of the indexed extensions,
/// compared case-insensitively.
pub open spec fn audio_file(path: Seq<char>) -> bool {
    match file_name_part(path) {
        Some(f) => match extension_of(f) {
            Some(e) => is_audio_extension(lower_case(e)),
            None => false,
        },
        None => false,
    }
}

/// The extensions the scanner indexes, in lower case.
pub open spec fn indexed_extensions() -> Seq<Seq<char>> {
    seq!["mp3"@, "m4a"@, "aac"@, "flac"@, "ogg"@, "oga"@, "opus"@, "wav"@]
}

/// A file is indexed exactly when its extension, lower-cased, is mp3, m4a, aac, flac, ogg,
/// oga, opus or wav: `Song.M4A` is an audio file as `m4a` is one of them.
pub proof fn audio_files_are_those_with_an_indexed_extension(path: Seq<char>, name: Seq<char>, ext: Seq<char>)
    requires
        file_name_part(path) == Some(name),
        extension_of(name) == Some(ext),
    ensures
        audio_file(path) <==> indexed_extensions().contains(lower_case(ext)),
{
    let l = lower_case(ext);
    let x = indexed_extensions();
    if is_audio_extension(l) {
        if l == "mp3"@ { assert(x[0] == l); }
        else if l == "m4a"@ { assert(x[1] == l); }
        else if l == "aac"@ { assert(x[2] == l); }
        else if l == "flac"@ { assert(x[3] == l); }
        else if l == "ogg"@ { assert(x[4] == l); }
        else if l == "oga"@ { assert(x[5] == l); }
        else if l == "opus"@ { assert(x[6] == l); }
        else { assert(x[7] == l); }
    }
    if x.contains(l) {
        let k = choose|k: int| 0 <= k < x.len() && x[k] == l;
        assert(is_audio_extension(l));
    }
}

/// A name without a file part, or whose file part has no extension, is never indexed.
pub proof fn files_without_an_extension_are_not_audio(path: Seq<char>)
    requires
        file_name_part(path) matches Some(name) ==> extension_of(name) is None,
    ensures
        !audio_file(path),
{
}

proof fn lemma_last_dot(s: Seq<char>, j: int)
    requires
        0 <= j <= s.len(),
    ensures
        -1 <= last_dot(s, j) < j,
        last_dot(s, j) >= 0 ==> s[last_dot(s, j)] == '.',
        forall|k: int| last_dot(s, j) < k < j ==> s[k] != '.',
    decreases j,
{
    if j > 0 && s[j - 1] != '.' {
        lemma_last_dot(s, j - 1);
    }
}

/// A name's extension: what follows its last dot, unless that dot leads the name.
pub fn extension(name: &str) -> (r: Option<String>)
    ensures
        match r {
            Some(e) => extension_of(name@) == Some(e@),
            None => extension_of(name@).is_none(),
        },
{
    let v = chars_of(name);
    if same_text(name, "..") {
        return None;
    }
    let mut j: usize = v.len();
    while j > 0 && v[j - 1] != '.'
        invariant
            j <= v@.len(),
            last_dot(v@, v@.len() as int) == last_dot(v@, j as int),
        decreases j,
    {
        j = j - 1;
    }
    if j <= 1 {
        return None;
    }
    let mut e: Vec<char> = Vec::new();
    let mut k: usize = j;
    while k < v.len()
        invariant
            j <= k <= v@.len(),
            e@ == v@.subrange(j as int, k as int),
        decreases v@.len() - k,
    {
        e.push(v[k]);
        k = k + 1;
    }
    Some(crate::text::string_of(e.as_slice()))
}

/// A name starting with a dot and holding no other has no extension: `.mp3` is a hidden
/// file, not an MP3.
pub proof fn leading_dot_starts_no_extension(name: Seq<char>)
    requires
        name.len() > 0,
        name[0] == '.',
        forall|k: int| 0 < k < name.len() ==> name[k] != '.',
    ensures
        extension_of(name).is_none(),
{
    lemma_last_dot(name, name.len() as int);
}

/// Whether a name has one of the extensions the scanner indexes.
fn audio_extension(e: &str) -> (r: bool)
    ensures
        r == is_audio_extension(e@),
{
    same_text(e, "mp3") || same_text(e, "m4a") || same_text(e, "aac") || same_text(e, "flac")
        || same_text(e, "ogg") || same_text(e, "oga") || same_text(e, "opus") || same_text(e, "wav")
}

/// Whether a file name has one of the indexed extensions (mp3, m4a, aac, flac, ogg, oga,
/// opus, wav), compared case-insensitively. Like Node's `extname`, a leading dot doesn't
/// start an extension: `.mp3` has none.
pub fn is_audio_file(name: &str) -> (r: bool)
    ensures
        r == audio_file(name@),
{
    match file_name(name) {
        None => false,
        Some(f) => match extension(f.as_str()) {
            None => false,
            Some(e) => {
                let lower = to_lower(e.as_str());
                audio_extension(lower.as_str())
            },
        },
    }
}


/// What the caller found in a directory: an entry's name and type. A symbolic link is
/// neither a directory nor a file here, so it is neither followed nor indexed.
pub struct DirEntry {
    pub name: String,
    pub is_dir: bool,
    pub is_file: bool,
}

/// An entry the walk will visit: its path and whether it is a directory.
pub struct WalkEntry {
    pub path: String,
    pub is_dir: bool,
}

/// What the walk needs or yields next.
pub enum WalkStep {
    /// The next audio file's path.
    File(String),
    /// The directory to list next: hand its entries to `listed`. One that can't be read is
    /// skipped: hand over no entries.
    List(String),
    /// Every file has been found.
    Done,
}

/// Depth first over a folder, yielding audio file paths as Node's `path.join` spells them.
pub struct Walker {
    /// For each directory being walked, outermost first: its entries and how many were
    /// visited.
    frames: Vec<(Vec<WalkEntry>, usize)>,
    /// The directory whose listing the walk waits for.
    pending: Option<String>,
    /// This platform's path separator.
    sep: char,
}

/// An entry as the walk sees it: its path (or name) and whether it is a directory.
pub type Visit = (Seq<char>, bool);

/// The entries of a frame.
pub open spec fn entries_view(entries: Seq<WalkEntry>) -> Seq<Visit> {
    entries.map_values(|e: WalkEntry| (e.path@, e.is_dir))
}

/// The entries each frame has left to visit, outermost first.
pub open spec fn frames_view(frames: Seq<(Vec<WalkEntry>, usize)>) -> Seq<Seq<Visit>> {
    frames.map_values(|f: (Vec<WalkEntry>, usize)| entries_view(f.0@).skip(f.1 as int))
}

impl Walker {
    /// The entries left to visit in each directory being walked, outermost first.
    pub closed spec fn remaining(&self) -> Seq<Seq<Visit>> {
        frames_view(self.frames@)
    }

    /// The directory whose listing the walk waits for.
    pub closed spec fn waiting_for(&self) -> Option<Seq<char>> {
        match self.pending {
            Some(d) => Some(d@),
            None => None,
        }
    }

    /// The path separator the walk joins names with.
    pub closed spec fn separator(&self) -> char {
        self.sep
    }

    /// Every frame's count of visited entries is within its entries.
    pub closed spec fn wf(&self) -> bool {
        &&& forall|i: int| 0 <= i < self.frames@.len() ==> (#[trigger] self.frames@[i]).1 <= self.frames@[i].0@.len()
        &&& (self.sep == '/' || self.sep == '\\')
    }

    /// A walk of `root`, which first needs `root` listed.
    pub fn new(root: &str) -> (w: Walker)
        ensures
            w.wf(),
            w.remaining().len() == 0,
            w.waiting_for() == Some(root@),
    {
        let sep = main_separator();
        let w = Walker { frames: Vec::new(), pending: Some(crate::text::owned(root)), sep };
        assert(w.remaining() =~= Seq::<Seq<Visit>>::empty());
        w
    }
}

/// The walk's next step over what's left: skip finished directories, then visit the next
/// entry of the innermost one.
pub open spec fn step(frames: Seq<Seq<Visit>>) -> (Seq<Seq<Visit>>, Option<Visit>)
    decreases frames.len(),
{
    if frames.len() == 0 {
        (frames, None)
    } else if frames.last().len() == 0 {
        step(frames.drop_last())
    } else {
        (frames.update(frames.len() - 1, frames.last().drop_first()), Some(frames.last()[0]))
    }
}

impl Walker {
    /// The next step: the directory to list, if the walk waits for one; else the next entry,
    /// a directory to list or an audio file; or the end.
    pub fn next(&mut self) -> (r: WalkStep)
        requires
            old(self).wf(),
        ensures
            final(self).wf(),
            final(self).separator() == old(self).separator(),
            old(self).waiting_for() matches Some(d) ==> (r matches WalkStep::List(p) && p@ == d
                && final(self).remaining() == old(self).remaining()
                && final(self).waiting_for() == old(self).waiting_for()),
            old(self).waiting_for() is None ==> ({
                let (rest, visit) = step(old(self).remaining());
                &&& final(self).remaining() == rest
                &&& match visit {
                    None => r is Done && final(self).waiting_for() is None,
                    Some((path, is_dir)) => if is_dir {
                        r matches WalkStep::List(p) && p@ == path && final(self).waiting_for() == Some(path)
                    } else {
                        r matches WalkStep::File(p) && p@ == path && final(self).waiting_for() is None
                    },
                }
            }),
    {
        if let Some(d) = &self.pending {
            return WalkStep::List(d.clone());
        }
        loop
            invariant
                self.wf(),
                self.pending is None,
                old(self).waiting_for() is None,
                self.separator() == old(self).separator(),
                step(self.remaining()) == step(old(self).remaining()),
            decreases self.frames@.len(),
        {
            let n = self.frames.len();
            if n == 0 {
                return WalkStep::Done;
            }
            let ghost before = self.remaining();
            let (len, cursor) = {
                let top = &self.frames[n - 1];
                (top.0.len(), top.1)
            };
            if cursor >= len {
                self.frames.pop();
                proof {
                    assert(before.last().len() == 0);
                    assert(self.remaining() =~= before.drop_last());
                }
            } else {
                let entry_path = self.frames[n - 1].0[cursor].path.clone();
                let is_dir = self.frames[n - 1].0[cursor].is_dir;
                let ghost fr = self.frames@;
                self.frames[n - 1].1 = cursor + 1;
                proof {
                    assert(before.last() == entries_view(fr[n - 1].0@).skip(cursor as int));
                    assert(before.last()[0] == (entry_path@, is_dir));
                    assert(self.frames@[n - 1].0 == fr[n - 1].0);
                    assert(self.frames@[n - 1].1 == cursor + 1);
                    assert(entries_view(fr[n - 1].0@).skip(cursor + 1) =~= before.last().drop_first());
                    assert(self.remaining()[n - 1] == before.last().drop_first());
                    assert forall|i: int| 0 <= i < n - 1 implies self.remaining()[i] == before[i] by {
                        assert(self.frames@[i] == fr[i]);
                    }
                    assert(self.remaining() =~= before.update(before.len() - 1, before.last().drop_first()));
                }
                if is_dir {
                    self.pending = Some(entry_path.clone());
                    return WalkStep::List(entry_path);
                } else {
                    return WalkStep::File(entry_path);
                }
            }
        }
    }
}


/// Byte order: whether `a` sorts before `b`, comparing byte by byte, a prefix first.
pub open spec fn bytes_less(a: Seq<u8>, b: Seq<u8>) -> bool
    decreases a.len(),
{
    if a.len() == 0 {
        b.len() > 0
    } else if b.len() == 0 {
        false
    } else if a[0] != b[0] {
        a[0] < b[0]
    } else {
        bytes_less(a.drop_first(), b.drop_first())
    }
}

/// Whether name `a` sorts before name `b` in byte order of their UTF-8.
pub open spec fn name_less(a: Seq<char>, b: Seq<char>) -> bool {
    bytes_less(vstd::utf8::encode_utf8(a), vstd::utf8::encode_utf8(b))
}

/// Whether name `a` sorts before name `b`, in byte order of their UTF-8.
pub fn name_before(a: &str, b: &str) -> (r: bool)
    ensures
        r == name_less(a@, b@),
{
    let x = a.as_bytes();
    let y = b.as_bytes();
    let ghost xs = x@;
    let ghost ys = y@;
    let mut i: usize = 0;
    assert(xs.skip(0) =~= xs);
    assert(ys.skip(0) =~= ys);
    while i < x.len() && i < y.len() && x[i] == y[i]
        invariant
            i <= xs.len(),
            i <= ys.len(),
            xs == x@,
            ys == y@,
            bytes_less(xs, ys) == bytes_less(xs.skip(i as int), ys.skip(i as int)),
        decreases xs.len() - i,
    {
        assert(xs.skip(i as int).drop_first() =~= xs.skip(i as int + 1));
        assert(ys.skip(i as int).drop_first() =~= ys.skip(i as int + 1));
        i = i + 1;
    }
    if i < x.len() && i < y.len() {
        assert(xs.skip(i as int)[0] == x[i as int]);
        assert(ys.skip(i as int)[0] == y[i as int]);
        x[i] < y[i]
    } else {
        i == x.len() && i < y.len()
    }
}

/// The entries the walk keeps, by name: directories, and files with an audio extension.
pub open spec fn kept(entries: Seq<DirEntry>) -> Seq<Visit>
    decreases entries.len(),
{
    if entries.len() == 0 {
        Seq::empty()
    } else {
        let e = entries.last();
        if e.is_dir || (e.is_file && audio_file(e.name@)) {
            kept(entries.drop_last()).push((e.name@, e.is_dir))
        } else {
            kept(entries.drop_last())
        }
    }
}

/// Where `x` goes among `sorted` from `i` on: before the first name it sorts before.
pub open spec fn name_slot(sorted: Seq<Visit>, x: Visit, i: int) -> int
    decreases sorted.len() - i,
{
    if i >= sorted.len() {
        sorted.len() as int
    } else if name_less(x.0, sorted[i].0) {
        i
    } else {
        name_slot(sorted, x, i + 1)
    }
}

/// Entries in byte order of their names, ties in their order (a stable sort).
pub open spec fn by_name(s: Seq<Visit>) -> Seq<Visit>
    decreases s.len(),
{
    if s.len() == 0 {
        Seq::empty()
    } else {
        let r = by_name(s.drop_last());
        r.insert(name_slot(r, s.last(), 0), s.last())
    }
}

/// A directory's frame: the kept entries in byte order of their names, each at the path
/// Node's `path.join(dir, name)` gives on a platform with separator `sep`.
pub open spec fn listing(dir: Seq<char>, entries: Seq<DirEntry>, sep: char) -> Seq<Visit> {
    by_name(kept(entries)).map_values(|v: Visit| (node_path_join(dir, v.0, sep), v.1))
}

/// The names of entries kept so far, with whether each is a directory.
pub open spec fn named_view(v: Seq<(String, bool)>) -> Seq<Visit> {
    v.map_values(|e: (String, bool)| (e.0@, e.1))
}

impl Walker {
    /// Hands the walk the entries of the directory it waits for; they are walked next, in
    /// byte order of their names.
    pub fn listed(&mut self, entries: Vec<DirEntry>)
        requires
            old(self).wf(),
            old(self).waiting_for() is Some,
        ensures
            final(self).wf(),
            final(self).waiting_for() is None,
            final(self).separator() == old(self).separator(),
            final(self).remaining() == old(self).remaining().push(
                listing(old(self).waiting_for().unwrap(), entries@, old(self).separator())),
    {
        let dir = match self.pending.take() {
            Some(d) => d,
            None => String::new(),
        };
        let mut sorted: Vec<(String, bool)> = Vec::new();
        let mut i: usize = 0;
        assert(named_view(sorted@) =~= by_name(kept(entries@.take(0))));
        while i < entries.len()
            invariant
                i <= entries@.len(),
                named_view(sorted@) == by_name(kept(entries@.take(i as int))),
            decreases entries@.len() - i,
        {
            let e = &entries[i];
            assert(entries@.take(i as int + 1).drop_last() =~= entries@.take(i as int));
            assert(entries@.take(i as int + 1).last() == entries@[i as int]);
            let keep = e.is_dir || (e.is_file && is_audio_file(e.name.as_str()));
            if keep {
                let ghost s0 = named_view(sorted@);
                let ghost x: Visit = (e.name@, e.is_dir);
                let mut k: usize = 0;
                while k < sorted.len() && !name_before(e.name.as_str(), sorted[k].0.as_str())
                    invariant
                        k <= sorted@.len(),
                        s0 == named_view(sorted@),
                        x == (e.name@, e.is_dir),
                        name_slot(s0, x, 0) == name_slot(s0, x, k as int),
                    decreases sorted@.len() - k,
                {
                    assert(s0[k as int] == (sorted@[k as int].0@, sorted@[k as int].1));
                    k = k + 1;
                }
                proof {
                    if k < sorted@.len() {
                        assert(s0[k as int] == (sorted@[k as int].0@, sorted@[k as int].1));
                    }
                }
                assert(name_slot(s0, x, k as int) == k);
                sorted.insert(k, (e.name.clone(), e.is_dir));
                assert(named_view(sorted@) =~= s0.insert(k as int, x));
                proof {
                    let kk = kept(entries@.take(i as int + 1));
                    assert(kk == kept(entries@.take(i as int)).push(x));
                    assert(kk.drop_last() =~= kept(entries@.take(i as int)));
                    assert(kk.last() == x);
                }
            }
            i = i + 1;
        }
        assert(entries@.take(entries@.len() as int) =~= entries@);
        let ghost names = named_view(sorted@);
        let mut frame: Vec<WalkEntry> = Vec::new();
        let mut j: usize = 0;
        while j < sorted.len()
            invariant
                j <= sorted@.len(),
                names == named_view(sorted@),
                entries_view(frame@) == names.take(j as int).map_values(|v: Visit| (node_path_join(dir@, v.0, self.sep), v.1)),
            decreases sorted@.len() - j,
        {
            let path = path_join_on(dir.as_str(), sorted[j].0.as_str(), self.sep);
            let ghost before = frame@;
            frame.push(WalkEntry { path, is_dir: sorted[j].1 });
            proof {
                assert(names[j as int] == (sorted@[j as int].0@, sorted@[j as int].1));
                assert(entries_view(frame@) =~= entries_view(before).push((path@, sorted@[j as int].1)));
                assert(names.take(j as int + 1) =~= names.take(j as int).push(names[j as int]));
                assert(entries_view(frame@) =~= names.take(j as int + 1).map_values(|v: Visit| (node_path_join(dir@, v.0, self.sep), v.1)));
            }
            j = j + 1;
        }
        assert(names.take(sorted@.len() as int) =~= names);
        let ghost before = self.remaining();
        let ghost fr = self.frames@;
        self.frames.push((frame, 0));
        proof {
            assert(entries_view(frame@).skip(0) =~= entries_view(frame@));
            assert forall|i: int| 0 <= i < fr.len() implies self.remaining()[i] == before[i] by {
                assert(self.frames@[i] == fr[i]);
            }
            assert(self.remaining() =~= before.push(listing(dir@, entries@, self.sep)));
        }
    }
}


proof fn lemma_by_name_from(s: Seq<Visit>, x: Visit)
    requires
        by_name(s).contains(x),
    ensures
        s.contains(x),
    decreases s.len(),
{
    if s.len() > 0 {
        let r = by_name(s.drop_last());
        let p = name_slot(r, s.last(), 0);
        lemma_name_slot(r, s.last(), 0);
        r.insert_ensures(p, s.last());
        let k = choose|k: int| 0 <= k < by_name(s).len() && by_name(s)[k] == x;
        if x != s.last() {
            if k < p {
                assert(r[k] == x);
            } else if k > p {
                assert(r[k - 1] == x);
            }
            lemma_by_name_from(s.drop_last(), x);
            let j = choose|j: int| 0 <= j < s.drop_last().len() && s.drop_last()[j] == x;
            assert(s[j] == x);
        } else {
            assert(s[s.len() - 1] == x);
        }
    }
}

proof fn lemma_name_slot(sorted: Seq<Visit>, x: Visit, i: int)
    requires
        0 <= i <= sorted.len(),
    ensures
        i <= name_slot(sorted, x, i) <= sorted.len(),
    decreases sorted.len() - i,
{
    if i < sorted.len() && !name_less(x.0, sorted[i].0) {
        lemma_name_slot(sorted, x, i + 1);
    }
}

proof fn lemma_kept_from(entries: Seq<DirEntry>, x: Visit)
    requires
        kept(entries).contains(x),
    ensures
        exists|j: int| 0 <= j < entries.len() && #[trigger] entries[j].name@ == x.0
            && entries[j].is_dir == x.1 && (x.1 || (entries[j].is_file && audio_file(entries[j].name@))),
    decreases entries.len(),
{
    if entries.len() > 0 {
        let e = entries.last();
        let init = entries.drop_last();
        if e.is_dir || (e.is_file && audio_file(e.name@)) {
            let k = choose|k: int| 0 <= k < kept(entries).len() && kept(entries)[k] == x;
            if k == kept(init).len() {
                assert(entries[entries.len() - 1].name@ == x.0);
            } else {
                assert(kept(init)[k] == x);
                lemma_kept_from(init, x);
                let j = choose|j: int| 0 <= j < init.len() && #[trigger] init[j].name@ == x.0
                    && init[j].is_dir == x.1 && (x.1 || (init[j].is_file && audio_file(init[j].name@)));
                assert(entries[j] == init[j]);
            }
        } else {
            lemma_kept_from(init, x);
            let j = choose|j: int| 0 <= j < init.len() && #[trigger] init[j].name@ == x.0
                && init[j].is_dir == x.1 && (x.1 || (init[j].is_file && audio_file(init[j].name@)));
            assert(entries[j] == init[j]);
        }
    }
}

/// Every file a directory's listing yields is one of its entries that is a file with an
/// audio extension, at the path Node's `path.join` gives it.
pub proof fn walk_yields_only_audio_files(dir: Seq<char>, entries: Seq<DirEntry>, sep: char, i: int)
    requires
        0 <= i < listing(dir, entries, sep).len(),
        !listing(dir, entries, sep)[i].1,
    ensures
        exists|j: int| 0 <= j < entries.len() && entries[j].is_file && audio_file(entries[j].name@)
            && listing(dir, entries, sep)[i].0 == node_path_join(dir, #[trigger] entries[j].name@, sep),
{
    let sorted = by_name(kept(entries));
    let x = sorted[i];
    assert(sorted.contains(x));
    lemma_by_name_from(kept(entries), x);
    lemma_kept_from(entries, x);
    let j = choose|j: int| 0 <= j < entries.len() && #[trigger] entries[j].name@ == x.0
        && entries[j].is_dir == x.1 && (x.1 || (entries[j].is_file && audio_file(entries[j].name@)));
    assert(listing(dir, entries, sep)[i] == (node_path_join(dir, x.0, sep), x.1));
}

} // verus!
