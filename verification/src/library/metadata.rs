//! A track's tags, cover art and title, made of a file's tags.
//!
//! A file can carry several tags at once: an MP3 often has ID3v2 at the front and ID3v1 or
//! APEv2 at the back. Each field is taken from the highest-priority tag that has it, by
//! per-field rules. Reading the file is the caller's; the tags come here as
//! plain values.

use vstd::prelude::*;

use super::walk::{lower_case, to_lower};
use crate::hash::{hex, sha1_digest, sha1_hex};
use crate::js::{js_parse_int, js_trim, parse_int, trim};
use crate::text::{chars_of, owned, push_str, same_text, string_of, texts};

verus! {

/// The tag formats the library reads, and the rest.
#[derive(Clone, Copy, PartialEq, Eq, Structural, Debug)]
pub enum TagKind {
    Ape,
    VorbisComments,
    Id3v2,
    RiffInfo,
    Mp4Ilst,
    AiffText,
    Id3v1,
    Other,
}

/// An embedded picture: its MIME type as the tag gives it, and its bytes.
pub struct Picture {
    pub mime: Option<String>,
    pub data: Vec<u8>,
}

/// One tag's values, as the file holds them: every value for each field, in order, and the
/// first value of the date and year fields.
pub struct TagData {
    pub kind: TagKind,
    pub title: Vec<String>,
    pub artist: Vec<String>,
    pub artists: Vec<String>,
    pub album: Vec<String>,
    pub album_artist: Vec<String>,
    pub genre: Vec<String>,
    pub track_number: Vec<String>,
    pub disc_number: Vec<String>,
    pub recording_date: Option<String>,
    pub year: Option<String>,
    pub pictures: Vec<Picture>,
}

/// A multi-valued field of a tag.
#[derive(Clone, Copy, PartialEq, Eq, Structural)]
pub enum Field {
    Title,
    Artist,
    Artists,
    Album,
    AlbumArtist,
    Genre,
    TrackNumber,
    DiscNumber,
}

/// An embedded cover image, keyed by the SHA-1 of its bytes in hex so an album's tracks
/// share one stored copy.
pub struct Art {
    pub hash: String,
    pub mime: String,
    pub data: Vec<u8>,
}

/// What the tags say about a track; its duration is read separately.
pub struct TagSummary {
    pub title: String,
    pub artist: Option<String>,
    pub album: Option<String>,
    pub album_artist: Option<String>,
    /// Every genre, joined with `", "`.
    pub genre: Option<String>,
    pub track_no: Option<i64>,
    pub disc_no: Option<i64>,
    pub year: Option<i64>,
    pub art: Option<Art>,
}

/// The tag priority, best first; `None` for tags the library doesn't read.
pub open spec fn priority_of(kind: TagKind) -> Option<u8> {
    match kind {
        TagKind::Ape => Some(2u8),
        TagKind::VorbisComments => Some(3u8),
        TagKind::Id3v2 => Some(4u8),
        TagKind::RiffInfo => Some(7u8),
        TagKind::Mp4Ilst => Some(9u8),
        TagKind::AiffText => Some(10u8),
        TagKind::Id3v1 => Some(11u8),
        TagKind::Other => None,
    }
}

/// The tag priority, best first.
pub fn priority(kind: TagKind) -> (r: Option<u8>)
    ensures
        r == priority_of(kind),
{
    match kind {
        TagKind::Ape => Some(2),
        TagKind::VorbisComments => Some(3),
        TagKind::Id3v2 => Some(4),
        TagKind::RiffInfo => Some(7),
        TagKind::Mp4Ilst => Some(9),
        TagKind::AiffText => Some(10),
        TagKind::Id3v1 => Some(11),
        TagKind::Other => None,
    }
}

/// The values a tag holds for a field, as stored.
pub open spec fn raw_values(tag: TagData, field: Field) -> Seq<Seq<char>> {
    texts(match field {
        Field::Title => tag.title@,
        Field::Artist => tag.artist@,
        Field::Artists => tag.artists@,
        Field::Album => tag.album@,
        Field::AlbumArtist => tag.album_artist@,
        Field::Genre => tag.genre@,
        Field::TrackNumber => tag.track_number@,
        Field::DiscNumber => tag.disc_number@,
    })
}

/// Every value a tag holds for a field, as the library reads it: ID3 values come trimmed,
/// other formats' don't.
pub open spec fn values_of(tag: TagData, field: Field) -> Seq<Seq<char>> {
    if tag.kind == TagKind::Id3v2 || tag.kind == TagKind::Id3v1 {
        raw_values(tag, field).map_values(|v: Seq<char>| js_trim(v))
    } else {
        raw_values(tag, field)
    }
}

fn field_strings(tag: &TagData, field: Field) -> (r: &Vec<String>)
    ensures
        texts(r@) == raw_values(*tag, field),
{
    match field {
        Field::Title => &tag.title,
        Field::Artist => &tag.artist,
        Field::Artists => &tag.artists,
        Field::Album => &tag.album,
        Field::AlbumArtist => &tag.album_artist,
        Field::Genre => &tag.genre,
        Field::TrackNumber => &tag.track_number,
        Field::DiscNumber => &tag.disc_number,
    }
}

/// Every value a tag holds for a field, as the library reads it.
pub fn values(tag: &TagData, field: Field) -> (r: Vec<String>)
    ensures
        texts(r@) == values_of(*tag, field),
{
    let raw = field_strings(tag, field);
    let trimmed = tag.kind == TagKind::Id3v2 || tag.kind == TagKind::Id3v1;
    let mut out: Vec<String> = Vec::new();
    let mut i: usize = 0;
    while i < raw.len()
        invariant
            i <= raw@.len(),
            texts(raw@) == raw_values(*tag, field),
            trimmed == (tag.kind == TagKind::Id3v2 || tag.kind == TagKind::Id3v1),
            texts(out@) == values_of(*tag, field).take(i as int),
        decreases raw@.len() - i,
    {
        let v = if trimmed { owned(trim(raw[i].as_str())) } else { raw[i].clone() };
        let ghost before = out@;
        out.push(v);
        proof {
            assert(texts(raw@)[i as int] == raw@[i as int]@);
            assert(texts(out@) =~= texts(before).push(v@));
            assert(values_of(*tag, field).take(i as int + 1) =~= values_of(*tag, field).take(i as int).push(values_of(*tag, field)[i as int]));
        }
        i = i + 1;
    }
    assert(values_of(*tag, field).take(raw@.len() as int) =~= values_of(*tag, field));
    out
}


/// The priority of the `i`th tag, which must be one the library reads.
pub open spec fn rank(tags: Seq<TagData>, i: int) -> int {
    priority_of(tags[i].kind).unwrap() as int
}

/// Where tag `x` goes among the tags `order` lists, from `k` on: before the first of lower
/// priority (a higher number).
pub open spec fn rank_slot(tags: Seq<TagData>, order: Seq<int>, x: int, k: int) -> int
    decreases order.len() - k,
{
    if k >= order.len() {
        order.len() as int
    } else if rank(tags, x) < rank(tags, order[k]) {
        k
    } else {
        rank_slot(tags, order, x, k + 1)
    }
}

/// The tags the library reads among the first `n`, by index, best priority first, ties
/// in file order (a stable sort).
pub open spec fn by_priority(tags: Seq<TagData>, n: int) -> Seq<int>
    decreases n,
{
    if n <= 0 {
        Seq::empty()
    } else {
        let r = by_priority(tags, n - 1);
        if priority_of(tags[n - 1].kind) is Some {
            r.insert(rank_slot(tags, r, n - 1, 0), n - 1)
        } else {
            r
        }
    }
}

proof fn lemma_rank_slot(tags: Seq<TagData>, order: Seq<int>, x: int, k: int)
    requires
        0 <= k <= order.len(),
    ensures
        k <= rank_slot(tags, order, x, k) <= order.len(),
    decreases order.len() - k,
{
    if k < order.len() && !(rank(tags, x) < rank(tags, order[k])) {
        lemma_rank_slot(tags, order, x, k + 1);
    }
}

/// The indices of the tags the library reads, best priority first.
pub fn tag_order(tags: &Vec<TagData>) -> (r: Vec<usize>)
    ensures
        r@.map_values(|i: usize| i as int) == by_priority(tags@, tags@.len() as int),
        forall|k: int| 0 <= k < r@.len() ==> (#[trigger] r@[k]) < tags@.len(),
{
    let mut order: Vec<usize> = Vec::new();
    let mut n: usize = 0;
    while n < tags.len()
        invariant
            n <= tags@.len(),
            order@.map_values(|i: usize| i as int) == by_priority(tags@, n as int),
            forall|k: int| 0 <= k < order@.len() ==> (#[trigger] order@[k]) < n,
            forall|k: int| 0 <= k < order@.len() ==> priority_of(tags@[(#[trigger] order@[k]) as int].kind) is Some,
        decreases tags@.len() - n,
    {
        if let Some(p) = priority(tags[n].kind) {
            let ghost view = order@.map_values(|i: usize| i as int);
            assert forall|j: int| 0 <= j < view.len() implies priority_of(tags@[#[trigger] view[j]].kind) is Some by {
                assert(view[j] == order@[j] as int);
            }
            let mut k: usize = 0;
            while k < order.len() && !(p < priority(tags[order[k]].kind).unwrap())
                invariant
                    k <= order@.len(),
                    n < tags@.len(),
                    view == order@.map_values(|i: usize| i as int),
                    priority_of(tags@[n as int].kind) == Some(p),
                    forall|j: int| 0 <= j < order@.len() ==> (#[trigger] order@[j]) < n,
                    forall|j: int| 0 <= j < view.len() ==> priority_of(tags@[#[trigger] view[j]].kind) is Some,
                    rank_slot(tags@, view, n as int, 0) == rank_slot(tags@, view, n as int, k as int),
                decreases order@.len() - k,
            {
                assert(view[k as int] == order@[k as int] as int);
                k = k + 1;
            }
            proof {
                if k < order@.len() {
                    assert(view[k as int] == order@[k as int] as int);
                }
            }
            assert(rank_slot(tags@, view, n as int, k as int) == k);
            order.insert(k, n);
            assert(order@.map_values(|i: usize| i as int) =~= view.insert(k as int, n as int));
        }
        n = n + 1;
    }
    order
}


/// The values of the best tag, from the `k`th in `order` on, that has any for the field.
pub open spec fn best_from(tags: Seq<TagData>, order: Seq<int>, field: Field, k: int) -> Seq<Seq<char>>
    decreases order.len() - k,
{
    if k >= order.len() || k < 0 {
        Seq::empty()
    } else if values_of(tags[order[k]], field).len() > 0 {
        values_of(tags[order[k]], field)
    } else {
        best_from(tags, order, field, k + 1)
    }
}

/// The field's values from the best tag that has any, or none.
pub open spec fn best_values(tags: Seq<TagData>, field: Field) -> Seq<Seq<char>> {
    best_from(tags, by_priority(tags, tags.len() as int), field, 0)
}

/// A single-valued field: the best tag's last value, as when one tag repeats it the last
/// value wins.
pub open spec fn last_value(tags: Seq<TagData>, field: Field) -> Option<Seq<char>> {
    let b = best_values(tags, field);
    if b.len() > 0 { Some(b.last()) } else { None }
}

/// The field's values from the best tag that has any.
fn best(tags: &Vec<TagData>, order: &Vec<usize>, field: Field) -> (r: Vec<String>)
    requires
        order@.map_values(|i: usize| i as int) == by_priority(tags@, tags@.len() as int),
        forall|k: int| 0 <= k < order@.len() ==> (#[trigger] order@[k]) < tags@.len(),
    ensures
        texts(r@) == best_values(tags@, field),
{
    let ghost ord = order@.map_values(|i: usize| i as int);
    let mut k: usize = 0;
    while k < order.len()
        invariant
            k <= order@.len(),
            ord == order@.map_values(|i: usize| i as int),
            ord == by_priority(tags@, tags@.len() as int),
            forall|j: int| 0 <= j < order@.len() ==> (#[trigger] order@[j]) < tags@.len(),
            best_from(tags@, ord, field, 0) == best_from(tags@, ord, field, k as int),
        decreases order@.len() - k,
    {
        let v = values(&tags[order[k]], field);
        assert(ord[k as int] == order@[k as int] as int);
        if v.len() > 0 {
            return v;
        }
        k = k + 1;
    }
    Vec::new()
}

/// The last of a field's best values.
fn last(tags: &Vec<TagData>, order: &Vec<usize>, field: Field) -> (r: Option<String>)
    requires
        order@.map_values(|i: usize| i as int) == by_priority(tags@, tags@.len() as int),
        forall|k: int| 0 <= k < order@.len() ==> (#[trigger] order@[k]) < tags@.len(),
    ensures
        match r {
            Some(s) => last_value(tags@, field) == Some(s@),
            None => last_value(tags@, field).is_none(),
        },
{
    let mut b = best(tags, order, field);
    let ghost bv = texts(b@);
    let r = b.pop();
    proof {
        if bv.len() > 0 {
            assert(bv.last() == r.unwrap()@);
        }
    }
    r
}

/// The texts without repeats, each kept where it first appears.
pub open spec fn distinct(s: Seq<Seq<char>>) -> Seq<Seq<char>>
    decreases s.len(),
{
    if s.len() == 0 {
        s
    } else if distinct(s.drop_last()).contains(s.last()) {
        distinct(s.drop_last())
    } else {
        distinct(s.drop_last()).push(s.last())
    }
}

/// The strings without repeats, each kept where it first appears.
pub fn dedup(v: Vec<String>) -> (r: Vec<String>)
    ensures
        texts(r@) == distinct(texts(v@)),
{
    let ghost all = texts(v@);
    let mut out: Vec<String> = Vec::new();
    let mut i: usize = 0;
    assert(texts(out@) =~= distinct(all.take(0)));
    while i < v.len()
        invariant
            i <= v@.len(),
            all == texts(v@),
            texts(out@) == distinct(all.take(i as int)),
        decreases v@.len() - i,
    {
        assert(all.take(i as int + 1).drop_last() =~= all.take(i as int));
        assert(all.take(i as int + 1).last() == v@[i as int]@);
        if !crate::text::contains_text(&out, v[i].as_str()) {
            let ghost before = out@;
            out.push(v[i].clone());
            assert(texts(out@) =~= texts(before).push(v@[i as int]@));
        }
        i = i + 1;
    }
    assert(all.take(v@.len() as int) =~= all);
    out
}

/// Texts joined with a separator between each.
pub open spec fn joined_by(parts: Seq<Seq<char>>, sep: Seq<char>) -> Seq<char>
    decreases parts.len(),
{
    if parts.len() == 0 {
        Seq::empty()
    } else if parts.len() == 1 {
        parts[0]
    } else {
        joined_by(parts.drop_last(), sep) + sep + parts.last()
    }
}

fn join_strings(parts: &Vec<String>, upto: usize, sep: &str) -> (r: Vec<char>)
    requires
        upto <= parts@.len(),
    ensures
        r@ == joined_by(texts(parts@).take(upto as int), sep@),
{
    let ghost all = texts(parts@);
    let mut out: Vec<char> = Vec::new();
    let mut i: usize = 0;
    assert(all.take(0) =~= Seq::<Seq<char>>::empty());
    while i < upto
        invariant
            i <= upto <= parts@.len(),
            all == texts(parts@),
            out@ == joined_by(all.take(i as int), sep@),
        decreases upto - i,
    {
        if i > 0 {
            push_str(&mut out, sep);
        }
        push_str(&mut out, parts[i].as_str());
        proof {
            assert(all.take(i as int + 1).drop_last() =~= all.take(i as int));
            assert(all.take(i as int + 1).last() == parts@[i as int]@);
            if i == 0 {
                assert(out@ =~= all.take(1)[0]);
            }
        }
        i = i + 1;
    }
    out
}

/// A list of artists joined for display: `A`, `A & B`, `A, B & C`.
pub open spec fn artists_joined(a: Seq<Seq<char>>) -> Option<Seq<char>> {
    if a.len() == 0 {
        None
    } else if a.len() == 1 {
        Some(a[0])
    } else {
        Some(joined_by(a.drop_last(), ", "@) + " & "@ + a.last())
    }
}

/// A list of artists joined for display: `A`, `A & B`, `A, B & C`.
pub fn join_artists(artists: &Vec<String>) -> (r: Option<String>)
    ensures
        match r {
            Some(s) => artists_joined(texts(artists@)) == Some(s@),
            None => artists_joined(texts(artists@)).is_none(),
        },
{
    let n = artists.len();
    if n == 0 {
        return None;
    }
    if n == 1 {
        return Some(artists[0].clone());
    }
    let mut v = join_strings(artists, n - 1, ", ");
    push_str(&mut v, " & ");
    push_str(&mut v, artists[n - 1].as_str());
    assert(texts(artists@).take(n - 1) =~= texts(artists@).drop_last());
    Some(string_of(v.as_slice()))
}


/// The image type a picture's first bytes announce, for a picture whose tag gives none.
pub open spec fn sniffed(d: Seq<u8>) -> Option<Seq<char>> {
    if d.len() >= 3 && d[0] == 0xffu8 && d[1] == 0xd8u8 && d[2] == 0xffu8 {
        Some("image/jpeg"@)
    } else if d.len() >= 4 && d[0] == 0x89u8 && d[1] == 0x50u8 && d[2] == 0x4eu8 && d[3] == 0x47u8 {
        Some("image/png"@)
    } else if d.len() >= 4 && d[0] == 0x47u8 && d[1] == 0x49u8 && d[2] == 0x46u8 && d[3] == 0x38u8 {
        Some("image/gif"@)
    } else if d.len() >= 2 && d[0] == 0x42u8 && d[1] == 0x4du8 {
        Some("image/bmp"@)
    } else if d.len() >= 12 && d[0] == 0x52u8 && d[1] == 0x49u8 && d[2] == 0x46u8 && d[3] == 0x46u8
        && d[8] == 0x57u8 && d[9] == 0x45u8 && d[10] == 0x42u8 && d[11] == 0x50u8 {
        Some("image/webp"@)
    } else if d.len() >= 4 && ((d[0] == 0x49u8 && d[1] == 0x49u8 && d[2] == 0x2au8 && d[3] == 0x00u8)
        || (d[0] == 0x4du8 && d[1] == 0x4du8 && d[2] == 0x00u8 && d[3] == 0x2au8)) {
        Some("image/tiff"@)
    } else {
        None
    }
}

/// The image type a picture's first bytes announce: JPEG, PNG, GIF, BMP, WebP or TIFF.
pub fn sniff_image(d: &[u8]) -> (r: Option<&'static str>)
    ensures
        match r {
            Some(m) => sniffed(d@) == Some(m@),
            None => sniffed(d@).is_none(),
        },
{
    let n = d.len();
    if n >= 3 && d[0] == 0xff && d[1] == 0xd8 && d[2] == 0xff {
        Some("image/jpeg")
    } else if n >= 4 && d[0] == 0x89 && d[1] == 0x50 && d[2] == 0x4e && d[3] == 0x47 {
        Some("image/png")
    } else if n >= 4 && d[0] == 0x47 && d[1] == 0x49 && d[2] == 0x46 && d[3] == 0x38 {
        Some("image/gif")
    } else if n >= 2 && d[0] == 0x42 && d[1] == 0x4d {
        Some("image/bmp")
    } else if n >= 12 && d[0] == 0x52 && d[1] == 0x49 && d[2] == 0x46 && d[3] == 0x46
        && d[8] == 0x57 && d[9] == 0x45 && d[10] == 0x42 && d[11] == 0x50 {
        Some("image/webp")
    } else if n >= 4 && ((d[0] == 0x49 && d[1] == 0x49 && d[2] == 0x2a && d[3] == 0x00)
        || (d[0] == 0x4d && d[1] == 0x4d && d[2] == 0x00 && d[3] == 0x2a)) {
        Some("image/tiff")
    } else {
        None
    }
}

/// A picture's type as the library keeps it: the tag's, lower-cased, or else the one its
/// bytes announce; `image/jpg` corrected to `image/jpeg`.
pub open spec fn art_mime(p: Picture) -> Option<Seq<char>> {
    let m = match p.mime {
        Some(t) if t@.len() > 0 => Some(lower_case(t@)),
        _ => sniffed(p.data@),
    };
    match m {
        Some(x) => Some(if x == "image/jpg"@ { "image/jpeg"@ } else { x }),
        None => None,
    }
}

/// A picture as stored art: its SHA-1 in hex, its type, its bytes; none for an empty
/// picture or one whose type can't be told.
pub open spec fn art_of(p: Picture) -> Option<(Seq<char>, Seq<char>, Seq<u8>)> {
    if p.data@.len() == 0 {
        None
    } else {
        match art_mime(p) {
            Some(m) => Some((hex(sha1_digest(p.data@)), m, p.data@)),
            None => None,
        }
    }
}

/// The art's contents.
pub open spec fn art_view(a: Option<Art>) -> Option<(Seq<char>, Seq<char>, Seq<u8>)> {
    match a {
        Some(x) => Some((x.hash@, x.mime@, x.data@)),
        None => None,
    }
}

/// A picture as the library keeps it: an empty one is skipped, the type is lower-cased
/// with `image/jpg` corrected, and one with no type is identified from its bytes or dropped.
pub fn art(p: &Picture) -> (r: Option<Art>)
    ensures
        art_view(r) == art_of(*p),
{
    if p.data.len() == 0 {
        return None;
    }
    let mime: String = match &p.mime {
        Some(t) if !t.as_str().is_empty() => to_lower(t.as_str()),
        _ => match sniff_image(p.data.as_slice()) {
            Some(m) => owned(m),
            None => return None,
        },
    };
    let mime = if same_text(mime.as_str(), "image/jpg") { owned("image/jpeg") } else { mime };
    let hash = sha1_hex(p.data.as_slice());
    let data = p.data.clone();
    assert(data@ =~= p.data@);
    Some(Art { hash: string_of(hash.as_slice()), mime, data })
}

/// The first art among the pictures of the tags `order` lists, from the `j`th picture of
/// the `k`th tag on.
pub open spec fn first_art(tags: Seq<TagData>, order: Seq<int>, k: int, j: int) -> Option<(Seq<char>, Seq<char>, Seq<u8>)>
    decreases order.len() - k, tags[order[k]].pictures@.len() - j,
{
    if k >= order.len() || k < 0 {
        None
    } else if j >= tags[order[k]].pictures@.len() {
        first_art(tags, order, k + 1, 0)
    } else if art_of(tags[order[k]].pictures@[j]) is Some {
        art_of(tags[order[k]].pictures@[j])
    } else {
        first_art(tags, order, k, j + 1)
    }
}

/// The `j`th picture of the `k`th tag `order` lists.
pub open spec fn picture_at(tags: Seq<TagData>, order: Seq<int>, k: int, j: int) -> Picture {
    tags[order[k]].pictures@[j]
}

/// Whether the `k`th tag `order` lists has a `j`th picture.
pub open spec fn has_picture(tags: Seq<TagData>, order: Seq<int>, k: int, j: int) -> bool {
    0 <= k < order.len() && 0 <= j < tags[order[k]].pictures@.len()
}

proof fn lemma_first_art_from(tags: Seq<TagData>, order: Seq<int>, k: int, j: int)
    requires
        forall|m: int| 0 <= m < order.len() ==> 0 <= #[trigger] order[m] < tags.len(),
        0 <= k,
        0 <= j,
    ensures
        first_art(tags, order, k, j) is None ==> forall|k2: int, j2: int|
            has_picture(tags, order, k2, j2) && (k2 > k || (k2 == k && j2 >= j))
            ==> (#[trigger] art_of(picture_at(tags, order, k2, j2))) is None,
        first_art(tags, order, k, j) matches Some(a) ==> exists|k1: int, j1: int|
            has_picture(tags, order, k1, j1) && (k1 > k || (k1 == k && j1 >= j))
            && art_of(picture_at(tags, order, k1, j1)) == Some(a)
            && forall|k2: int, j2: int| has_picture(tags, order, k2, j2) && (k2 > k || (k2 == k && j2 >= j))
                && (k2 < k1 || (k2 == k1 && j2 < j1))
                ==> (#[trigger] art_of(picture_at(tags, order, k2, j2))) is None,
    decreases order.len() - k, tags[order[k]].pictures@.len() - j,
{
    if k >= order.len() {
    } else if j >= tags[order[k]].pictures@.len() {
        lemma_first_art_from(tags, order, k + 1, 0);
        if let Some(a) = first_art(tags, order, k, j) {
            let (k1, j1) = choose|k1: int, j1: int|
                has_picture(tags, order, k1, j1) && (k1 > k + 1 || (k1 == k + 1 && j1 >= 0))
                && art_of(picture_at(tags, order, k1, j1)) == Some(a)
                && forall|k2: int, j2: int| has_picture(tags, order, k2, j2) && (k2 > k + 1 || (k2 == k + 1 && j2 >= 0))
                    && (k2 < k1 || (k2 == k1 && j2 < j1))
                    ==> (#[trigger] art_of(picture_at(tags, order, k2, j2))) is None;
            assert(has_picture(tags, order, k1, j1) && (k1 > k || (k1 == k && j1 >= j))
                && art_of(picture_at(tags, order, k1, j1)) == Some(a));
        }
    } else if art_of(tags[order[k]].pictures@[j]) is Some {
        let a = art_of(tags[order[k]].pictures@[j]).unwrap();
        assert(has_picture(tags, order, k, j) && art_of(picture_at(tags, order, k, j)) == Some(a));
    } else {
        lemma_first_art_from(tags, order, k, j + 1);
        assert(art_of(picture_at(tags, order, k, j)) is None);
        if let Some(a) = first_art(tags, order, k, j) {
            let (k1, j1) = choose|k1: int, j1: int|
                has_picture(tags, order, k1, j1) && (k1 > k || (k1 == k && j1 >= j + 1))
                && art_of(picture_at(tags, order, k1, j1)) == Some(a)
                && forall|k2: int, j2: int| has_picture(tags, order, k2, j2) && (k2 > k || (k2 == k && j2 >= j + 1))
                    && (k2 < k1 || (k2 == k1 && j2 < j1))
                    ==> (#[trigger] art_of(picture_at(tags, order, k2, j2))) is None;
            assert(has_picture(tags, order, k1, j1) && (k1 > k || (k1 == k && j1 >= j))
                && art_of(picture_at(tags, order, k1, j1)) == Some(a));
        }
    }
}

/// A track's art is the first picture that makes art: the first such picture of the best
/// tag that has one. Every picture before it in its tag, and every picture of the tags
/// ranked before that tag, makes none; with no picture making art there is none. So a tag
/// holding a front and then a back cover gives the front cover.
pub proof fn art_is_the_first_picture_that_makes_art(tags: Seq<TagData>, order: Seq<int>)
    requires
        forall|m: int| 0 <= m < order.len() ==> 0 <= #[trigger] order[m] < tags.len(),
    ensures
        first_art(tags, order, 0, 0) is None ==> forall|k: int, j: int|
            has_picture(tags, order, k, j) ==> (#[trigger] art_of(picture_at(tags, order, k, j))) is None,
        first_art(tags, order, 0, 0) matches Some(a) ==> exists|k: int, j: int|
            has_picture(tags, order, k, j)
            && art_of(picture_at(tags, order, k, j)) == Some(a)
            && forall|k2: int, j2: int| has_picture(tags, order, k2, j2) && (k2 < k || (k2 == k && j2 < j))
                ==> (#[trigger] art_of(picture_at(tags, order, k2, j2))) is None,
{
    lemma_first_art_from(tags, order, 0, 0);
}

/// The tags `order` lists come best priority first.
pub open spec fn sorted_by_rank(tags: Seq<TagData>, order: Seq<int>) -> bool {
    forall|a: int, b: int| 0 <= a < b < order.len() ==> rank(tags, #[trigger] order[a]) <= rank(tags, #[trigger] order[b])
}

proof fn lemma_rank_slot_split(tags: Seq<TagData>, order: Seq<int>, x: int, k: int)
    requires
        0 <= k <= order.len(),
    ensures
        forall|p: int| k <= p < rank_slot(tags, order, x, k) ==> rank(tags, #[trigger] order[p]) <= rank(tags, x),
        rank_slot(tags, order, x, k) < order.len() ==> rank(tags, x) < rank(tags, order[rank_slot(tags, order, x, k)]),
    decreases order.len() - k,
{
    lemma_rank_slot(tags, order, x, k);
    if k < order.len() && !(rank(tags, x) < rank(tags, order[k])) {
        lemma_rank_slot_split(tags, order, x, k + 1);
    }
}

proof fn lemma_by_priority(tags: Seq<TagData>, n: int)
    requires
        0 <= n <= tags.len(),
    ensures
        forall|m: int| 0 <= m < by_priority(tags, n).len() ==> 0 <= #[trigger] by_priority(tags, n)[m] < n
            && priority_of(tags[by_priority(tags, n)[m]].kind) is Some,
        forall|t: int| 0 <= t < n && priority_of(tags[t].kind) is Some ==> #[trigger] by_priority(tags, n).contains(t),
        sorted_by_rank(tags, by_priority(tags, n)),
    decreases n,
{
    if n > 0 {
        lemma_by_priority(tags, n - 1);
        let r = by_priority(tags, n - 1);
        if priority_of(tags[n - 1].kind) is Some {
            let x = n - 1;
            let slot = rank_slot(tags, r, x, 0);
            lemma_rank_slot(tags, r, x, 0);
            lemma_rank_slot_split(tags, r, x, 0);
            let o = r.insert(slot, x);
            assert(o == by_priority(tags, n));
            assert forall|m: int| 0 <= m < o.len() implies 0 <= #[trigger] o[m] < n
                && priority_of(tags[o[m]].kind) is Some by {
                if m < slot { assert(o[m] == r[m]); } else if m > slot { assert(o[m] == r[m - 1]); }
            }
            assert forall|t: int| 0 <= t < n && priority_of(tags[t].kind) is Some implies #[trigger] o.contains(t) by {
                if t == x {
                    assert(o[slot] == x);
                } else {
                    assert(r.contains(t));
                    let p = choose|p: int| 0 <= p < r.len() && r[p] == t;
                    if p < slot { assert(o[p] == t); } else { assert(o[p + 1] == t); }
                }
            }
            assert forall|a: int, b: int| 0 <= a < b < o.len() implies rank(tags, #[trigger] o[a]) <= rank(tags, #[trigger] o[b]) by {
                if b < slot {
                    assert(o[a] == r[a] && o[b] == r[b]);
                } else if b == slot {
                    assert(o[a] == r[a]);
                } else if a < slot {
                    assert(o[a] == r[a] && o[b] == r[b - 1]);
                    assert(rank(tags, r[a]) <= rank(tags, x));
                    assert(rank(tags, x) < rank(tags, r[slot]));
                    if b - 1 > slot {
                        assert(rank(tags, r[slot]) <= rank(tags, r[b - 1]));
                    }
                } else if a == slot {
                    assert(o[b] == r[b - 1]);
                    assert(rank(tags, x) < rank(tags, r[slot]));
                    if b - 1 > slot {
                        assert(rank(tags, r[slot]) <= rank(tags, r[b - 1]));
                    }
                } else {
                    assert(o[a] == r[a - 1] && o[b] == r[b - 1]);
                }
            }
        } else {
            assert forall|t: int| 0 <= t < n && priority_of(tags[t].kind) is Some implies #[trigger] r.contains(t) by {
                assert(t != n - 1);
            }
        }
    }
}

/// The tags are read best priority first: the order lists exactly the tags the library
/// reads, and a tag comes before every tag of lower priority.
pub proof fn tags_are_read_best_priority_first(tags: Seq<TagData>)
    ensures
        forall|m: int| 0 <= m < by_priority(tags, tags.len() as int).len()
            ==> 0 <= #[trigger] by_priority(tags, tags.len() as int)[m] < tags.len()
            && priority_of(tags[by_priority(tags, tags.len() as int)[m]].kind) is Some,
        forall|t: int| 0 <= t < tags.len() && priority_of(tags[t].kind) is Some
            ==> #[trigger] by_priority(tags, tags.len() as int).contains(t),
        sorted_by_rank(tags, by_priority(tags, tags.len() as int)),
{
    lemma_by_priority(tags, tags.len() as int);
}

/// A track's art comes from the best tag with a picture that makes art: it is the first
/// such picture in that tag, and no picture of a tag of better priority makes art.
pub proof fn art_comes_from_the_best_tag_with_art(tags: Seq<TagData>)
    ensures
        ({
            let order = by_priority(tags, tags.len() as int);
            first_art(tags, order, 0, 0) matches Some(a) ==> exists|k: int, j: int|
                has_picture(tags, order, k, j)
                && art_of(picture_at(tags, order, k, j)) == Some(a)
                && (forall|j2: int| 0 <= j2 < j ==> (#[trigger] art_of(tags[order[k]].pictures@[j2])) is None)
                && forall|t: int, j2: int| 0 <= t < tags.len() && priority_of(tags[t].kind) is Some
                    && rank(tags, t) < rank(tags, order[k]) && 0 <= j2 < tags[t].pictures@.len()
                    ==> (#[trigger] art_of(tags[t].pictures@[j2])) is None
        }),
{
    let order = by_priority(tags, tags.len() as int);
    lemma_by_priority(tags, tags.len() as int);
    art_is_the_first_picture_that_makes_art(tags, order);
    if let Some(a) = first_art(tags, order, 0, 0) {
        let (k, j) = choose|k: int, j: int| has_picture(tags, order, k, j)
            && art_of(picture_at(tags, order, k, j)) == Some(a)
            && forall|k2: int, j2: int| has_picture(tags, order, k2, j2) && (k2 < k || (k2 == k && j2 < j))
                ==> (#[trigger] art_of(picture_at(tags, order, k2, j2))) is None;
        assert forall|j2: int| 0 <= j2 < j implies (#[trigger] art_of(tags[order[k]].pictures@[j2])) is None by {
            assert(has_picture(tags, order, k, j2));
            assert(art_of(picture_at(tags, order, k, j2)) is None);
        }
        assert forall|t: int, j2: int| 0 <= t < tags.len() && priority_of(tags[t].kind) is Some
            && rank(tags, t) < rank(tags, order[k]) && 0 <= j2 < tags[t].pictures@.len()
            implies (#[trigger] art_of(tags[t].pictures@[j2])) is None by {
            assert(order.contains(t));
            let k2 = choose|k2: int| 0 <= k2 < order.len() && order[k2] == t;
            if k2 >= k {
                if k2 > k {
                    assert(rank(tags, order[k]) <= rank(tags, order[k2]));
                }
            }
            assert(k2 < k);
            assert(has_picture(tags, order, k2, j2));
            assert(art_of(picture_at(tags, order, k2, j2)) is None);
        }
    }
}

/// The year a tag gives: the first four characters of its date, or its year field (which
/// Vorbis comments aren't read for), each read with `parseInt`.
pub open spec fn tag_year(tag: TagData) -> Option<i64> {
    let from_date = match tag.recording_date {
        Some(d) => js_parse_int(if d@.len() > 4 { d@.take(4) } else { d@ }),
        None => None,
    };
    let from_year = if tag.kind != TagKind::VorbisComments {
        match tag.year {
            Some(y) => js_parse_int(y@),
            None => None,
        }
    } else {
        None
    };
    if from_date is Some { from_date } else { from_year }
}

/// The first year given by the tags `order` lists, from the `k`th on.
pub open spec fn year_from(tags: Seq<TagData>, order: Seq<int>, k: int) -> Option<i64>
    decreases order.len() - k,
{
    if k >= order.len() || k < 0 {
        None
    } else if tag_year(tags[order[k]]) is Some {
        tag_year(tags[order[k]])
    } else {
        year_from(tags, order, k + 1)
    }
}

/// The year a tag gives.
fn year_of(tag: &TagData) -> (r: Option<i64>)
    ensures
        r == tag_year(*tag),
{
    let from_date = match &tag.recording_date {
        Some(d) => {
            let v = chars_of(d.as_str());
            let mut head: Vec<char> = Vec::new();
            let mut i: usize = 0;
            while i < v.len() && i < 4
                invariant
                    i <= v@.len(),
                    i <= 4,
                    head@ == v@.take(i as int),
                decreases 4 - i,
            {
                head.push(v[i]);
                assert(v@.take(i as int + 1) =~= v@.take(i as int).push(v@[i as int]));
                i = i + 1;
            }
            proof {
                if v@.len() <= 4 {
                    assert(v@.take(v@.len() as int) =~= v@);
                }
            }
            let h = string_of(head.as_slice());
            parse_int(h.as_str())
        },
        None => None,
    };
    if from_date.is_some() {
        return from_date;
    }
    if tag.kind != TagKind::VorbisComments {
        match &tag.year {
            Some(y) => parse_int(y.as_str()),
            None => None,
        }
    } else {
        None
    }
}


/// The first art among the pictures of the tags, in tag priority order.
fn find_art(tags: &Vec<TagData>, order: &Vec<usize>) -> (r: Option<Art>)
    requires
        forall|k: int| 0 <= k < order@.len() ==> (#[trigger] order@[k]) < tags@.len(),
    ensures
        art_view(r) == first_art(tags@, order@.map_values(|i: usize| i as int), 0, 0),
{
    let ghost ord = order@.map_values(|i: usize| i as int);
    let mut k: usize = 0;
    while k < order.len()
        invariant
            k <= order@.len(),
            ord == order@.map_values(|i: usize| i as int),
            forall|j: int| 0 <= j < order@.len() ==> (#[trigger] order@[j]) < tags@.len(),
            first_art(tags@, ord, 0, 0) == first_art(tags@, ord, k as int, 0),
        decreases order@.len() - k,
    {
        let tag = &tags[order[k]];
        assert(ord[k as int] == order@[k as int] as int);
        let mut j: usize = 0;
        while j < tag.pictures.len()
            invariant
                k < order@.len(),
                ord == order@.map_values(|i: usize| i as int),
                0 <= ord[k as int] < tags@.len(),
                j <= tag.pictures@.len(),
                *tag == tags@[ord[k as int]],
                first_art(tags@, ord, 0, 0) == first_art(tags@, ord, k as int, j as int),
            decreases tag.pictures@.len() - j,
        {
            let a = art(&tag.pictures[j]);
            if a.is_some() {
                return a;
            }
            j = j + 1;
        }
        k = k + 1;
    }
    None
}

/// The first year the tags give, in tag priority order.
fn find_year(tags: &Vec<TagData>, order: &Vec<usize>) -> (r: Option<i64>)
    requires
        forall|k: int| 0 <= k < order@.len() ==> (#[trigger] order@[k]) < tags@.len(),
    ensures
        r == year_from(tags@, order@.map_values(|i: usize| i as int), 0),
{
    let ghost ord = order@.map_values(|i: usize| i as int);
    let mut k: usize = 0;
    while k < order.len()
        invariant
            k <= order@.len(),
            ord == order@.map_values(|i: usize| i as int),
            forall|j: int| 0 <= j < order@.len() ==> (#[trigger] order@[j]) < tags@.len(),
            year_from(tags@, ord, 0) == year_from(tags@, ord, k as int),
        decreases order@.len() - k,
    {
        assert(ord[k as int] == order@[k as int] as int);
        let y = year_of(&tags[order[k]]);
        if y.is_some() {
            return y;
        }
        k = k + 1;
    }
    None
}

/// `parseInt(no) || null`: a number read from text, with 0 counting as none.
pub open spec fn number_field(text: Option<Seq<char>>) -> Option<i64> {
    match text {
        Some(t) => match js_parse_int(t) {
            Some(n) if n != 0 => Some(n),
            _ => None,
        },
        None => None,
    }
}

fn number_from(text: &Option<String>) -> (r: Option<i64>)
    ensures
        r == number_field(match text { Some(t) => Some(t@), None => None }),
{
    match text {
        Some(t) => match parse_int(t.as_str()) {
            Some(n) => if n != 0 { Some(n) } else { None },
            None => None,
        },
        None => None,
    }
}

/// The text of an optional string.
pub open spec fn text_of(s: Option<String>) -> Option<Seq<char>> {
    match s {
        Some(t) => Some(t@),
        None => None,
    }
}

/// What the tags say about a track, each field from the best tag that has it. The artist is
/// the best artist field's first value, or else the artists list, without repeats, joined
/// `A, B & C`; genres are listed without repeats, joined with `", "`; track and disc numbers
/// of 0 count as none; the year comes from a date's first four characters or a year field;
/// the art is the first picture that makes art.
pub fn from_tags(tags: &Vec<TagData>) -> (m: TagSummary)
    ensures
        ({
            let order = by_priority(tags@, tags@.len() as int);
            &&& m.title@ == match last_value(tags@, Field::Title) { Some(t) => t, None => Seq::empty() }
            &&& text_of(m.artist) == (if best_values(tags@, Field::Artist).len() > 0 {
                    Some(best_values(tags@, Field::Artist)[0])
                } else {
                    artists_joined(distinct(best_values(tags@, Field::Artists)))
                })
            &&& text_of(m.album) == last_value(tags@, Field::Album)
            &&& text_of(m.album_artist) == last_value(tags@, Field::AlbumArtist)
            &&& text_of(m.genre) == (if distinct(best_values(tags@, Field::Genre)).len() > 0 {
                    Some(joined_by(distinct(best_values(tags@, Field::Genre)), ", "@))
                } else {
                    None
                })
            &&& m.track_no == number_field(last_value(tags@, Field::TrackNumber))
            &&& m.disc_no == number_field(last_value(tags@, Field::DiscNumber))
            &&& m.year == year_from(tags@, order, 0)
            &&& art_view(m.art) == first_art(tags@, order, 0, 0)
        }),
{
    let order = tag_order(tags);
    let title = match last(tags, &order, Field::Title) {
        Some(t) => t,
        None => String::new(),
    };
    let artist_values = best(tags, &order, Field::Artist);
    let artist = if artist_values.len() > 0 {
        Some(artist_values[0].clone())
    } else {
        let artists = dedup(best(tags, &order, Field::Artists));
        join_artists(&artists)
    };
    proof {
        if artist_values@.len() > 0 {
            assert(texts(artist_values@)[0] == artist_values@[0]@);
        }
    }
    let genres = dedup(best(tags, &order, Field::Genre));
    let genre = if genres.len() > 0 {
        let n = genres.len();
        let v = join_strings(&genres, n, ", ");
        assert(texts(genres@).take(n as int) =~= texts(genres@));
        Some(string_of(v.as_slice()))
    } else {
        None
    };
    let track_no = number_from(&last(tags, &order, Field::TrackNumber));
    let disc_no = number_from(&last(tags, &order, Field::DiscNumber));
    let year = find_year(tags, &order);
    let art = find_art(tags, &order);
    TagSummary {
        title,
        artist,
        album: last(tags, &order, Field::Album),
        album_artist: last(tags, &order, Field::AlbumArtist),
        genre,
        track_no,
        disc_no,
        year,
        art,
    }
}

/// The title a track is stored under: the tags' title, trimmed, or the file's name without
/// its extension when that leaves nothing.
pub fn settle_title(title: &str, stem: String) -> (r: String)
    ensures
        js_trim(title@).len() == 0 ==> r@ == stem@,
        js_trim(title@).len() > 0 ==> r@ == js_trim(title@),
{
    let t = trim(title);
    if t.is_empty() {
        stem
    } else {
        owned(t)
    }
}

/// A path's file name without its extension: std's `Path::file_stem`, by the path syntax
/// of the platform the library is built for.
pub uninterp spec fn stem_part(path: Seq<char>) -> Option<Seq<char>>;

/// `Path::new(path).file_stem()`: the file name without its extension, or nothing for a
/// path with no file name. The component rules are std's and are not stated here.
#[verifier::external_body]
fn path_stem(path: &str) -> (r: Option<String>)
    ensures
        text_of(r) == stem_part(path@),
{
    std::path::Path::new(path).file_stem().map(|s| s.to_string_lossy().into_owned())
}

/// `basename(path, extname(path))`: the file name without its extension, or empty.
pub fn file_stem(path: &str) -> (r: String)
    ensures
        r@ == match stem_part(path@) { Some(s) => s, None => Seq::empty() },
{
    match path_stem(path) {
        Some(s) => s,
        None => String::new(),
    }
}

} // verus!
