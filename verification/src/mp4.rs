//! The encoder delay an MP4 audio file declares, which the decoder leaves in the audio.
//!
//! AAC encoders start every file with 1,024 to 2,112 frames of priming, 23 to 48 ms of
//! lead-in, and record how much in the file: an edit list whose first edit starts
//! `media_time` units into the track, or, from iTunes and Apple's encoder, an `iTunSMPB`
//! tag. Without trimming it, every song starts late and every seek lands that far off.
//! This reads the boxes from the file's bytes.

use vstd::prelude::*;

use crate::js::is_unicode_space;

verus! {

/// `moov`, `trak`, `mdia`, `hdlr`, `mdhd`, `edts`, `elst`, `soun`, `udta`, `meta`, `ilst`,
/// `----`, `name` and `data` as big-endian codes.
pub open spec fn code(name: Seq<char>) -> int {
    (name[0] as int) * 16777216 + (name[1] as int) * 65536 + (name[2] as int) * 256 + (name[3] as int)
}

pub open spec fn moov() -> int { 0x6d6f6f76 }
pub open spec fn trak() -> int { 0x7472616b }
pub open spec fn mdia() -> int { 0x6d646961 }
pub open spec fn hdlr() -> int { 0x68646c72 }
pub open spec fn mdhd() -> int { 0x6d646864 }
pub open spec fn edts() -> int { 0x65647473 }
pub open spec fn elst() -> int { 0x656c7374 }
pub open spec fn soun() -> int { 0x736f756e }
pub open spec fn udta() -> int { 0x75647461 }
pub open spec fn meta() -> int { 0x6d657461 }
pub open spec fn ilst() -> int { 0x696c7374 }
pub open spec fn freeform() -> int { 0x2d2d2d2d }
pub open spec fn name_box() -> int { 0x6e616d65 }
pub open spec fn data_box() -> int { 0x64617461 }

/// Four bytes at `at`, big-endian.
pub open spec fn be32(b: Seq<u8>, at: int) -> int {
    (b[at] as int) * 16777216 + (b[at + 1] as int) * 65536 + (b[at + 2] as int) * 256 + (b[at + 3] as int)
}

/// Eight bytes at `at`, big-endian.
pub open spec fn be64(b: Seq<u8>, at: int) -> int {
    be32(b, at) * 4294967296 + be32(b, at + 4)
}

/// The boxes between `at` and `end`, each as its kind and its payload's start and end. A
/// size of 1 means a 64-bit size follows; 0 means the box runs to `end`. A box that doesn't
/// fit, or can't be read, ends the list.
pub open spec fn boxes(b: Seq<u8>, at: int, end: int) -> Seq<(int, int, int)>
    decreases end - at,
{
    if at < 0 || at + 8 > end || at + 8 > b.len() {
        Seq::empty()
    } else if be32(b, at) == 1 {
        if at + 16 > b.len() {
            Seq::empty()
        } else {
            let size = be64(b, at + 8);
            if size < 16 || at + size > end {
                Seq::empty()
            } else {
                seq![(be32(b, at + 4), at + 16, at + size)] + boxes(b, at + size, end)
            }
        }
    } else {
        let size = if be32(b, at) == 0 { end - at } else { be32(b, at) };
        if size < 8 || at + size > end {
            Seq::empty()
        } else {
            seq![(be32(b, at + 4), at + 8, at + size)] + boxes(b, at + size, end)
        }
    }
}

/// The first of some boxes with a kind, as its payload's start and end.
pub open spec fn first_of(list: Seq<(int, int, int)>, kind: int) -> Option<(int, int)>
    decreases list.len(),
{
    if list.len() == 0 {
        None
    } else if list[0].0 == kind {
        Some((list[0].1, list[0].2))
    } else {
        first_of(list.drop_first(), kind)
    }
}

/// The first box of a kind between `start` and `end`.
pub open spec fn find_box(b: Seq<u8>, start: int, end: int, kind: int) -> Option<(int, int)> {
    first_of(boxes(b, start, end), kind)
}

fn be32_at(b: &[u8], at: u64) -> (r: u64)
    requires
        at + 4 <= b@.len(),
        b@.len() <= u64::MAX,
    ensures
        r == be32(b@, at as int),
{
    let i = at as usize;
    (b[i] as u64) * 16777216 + (b[i + 1] as u64) * 65536 + (b[i + 2] as u64) * 256 + (b[i + 3] as u64)
}

fn be64_at(b: &[u8], at: u64) -> (r: u128)
    requires
        at + 8 <= b@.len(),
        b@.len() <= u64::MAX,
    ensures
        r == be64(b@, at as int),
{
    let hi = be32_at(b, at);
    let lo = be32_at(b, at + 4);
    (hi as u128) * 4294967296 + (lo as u128)
}

/// The boxes between `start` and `end`.
pub fn children(b: &[u8], start: u64, end: u64) -> (r: Vec<(u64, u64, u64)>)
    requires
        end <= b@.len(),
        start <= end + 8,
    ensures
        r@.map_values(|x: (u64, u64, u64)| (x.0 as int, x.1 as int, x.2 as int)) == boxes(b@, start as int, end as int),
{
    let len = b.len() as u64;
    let mut out: Vec<(u64, u64, u64)> = Vec::new();
    let mut at = start;
    let ghost all = boxes(b@, start as int, end as int);
    assert(out@.map_values(|x: (u64, u64, u64)| (x.0 as int, x.1 as int, x.2 as int)) + boxes(b@, at as int, end as int) =~= all);
    loop
        invariant
            end <= b@.len(),
            len == b@.len(),
            all == boxes(b@, start as int, end as int),
            out@.map_values(|x: (u64, u64, u64)| (x.0 as int, x.1 as int, x.2 as int)) + boxes(b@, at as int, end as int) == all,
        decreases (if at <= end { end - at + 1 } else { 0 }),
    {
        let ghost before = out@.map_values(|x: (u64, u64, u64)| (x.0 as int, x.1 as int, x.2 as int));
        if at > end || end - at < 8 || at > len || len - at < 8 {
            assert(boxes(b@, at as int, end as int) =~= Seq::<(int, int, int)>::empty());
            assert(before + Seq::<(int, int, int)>::empty() =~= before);
            return out;
        }
        let size0 = be32_at(b, at);
        let kind = be32_at(b, at + 4);
        let (payload, size): (u64, u128) = if size0 == 1 {
            if len - at < 16 {
                assert(boxes(b@, at as int, end as int) =~= Seq::<(int, int, int)>::empty());
                assert(before + Seq::<(int, int, int)>::empty() =~= before);
                return out;
            }
            (at + 16, be64_at(b, at + 8))
        } else if size0 == 0 {
            (at + 8, (end - at) as u128)
        } else {
            (at + 8, size0 as u128)
        };
        if size < (payload - at) as u128 || size > (end - at) as u128 {
            assert(boxes(b@, at as int, end as int) =~= Seq::<(int, int, int)>::empty());
            assert(before + Seq::<(int, int, int)>::empty() =~= before);
            return out;
        }
        let next = at + size as u64;
        out.push((kind, payload, next));
        proof {
            let item = (kind as int, payload as int, next as int);
            assert(boxes(b@, at as int, end as int) == seq![item] + boxes(b@, next as int, end as int));
            assert(out@.map_values(|x: (u64, u64, u64)| (x.0 as int, x.1 as int, x.2 as int)) =~= before.push(item));
            assert(before.push(item) + boxes(b@, next as int, end as int) =~= before + (seq![item] + boxes(b@, next as int, end as int)));
        }
        at = next;
    }
}

/// The first box of a kind between `start` and `end`.
pub fn find(b: &[u8], start: u64, end: u64, kind: u64) -> (r: Option<(u64, u64)>)
    requires
        end <= b@.len(),
        start <= end + 8,
    ensures
        match r {
            Some((s, e)) => find_box(b@, start as int, end as int, kind as int) == Some((s as int, e as int)),
            None => find_box(b@, start as int, end as int, kind as int).is_none(),
        },
        r matches Some((s, e)) ==> s <= e <= end,
{
    let list = children(b, start, end);
    let ghost v = list@.map_values(|x: (u64, u64, u64)| (x.0 as int, x.1 as int, x.2 as int));
    proof { lemma_boxes_within(b@, start as int, end as int); }
    let mut k: usize = 0;
    assert(v.skip(0) =~= v);
    while k < list.len()
        invariant
            k <= list@.len(),
            v == list@.map_values(|x: (u64, u64, u64)| (x.0 as int, x.1 as int, x.2 as int)),
            v == boxes(b@, start as int, end as int),
            forall|j: int| 0 <= j < v.len() ==> (#[trigger] v[j]).1 <= v[j].2 <= end,
            first_of(v, kind as int) == first_of(v.skip(k as int), kind as int),
        decreases list@.len() - k,
    {
        let (c, s, e) = list[k];
        assert(v[k as int] == (c as int, s as int, e as int));
        assert(v.skip(k as int)[0] == v[k as int]);
        if c == kind {
            return Some((s, e));
        }
        assert(v.skip(k as int).drop_first() =~= v.skip(k as int + 1));
        k = k + 1;
    }
    assert(v.skip(k as int) =~= Seq::<(int, int, int)>::empty());
    None
}

proof fn lemma_boxes_within(b: Seq<u8>, at: int, end: int)
    ensures
        forall|j: int| 0 <= j < boxes(b, at, end).len() ==> at <= #[trigger] boxes(b, at, end)[j].1 <= boxes(b, at, end)[j].2 <= end,
    decreases end - at,
{
    if !(at < 0 || at + 8 > end || at + 8 > b.len()) {
        let size = if be32(b, at) == 1 {
            if at + 16 <= b.len() { be64(b, at + 8) } else { 0 }
        } else if be32(b, at) == 0 {
            end - at
        } else {
            be32(b, at)
        };
        let head = if be32(b, at) == 1 { 16int } else { 8int };
        if !(be32(b, at) == 1 && at + 16 > b.len()) && !(size < head || at + size > end) {
            lemma_boxes_within(b, at + size, end);
            let rest = boxes(b, at + size, end);
            assert forall|j: int| 0 <= j < boxes(b, at, end).len() implies at <= #[trigger] boxes(b, at, end)[j].1 <= boxes(b, at, end)[j].2 <= end by {
                if j > 0 {
                    assert(boxes(b, at, end)[j] == rest[j - 1]);
                }
            }
        }
    }
}


/// A 32-bit two's-complement value.
pub open spec fn signed32(x: int) -> int {
    if x >= 0x8000_0000 { x - 0x1_0000_0000 } else { x }
}

/// A 64-bit two's-complement value.
pub open spec fn signed64(x: int) -> int {
    if x >= 0x8000_0000_0000_0000 { x - 0x1_0000_0000_0000_0000 } else { x }
}

/// The first real edit among the `n` entries of an edit list at `ls` (version `v`), from
/// the `i`th on: its `media_time`, with the track's `timescale`, when both are positive.
/// An empty edit (-1, a gap before the media) is skipped; an entry that can't be read ends
/// the search.
pub open spec fn first_edit(b: Seq<u8>, ls: int, v: int, n: int, i: int, timescale: int) -> Option<(int, int)>
    decreases n - i,
{
    if i >= n || i < 0 {
        None
    } else {
        let entry = if v == 1 { 20int } else { 12int };
        let at = ls + 8 + (if v == 1 { 20 * i } else { 12 * i });
        if at + entry > b.len() {
            None
        } else {
            let media_time = if v == 1 { signed64(be64(b, at + 8)) } else { signed32(be32(b, at + 4)) };
            if media_time >= 0 {
                if media_time > 0 && timescale > 0 { Some((media_time, timescale)) } else { None }
            } else {
                first_edit(b, ls, v, n, i + 1, timescale)
            }
        }
    }
}

/// The edit of a sound track (`trak` payload from `ts` to `te`, `mdia` from `ms` to `me`):
/// its time scale from `mdhd`, and the first real edit of its `edts`/`elst`.
pub open spec fn track_edit(b: Seq<u8>, ts: int, te: int, ms: int, me: int) -> Option<(int, int)> {
    match find_box(b, ms, me, mdhd()) {
        None => None,
        Some((ds, _)) => if ds + 1 > b.len() {
            None
        } else {
            let scale_at = ds + 4 + (if b[ds] == 1 { 16int } else { 8int });
            if scale_at + 4 > b.len() {
                None
            } else {
                let timescale = be32(b, scale_at);
                match find_box(b, ts, te, edts()) {
                    None => None,
                    Some((es, ee)) => match find_box(b, es, ee, elst()) {
                        None => None,
                        Some((ls, _)) => if ls + 8 > b.len() {
                            None
                        } else {
                            let count = be32(b, ls + 4);
                            first_edit(b, ls, b[ls] as int, if count < 4 { count } else { 4 }, 0, timescale)
                        },
                    },
                }
            }
        },
    }
}

/// The edit of the first sound track among the boxes `kids` (from the `k`th on). A track
/// missing a box it needs ends the search.
pub open spec fn sound_edit(b: Seq<u8>, kids: Seq<(int, int, int)>, k: int) -> Option<(int, int)>
    decreases kids.len() - k,
{
    if k >= kids.len() || k < 0 {
        None
    } else if kids[k].0 != trak() {
        sound_edit(b, kids, k + 1)
    } else {
        match find_box(b, kids[k].1, kids[k].2, mdia()) {
            None => None,
            Some((ms, me)) => match find_box(b, ms, me, hdlr()) {
                None => None,
                Some((hs, _)) => if hs + 12 > b.len() {
                    None
                } else if be32(b, hs + 8) != soun() {
                    sound_edit(b, kids, k + 1)
                } else {
                    track_edit(b, kids[k].1, kids[k].2, ms, me)
                },
            },
        }
    }
}

fn edit_entries(b: &[u8], ls: u64, v: u8, n: u64, timescale: u64) -> (r: Option<(u64, u64)>)
    requires
        b@.len() <= u64::MAX,
        ls + 8 <= b@.len(),
        n <= 4,
        timescale <= u32::MAX,
    ensures
        match r {
            Some((t, s)) => t <= i64::MAX && 0 < s && s <= u32::MAX,
            None => true,
        },
        match r {
            Some((t, s)) => first_edit(b@, ls as int, v as int, n as int, 0, timescale as int) == Some((t as int, s as int)),
            None => first_edit(b@, ls as int, v as int, n as int, 0, timescale as int).is_none(),
        },
{
    let len = b.len() as u64;
    let mut i: u64 = 0;
    while i < n
        invariant
            i <= n <= 4,
            len == b@.len(),
            ls + 8 <= len,
            timescale <= u32::MAX,
            first_edit(b@, ls as int, v as int, n as int, 0, timescale as int)
                == first_edit(b@, ls as int, v as int, n as int, i as int, timescale as int),
        decreases n - i,
    {
        let entry: u64 = if v == 1 { 20 } else { 12 };
        let offset: u64 = if v == 1 { 20 * i } else { 12 * i };
        if len - (ls + 8) < offset || len - (ls + 8) - offset < entry {
            return None;
        }
        let at = ls + 8 + offset;
        let media_time: i128 = if v == 1 {
            let x = be64_at(b, at + 8);
            if x >= 0x8000_0000_0000_0000 { x as i128 - 0x1_0000_0000_0000_0000 } else { x as i128 }
        } else {
            let x = be32_at(b, at + 4);
            if x >= 0x8000_0000 { x as i128 - 0x1_0000_0000 } else { x as i128 }
        };
        if media_time >= 0 {
            if media_time > 0 && timescale > 0 {
                return Some((media_time as u64, timescale));
            }
            return None;
        }
        i = i + 1;
    }
    None
}

/// `media_time` of the first real edit of the first sound track in `moov` (payload from
/// `start` to `end`), with the track's time scale.
pub fn audio_track_edit(b: &[u8], start: u64, end: u64) -> (r: Option<(u64, u64)>)
    requires
        end <= b@.len(),
        start <= end,
    ensures
        match r {
            Some((t, s)) => t <= i64::MAX && 0 < s && s <= u32::MAX,
            None => true,
        },
        match r {
            Some((t, s)) => sound_edit(b@, boxes(b@, start as int, end as int), 0) == Some((t as int, s as int)),
            None => sound_edit(b@, boxes(b@, start as int, end as int), 0).is_none(),
        },
{
    let len = b.len() as u64;
    let kids = children(b, start, end);
    let ghost kv = kids@.map_values(|x: (u64, u64, u64)| (x.0 as int, x.1 as int, x.2 as int));
    proof { lemma_boxes_within(b@, start as int, end as int); }
    let mut k: usize = 0;
    while k < kids.len()
        invariant
            k <= kids@.len(),
            len == b@.len(),
            end <= len,
            kv == kids@.map_values(|x: (u64, u64, u64)| (x.0 as int, x.1 as int, x.2 as int)),
            kv == boxes(b@, start as int, end as int),
            forall|j: int| 0 <= j < kv.len() ==> (#[trigger] kv[j]).1 <= kv[j].2 <= end,
            sound_edit(b@, kv, 0) == sound_edit(b@, kv, k as int),
        decreases kids@.len() - k,
    {
        let (kind, ts, te) = kids[k];
        assert(kv[k as int] == (kind as int, ts as int, te as int));
        if kind != 0x7472616b {
            k = k + 1;
            continue;
        }
        let (ms, me) = match find(b, ts, te, 0x6d646961) {
            None => return None,
            Some(x) => x,
        };
        let (hs, _) = match find(b, ms, me, 0x68646c72) {
            None => return None,
            Some(x) => x,
        };
        if len - hs < 12 {
            return None;
        }
        if be32_at(b, hs + 8) != 0x736f756e {
            k = k + 1;
            continue;
        }
        let (ds, _) = match find(b, ms, me, 0x6d646864) {
            None => return None,
            Some(x) => x,
        };
        if len - ds < 1 {
            return None;
        }
        let version = b[ds as usize];
        let scale_at: u64 = if version == 1 { 20 } else { 12 };
        if len - ds < scale_at + 4 {
            return None;
        }
        let timescale = be32_at(b, ds + scale_at);
        let (es, ee) = match find(b, ts, te, 0x65647473) {
            None => return None,
            Some(x) => x,
        };
        let (ls, _) = match find(b, es, ee, 0x656c7374) {
            None => return None,
            Some(x) => x,
        };
        if len - ls < 8 {
            return None;
        }
        let count = be32_at(b, ls + 4);
        let n = if count < 4 { count } else { 4 };
        return edit_entries(b, ls, b[ls as usize], n, timescale);
    }
    None
}


/// Bytes read as UTF-8, with each invalid sequence replaced by U+FFFD: std's
/// `String::from_utf8_lossy`.
pub uninterp spec fn utf8_lossy(bytes: Seq<u8>) -> Seq<char>;

/// `String::from_utf8_lossy`: the bytes as text, invalid sequences replaced. The decoding
/// is std's and is not stated here.
#[verifier::external_body]
fn lossy_text(bytes: &[u8]) -> (r: String)
    ensures
        r@ == utf8_lossy(bytes@),
{
    String::from_utf8_lossy(bytes).into_owned()
}

/// Where the whitespace from `i` on ends.
pub open spec fn space_end(t: Seq<char>, i: int) -> int
    decreases t.len() - i,
{
    if 0 <= i < t.len() && is_unicode_space(t[i]) { space_end(t, i + 1) } else { i }
}

/// Where the word from `i` on ends.
pub open spec fn word_end(t: Seq<char>, i: int) -> int
    decreases t.len() - i,
{
    if 0 <= i < t.len() && !is_unicode_space(t[i]) { word_end(t, i + 1) } else { i }
}

/// The second whitespace-separated word of a text: `split_whitespace().nth(1)`.
pub open spec fn second_word(t: Seq<char>) -> Option<Seq<char>> {
    let a = space_end(t, 0);
    if a >= t.len() {
        None
    } else {
        let c = space_end(t, word_end(t, a));
        if c >= t.len() { None } else { Some(t.subrange(c, word_end(t, c))) }
    }
}

/// A hex digit's value.
pub open spec fn hex_digit_value(c: char) -> Option<int> {
    if '0' <= c && c <= '9' {
        Some(c as int - 48)
    } else if 'a' <= c && c <= 'f' {
        Some(c as int - 87)
    } else if 'A' <= c && c <= 'F' {
        Some(c as int - 55)
    } else {
        None
    }
}

/// Hex digits' value, or `None` if any isn't one.
pub open spec fn hex_value(d: Seq<char>) -> Option<int>
    decreases d.len(),
{
    if d.len() == 0 {
        Some(0)
    } else {
        match (hex_value(d.drop_last()), hex_digit_value(d.last())) {
            (Some(v), Some(x)) => Some(v * 16 + x),
            _ => None,
        }
    }
}

/// `u64::from_str_radix(s, 16)`: an optional `+`, then at least one hex digit, the value
/// fitting in 64 bits.
pub open spec fn hex_u64(s: Seq<char>) -> Option<int> {
    let body = if s.len() > 0 && s[0] == '+' { s.skip(1) } else { s };
    if body.len() == 0 {
        None
    } else {
        match hex_value(body) {
            Some(v) if v <= u64::MAX => Some(v),
            _ => None,
        }
    }
}

/// The encoder delay in an `iTunSMPB` value: its second field, in hex, when positive.
pub open spec fn delay_in(t: Seq<char>) -> Option<int> {
    match second_word(t) {
        Some(w) => match hex_u64(w) {
            Some(v) if v > 0 => Some(v),
            _ => None,
        },
        None => None,
    }
}

fn is_space(c: char) -> (r: bool)
    ensures
        r == is_unicode_space(c),
{
    let u = c as u32;
    (0x09 <= u && u <= 0x0d) || u == 0x20 || u == 0x85 || u == 0xa0 || u == 0x1680
        || (0x2000 <= u && u <= 0x200a) || u == 0x2028 || u == 0x2029 || u == 0x202f
        || u == 0x205f || u == 0x3000
}

proof fn lemma_hex_value_grows(d: Seq<char>)
    ensures
        hex_value(d) matches Some(v) ==> v >= 0,
        d.len() > 0 && hex_value(d) is Some ==> hex_value(d.drop_last()) is Some
            && hex_value(d).unwrap() >= hex_value(d.drop_last()).unwrap(),
    decreases d.len(),
{
    if d.len() > 0 {
        lemma_hex_value_grows(d.drop_last());
    }
}

proof fn lemma_hex_prefix(d: Seq<char>, i: int)
    requires
        0 <= i <= d.len(),
        hex_value(d) is Some,
    ensures
        hex_value(d.take(i)) is Some,
        hex_value(d.take(i)).unwrap() <= hex_value(d).unwrap(),
    decreases d.len() - i,
{
    if i < d.len() {
        lemma_hex_value_grows(d);
        assert(d.drop_last().take(i) =~= d.take(i));
        lemma_hex_prefix(d.drop_last(), i);
    } else {
        assert(d.take(i) =~= d);
    }
}

/// The encoder delay in an `iTunSMPB` value.
pub fn delay_from_text(t: &str) -> (r: Option<u64>)
    ensures
        match r {
            Some(v) => delay_in(t@) == Some(v as int),
            None => delay_in(t@).is_none(),
        },
{
    let v = chars_of_text(t);
    let n = v.len();
    let mut a: usize = 0;
    while a < n && is_space(v[a])
        invariant
            a <= n == v@.len(),
            space_end(v@, 0) == space_end(v@, a as int),
        decreases n - a,
    {
        a = a + 1;
    }
    if a >= n {
        return None;
    }
    let mut b: usize = a;
    while b < n && !is_space(v[b])
        invariant
            a <= b <= n == v@.len(),
            word_end(v@, a as int) == word_end(v@, b as int),
        decreases n - b,
    {
        b = b + 1;
    }
    let mut c: usize = b;
    while c < n && is_space(v[c])
        invariant
            b <= c <= n == v@.len(),
            space_end(v@, b as int) == space_end(v@, c as int),
        decreases n - c,
    {
        c = c + 1;
    }
    if c >= n {
        return None;
    }
    let mut e: usize = c;
    while e < n && !is_space(v[e])
        invariant
            c <= e <= n == v@.len(),
            word_end(v@, c as int) == word_end(v@, e as int),
        decreases n - e,
    {
        e = e + 1;
    }
    let ghost word = v@.subrange(c as int, e as int);
    assert(second_word(v@) == Some(word));
    let mut i: usize = c;
    if v[c] == '+' {
        i = c + 1;
    }
    let ghost body = if word.len() > 0 && word[0] == '+' { word.skip(1) } else { word };
    assert(body =~= v@.subrange(i as int, e as int));
    if i >= e {
        return None;
    }
    let mut value: u128 = 0;
    let mut k: usize = i;
    while k < e
        invariant
            i <= k <= e <= n == v@.len(),
            body == v@.subrange(i as int, e as int),
            body == (if word.len() > 0 && word[0] == '+' { word.skip(1) } else { word }),
            body.len() > 0,
            v@ == t@,
            second_word(v@) == Some(word),
            value <= u64::MAX,
            hex_value(body.take(k - i)) == Some(value as int),
        decreases e - k,
    {
        let ch = v[k];
        let digit: u128 = if '0' <= ch && ch <= '9' {
            (ch as u32 - 48) as u128
        } else if 'a' <= ch && ch <= 'f' {
            (ch as u32 - 87) as u128
        } else if 'A' <= ch && ch <= 'F' {
            (ch as u32 - 55) as u128
        } else {
            proof {
                assert(body.take(k - i + 1).drop_last() =~= body.take(k - i));
                assert(body.take(k - i + 1).last() == ch);
                assert(hex_digit_value(ch) is None);
                assert(hex_value(body.take(k - i + 1)) is None);
                if hex_value(body) is Some {
                    lemma_hex_prefix(body, k - i + 1);
                }
                assert(hex_value(body) is None);
                assert(hex_u64(word) is None);
            }
            return None;
        };
        let next = value * 16 + digit;
        proof {
            assert(body.take(k - i + 1).drop_last() =~= body.take(k - i));
            assert(body.take(k - i + 1).last() == ch);
        }
        if next > 0xffff_ffff_ffff_ffff {
            proof {
                assert(hex_value(body.take(k - i + 1)) == Some(next as int));
                if hex_value(body) is Some {
                    lemma_hex_prefix(body, k - i + 1);
                }
                assert(hex_u64(word) is None);
            }
            return None;
        }
        value = next;
        k = k + 1;
    }
    assert(body.take(e - i) =~= body);
    if value == 0 {
        return None;
    }
    Some(value as u64)
}

fn chars_of_text(t: &str) -> (v: Vec<char>)
    ensures
        v@ == t@,
{
    crate::text::chars_of(t)
}

/// The encoder delay in an `iTunSMPB` freeform tag under `moov` (payload from `ms` to
/// `me`): `udta`, then `meta` (a full box, whose version and flags are skipped), then the
/// `----` items of `ilst`, the first named `iTunSMPB` holding it.
pub open spec fn smpb_delay(b: Seq<u8>, ms: int, me: int) -> Option<int> {
    match find_box(b, ms, me, udta()) {
        None => None,
        Some((us, ue)) => match find_box(b, us, ue, meta()) {
            None => None,
            Some((ts, te)) => match find_box(b, ts + 4, te, ilst()) {
                None => None,
                Some((is, ie)) => smpb_from(b, boxes(b, is, ie), 0),
            },
        },
    }
}

/// The bytes of `iTunSMPB`.
pub open spec fn smpb_name() -> Seq<u8> {
    seq![0x69u8, 0x54u8, 0x75u8, 0x6eu8, 0x53u8, 0x4du8, 0x50u8, 0x42u8]
}

/// The delay from the freeform items `items`, from the `k`th on: the first named
/// `iTunSMPB`. An item missing its name or data ends the search.
pub open spec fn smpb_from(b: Seq<u8>, items: Seq<(int, int, int)>, k: int) -> Option<int>
    decreases items.len() - k,
{
    if k >= items.len() || k < 0 {
        None
    } else if items[k].0 != freeform() {
        smpb_from(b, items, k + 1)
    } else {
        let parts = boxes(b, items[k].1, items[k].2);
        match first_of(parts, name_box()) {
            None => None,
            Some((ns, ne)) => if ne - ns < 4 || ne > b.len() {
                None
            } else if b.subrange(ns + 4, ne) != smpb_name() {
                smpb_from(b, items, k + 1)
            } else {
                match first_of(parts, data_box()) {
                    None => None,
                    Some((ds, de)) => if de - ds < 8 || de > b.len() {
                        None
                    } else {
                        delay_in(utf8_lossy(b.subrange(ds + 8, de)))
                    },
                }
            },
        }
    }
}

fn is_smpb_name(b: &[u8], from: u64, to: u64) -> (r: bool)
    requires
        from <= to <= b@.len(),
    ensures
        r == (b@.subrange(from as int, to as int) == smpb_name()),
{
    if to - from != 8 {
        assert(b@.subrange(from as int, to as int).len() != smpb_name().len());
        return false;
    }
    let f = from as usize;
    let r = b[f] == 0x69 && b[f + 1] == 0x54 && b[f + 2] == 0x75 && b[f + 3] == 0x6e
        && b[f + 4] == 0x53 && b[f + 5] == 0x4d && b[f + 6] == 0x50 && b[f + 7] == 0x42;
    proof {
        let s = b@.subrange(from as int, to as int);
        if r {
            assert(s =~= smpb_name());
        } else {
            assert(s != smpb_name()) by {
                if s == smpb_name() {
                    assert(s[0] == b@[f as int] && s[1] == b@[f + 1] && s[2] == b@[f + 2] && s[3] == b@[f + 3]);
                    assert(s[4] == b@[f + 4] && s[5] == b@[f + 5] && s[6] == b@[f + 6] && s[7] == b@[f + 7]);
                }
            }
        }
    }
    r
}

fn slice_of(b: &[u8], from: u64, to: u64) -> (r: Vec<u8>)
    requires
        from <= to <= b@.len(),
    ensures
        r@ == b@.subrange(from as int, to as int),
{
    let mut out: Vec<u8> = Vec::new();
    let mut i = from;
    while i < to
        invariant
            from <= i <= to <= b@.len(),
            out@ == b@.subrange(from as int, i as int),
        decreases to - i,
    {
        out.push(b[i as usize]);
        assert(b@.subrange(from as int, i as int + 1) =~= b@.subrange(from as int, i as int).push(b@[i as int]));
        i = i + 1;
    }
    out
}

/// The encoder delay in an `iTunSMPB` tag under `moov`.
pub fn itunes_smpb(b: &[u8], ms: u64, me: u64) -> (r: Option<u64>)
    requires
        me <= b@.len(),
        ms <= me,
    ensures
        match r {
            Some(v) => smpb_delay(b@, ms as int, me as int) == Some(v as int),
            None => smpb_delay(b@, ms as int, me as int).is_none(),
        },
{
    let (us, ue) = match find(b, ms, me, 0x75647461) {
        None => return None,
        Some(x) => x,
    };
    let (ts, te) = match find(b, us, ue, 0x6d657461) {
        None => return None,
        Some(x) => x,
    };
    if te - ts < 8 {
        assert(boxes(b@, ts + 4, te as int) =~= Seq::<(int, int, int)>::empty());
        return None;
    }
    let (is, ie) = match find(b, ts + 4, te, 0x696c7374) {
        None => return None,
        Some(x) => x,
    };
    let items = children(b, is, ie);
    let ghost iv = items@.map_values(|x: (u64, u64, u64)| (x.0 as int, x.1 as int, x.2 as int));
    proof { lemma_boxes_within(b@, is as int, ie as int); }
    let mut k: usize = 0;
    while k < items.len()
        invariant
            k <= items@.len(),
            ie <= b@.len(),
            iv == items@.map_values(|x: (u64, u64, u64)| (x.0 as int, x.1 as int, x.2 as int)),
            iv == boxes(b@, is as int, ie as int),
            forall|j: int| 0 <= j < iv.len() ==> (#[trigger] iv[j]).1 <= iv[j].2 <= ie,
            smpb_delay(b@, ms as int, me as int) == smpb_from(b@, iv, k as int),
        decreases items@.len() - k,
    {
        let (kind, start, end) = items[k];
        assert(iv[k as int] == (kind as int, start as int, end as int));
        if kind != 0x2d2d2d2d {
            k = k + 1;
            continue;
        }
        let (ns, ne) = match find(b, start, end, 0x6e616d65) {
            None => return None,
            Some(x) => x,
        };
        if ne - ns < 4 {
            return None;
        }
        if !is_smpb_name(b, ns + 4, ne) {
            k = k + 1;
            continue;
        }
        let (ds, de) = match find(b, start, end, 0x64617461) {
            None => return None,
            Some(x) => x,
        };
        if de - ds < 8 {
            return None;
        }
        let bytes = slice_of(b, ds + 8, de);
        let text = lossy_text(bytes.as_slice());
        return delay_from_text(text.as_str());
    }
    None
}

/// Frames of priming, at `rate`, to drop from the start of the file's first audio track,
/// if the file says: from its edit list, scaled from the track's time scale (rounded down,
/// and at most what 64 bits hold), or else from an `iTunSMPB` tag.
pub open spec fn priming(b: Seq<u8>, rate: u32) -> Option<int> {
    match find_box(b, 0, b.len() as int, moov()) {
        None => None,
        Some((ms, me)) => match sound_edit(b, boxes(b, ms, me), 0) {
            Some((time, scale)) => {
                let frames = time * rate / scale;
                Some(if frames > u64::MAX { u64::MAX as int } else { frames })
            },
            None => smpb_delay(b, ms, me),
        },
    }
}

/// Frames of priming, at `rate`, to drop from the start of an MP4 file's first audio track,
/// if the file (its bytes) says.
pub fn priming_frames(b: &[u8], rate: u32) -> (r: Option<u64>)
    ensures
        match r {
            Some(v) => priming(b@, rate) == Some(v as int),
            None => priming(b@, rate).is_none(),
        },
{
    let len = b.len() as u64;
    let (ms, me) = match find(b, 0, len, 0x6d6f6f76) {
        None => return None,
        Some(x) => x,
    };
    match audio_track_edit(b, ms, me) {
        Some((time, scale)) => {
            assert(time as u128 * rate as u128 <= 0x8000_0000_0000_0000u128 * 0x1_0000_0000u128) by (nonlinear_arith)
                requires
                    time <= 0x7fff_ffff_ffff_ffff,
                    rate <= 0xffff_ffff;
            let product: u128 = time as u128 * rate as u128;
            let frames: u128 = product / scale as u128;
            if frames > 0xffff_ffff_ffff_ffff {
                Some(0xffff_ffff_ffff_ffff)
            } else {
                Some(frames as u64)
            }
        },
        None => itunes_smpb(b, ms, me),
    }
}

} // verus!
