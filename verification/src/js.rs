//! The JavaScript and Node.js behaviours the jukebox leans on: trimming, integer parsing,
//! number literals, dates, and path normalization. Each decides a value that ends up in the
//! database or a response, so each is stated exactly.

use vstd::prelude::*;

use crate::library::scan::{floor_millis, floored_millis};
use crate::text::{chars_of, push_all, string_of};

verus! {

/// Unicode's `White_Space` property, which is what `char::is_whitespace` tests.
pub open spec fn is_unicode_space(c: char) -> bool {
    let u = c as u32;
    ||| 0x09 <= u <= 0x0d
    ||| u == 0x20
    ||| u == 0x85
    ||| u == 0xa0
    ||| u == 0x1680
    ||| 0x2000 <= u <= 0x200a
    ||| u == 0x2028
    ||| u == 0x2029
    ||| u == 0x202f
    ||| u == 0x205f
    ||| u == 0x3000
}

/// JavaScript's whitespace for `trim()`: Unicode's, plus U+FEFF (the byte-order mark) and
/// minus U+0085 (NEL).
pub open spec fn is_js_space(c: char) -> bool {
    c == '\u{feff}' || (c != '\u{85}' && is_unicode_space(c))
}

/// Where the text starts once leading whitespace at or after `i` is skipped.
pub open spec fn trim_start(s: Seq<char>, i: int) -> int
    decreases s.len() - i,
{
    if 0 <= i < s.len() && is_js_space(s[i]) {
        trim_start(s, i + 1)
    } else {
        i
    }
}

/// Where the text ends once trailing whitespace before `j`, down to `lo`, is dropped.
pub open spec fn trim_end(s: Seq<char>, lo: int, j: int) -> int
    decreases j - lo,
{
    if lo < j && j <= s.len() && is_js_space(s[j - 1]) {
        trim_end(s, lo, j - 1)
    } else {
        j
    }
}

/// `String.prototype.trim()`.
pub open spec fn js_trim(s: Seq<char>) -> Seq<char> {
    let start = trim_start(s, 0);
    s.subrange(start, trim_end(s, start, s.len() as int))
}

proof fn lemma_trim_start_bounds(s: Seq<char>, i: int)
    requires
        0 <= i <= s.len(),
    ensures
        i <= trim_start(s, i) <= s.len(),
        forall|k: int| i <= k < trim_start(s, i) ==> is_js_space(#[trigger] s[k]),
        trim_start(s, i) < s.len() ==> !is_js_space(s[trim_start(s, i)]),
    decreases s.len() - i,
{
    if i < s.len() && is_js_space(s[i]) {
        lemma_trim_start_bounds(s, i + 1);
    }
}

proof fn lemma_trim_end_bounds(s: Seq<char>, lo: int, j: int)
    requires
        0 <= lo <= j <= s.len(),
    ensures
        lo <= trim_end(s, lo, j) <= j,
        forall|k: int| trim_end(s, lo, j) <= k < j ==> is_js_space(#[trigger] s[k]),
        lo < trim_end(s, lo, j) ==> !is_js_space(s[trim_end(s, lo, j) - 1]),
    decreases j - lo,
{
    if lo < j && is_js_space(s[j - 1]) {
        lemma_trim_end_bounds(s, lo, j - 1);
    }
}

/// Trimming never lengthens a string.
pub proof fn lemma_trim_len(s: Seq<char>)
    ensures
        js_trim(s).len() <= s.len(),
{
    lemma_trim_start_bounds(s, 0);
    lemma_trim_end_bounds(s, trim_start(s, 0), s.len() as int);
}

/// Trimmed text neither starts nor ends with JavaScript whitespace, so trimming it again
/// changes nothing.
pub proof fn trim_is_idempotent(s: Seq<char>)
    ensures
        js_trim(s).len() > 0 ==> !is_js_space(js_trim(s)[0]) && !is_js_space(js_trim(s).last()),
        js_trim(js_trim(s)) == js_trim(s),
{
    lemma_trim_start_bounds(s, 0);
    let a = trim_start(s, 0);
    lemma_trim_end_bounds(s, a, s.len() as int);
    let t = js_trim(s);
    if t.len() > 0 {
        assert(t[0] == s[a]);
        assert(t.last() == s[trim_end(s, a, s.len() as int) - 1]);
    }
    assert(trim_start(t, 0) == 0);
    assert(trim_end(t, 0, t.len() as int) == t.len());
    assert(t.subrange(0, t.len() as int) =~= t);
}

/// The bounds of the trimmed text.
fn trim_bounds(v: &Vec<char>) -> (r: (usize, usize))
    ensures
        r.0 == trim_start(v@, 0),
        r.1 == trim_end(v@, r.0 as int, v@.len() as int),
        r.0 <= r.1 <= v@.len(),
{
    let mut i: usize = 0;
    while i < v.len() && is_js_space_exec(v[i])
        invariant
            i <= v@.len(),
            trim_start(v@, i as int) == trim_start(v@, 0),
        decreases v@.len() - i,
    {
        i = i + 1;
    }
    let mut j: usize = v.len();
    while j > i && is_js_space_exec(v[j - 1])
        invariant
            i <= j <= v@.len(),
            trim_end(v@, i as int, j as int) == trim_end(v@, i as int, v@.len() as int),
        decreases j - i,
    {
        j = j - 1;
    }
    (i, j)
}

/// Whether a character is JavaScript whitespace.
pub fn is_js_space_exec(c: char) -> (b: bool)
    ensures
        b == is_js_space(c),
{
    let u = c as u32;
    u == 0xfeff || (u != 0x85 && ((0x09 <= u && u <= 0x0d) || u == 0x20 || u == 0xa0
        || u == 0x1680 || (0x2000 <= u && u <= 0x200a) || u == 0x2028 || u == 0x2029
        || u == 0x202f || u == 0x205f || u == 0x3000))
}

/// `String.prototype.trim()`. JavaScript's whitespace differs from Rust's
/// `char::is_whitespace` in two places: it includes U+FEFF (the byte-order mark) and
/// excludes U+0085 (NEL).
pub fn trim(s: &str) -> (r: &str)
    ensures
        r@ == js_trim(s@),
{
    let v = chars_of(s);
    let (i, j) = trim_bounds(&v);
    s.substring_char(i, j)
}

/// `trim`, on characters.
pub fn trim_chars(v: &Vec<char>) -> (r: Vec<char>)
    ensures
        r@ == js_trim(v@),
{
    let (i, j) = trim_bounds(v);
    let mut r: Vec<char> = Vec::new();
    let mut k = i;
    while k < j
        invariant
            i <= k <= j <= v@.len(),
            r@ == v@.subrange(i as int, k as int),
        decreases j - k,
    {
        r.push(v[k]);
        k = k + 1;
    }
    r
}


/// An ASCII decimal digit.
pub open spec fn is_digit(c: char) -> bool {
    '0' <= c <= '9'
}

/// The value of a digit character.
pub open spec fn digit_value(c: char) -> nat {
    (c as u32 - '0' as u32) as nat
}

/// Where the run of digits starting at `i` ends.
pub open spec fn digit_run(s: Seq<char>, i: int) -> int
    decreases s.len() - i,
{
    if 0 <= i < s.len() && is_digit(s[i]) {
        digit_run(s, i + 1)
    } else {
        i
    }
}

/// The number a run of decimal digits spells.
pub open spec fn digits_value(d: Seq<char>) -> nat
    decreases d.len(),
{
    if d.len() == 0 {
        0
    } else {
        digits_value(d.drop_last()) * 10 + digit_value(d.last())
    }
}

/// `parseInt(s, 10)` as the jukebox uses it: leading whitespace, an optional sign, then as
/// many decimal digits as there are. `None` where JavaScript gives `NaN`, and where the
/// digits spell a magnitude beyond `i64::MAX`.
pub open spec fn js_parse_int(s: Seq<char>) -> Option<i64> {
    let t = js_trim(s);
    let signed = t.len() > 0 && (t[0] == '-' || t[0] == '+');
    let start: int = if signed { 1 } else { 0 };
    let end = digit_run(t, start);
    let magnitude = digits_value(t.subrange(start, end));
    if end == start || magnitude > i64::MAX {
        None
    } else if t[0] == '-' {
        Some((-magnitude) as i64)
    } else {
        Some(magnitude as i64)
    }
}

proof fn lemma_digit_run_bounds(s: Seq<char>, i: int)
    requires
        0 <= i <= s.len(),
    ensures
        i <= digit_run(s, i) <= s.len(),
        forall|k: int| i <= k < digit_run(s, i) ==> is_digit(#[trigger] s[k]),
    decreases s.len() - i,
{
    if i < s.len() && is_digit(s[i]) {
        lemma_digit_run_bounds(s, i + 1);
    }
}

proof fn lemma_digits_value_grows(d: Seq<char>, c: char)
    requires
        is_digit(c),
    ensures
        digits_value(d.push(c)) == digits_value(d) * 10 + digit_value(c),
        digits_value(d.push(c)) >= digits_value(d),
{
    assert(d.push(c).drop_last() == d);
}

/// `parseInt(s, 10)`, or `None` where JavaScript gives `NaN`: leading whitespace, an
/// optional sign, then as many decimal digits as there are.
pub fn parse_int(s: &str) -> (r: Option<i64>)
    ensures
        r == js_parse_int(s@),
{
    let v = chars_of(s);
    let t = trim_chars(&v);
    let ghost tv = t@;
    let negative = t.len() > 0 && t[0] == '-';
    let start: usize = if t.len() > 0 && (t[0] == '-' || t[0] == '+') { 1 } else { 0 };
    let mut i: usize = start;
    let mut magnitude: u64 = 0;
    let mut overflow = false;
    while i < t.len() && '0' <= t[i] && t[i] <= '9'
        invariant
            start <= i <= tv.len(),
            start <= tv.len(),
            tv == t@,
            digit_run(tv, i as int) == digit_run(tv, start as int),
            forall|k: int| start <= k < i ==> is_digit(#[trigger] tv[k]),
            !overflow ==> magnitude == digits_value(tv.subrange(start as int, i as int)),
            !overflow ==> magnitude <= i64::MAX,
            overflow ==> digits_value(tv.subrange(start as int, i as int)) > i64::MAX,
        decreases tv.len() - i,
    {
        let d = (t[i] as u32 - '0' as u32) as u64;
        proof {
            assert(tv.subrange(start as int, i as int + 1) == tv.subrange(start as int, i as int).push(tv[i as int]));
            lemma_digits_value_grows(tv.subrange(start as int, i as int), tv[i as int]);
        }
        if !overflow {
            if magnitude > (9223372036854775807u64 - d) / 10 {
                overflow = true;
            } else {
                magnitude = magnitude * 10 + d;
            }
        }
        i = i + 1;
    }
    proof {
        lemma_digit_run_bounds(tv, start as int);
    }
    if i == start || overflow {
        None
    } else if negative {
        Some(-(magnitude as i64))
    } else {
        Some(magnitude as i64)
    }
}


/// `s` cut at every `sep`: `str::split` on characters. There is always at least one piece.
pub open spec fn split_on(s: Seq<char>, sep: char) -> Seq<Seq<char>>
    decreases s.len(),
{
    if s.len() == 0 {
        seq![Seq::empty()]
    } else {
        let prev = split_on(s.drop_last(), sep);
        if s.last() == sep {
            prev.push(Seq::empty())
        } else {
            prev.update(prev.len() - 1, prev.last().push(s.last()))
        }
    }
}

/// One segment of Node's `normalizeString`: empty and `.` segments vanish, `..` takes back
/// the segment before it, or stays when there is nothing to take back and `allow_above_root`.
pub open spec fn resolve_step(out: Seq<Seq<char>>, seg: Seq<char>, allow_above_root: bool) -> Seq<Seq<char>> {
    if seg.len() == 0 || seg == seq!['.'] {
        out
    } else if seg == seq!['.', '.'] {
        if out.len() > 0 && out.last() != seq!['.', '.'] {
            out.drop_last()
        } else if allow_above_root {
            out.push(seg)
        } else {
            out
        }
    } else {
        out.push(seg)
    }
}

/// The segments that remain after resolving them left to right.
pub open spec fn resolve_segments(segs: Seq<Seq<char>>, allow_above_root: bool) -> Seq<Seq<char>>
    decreases segs.len(),
{
    if segs.len() == 0 {
        Seq::empty()
    } else {
        resolve_step(resolve_segments(segs.drop_last(), allow_above_root), segs.last(), allow_above_root)
    }
}

/// Pieces joined with a separator between each two: `slice::join`.
pub open spec fn join_with(parts: Seq<Seq<char>>, sep: char) -> Seq<char>
    decreases parts.len(),
{
    if parts.len() == 0 {
        Seq::empty()
    } else if parts.len() == 1 {
        parts[0]
    } else {
        join_with(parts.drop_last(), sep).push(sep) + parts.last()
    }
}

/// Node's `normalizeString`.
pub open spec fn normalized_segments(path: Seq<char>, sep: char, allow_above_root: bool) -> Seq<char> {
    join_with(resolve_segments(split_on(path, sep), allow_above_root), sep)
}

/// The contents of character vectors.
pub open spec fn views(v: Seq<Vec<char>>) -> Seq<Seq<char>> {
    v.map_values(|x: Vec<char>| x@)
}

fn is_seg(v: &Vec<char>, a: char, b: Option<char>) -> (r: bool)
    ensures
        r == (match b {
            None => v@ == seq![a],
            Some(b) => v@ == seq![a, b],
        }),
{
    match b {
        None => {
            let r = v.len() == 1 && v[0] == a;
            proof {
                if v@.len() == 1 && v@[0] == a {
                    assert(v@ == seq![a]);
                }
            }
            r
        },
        Some(b) => {
            let r = v.len() == 2 && v[0] == a && v[1] == b;
            proof {
                if v@.len() == 2 && v@[0] == a && v@[1] == b {
                    assert(v@ == seq![a, b]);
                }
            }
            r
        },
    }
}

/// Applies one `resolve_step` to a list of segments.
fn resolve_into(out: &mut Vec<Vec<char>>, seg: Vec<char>, allow_above_root: bool)
    ensures
        views(final(out)@) == resolve_step(views(old(out)@), seg@, allow_above_root),
{
    let ghost old_views = views(out@);
    if seg.len() == 0 || is_seg(&seg, '.', None) {
        return;
    }
    if is_seg(&seg, '.', Some('.')) {
        if out.len() > 0 && !is_seg(&out[out.len() - 1], '.', Some('.')) {
            out.pop();
            assert(views(out@) == old_views.drop_last());
        } else if allow_above_root {
            out.push(seg);
            assert(views(out@) == old_views.push(seg@));
        }
    } else {
        out.push(seg);
        assert(views(out@) == old_views.push(seg@));
    }
}

/// Node's `normalizeString`: drops empty and `.` segments and resolves `..` lexically.
pub fn normalize_segments(path: &Vec<char>, sep: char, allow_above_root: bool) -> (r: Vec<char>)
    ensures
        r@ == normalized_segments(path@, sep, allow_above_root),
{
    let mut out: Vec<Vec<char>> = Vec::new();
    let mut cur: Vec<char> = Vec::new();
    let mut i: usize = 0;
    proof {
        assert(path@.take(0) == Seq::<char>::empty());
        assert(views(out@) == Seq::<Seq<char>>::empty());
    }
    while i < path.len()
        invariant
            i <= path@.len(),
            split_on(path@.take(i as int), sep).len() >= 1,
            views(out@) == resolve_segments(split_on(path@.take(i as int), sep).drop_last(), allow_above_root),
            cur@ == split_on(path@.take(i as int), sep).last(),
        decreases path@.len() - i,
    {
        let c = path[i];
        let ghost prefix = path@.take(i as int);
        let ghost next = path@.take(i as int + 1);
        proof {
            assert(next.drop_last() == prefix);
            assert(next.last() == c);
        }
        if c == sep {
            let done = cur;
            cur = Vec::new();
            resolve_into(&mut out, done, allow_above_root);
            proof {
                let sp = split_on(prefix, sep);
                assert(split_on(next, sep) == sp.push(Seq::empty()));
                assert(split_on(next, sep).drop_last() == sp);
                assert(sp.drop_last().push(sp.last()) == sp);
                assert(resolve_segments(sp, allow_above_root) == resolve_step(
                    resolve_segments(sp.drop_last(), allow_above_root), sp.last(), allow_above_root));
            }
        } else {
            cur.push(c);
            proof {
                let sp = split_on(prefix, sep);
                let nx = split_on(next, sep);
                assert(nx == sp.update(sp.len() - 1, sp.last().push(c)));
                assert(nx.drop_last() == sp.drop_last());
            }
        }
        i = i + 1;
    }
    let done = cur;
    resolve_into(&mut out, done, allow_above_root);
    proof {
        assert(path@.take(path@.len() as int) == path@);
        let sp = split_on(path@, sep);
        assert(sp.drop_last().push(sp.last()) == sp);
    }
    let ghost parts = views(out@);
    let mut r: Vec<char> = Vec::new();
    let mut k: usize = 0;
    while k < out.len()
        invariant
            k <= out@.len(),
            parts == views(out@),
            r@ == join_with(parts.take(k as int), sep),
        decreases out@.len() - k,
    {
        proof {
            let t = parts.take(k as int + 1);
            assert(t.drop_last() == parts.take(k as int));
            assert(t.last() == out@[k as int]@);
        }
        if k > 0 {
            r.push(sep);
        }
        push_all(&mut r, out[k].as_slice());
        proof {
            if k == 0 {
                assert(parts.take(1).len() == 1);
                assert(r@ == Seq::<char>::empty() + out@[0]@);
            }
        }
        k = k + 1;
    }
    proof {
        assert(parts.take(out@.len() as int) == parts);
    }
    r
}


/// The first index at or after `i` holding `c`, or the length when there is none.
pub open spec fn find_from(s: Seq<char>, c: char, i: int) -> int
    decreases s.len() - i,
{
    if i < 0 || i >= s.len() {
        s.len() as int
    } else if s[i] == c {
        i
    } else {
        find_from(s, c, i + 1)
    }
}

/// `find_from`, run.
pub fn find_char_from(v: &Vec<char>, c: char, i: usize) -> (r: usize)
    requires
        i <= v@.len(),
    ensures
        r == find_from(v@, c, i as int),
        i <= r <= v@.len(),
{
    let mut k = i;
    while k < v.len() && v[k] != c
        invariant
            i <= k <= v@.len(),
            find_from(v@, c, k as int) == find_from(v@, c, i as int),
        decreases v@.len() - k,
    {
        k = k + 1;
    }
    k
}

/// An ASCII letter.
pub open spec fn is_ascii_alpha(c: char) -> bool {
    ('a' <= c <= 'z') || ('A' <= c <= 'Z')
}

/// The device part of a Windows path and whether the path is absolute, for the prefixes a
/// library folder can have: a drive letter (`C:\Music`), a UNC share (`\\nas\music`) or a
/// rooted path (`\Music`). The device is the first `.0` characters.
pub open spec fn win32_root(p: Seq<char>) -> (usize, bool) {
    if p.len() >= 2 && p[0] == '\\' && p[1] == '\\' && !(p.len() >= 3 && p[2] == '\\') {
        let server_end = find_from(p, '\\', 2);
        if server_end > 2 && server_end < p.len() {
            let share_end = find_from(p, '\\', server_end + 1);
            if share_end > server_end + 1 {
                (share_end as usize, true)
            } else {
                (0, true)
            }
        } else {
            (0, true)
        }
    } else if p.len() >= 2 && p[1] == ':' && is_ascii_alpha(p[0]) {
        (2, p.len() > 2 && p[2] == '\\')
    } else {
        (0, p.len() > 0 && p[0] == '\\')
    }
}

/// Splits a Windows path (separators already backslashes) into its device length and
/// whether it is absolute; see `win32_root`.
pub fn split_win32_root(path: &Vec<char>) -> (r: (usize, bool))
    ensures
        r == win32_root(path@),
        r.0 <= path@.len(),
{
    let n = path.len();
    if n >= 2 && path[0] == '\\' && path[1] == '\\' && !(n >= 3 && path[2] == '\\') {
        let server_end = find_char_from(path, '\\', 2);
        if server_end > 2 && server_end < n {
            let share_end = find_char_from(path, '\\', server_end + 1);
            if share_end > server_end + 1 {
                return (share_end, true);
            }
        }
        return (0, true);
    }
    if n >= 2 && path[1] == ':' && (('a' <= path[0] && path[0] <= 'z') || ('A' <= path[0] && path[0] <= 'Z')) {
        return (2, n > 2 && path[2] == '\\');
    }
    (0, n > 0 && path[0] == '\\')
}

/// `path.posix.normalize`.
pub open spec fn posix_normalize(p: Seq<char>) -> Seq<char> {
    if p.len() == 0 {
        seq!['.']
    } else {
        let absolute = p[0] == '/';
        let t0 = normalized_segments(p, '/', !absolute);
        let t1 = if t0.len() == 0 && !absolute { seq!['.'] } else { t0 };
        let t2 = if t1.len() > 0 && p.last() == '/' { t1.push('/') } else { t1 };
        if absolute { seq!['/'] + t2 } else { t2 }
    }
}

/// No character of `s` is `sep`.
pub open spec fn free_of(s: Seq<char>, sep: char) -> bool {
    forall|i: int| 0 <= i < s.len() ==> s[i] != sep
}

/// `s` never holds two `sep` in a row.
pub open spec fn no_double(s: Seq<char>, sep: char) -> bool {
    forall|k: int| 0 <= k < s.len() - 1 ==> !(#[trigger] s[k] == sep && s[k + 1] == sep)
}

/// Segments fit to be joined: none empty, none holding the separator, none `.`; and `..`
/// only as a leading run, and only where going above the root is allowed.
pub open spec fn clean_segments(segs: Seq<Seq<char>>, sep: char, allow_above_root: bool) -> bool {
    &&& forall|i: int| 0 <= i < segs.len() ==> (#[trigger] segs[i]).len() > 0 && free_of(segs[i], sep)
        && segs[i] != seq!['.']
    &&& forall|i: int, j: int| 0 <= i < j < segs.len() && segs[j] == seq!['.', '.'] ==> #[trigger] segs[i] == seq!['.', '.'] && #[trigger] segs[j] == segs[j]
    &&& !allow_above_root ==> forall|i: int| 0 <= i < segs.len() ==> #[trigger] segs[i] != seq!['.', '.']
}

proof fn lemma_split_free(s: Seq<char>, sep: char)
    ensures
        split_on(s, sep).len() >= 1,
        forall|i: int| 0 <= i < split_on(s, sep).len() ==> free_of(#[trigger] split_on(s, sep)[i], sep),
    decreases s.len(),
{
    if s.len() > 0 {
        lemma_split_free(s.drop_last(), sep);
        let prev = split_on(s.drop_last(), sep);
        if s.last() != sep {
            let l = prev.last().push(s.last());
            assert(free_of(l, sep)) by {
                assert forall|k: int| 0 <= k < l.len() implies l[k] != sep by {
                    if k < prev.last().len() {
                        assert(free_of(prev[prev.len() - 1], sep));
                    }
                }
            }
            assert forall|i: int| 0 <= i < split_on(s, sep).len() implies free_of(#[trigger] split_on(s, sep)[i], sep) by {
                if i < prev.len() - 1 {
                    assert(split_on(s, sep)[i] == prev[i]);
                }
            }
        } else {
            assert forall|i: int| 0 <= i < split_on(s, sep).len() implies free_of(#[trigger] split_on(s, sep)[i], sep) by {
                if i < prev.len() {
                    assert(split_on(s, sep)[i] == prev[i]);
                } else {
                    assert(split_on(s, sep)[i] =~= Seq::<char>::empty());
                }
            }
        }
    }
}

proof fn lemma_resolve_clean(segs: Seq<Seq<char>>, sep: char, allow_above_root: bool)
    requires
        forall|i: int| 0 <= i < segs.len() ==> free_of(#[trigger] segs[i], sep),
    ensures
        clean_segments(resolve_segments(segs, allow_above_root), sep, allow_above_root),
    decreases segs.len(),
{
    if segs.len() > 0 {
        let init = segs.drop_last();
        assert forall|i: int| 0 <= i < init.len() implies free_of(#[trigger] init[i], sep) by {
            assert(init[i] == segs[i]);
        }
        lemma_resolve_clean(init, sep, allow_above_root);
        let out = resolve_segments(init, allow_above_root);
        let seg = segs.last();
        assert(free_of(segs[segs.len() - 1], sep));
        let next = resolve_step(out, seg, allow_above_root);
        assert(next == resolve_segments(segs, allow_above_root));
        if seg.len() == 0 || seg == seq!['.'] {
        } else if seg == seq!['.', '.'] {
            if out.len() > 0 && out.last() != seq!['.', '.'] {
                assert forall|i: int| 0 <= i < next.len() implies #[trigger] next[i] == out[i] by {}
            } else if allow_above_root {
                assert forall|i: int| 0 <= i < next.len() - 1 implies #[trigger] next[i] == out[i] by {}
                // Everything before is `..` too: `out` is empty or ends in `..`, and its `..`
                // form a leading run.
                assert forall|i: int| 0 <= i < out.len() implies #[trigger] out[i] == seq!['.', '.'] by {
                    assert(out[out.len() - 1] == seq!['.', '.']);
                    if i < out.len() - 1 {
                        assert(out[i] == seq!['.', '.']);
                    }
                }
            }
        } else {
            assert forall|i: int| 0 <= i < next.len() - 1 implies #[trigger] next[i] == out[i] by {}
            assert(next[next.len() - 1] == seg);
        }
    }
}

/// The characters of segments joined by `sep`, when every segment is nonempty and free of
/// `sep`: it neither starts nor ends with `sep`, and never holds two in a row.
proof fn lemma_join_clean(parts: Seq<Seq<char>>, sep: char)
    requires
        forall|i: int| 0 <= i < parts.len() ==> (#[trigger] parts[i]).len() > 0 && free_of(parts[i], sep),
    ensures
        ({
            let j = join_with(parts, sep);
            &&& parts.len() > 0 ==> j.len() > 0 && j[0] != sep && j[j.len() - 1] != sep
            &&& parts.len() == 0 ==> j.len() == 0
            &&& no_double(j, sep)
        }),
    decreases parts.len(),
{
    if parts.len() == 1 {
        assert(parts[0].len() > 0 && free_of(parts[0], sep));
    } else if parts.len() > 1 {
        let init = parts.drop_last();
        assert forall|i: int| 0 <= i < init.len() implies (#[trigger] init[i]).len() > 0 && free_of(init[i], sep) by {
            assert(init[i] == parts[i]);
        }
        lemma_join_clean(init, sep);
        let a = join_with(init, sep);
        let last = parts[parts.len() - 1];
        assert(last.len() > 0 && free_of(last, sep));
        let j = a.push(sep) + last;
        assert(j == join_with(parts, sep));
        assert(j[0] == a[0]);
        assert(j[j.len() - 1] == last[last.len() - 1]);
        assert forall|k: int| 0 <= k < j.len() - 1 implies !(#[trigger] j[k] == sep && j[k + 1] == sep) by {
            if k < a.len() - 1 {
                assert(j[k] == a[k] && j[k + 1] == a[k + 1]);
            } else if k == a.len() - 1 {
                assert(j[k] == a[a.len() - 1]);
            } else if k == a.len() {
                assert(j[k + 1] == last[0]);
            } else {
                assert(j[k] == last[k - a.len() - 1] && j[k + 1] == last[k - a.len()]);
            }
        }
    }
}

/// `path.posix.normalize` keeps its segments clean: the segments it joins are never empty
/// or `.`, `..` stands only in a leading run of a relative path and never in an absolute
/// one, and the result is never empty, never holds `//`, and is absolute exactly when the
/// path was.
pub proof fn posix_normalize_is_clean(p: Seq<char>)
    ensures
        p.len() > 0 ==> clean_segments(
            resolve_segments(split_on(p, '/'), p[0] != '/'), '/', p[0] != '/'),
        posix_normalize(p).len() > 0,
        (posix_normalize(p)[0] == '/') == (p.len() > 0 && p[0] == '/'),
        no_double(posix_normalize(p), '/'),
{
    if p.len() > 0 {
        let absolute = p[0] == '/';
        lemma_split_free(p, '/');
        lemma_resolve_clean(split_on(p, '/'), '/', !absolute);
        let segs = resolve_segments(split_on(p, '/'), !absolute);
        lemma_join_clean(segs, '/');
        let t0 = join_with(segs, '/');
        let t1 = if t0.len() == 0 && !absolute { seq!['.'] } else { t0 };
        let t2 = if t1.len() > 0 && p.last() == '/' { t1.push('/') } else { t1 };
        let r = posix_normalize(p);
        assert(t1.len() > 0 ==> t1[0] != '/' && t1[t1.len() - 1] != '/');
        assert(no_double(t1, '/'));
        assert forall|k: int| 0 <= k < t2.len() - 1 implies !(#[trigger] t2[k] == '/' && t2[k + 1] == '/') by {
            if k < t1.len() - 1 {
                assert(t2[k] == t1[k] && t2[k + 1] == t1[k + 1]);
            }
        }
        assert(t2.len() > 0 ==> t2[0] != '/');
        if absolute {
            assert(r == seq!['/'] + t2);
            assert forall|k: int| 0 <= k < r.len() - 1 implies !(#[trigger] r[k] == '/' && r[k + 1] == '/') by {
                if k == 0 {
                    if t2.len() > 0 { assert(r[1] == t2[0]); }
                } else {
                    assert(r[k] == t2[k - 1] && r[k + 1] == t2[k]);
                }
            }
        } else {
            assert(r == t2);
        }
    } else {
        assert(posix_normalize(p) == seq!['.']);
    }
}

proof fn lemma_split_append_free(x: Seq<char>, y: Seq<char>, sep: char)
    requires
        free_of(y, sep),
    ensures
        split_on(x + y, sep) == split_on(x, sep).update(
            split_on(x, sep).len() - 1, split_on(x, sep).last() + y),
        split_on(x + y, sep).len() == split_on(x, sep).len(),
    decreases y.len(),
{
    lemma_split_free(x, sep);
    if y.len() == 0 {
        assert(x + y =~= x);
        assert(split_on(x, sep).last() + y =~= split_on(x, sep).last());
        assert(split_on(x, sep).update(split_on(x, sep).len() - 1, split_on(x, sep).last())
            =~= split_on(x, sep));
    } else {
        let y0 = y.drop_last();
        assert(free_of(y0, sep));
        lemma_split_append_free(x, y0, sep);
        let s = x + y;
        assert(s.drop_last() =~= x + y0);
        assert(s.last() == y.last());
        assert(y.last() != sep);
        let sx = split_on(x, sep);
        let prev = split_on(x + y0, sep);
        assert(prev.last() == sx.last() + y0);
        assert(prev.last().push(y.last()) =~= sx.last() + y);
        assert(split_on(s, sep) =~= sx.update(sx.len() - 1, sx.last() + y));
    }
}

proof fn lemma_split_join(segs: Seq<Seq<char>>, sep: char)
    requires
        segs.len() > 0,
        forall|i: int| 0 <= i < segs.len() ==> free_of(#[trigger] segs[i], sep),
    ensures
        split_on(join_with(segs, sep), sep) == segs,
    decreases segs.len(),
{
    if segs.len() == 1 {
        assert(free_of(segs[0], sep));
        lemma_split_append_free(Seq::empty(), segs[0], sep);
        assert(Seq::<char>::empty() + segs[0] =~= segs[0]);
        assert(split_on(Seq::<char>::empty(), sep) == seq![Seq::<char>::empty()]);
        assert(Seq::<char>::empty() + segs[0] =~= segs[0]);
        assert(split_on(segs[0], sep) =~= seq![segs[0]]);
        assert(segs =~= seq![segs[0]]);
    } else {
        let init = segs.drop_last();
        assert forall|i: int| 0 <= i < init.len() implies free_of(#[trigger] init[i], sep) by {
            assert(init[i] == segs[i]);
        }
        lemma_split_join(init, sep);
        let a = join_with(init, sep);
        let last = segs[segs.len() - 1];
        assert(free_of(last, sep));
        let ap = a.push(sep);
        assert(ap.drop_last() =~= a);
        assert(split_on(ap, sep) == init.push(Seq::empty()));
        lemma_split_append_free(ap, last, sep);
        assert(Seq::<char>::empty() + last =~= last);
        assert(split_on(ap + last, sep) =~= init.push(last));
        assert(init.push(last) =~= segs);
    }
}

proof fn lemma_split_after_root(x: Seq<char>, sep: char)
    ensures
        split_on(seq![sep] + x, sep) == seq![Seq::<char>::empty()] + split_on(x, sep),
    decreases x.len(),
{
    let s = seq![sep] + x;
    if x.len() == 0 {
        assert(s =~= seq![sep]);
        assert(s.drop_last() =~= Seq::<char>::empty());
        assert(s.last() == sep);
        assert(split_on(Seq::<char>::empty(), sep) == seq![Seq::<char>::empty()]);
        assert(split_on(s, sep) == split_on(s.drop_last(), sep).push(Seq::empty()));
        assert(split_on(s, sep) =~= seq![Seq::<char>::empty(), Seq::<char>::empty()]);
        assert(seq![Seq::<char>::empty()] + split_on(x, sep) =~= seq![Seq::<char>::empty(), Seq::<char>::empty()]);
    } else {
        lemma_split_after_root(x.drop_last(), sep);
        lemma_split_free(x.drop_last(), sep);
        assert(s.drop_last() =~= seq![sep] + x.drop_last());
        assert(s.last() == x.last());
        let e = seq![Seq::<char>::empty()];
        let px = split_on(x.drop_last(), sep);
        let prev = split_on(s.drop_last(), sep);
        assert(prev == e + px);
        if x.last() == sep {
            assert(split_on(s, sep) =~= e + px.push(Seq::empty()));
        } else {
            assert(prev.last() == px.last());
            assert(split_on(s, sep) =~= e + px.update(px.len() - 1, px.last().push(x.last())));
        }
    }
}

proof fn lemma_resolve_drops_leading_empty(segs: Seq<Seq<char>>, a: bool)
    ensures
        resolve_segments(seq![Seq::<char>::empty()] + segs, a) == resolve_segments(segs, a),
    decreases segs.len(),
{
    let e = seq![Seq::<char>::empty()];
    if segs.len() == 0 {
        assert(e + segs =~= e);
        assert(e.drop_last() =~= Seq::<Seq<char>>::empty());
        assert(resolve_segments(Seq::<Seq<char>>::empty(), a) == Seq::<Seq<char>>::empty());
        assert(e.last() == Seq::<char>::empty());
        assert(resolve_segments(e, a) == resolve_step(resolve_segments(e.drop_last(), a), e.last(), a));
    } else {
        lemma_resolve_drops_leading_empty(segs.drop_last(), a);
        let es = e + segs;
        assert(es.drop_last() =~= e + segs.drop_last());
        assert(es.last() == segs.last());
        assert(resolve_segments(es, a) == resolve_step(resolve_segments(es.drop_last(), a), es.last(), a));
        assert(resolve_segments(segs, a) == resolve_step(resolve_segments(segs.drop_last(), a), segs.last(), a));
    }
}

proof fn lemma_resolve_drops_trailing_empty(segs: Seq<Seq<char>>, a: bool)
    ensures
        resolve_segments(segs.push(Seq::empty()), a) == resolve_segments(segs, a),
{
    assert(segs.push(Seq::empty()).drop_last() =~= segs);
}

proof fn lemma_resolve_clean_fixed(segs: Seq<Seq<char>>, sep: char, a: bool)
    requires
        clean_segments(segs, sep, a),
    ensures
        resolve_segments(segs, a) == segs,
    decreases segs.len(),
{
    if segs.len() > 0 {
        let init = segs.drop_last();
        assert forall|i: int| 0 <= i < init.len() implies #[trigger] init[i] == segs[i] by {}
        assert(clean_segments(init, sep, a)) by {
            assert forall|i: int, j: int| 0 <= i < j < init.len() && init[j] == seq!['.', '.']
                implies #[trigger] init[i] == seq!['.', '.'] && #[trigger] init[j] == init[j] by {
                assert(segs[j] == seq!['.', '.']);
                assert(segs[i] == seq!['.', '.']);
            }
        }
        lemma_resolve_clean_fixed(init, sep, a);
        let last = segs[segs.len() - 1];
        assert(last.len() > 0 && last != seq!['.']);
        if last == seq!['.', '.'] {
            assert(a);
            if init.len() > 0 {
                assert(segs[init.len() - 1] == seq!['.', '.'] && segs[segs.len() - 1] == segs[segs.len() - 1]);
            }
            assert(init.push(last) =~= segs);
        } else {
            assert(init.push(last) =~= segs);
        }
    }
}

proof fn lemma_split_dot(sep: char)
    requires
        sep != '.',
    ensures
        split_on(seq!['.'], sep) == seq![seq!['.']],
        resolve_segments(seq![seq!['.']], true) == Seq::<Seq<char>>::empty(),
        resolve_segments(seq![seq!['.']], false) == Seq::<Seq<char>>::empty(),
{
    let d = seq!['.'];
    assert(d.drop_last() =~= Seq::<char>::empty());
    assert(d.last() == '.');
    assert(split_on(Seq::<char>::empty(), sep) == seq![Seq::<char>::empty()]);
    assert(Seq::<char>::empty().push('.') =~= d);
    assert(seq![Seq::<char>::empty()].update(0, d) =~= seq![d]);
    let ds = seq![d];
    assert(ds.drop_last() =~= Seq::<Seq<char>>::empty());
    assert(ds.last() == d);
    assert(resolve_segments(Seq::<Seq<char>>::empty(), true) == Seq::<Seq<char>>::empty());
    assert(resolve_segments(Seq::<Seq<char>>::empty(), false) == Seq::<Seq<char>>::empty());
    assert(resolve_segments(ds, true) == resolve_step(resolve_segments(ds.drop_last(), true), ds.last(), true));
    assert(resolve_segments(ds, false) == resolve_step(resolve_segments(ds.drop_last(), false), ds.last(), false));
    assert(resolve_step(Seq::<Seq<char>>::empty(), d, true) == Seq::<Seq<char>>::empty());
    assert(resolve_step(Seq::<Seq<char>>::empty(), d, false) == Seq::<Seq<char>>::empty());
}

/// `path.posix.normalize` changes nothing the second time: a normalized path is its own
/// normal form.
pub proof fn posix_normalize_is_idempotent(p: Seq<char>)
    ensures
        posix_normalize(posix_normalize(p)) == posix_normalize(p),
{
    let r = posix_normalize(p);
    posix_normalize_is_clean(p);
    if p.len() == 0 {
        assert(r == seq!['.']);
        lemma_split_dot('/');
        assert(join_with(Seq::<Seq<char>>::empty(), '/') == Seq::<char>::empty());
    } else {
        let absolute = p[0] == '/';
        let a = !absolute;
        lemma_split_free(p, '/');
        lemma_resolve_clean(split_on(p, '/'), '/', a);
        let segs = resolve_segments(split_on(p, '/'), a);
        lemma_join_clean(segs, '/');
        let t0 = join_with(segs, '/');
        let t1 = if t0.len() == 0 && !absolute { seq!['.'] } else { t0 };
        let t2 = if t1.len() > 0 && p.last() == '/' { t1.push('/') } else { t1 };
        let pre: Seq<char> = if absolute { seq!['/'] } else { Seq::empty() };
        assert(r == pre + t2);
        assert(r.len() > 0);
        assert(r[0] == '/' <==> absolute);
        // The segments of `t1`, resolved, are `segs` again.
        assert(resolve_segments(split_on(t1, '/'), a) == segs) by {
            if t0.len() > 0 {
                assert(segs.len() > 0);
                assert forall|i: int| 0 <= i < segs.len() implies free_of(#[trigger] segs[i], '/') by {}
                lemma_split_join(segs, '/');
                lemma_resolve_clean_fixed(segs, '/', a);
            } else if !absolute {
                assert(segs.len() == 0);
                lemma_split_dot('/');
                assert(a);
                assert(segs =~= Seq::<Seq<char>>::empty());
            } else {
                assert(segs.len() == 0);
                assert(t1 =~= Seq::<char>::empty());
                assert(split_on(t1, '/') == seq![Seq::<char>::empty()]);
                lemma_resolve_drops_leading_empty(Seq::<Seq<char>>::empty(), a);
                assert(seq![Seq::<char>::empty()] + Seq::<Seq<char>>::empty() =~= seq![Seq::<char>::empty()]);
                assert(resolve_segments(Seq::<Seq<char>>::empty(), a) == Seq::<Seq<char>>::empty());
                assert(segs =~= Seq::<Seq<char>>::empty());
            }
        }
        // and so are those of `t2` and of `r`.
        assert(resolve_segments(split_on(t2, '/'), a) == segs) by {
            if t2 != t1 {
                assert(t2.drop_last() =~= t1);
                lemma_resolve_drops_trailing_empty(split_on(t1, '/'), a);
            }
        }
        assert(resolve_segments(split_on(r, '/'), a) == segs) by {
            if absolute {
                lemma_split_after_root(t2, '/');
                lemma_resolve_drops_leading_empty(split_on(t2, '/'), a);
            } else {
                assert(r =~= t2);
            }
        }
        assert(crate::js::normalized_segments(r, '/', a) == t0);
        // The trailing slash comes back exactly when it was there.
        assert(t1.len() > 0 ==> t1[t1.len() - 1] != '/');
        if t1.len() > 0 {
            assert(r.last() == '/' <==> t2 == t1.push('/'));
        } else {
            assert(t2 == t1);
        }
        assert(posix_normalize(r) =~= r);
    }
}

/// Every `/` turned into `\`.
pub open spec fn backslashed(p: Seq<char>) -> Seq<char> {
    p.map_values(|c: char| if c == '/' { '\\' } else { c })
}

/// `path.win32.normalize`.
pub open spec fn win32_normalize(p: Seq<char>) -> Seq<char> {
    if p.len() == 0 {
        seq!['.']
    } else {
        let q = backslashed(p);
        let (device_len, absolute) = win32_root(q);
        let device = q.take(device_len as int);
        let rest = q.skip(device_len as int);
        let t0 = normalized_segments(rest, '\\', !absolute);
        let t1 = if t0.len() == 0 && !absolute { seq!['.'] } else { t0 };
        let t2 = if t1.len() > 0 && rest.len() > 0 && rest.last() == '\\' { t1.push('\\') } else { t1 };
        if absolute { device.push('\\') + t2 } else { device + t2 }
    }
}

/// The part of `v` from `from` on.
fn tail_from(v: &Vec<char>, from: usize) -> (r: Vec<char>)
    requires
        from <= v@.len(),
    ensures
        r@ == v@.skip(from as int),
{
    let mut r: Vec<char> = Vec::new();
    let mut k = from;
    while k < v.len()
        invariant
            from <= k <= v@.len(),
            r@ == v@.subrange(from as int, k as int),
        decreases v@.len() - k,
    {
        r.push(v[k]);
        k = k + 1;
    }
    r
}

/// The first `to` characters of `v`.
fn head_to(v: &Vec<char>, to: usize) -> (r: Vec<char>)
    requires
        to <= v@.len(),
    ensures
        r@ == v@.take(to as int),
{
    let mut r: Vec<char> = Vec::new();
    let mut k: usize = 0;
    while k < to
        invariant
            k <= to <= v@.len(),
            r@ == v@.take(k as int),
        decreases to - k,
    {
        r.push(v[k]);
        k = k + 1;
    }
    r
}

/// `path.posix.normalize`, on characters.
pub fn normalize_posix_chars(path: &Vec<char>) -> (r: Vec<char>)
    ensures
        r@ == posix_normalize(path@),
{
    if path.len() == 0 {
        let mut r = Vec::new();
        r.push('.');
        return r;
    }
    let absolute = path[0] == '/';
    let mut tail = normalize_segments(path, '/', !absolute);
    if tail.len() == 0 && !absolute {
        tail.push('.');
    }
    if tail.len() > 0 && path[path.len() - 1] == '/' {
        tail.push('/');
    }
    if absolute {
        let mut r = Vec::new();
        r.push('/');
        push_all(&mut r, tail.as_slice());
        r
    } else {
        tail
    }
}

/// `path.posix.normalize`.
pub fn normalize_posix(path: &str) -> (r: String)
    ensures
        r@ == posix_normalize(path@),
{
    let v = chars_of(path);
    let r = normalize_posix_chars(&v);
    string_of(r.as_slice())
}

/// `path.win32.normalize`, on characters.
pub fn normalize_win32_chars(path: &Vec<char>) -> (r: Vec<char>)
    ensures
        r@ == win32_normalize(path@),
{
    if path.len() == 0 {
        let mut r = Vec::new();
        r.push('.');
        return r;
    }
    let mut q: Vec<char> = Vec::new();
    let mut k: usize = 0;
    while k < path.len()
        invariant
            k <= path@.len(),
            q@ == backslashed(path@).take(k as int),
        decreases path@.len() - k,
    {
        let c = path[k];
        q.push(if c == '/' { '\\' } else { c });
        k = k + 1;
    }
    proof {
        assert(backslashed(path@).take(path@.len() as int) == backslashed(path@));
    }
    let (device_len, absolute) = split_win32_root(&q);
    let device = head_to(&q, device_len);
    let rest = tail_from(&q, device_len);
    let mut tail = normalize_segments(&rest, '\\', !absolute);
    if tail.len() == 0 && !absolute {
        tail.push('.');
    }
    if tail.len() > 0 && rest.len() > 0 && rest[rest.len() - 1] == '\\' {
        tail.push('\\');
    }
    let mut r = device;
    if absolute {
        r.push('\\');
    }
    push_all(&mut r, tail.as_slice());
    r
}

/// `path.win32.normalize`, for the prefixes a library folder can have: a drive letter
/// (`C:\Music`), a UNC share (`\\nas\music`) or a rooted path (`\Music`).
pub fn normalize_win32(path: &str) -> (r: String)
    ensures
        r@ == win32_normalize(path@),
{
    let v = chars_of(path);
    let r = normalize_win32_chars(&v);
    string_of(r.as_slice())
}


/// This platform's path separator: `std::path::MAIN_SEPARATOR`, which std documents as `\`
/// on Windows and `/` everywhere else.
#[verifier::external_body]
pub(crate) fn main_separator() -> (c: char)
    ensures
        c == '/' || c == '\\',
{
    std::path::MAIN_SEPARATOR
}

/// `dir`, a separator, then `name`.
pub open spec fn joined(dir: Seq<char>, sep: char, name: Seq<char>) -> Seq<char> {
    dir.push(sep) + name
}

/// Node's `path.join(dir, name)` on a platform with separator `sep`.
pub open spec fn node_path_join(dir: Seq<char>, name: Seq<char>, sep: char) -> Seq<char> {
    if sep == '\\' {
        win32_normalize(joined(dir, '\\', name))
    } else {
        posix_normalize(joined(dir, '/', name))
    }
}

/// Node's `path.join(dir, name)` where `sep` is the platform's separator.
pub fn path_join_on(dir: &str, name: &str, sep: char) -> (r: String)
    ensures
        r@ == node_path_join(dir@, name@, sep),
{
    let mut v = chars_of(dir);
    v.push(if sep == '\\' { '\\' } else { '/' });
    let n = chars_of(name);
    push_all(&mut v, n.as_slice());
    let r = if sep == '\\' { normalize_win32_chars(&v) } else { normalize_posix_chars(&v) };
    string_of(r.as_slice())
}

/// Node's `path.join(dir, name)` on this platform, which normalizes the result. The library
/// stores every track under the path this produces, so it must match the paths already stored
/// character for character: a mismatch would make a rescan drop and re-add every track.
pub fn path_join(dir: &str, name: &str) -> (r: String)
    ensures
        exists|sep: char| (sep == '/' || sep == '\\') && r@ == node_path_join(dir@, name@, sep),
{
    let sep = main_separator();
    path_join_on(dir, name, sep)
}


/// What `Number(string)` makes of a string, short of the floating-point arithmetic: the
/// shape of the literal, checked completely.
pub enum NumberLiteral {
    /// Nothing but whitespace: the number 0.
    Empty,
    /// `0x`, `0o` or `0b` and at least one digit of that radix: the digits' values, most
    /// significant first.
    Radix { radix: u32, digits: Vec<u32> },
    /// `Infinity`, possibly signed.
    Infinity { negative: bool },
    /// A complete decimal literal, `[+-][digits][.digits][e[+-]digits]` with at least one
    /// mantissa digit: the trimmed text, for a float parser.
    Decimal { text: String },
    /// Anything else: `NaN`.
    NotANumber,
}

/// The radix a `0x`, `0o` or `0b` prefix names, if `c` is its letter.
pub open spec fn radix_of_letter(c: char) -> u32 {
    if c == 'x' || c == 'X' { 16 } else if c == 'o' || c == 'O' { 8 } else if c == 'b' || c == 'B' { 2 } else { 0 }
}

/// The value of `c` as a digit of `radix` (2, 8 or 16), or `radix` itself when it isn't one.
pub open spec fn radix_digit(c: char, radix: u32) -> u32 {
    let v: u32 = if '0' <= c <= '9' {
        (c as u32 - '0' as u32) as u32
    } else if 'a' <= c <= 'f' {
        (c as u32 - 'a' as u32 + 10) as u32
    } else if 'A' <= c <= 'F' {
        (c as u32 - 'A' as u32 + 10) as u32
    } else {
        99
    };
    if v < radix { v } else { radix }
}

/// `Infinity`.
pub open spec fn infinity_word() -> Seq<char> {
    seq!['I', 'n', 'f', 'i', 'n', 'i', 't', 'y']
}

/// Where a decimal literal that starts at 0 ends, or -1 when what is there is not one:
/// digits, an optional `.` and digits, at least one digit in all, then an optional exponent.
pub open spec fn decimal_literal_end(u: Seq<char>) -> int {
    let i1 = digit_run(u, 0);
    let has_point = i1 < u.len() && u[i1] == '.';
    let i2 = if has_point { digit_run(u, i1 + 1) } else { i1 };
    let mantissa = if has_point { i1 + (i2 - i1 - 1) } else { i1 };
    if mantissa == 0 {
        -1
    } else if i2 < u.len() && (u[i2] == 'e' || u[i2] == 'E') {
        let j = if i2 + 1 < u.len() && (u[i2 + 1] == '+' || u[i2 + 1] == '-') { i2 + 2 } else { i2 + 1 };
        let k = digit_run(u, j);
        if k == j { -1 } else { k }
    } else {
        i2
    }
}

/// What `Number(s)` makes of `s`, as a `NumberLiteral` view.
pub open spec fn number_literal_kind(s: Seq<char>) -> (int, u32, Seq<u32>, bool) {
    let t = js_trim(s);
    if t.len() == 0 {
        (0, 0, Seq::empty(), false)
    } else if t.len() >= 2 && t[0] == '0' && radix_of_letter(t[1]) != 0 {
        let radix = radix_of_letter(t[1]);
        let d = t.skip(2);
        if d.len() > 0 && (forall|k: int| 0 <= k < d.len() ==> radix_digit(#[trigger] d[k], radix) < radix) {
            (1, radix, d.map_values(|c: char| radix_digit(c, radix)), false)
        } else {
            (4, 0, Seq::empty(), false)
        }
    } else {
        let signed = t[0] == '+' || t[0] == '-';
        let u = if signed { t.skip(1) } else { t };
        if u == infinity_word() {
            (2, 0, Seq::empty(), t[0] == '-')
        } else if decimal_literal_end(u) == u.len() {
            (3, 0, Seq::empty(), false)
        } else {
            (4, 0, Seq::empty(), false)
        }
    }
}

impl NumberLiteral {
    /// Which kind this is (0 empty, 1 radix, 2 infinity, 3 decimal, 4 not a number), with
    /// its radix, digits and sign.
    pub open spec fn kind(&self) -> (int, u32, Seq<u32>, bool) {
        match self {
            NumberLiteral::Empty => (0, 0, Seq::empty(), false),
            NumberLiteral::Radix { radix, digits } => (1, *radix, digits@, false),
            NumberLiteral::Infinity { negative } => (2, 0, Seq::empty(), *negative),
            NumberLiteral::Decimal { .. } => (3, 0, Seq::empty(), false),
            NumberLiteral::NotANumber => (4, 0, Seq::empty(), false),
        }
    }
}

fn radix_digit_exec(c: char, radix: u32) -> (r: u32)
    requires
        radix == 2 || radix == 8 || radix == 16,
    ensures
        r == radix_digit(c, radix),
{
    let v: u32 = if '0' <= c && c <= '9' {
        c as u32 - '0' as u32
    } else if 'a' <= c && c <= 'f' {
        c as u32 - 'a' as u32 + 10
    } else if 'A' <= c && c <= 'F' {
        c as u32 - 'A' as u32 + 10
    } else {
        99
    };
    if v < radix { v } else { radix }
}

fn digit_run_exec(v: &Vec<char>, i: usize) -> (r: usize)
    requires
        i <= v@.len(),
    ensures
        r == digit_run(v@, i as int),
        i <= r <= v@.len(),
{
    let mut k = i;
    while k < v.len() && '0' <= v[k] && v[k] <= '9'
        invariant
            i <= k <= v@.len(),
            digit_run(v@, k as int) == digit_run(v@, i as int),
        decreases v@.len() - k,
    {
        k = k + 1;
    }
    k
}

fn decimal_literal_end_exec(u: &Vec<char>) -> (r: Option<usize>)
    ensures
        match r {
            Some(e) => e == decimal_literal_end(u@),
            None => decimal_literal_end(u@) == -1,
        },
{
    let n = u.len();
    let i1 = digit_run_exec(u, 0);
    let has_point = i1 < n && u[i1] == '.';
    let i2 = if has_point { digit_run_exec(u, i1 + 1) } else { i1 };
    let mantissa = if has_point { i1 + (i2 - i1 - 1) } else { i1 };
    if mantissa == 0 {
        None
    } else if i2 < n && (u[i2] == 'e' || u[i2] == 'E') {
        let j = if i2 + 1 < n && (u[i2 + 1] == '+' || u[i2 + 1] == '-') { i2 + 2 } else { i2 + 1 };
        let k = digit_run_exec(u, j);
        if k == j { None } else { Some(k) }
    } else {
        Some(i2)
    }
}

/// Reads the shape of `Number(s)`: surrounding whitespace ignored, empty is 0, `0x`/`0o`/`0b`
/// prefixes and `Infinity` accepted, and anything else that isn't a complete decimal literal
/// is `NaN`.
pub fn number_literal(s: &str) -> (r: NumberLiteral)
    ensures
        r.kind() == number_literal_kind(s@),
        r matches NumberLiteral::Decimal { text } ==> text@ == js_trim(s@),
{
    let v = chars_of(s);
    let t = trim_chars(&v);
    proof {
        lemma_trim_len(s@);
    }
    let n = t.len();
    if n == 0 {
        return NumberLiteral::Empty;
    }
    if n >= 2 && t[0] == '0' && (t[1] == 'x' || t[1] == 'X' || t[1] == 'o' || t[1] == 'O' || t[1] == 'b' || t[1] == 'B') {
        let radix: u32 = if t[1] == 'x' || t[1] == 'X' { 16 } else if t[1] == 'o' || t[1] == 'O' { 8 } else { 2 };
        let ghost d = t@.skip(2);
        let mut digits: Vec<u32> = Vec::new();
        let mut k: usize = 2;
        while k < n
            invariant
                2 <= k <= n,
                n == t@.len(),
                t@ == js_trim(s@),
                t@[0] == '0',
                d == t@.skip(2),
                radix == radix_of_letter(t@[1]),
                radix == 2 || radix == 8 || radix == 16,
                digits@ == d.take(k - 2).map_values(|c: char| radix_digit(c, radix)),
                forall|i: int| 0 <= i < k - 2 ==> radix_digit(#[trigger] d[i], radix) < radix,
            decreases n - k,
        {
            let value = radix_digit_exec(t[k], radix);
            if value >= radix {
                proof {
                    assert(radix_digit(d[k - 2], radix) >= radix);
                    assert(!(forall|i: int| 0 <= i < d.len() ==> radix_digit(#[trigger] d[i], radix) < radix));
                    assert(number_literal_kind(s@) == (4int, 0u32, Seq::<u32>::empty(), false));
                }
                return NumberLiteral::NotANumber;
            }
            digits.push(value);
            proof {
                assert(d.take(k - 1) == d.take(k - 2).push(d[k - 2]));
                assert(digits@ == d.take(k - 1).map_values(|c: char| radix_digit(c, radix)));
            }
            k = k + 1;
        }
        if n == 2 {
            return NumberLiteral::NotANumber;
        }
        proof {
            assert(d.take(n - 2) == d);
        }
        return NumberLiteral::Radix { radix, digits };
    }
    let signed = t[0] == '+' || t[0] == '-';
    let u = if signed { tail_from(&t, 1) } else { tail_from(&t, 0) };
    proof {
        assert(t@.skip(0) == t@);
    }
    let word = chars_of("Infinity");
    proof {
        reveal_strlit("Infinity");
        assert(word@ == infinity_word());
    }
    if u.len() == 8 && u[0] == 'I' && u[1] == 'n' && u[2] == 'f' && u[3] == 'i' && u[4] == 'n'
        && u[5] == 'i' && u[6] == 't' && u[7] == 'y' {
        assert(u@ == infinity_word());
        return NumberLiteral::Infinity { negative: t[0] == '-' };
    }
    assert(u@ != infinity_word());
    if decimal_literal_end_exec(&u) == Some(u.len()) {
        NumberLiteral::Decimal { text: string_of(t.as_slice()) }
    } else {
        NumberLiteral::NotANumber
    }
}


/// The span of instants chrono can represent, in milliseconds either side of 1970: its
/// dates run from year -262143 to year 262142, well inside 2^53 ms.
pub open spec fn in_chrono_range(ms: int) -> bool {
    -9007199254740992 < ms < 9007199254740992
}

/// The system clock reads a time a date can't hold: more than about 285,000 years from
/// 1970.
#[derive(Debug, Clone, Copy, PartialEq, Eq, Structural)]
pub enum ClockError {
    OutOfRange,
}

/// The system clock against 1970: `SystemTime::now().duration_since(UNIX_EPOCH)`, as
/// whether the clock reads before 1970 (std's `Err`, whose `duration` is the span back to
/// it), and the span's whole seconds and nanoseconds. The clock decides; std's
/// `Duration::subsec_nanos` is below a second.
#[verifier::external_body]
fn clock_since_epoch() -> (r: (bool, u64, u32))
    ensures
        r.2 < 1000000000,
{
    match std::time::SystemTime::now().duration_since(std::time::UNIX_EPOCH) {
        Ok(d) => (false, d.as_secs(), d.subsec_nanos()),
        Err(e) => (true, e.duration().as_secs(), e.duration().subsec_nanos()),
    }
}

/// `Date.now()` for a clock reading `secs` seconds and `nanos` nanoseconds after 1970, or
/// before it when `before_epoch`: the whole milliseconds, rounded down, when a date can hold
/// them.
pub open spec fn clock_millis(before_epoch: bool, secs: u64, nanos: u32) -> Option<i64> {
    if secs < 9223372036854775 && in_chrono_range(floored_millis(before_epoch, secs, nanos)) {
        Some(floored_millis(before_epoch, secs, nanos) as i64)
    } else {
        None
    }
}

/// `Date.now()`: milliseconds since 1970 by the system clock, rounded down, also before
/// 1970. The clock decides the value; `OutOfRange` when no date can hold it.
pub fn now_ms() -> (r: Result<i64, ClockError>)
    ensures
        r matches Ok(ms) ==> in_chrono_range(ms as int),
        exists|before_epoch: bool, secs: u64, nanos: u32| nanos < 1000000000 && match #[trigger] clock_millis(before_epoch, secs, nanos) {
            Some(ms) => r == Ok::<i64, ClockError>(ms),
            None => r == Err::<i64, ClockError>(ClockError::OutOfRange),
        },
{
    let (before_epoch, secs, nanos) = clock_since_epoch();
    if secs >= 9223372036854775 {
        assert(clock_millis(before_epoch, secs, nanos) is None);
        return Err(ClockError::OutOfRange);
    }
    let ms = floor_millis(before_epoch, secs, nanos);
    assert(clock_millis(before_epoch, secs, nanos) == if in_chrono_range(ms as int) { Some(ms) } else { None::<i64> });
    if -9007199254740992 < ms && ms < 9007199254740992 {
        Ok(ms)
    } else {
        Err(ClockError::OutOfRange)
    }
}

/// The text `new Date(ms).toISOString()` gives: chrono's `DateTime::from_timestamp_millis`,
/// defaulting to 1970 when out of range, printed by `to_rfc3339_opts(Millis, true)`.
pub uninterp spec fn iso_text(ms: i64) -> Seq<char>;

/// `new Date(ms).toISOString()`: UTC, millisecond precision, `Z` suffix.
#[verifier::external_body]
pub fn iso_from_ms(ms: i64) -> (r: String)
    ensures
        r@ == iso_text(ms),
{
    chrono::DateTime::from_timestamp_millis(ms)
        .unwrap_or_default()
        .to_rfc3339_opts(chrono::SecondsFormat::Millis, true)
}

/// What chrono's `DateTime::parse_from_rfc3339` reads an instant as, in milliseconds since
/// 1970, or `None` when the text isn't RFC 3339.
pub uninterp spec fn iso_millis(text: Seq<char>) -> Option<i64>;

/// `new Date(iso).getTime()` for the timestamps this app writes, or `None` for one it can't
/// read (`NaN`). An instant read is one chrono can represent.
#[verifier::external_body]
pub fn ms_from_iso(iso: &str) -> (r: Option<i64>)
    ensures
        r == iso_millis(iso@),
        r matches Some(t) ==> in_chrono_range(t as int),
{
    chrono::DateTime::parse_from_rfc3339(iso)
        .ok()
        .map(|t| t.timestamp_millis())
}


/// The time now as `new Date().toISOString()` writes it: UTC, millisecond precision, `Z`
/// suffix. The clock decides which instant; `OutOfRange` when no date can hold it.
pub fn iso_now() -> (r: Result<String, ClockError>)
    ensures
        r matches Ok(t) ==> exists|ms: i64| in_chrono_range(ms as int) && t@ == iso_text(ms),
{
    let now = now_ms()?;
    Ok(iso_from_ms(now))
}

} // verus!
