//! SHA-1 digests, as lower-case hex: the keys of stored cover art and the opaque ids guests
//! see instead of each other's addresses.

use vstd::prelude::*;

use sha1::Digest;

verus! {

/// The SHA-1 digest of some bytes: the `sha1` crate's `Sha1::digest`.
pub uninterp spec fn sha1_digest(bytes: Seq<u8>) -> Seq<u8>;

/// `Sha1::digest(bytes)`: the 20-byte SHA-1 digest of `bytes` (`sha1`'s output size is
/// `U20`). The digest itself is not stated, only named.
#[verifier::external_body]
fn sha1_of(bytes: &[u8]) -> (d: Vec<u8>)
    ensures
        d@ == sha1_digest(bytes@),
        d@.len() == 20,
{
    sha1::Sha1::digest(bytes).to_vec()
}

/// The lower-case hex digit for a value below sixteen.
pub open spec fn hex_digit(d: int) -> char {
    if d < 10 {
        ((d + 48) as u8) as char
    } else {
        ((d + 87) as u8) as char
    }
}

/// Bytes in lower-case hex, two digits each: `format!("{b:02x}")` for each byte.
pub open spec fn hex(bytes: Seq<u8>) -> Seq<char>
    decreases bytes.len(),
{
    if bytes.len() == 0 {
        Seq::empty()
    } else {
        hex(bytes.drop_last()) + seq![hex_digit((bytes.last() / 16) as int), hex_digit((bytes.last() % 16) as int)]
    }
}

fn hex_digit_exec(d: u8) -> (c: char)
    requires
        d < 16,
    ensures
        c == hex_digit(d as int),
{
    if d < 10 {
        ((d + 48) as u8) as char
    } else {
        ((d + 87) as u8) as char
    }
}

/// Bytes in lower-case hex.
pub fn hex_of(bytes: &[u8]) -> (r: Vec<char>)
    ensures
        r@ == hex(bytes@),
        r@.len() == 2 * bytes@.len(),
{
    let mut r: Vec<char> = Vec::new();
    let mut i: usize = 0;
    while i < bytes.len()
        invariant
            i <= bytes@.len(),
            r@ == hex(bytes@.take(i as int)),
            r@.len() == 2 * i,
        decreases bytes@.len() - i,
    {
        let b = bytes[i];
        r.push(hex_digit_exec(b / 16));
        r.push(hex_digit_exec(b % 16));
        assert(bytes@.take(i as int + 1).drop_last() =~= bytes@.take(i as int));
        i = i + 1;
    }
    assert(bytes@.take(bytes@.len() as int) =~= bytes@);
    r
}

/// The SHA-1 of some bytes in lower-case hex: forty digits.
pub fn sha1_hex(bytes: &[u8]) -> (r: Vec<char>)
    ensures
        r@ == hex(sha1_digest(bytes@)),
        r@.len() == 40,
{
    let d = sha1_of(bytes);
    hex_of(d.as_slice())
}

} // verus!
