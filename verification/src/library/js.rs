//! The JavaScript and Node.js behaviours the library code leans on, as the library module
//! offers them: the same functions as the crate's `js` module.

use vstd::prelude::*;

use crate::js::{js_parse_int, js_trim, node_path_join, posix_normalize, win32_normalize};

verus! {

/// `String.prototype.trim()`.
pub fn trim(s: &str) -> (r: &str)
    ensures
        r@ == js_trim(s@),
{
    crate::js::trim(s)
}

/// `parseInt(s, 10)`, or `None` where JavaScript gives `NaN`.
pub fn parse_int(s: &str) -> (r: Option<i64>)
    ensures
        r == js_parse_int(s@),
{
    crate::js::parse_int(s)
}

/// Node's `path.join(dir, name)` on this platform.
pub fn path_join(dir: &str, name: &str) -> (r: String)
    ensures
        exists|sep: char| (sep == '/' || sep == '\\') && r@ == node_path_join(dir@, name@, sep),
{
    crate::js::path_join(dir, name)
}

/// Node's `path.posix.normalize`.
pub fn normalize_posix(path: &str) -> (r: String)
    ensures
        r@ == posix_normalize(path@),
{
    crate::js::normalize_posix(path)
}

/// Node's `path.win32.normalize`.
pub fn normalize_win32(path: &str) -> (r: String)
    ensures
        r@ == win32_normalize(path@),
{
    crate::js::normalize_win32(path)
}

} // verus!
