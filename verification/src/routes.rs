//! The service's route table: exact or prefix match on the request path,
//! and barcode extraction from the path's last segment.

use vstd::prelude::*;
use crate::numbers::parse_u64;

verus! {

/// Where a request path leads.
#[derive(Debug, Clone, Copy, PartialEq, Eq, Structural)]
pub enum Route {
    /// `/new`: create an item from the request body.
    NewItem,
    /// `/all`: list every item.
    AllItems,
    /// `/item/{barcode}`: read one item.
    OneItem,
    /// `/modify`: overwrite an item from the request body.
    Modify,
    /// `/delete/{barcode}`: delete one item.
    Delete,
    /// `/log/{barcode}`: log a sighting.
    Log,
    /// The index page, stylesheet or script, served from disk.
    Asset,
    /// The site icon, served from disk.
    Favicon,
    /// A raw dump of the backing store file.
    Database,
    /// Anything else.
    Unknown,
}

/// Does `s` start with `p`?
pub open spec fn starts_with(s: Seq<char>, p: Seq<char>) -> bool {
    s.len() >= p.len() && s.subrange(0, p.len() as int) == p
}

/// The route a path leads to, tried in the table's order: exact matches for
/// the body-carrying endpoints, prefix matches for the rest.
pub open spec fn route_of(path: Seq<char>) -> Route {
    if path == "/new"@ {
        Route::NewItem
    } else if path == "/all"@ {
        Route::AllItems
    } else if starts_with(path, "/item/"@) {
        Route::OneItem
    } else if path == "/modify"@ {
        Route::Modify
    } else if starts_with(path, "/delete/"@) {
        Route::Delete
    } else if starts_with(path, "/log/"@) {
        Route::Log
    } else if path == "/"@ || starts_with(path, "/index.html"@) || starts_with(path, "/style.css"@)
        || starts_with(path, "/script.js"@) {
        Route::Asset
    } else if starts_with(path, "/favicon.ico"@) {
        Route::Favicon
    } else if starts_with(path, "/get_database"@) {
        Route::Database
    } else {
        Route::Unknown
    }
}

/// Start of the path's last `/`-separated segment: the index just after the
/// last slash strictly before `j`, or 0.
pub open spec fn seg_start(s: Seq<char>, j: int) -> int
    decreases j,
{
    if 0 < j <= s.len() && s[j - 1] != '/' {
        seg_start(s, j - 1)
    } else {
        j
    }
}

/// The path's last `/`-separated segment; the whole path when it holds no
/// slash.
pub open spec fn last_segment(s: Seq<char>) -> Seq<char> {
    s.subrange(seg_start(s, s.len() as int), s.len() as int)
}

/// Does the character vector equal the literal's text?
pub(crate) fn chars_eq_str(v: &Vec<char>, p: &str) -> (b: bool)
    ensures
        b == (v@ == p@),
{
    let w = crate::text::str_chars(p);
    let n = v.len();
    if n != w.len() {
        return false;
    }
    let mut i: usize = 0;
    while i < n
        invariant
            n == v@.len() == w@.len(),
            w@ == p@,
            0 <= i <= n,
            forall|k: int| 0 <= k < i ==> v@[k] == w@[k],
        decreases n - i,
    {
        if v[i] != w[i] {
            return false;
        }
        i = i + 1;
    }
    proof {
        assert(v@ =~= p@);
    }
    true
}

/// Does the character vector start with the literal's text?
pub(crate) fn chars_start_str(v: &Vec<char>, p: &str) -> (b: bool)
    ensures
        b == starts_with(v@, p@),
{
    let w = crate::text::str_chars(p);
    let m = w.len();
    if v.len() < m {
        return false;
    }
    let mut i: usize = 0;
    while i < m
        invariant
            m == w@.len() <= v@.len(),
            w@ == p@,
            0 <= i <= m,
            forall|k: int| 0 <= k < i ==> v@[k] == w@[k],
        decreases m - i,
    {
        if v[i] != w[i] {
            proof {
                assert(v@.subrange(0, m as int)[i as int] != p@[i as int]);
            }
            return false;
        }
        i = i + 1;
    }
    proof {
        assert(v@.subrange(0, m as int) =~= p@);
    }
    true
}

/// Do two strings read the same?
pub(crate) fn str_eq_str(a: &str, b: &str) -> (r: bool)
    ensures
        r == (a@ == b@),
{
    let v = crate::text::str_chars(a);
    chars_eq_str(&v, b)
}

/// The route a path leads to.
pub fn route_of_path(path: &str) -> (r: Route)
    ensures
        r == route_of(path@),
{
    let v = crate::text::str_chars(path);
    if chars_eq_str(&v, "/new") {
        Route::NewItem
    } else if chars_eq_str(&v, "/all") {
        Route::AllItems
    } else if chars_start_str(&v, "/item/") {
        Route::OneItem
    } else if chars_eq_str(&v, "/modify") {
        Route::Modify
    } else if chars_start_str(&v, "/delete/") {
        Route::Delete
    } else if chars_start_str(&v, "/log/") {
        Route::Log
    } else if chars_eq_str(&v, "/") || chars_start_str(&v, "/index.html") || chars_start_str(
        &v,
        "/style.css",
    ) || chars_start_str(&v, "/script.js") {
        Route::Asset
    } else if chars_start_str(&v, "/favicon.ico") {
        Route::Favicon
    } else if chars_start_str(&v, "/get_database") {
        Route::Database
    } else {
        Route::Unknown
    }
}

/// The barcode in the path's last segment, when that segment reads as one.
pub fn barcode_from_path(path: &str) -> (r: Option<u64>)
    ensures
        r == parse_u64(last_segment(path@)),
{
    let v = crate::text::str_chars(path);
    let n = v.len();
    let mut j: usize = n;
    while j > 0 && v[j - 1] != '/'
        invariant
            n == v@.len(),
            0 <= j <= n,
            seg_start(v@, n as int) == seg_start(v@, j as int),
        decreases j,
    {
        j = j - 1;
    }
    let mut seg: Vec<char> = Vec::new();
    let mut k = j;
    while k < n
        invariant
            n == v@.len(),
            j <= k <= n,
            seg@ == v@.subrange(j as int, k as int),
        decreases n - k,
    {
        seg.push(v[k]);
        proof {
            assert(seg@ =~= v@.subrange(j as int, k + 1));
        }
        k = k + 1;
    }
    crate::numbers::parse_u64_chars(&seg)
}

} // verus!
