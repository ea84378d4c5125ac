//! Character-level text utilities: field sanitization, whitespace trimming
//! and length capping.

use vstd::prelude::*;

verus! {

/// A character that survives sanitization: ASCII letters and digits, and
/// ASCII whitespace.
pub open spec fn is_clean_char(c: char) -> bool {
    let v = c as u32;
    ||| v == 32
    ||| v == 9
    ||| v == 10
    ||| v == 12
    ||| v == 13
    ||| (48 <= v && v <= 57)
    ||| (65 <= v && v <= 90)
    ||| (97 <= v && v <= 122)
}

/// The sanitized form of a text field: every character that is not an ASCII
/// letter, digit or whitespace is removed; the rest keep their order.
pub open spec fn sanitized(s: Seq<char>) -> Seq<char>
    decreases s.len(),
{
    if s.len() == 0 {
        Seq::empty()
    } else {
        let rest = sanitized(s.drop_last());
        if is_clean_char(s.last()) {
            rest.push(s.last())
        } else {
            rest
        }
    }
}

/// How `sanitized` grows: appending one character appends it to the result
/// exactly when it is clean.
pub proof fn lemma_sanitized_push(s: Seq<char>, c: char)
    ensures
        sanitized(s.push(c)) == if is_clean_char(c) {
            sanitized(s).push(c)
        } else {
            sanitized(s)
        },
{
    assert(s.push(c).drop_last() =~= s);
    assert(s.push(c).last() == c);
}

/// Every character of a sanitized field is clean.
pub proof fn lemma_sanitized_clean(s: Seq<char>)
    ensures
        forall|i: int| 0 <= i < sanitized(s).len() ==> is_clean_char(#[trigger] sanitized(s)[i]),
    decreases s.len(),
{
    if s.len() > 0 {
        lemma_sanitized_clean(s.drop_last());
        let rest = sanitized(s.drop_last());
        if is_clean_char(s.last()) {
            assert forall|i: int| 0 <= i < sanitized(s).len() implies is_clean_char(
                #[trigger] sanitized(s)[i],
            ) by {
                if i < rest.len() {
                    assert(sanitized(s)[i] == rest[i]);
                } else {
                    assert(sanitized(s)[i] == s.last());
                }
            }
        }
    }
}

/// Sanitizing is idempotent: a field that was already sanitized comes back
/// unchanged, so cleaning again on read never alters clean data.
pub proof fn lemma_sanitized_idempotent(s: Seq<char>)
    ensures
        sanitized(sanitized(s)) == sanitized(s),
    decreases s.len(),
{
    if s.len() > 0 {
        lemma_sanitized_idempotent(s.drop_last());
        if is_clean_char(s.last()) {
            lemma_sanitized_push(sanitized(s.drop_last()), s.last());
        }
    }
}

/// Relies on `String::push`: appends exactly one character to the string.
#[verifier::external_body]
pub(crate) fn push_char(s: &mut String, c: char)
    ensures
        final(s)@ == old(s)@.push(c),
{
    s.push(c);
}

/// Exec mirror of `is_clean_char`.
pub fn char_is_clean(c: char) -> (b: bool)
    ensures
        b == is_clean_char(c),
{
    let v = c as u32;
    v == 32 || v == 9 || v == 10 || v == 12 || v == 13 || (48 <= v && v <= 57) || (65 <= v && v
        <= 90) || (97 <= v && v <= 122)
}

/// Remove every character that is not an ASCII letter, digit or whitespace.
pub fn sanitize(s: &str) -> (r: String)
    ensures
        r@ == sanitized(s@),
{
    let n = s.unicode_len();
    let mut out = String::new();
    let mut i: usize = 0;
    while i < n
        invariant
            n == s@.len(),
            0 <= i <= n,
            out@ == sanitized(s@.subrange(0, i as int)),
        decreases n - i,
    {
        let c = s.get_char(i);
        proof {
            assert(s@.subrange(0, i + 1).drop_last() =~= s@.subrange(0, i as int));
            assert(s@.subrange(0, i + 1).last() == s@[i as int]);
        }
        if char_is_clean(c) {
            push_char(&mut out, c);
        }
        i = i + 1;
    }
    proof {
        assert(s@.subrange(0, n as int) =~= s@);
    }
    out
}

/// The characters of a string, one vector entry each.
pub fn str_chars(s: &str) -> (r: Vec<char>)
    ensures
        r@ == s@,
{
    let n = s.unicode_len();
    let mut out: Vec<char> = Vec::new();
    let mut i: usize = 0;
    while i < n
        invariant
            n == s@.len(),
            0 <= i <= n,
            out@ == s@.subrange(0, i as int),
        decreases n - i,
    {
        out.push(s.get_char(i));
        proof {
            assert(out@ =~= s@.subrange(0, i + 1));
        }
        i = i + 1;
    }
    proof {
        assert(s@.subrange(0, n as int) =~= s@);
    }
    out
}

/// The string holding exactly the given characters.
pub fn chars_to_string(v: &Vec<char>) -> (r: String)
    ensures
        r@ == v@,
{
    let n = v.len();
    let mut out = String::new();
    let mut i: usize = 0;
    while i < n
        invariant
            n == v@.len(),
            0 <= i <= n,
            out@ == v@.subrange(0, i as int),
        decreases n - i,
    {
        push_char(&mut out, v[i]);
        proof {
            assert(out@ =~= v@.subrange(0, i + 1));
        }
        i = i + 1;
    }
    proof {
        assert(v@.subrange(0, n as int) =~= v@);
    }
    out
}

/// The capped form of a string: at most `n` characters, with `...` marking
/// a truncation.
pub open spec fn capped(n: int, s: Seq<char>) -> Seq<char> {
    if s.len() > n {
        s.subrange(0, n) + seq!['.', '.', '.']
    } else {
        s
    }
}

/// Cap a string at `n` characters, appending `...` when it was longer.
pub fn cap_at_n(n: usize, s: &str) -> (r: String)
    ensures
        r@ == capped(n as int, s@),
{
    let len = s.unicode_len();
    if len > n {
        let head = s.substring_char(0, n);
        let mut out = String::from_str(head);
        push_char(&mut out, '.');
        push_char(&mut out, '.');
        push_char(&mut out, '.');
        proof {
            assert(out@ =~= s@.subrange(0, n as int) + seq!['.', '.', '.']);
        }
        out
    } else {
        String::from_str(s)
    }
}

/// A character the standard library's `trim` removes: the Unicode
/// white-space set.
pub open spec fn is_trim_ws(c: char) -> bool {
    let v = c as u32;
    ||| (9 <= v && v <= 13)
    ||| v == 32
    ||| v == 0x85
    ||| v == 0xA0
    ||| v == 0x1680
    ||| (0x2000 <= v && v <= 0x200A)
    ||| v == 0x2028
    ||| v == 0x2029
    ||| v == 0x202F
    ||| v == 0x205F
    ||| v == 0x3000
}

/// Index of the first non-white-space character at or after `i`, or the
/// length of the string when there is none.
pub open spec fn first_non_ws(s: Seq<char>, i: int) -> int
    decreases s.len() - i,
{
    if 0 <= i < s.len() && is_trim_ws(s[i]) {
        first_non_ws(s, i + 1)
    } else {
        i
    }
}

/// End (exclusive) of the last non-white-space character strictly before
/// `j`, or 0 when there is none.
pub open spec fn last_non_ws_end(s: Seq<char>, j: int) -> int
    decreases j,
{
    if 0 < j <= s.len() && is_trim_ws(s[j - 1]) {
        last_non_ws_end(s, j - 1)
    } else {
        j
    }
}

/// The trimmed form of a string: leading and trailing white-space removed.
pub open spec fn trimmed(s: Seq<char>) -> Seq<char> {
    let b = first_non_ws(s, 0);
    if b == s.len() {
        Seq::empty()
    } else {
        s.subrange(b, last_non_ws_end(s, s.len() as int))
    }
}

proof fn lemma_first_non_ws_bounds(s: Seq<char>, i: int)
    requires
        0 <= i <= s.len(),
    ensures
        i <= first_non_ws(s, i) <= s.len(),
        first_non_ws(s, i) < s.len() ==> !is_trim_ws(s[first_non_ws(s, i)]),
    decreases s.len() - i,
{
    if i < s.len() && is_trim_ws(s[i]) {
        lemma_first_non_ws_bounds(s, i + 1);
    }
}

proof fn lemma_last_non_ws_end_bounds(s: Seq<char>, j: int, b: int)
    requires
        0 <= b < j <= s.len(),
        !is_trim_ws(s[b]),
    ensures
        b < last_non_ws_end(s, j) <= j,
        !is_trim_ws(s[last_non_ws_end(s, j) - 1]),
    decreases j,
{
    if is_trim_ws(s[j - 1]) {
        lemma_last_non_ws_end_bounds(s, j - 1, b);
    }
}

/// Exec mirror of `is_trim_ws`.
pub fn char_is_trim_ws(c: char) -> (b: bool)
    ensures
        b == is_trim_ws(c),
{
    let v = c as u32;
    (9 <= v && v <= 13) || v == 32 || v == 0x85 || v == 0xA0 || v == 0x1680 || (0x2000 <= v && v
        <= 0x200A) || v == 0x2028 || v == 0x2029 || v == 0x202F || v == 0x205F || v == 0x3000
}

/// Remove leading and trailing white-space, as the standard library's
/// `trim` does.
pub fn trim(s: &str) -> (r: String)
    ensures
        r@ == trimmed(s@),
{
    let n = s.unicode_len();
    let mut b: usize = 0;
    while b < n && char_is_trim_ws(s.get_char(b))
        invariant
            n == s@.len(),
            0 <= b <= n,
            first_non_ws(s@, 0) == first_non_ws(s@, b as int),
        decreases n - b,
    {
        b = b + 1;
    }
    if b == n {
        String::new()
    } else {
        let mut e: usize = n;
        while e > b && char_is_trim_ws(s.get_char(e - 1))
            invariant
                n == s@.len(),
                0 <= b < e <= n,
                !is_trim_ws(s@[b as int]),
                last_non_ws_end(s@, n as int) == last_non_ws_end(s@, e as int),
            decreases e,
        {
            proof {
                lemma_last_non_ws_end_bounds(s@, e - 1, b as int);
            }
            e = e - 1;
        }
        proof {
            lemma_last_non_ws_end_bounds(s@, e as int, b as int);
        }
        String::from_str(s.substring_char(b, e))
    }
}

} // verus!
