//! The JSON wire format for item records.
//!
//! The grammar is the item shape the service exchanges: one object with the
//! members `name` (string), `barcode` (unsigned integer, given as a number
//! or as a numeric string), `location` (string) and an optional `last_seen`
//! (unsigned integer or null), in any order, each at most once, with JSON
//! white-space between tokens.  Strings decode the single-character escapes;
//! nothing may follow the closing brace but white-space.

use vstd::prelude::*;
use crate::item::{Item, ItemModel};
use crate::numbers::{is_digit, digit_val, parse_u64, dec_of, dec_digit, append_dec};
use crate::store::models_of;

verus! {

/// JSON inter-token white-space.
pub open spec fn is_json_ws(c: char) -> bool {
    c == ' ' || c == '\t' || c == '\n' || c == '\r'
}

/// Index of the first non-white-space character at or after `i`, or the end
/// of the text.
pub open spec fn skip_ws(s: Seq<char>, i: int) -> int
    decreases s.len() - i,
{
    if 0 <= i < s.len() && is_json_ws(s[i]) {
        skip_ws(s, i + 1)
    } else {
        i
    }
}

/// The character a single-character escape stands for, if the escape is
/// one JSON knows.
pub open spec fn simple_escape(c: char) -> Option<char> {
    if c == '"' {
        Some('"')
    } else if c == '\\' {
        Some('\\')
    } else if c == '/' {
        Some('/')
    } else if c == 'b' {
        Some('\u{8}')
    } else if c == 'f' {
        Some('\u{c}')
    } else if c == 'n' {
        Some('\n')
    } else if c == 'r' {
        Some('\r')
    } else if c == 't' {
        Some('\t')
    } else {
        None
    }
}

/// Decode a JSON string from just after its opening quote at `i`, the text
/// decoded so far in `acc`; yields the decoded text and the index after the
/// closing quote.  Unescaped control characters and unknown escapes are
/// refused.
pub open spec fn parse_string_body(s: Seq<char>, i: int, acc: Seq<char>) -> Option<
    (Seq<char>, int),
>
    decreases s.len() - i,
{
    if i < 0 || i >= s.len() {
        None
    } else if s[i] == '"' {
        Some((acc, i + 1))
    } else if s[i] == '\\' {
        if i + 1 < s.len() {
            match simple_escape(s[i + 1]) {
                Some(c) => parse_string_body(s, i + 2, acc.push(c)),
                None => None,
            }
        } else {
            None
        }
    } else if (s[i] as u32) < 32 {
        None
    } else {
        parse_string_body(s, i + 1, acc.push(s[i]))
    }
}

/// Decode the JSON string whose opening quote stands at `i`.
pub open spec fn parse_string(s: Seq<char>, i: int) -> Option<(Seq<char>, int)> {
    if 0 <= i < s.len() && s[i] == '"' {
        parse_string_body(s, i + 1, Seq::empty())
    } else {
        None
    }
}

/// Fold the digit run starting at `i` onto `acc`, yielding the value and
/// the index after the run.
pub open spec fn number_acc(s: Seq<char>, i: int, acc: nat) -> (nat, int)
    decreases s.len() - i,
{
    if 0 <= i < s.len() && is_digit(s[i]) {
        number_acc(s, i + 1, (acc * 10 + digit_val(s[i])) as nat)
    } else {
        (acc, i)
    }
}

proof fn lemma_number_acc_bounds(s: Seq<char>, i: int, acc: nat)
    requires
        0 <= i <= s.len(),
    ensures
        i <= number_acc(s, i, acc).1 <= s.len(),
        number_acc(s, i, acc).0 >= acc,
    decreases s.len() - i,
{
    if i < s.len() && is_digit(s[i]) {
        let acc2 = (acc * 10 + digit_val(s[i])) as nat;
        assert(acc2 >= acc) by (nonlinear_arith)
            requires
                acc2 == acc * 10 + digit_val(s[i]),
                digit_val(s[i]) >= 0,
        ;
        lemma_number_acc_bounds(s, i + 1, acc2);
    }
}

/// Parse the JSON unsigned integer starting at `i`: one or more digits, no
/// redundant leading zero, valued within `u64`.
pub open spec fn parse_number(s: Seq<char>, i: int) -> Option<(u64, int)> {
    if 0 <= i < s.len() && is_digit(s[i]) {
        if s[i] == '0' && i + 1 < s.len() && is_digit(s[i + 1]) {
            None
        } else {
            let r = number_acc(s, i, 0);
            if r.0 <= u64::MAX {
                Some((r.0 as u64, r.1))
            } else {
                None
            }
        }
    } else {
        None
    }
}

/// Parse a barcode value: a JSON number, or a JSON string whose decoded
/// text reads as a `u64`.
pub open spec fn parse_barcode_value(s: Seq<char>, i: int) -> Option<(u64, int)> {
    if 0 <= i < s.len() && s[i] == '"' {
        match parse_string(s, i) {
            Some(r) => match parse_u64(r.0) {
                Some(v) => Some((v, r.1)),
                None => None,
            },
            None => None,
        }
    } else {
        parse_number(s, i)
    }
}

/// Does `null` stand at `i`?
pub open spec fn null_at(s: Seq<char>, i: int) -> bool {
    &&& 0 <= i
    &&& i + 4 <= s.len()
    &&& s[i] == 'n'
    &&& s[i + 1] == 'u'
    &&& s[i + 2] == 'l'
    &&& s[i + 3] == 'l'
}

/// Parse a last-seen value: a JSON unsigned integer, or `null` for a record
/// never yet sighted.
pub open spec fn parse_last_seen_value(s: Seq<char>, i: int) -> Option<(Option<u64>, int)> {
    if null_at(s, i) {
        Some((None, i + 4))
    } else {
        match parse_number(s, i) {
            Some(r) => Some((Some(r.0), r.1)),
            None => None,
        }
    }
}

/// The members seen so far while reading an item object: each field is
/// present at most once.
#[verifier::ext_equal]
pub struct PartialFields {
    pub name: Option<Seq<char>>,
    pub barcode: Option<u64>,
    pub location: Option<Seq<char>>,
    pub last_seen: Option<Option<u64>>,
}

/// No member seen yet.
pub open spec fn no_fields() -> PartialFields {
    PartialFields { name: None, barcode: None, location: None, last_seen: None }
}

/// The finished record, once the three required members have all appeared;
/// an absent or null `last_seen` reads as never sighted.
pub open spec fn finish(p: PartialFields) -> Option<ItemModel> {
    match (p.name, p.barcode, p.location) {
        (Some(n), Some(b), Some(l)) => Some(
            ItemModel {
                name: n,
                barcode: b,
                location: l,
                last_seen: match p.last_seen {
                    Some(x) => x,
                    None => None,
                },
            },
        ),
        _ => None,
    }
}

/// Parse one `"key": value` member starting at `i` (white-space allowed
/// around the tokens), recording it in `p`.  A key already recorded, or one
/// the item shape does not know, refuses the document.
pub open spec fn parse_member(s: Seq<char>, i: int, p: PartialFields) -> Option<
    (PartialFields, int),
> {
    match parse_string(s, skip_ws(s, i)) {
        None => None,
        Some(kr) => {
            let c = skip_ws(s, kr.1);
            if !(0 <= c < s.len() && s[c] == ':') {
                None
            } else {
                let w = skip_ws(s, c + 1);
                if kr.0 == seq!['n', 'a', 'm', 'e'] {
                    if p.name is Some {
                        None
                    } else {
                        match parse_string(s, w) {
                            Some(vr) => Some((PartialFields { name: Some(vr.0), ..p }, vr.1)),
                            None => None,
                        }
                    }
                } else if kr.0 == seq!['b', 'a', 'r', 'c', 'o', 'd', 'e'] {
                    if p.barcode is Some {
                        None
                    } else {
                        match parse_barcode_value(s, w) {
                            Some(vr) => Some((PartialFields { barcode: Some(vr.0), ..p }, vr.1)),
                            None => None,
                        }
                    }
                } else if kr.0 == seq!['l', 'o', 'c', 'a', 't', 'i', 'o', 'n'] {
                    if p.location is Some {
                        None
                    } else {
                        match parse_string(s, w) {
                            Some(vr) => Some((PartialFields { location: Some(vr.0), ..p }, vr.1)),
                            None => None,
                        }
                    }
                } else if kr.0 == seq!['l', 'a', 's', 't', '_', 's', 'e', 'e', 'n'] {
                    if p.last_seen is Some {
                        None
                    } else {
                        match parse_last_seen_value(s, w) {
                            Some(vr) => Some((PartialFields { last_seen: Some(vr.0), ..p }, vr.1)),
                            None => None,
                        }
                    }
                } else {
                    None
                }
            }
        },
    }
}

/// Parse the members of an item object from the first member on, and the
/// closing brace.  `left` bounds the members still allowed after this one;
/// four known keys, each at most once, make more than five members
/// impossible, so a starting bound of four never refuses a valid document.
pub open spec fn parse_members(s: Seq<char>, i: int, p: PartialFields, left: nat) -> Option<
    (ItemModel, int),
>
    decreases left,
{
    match parse_member(s, i, p) {
        None => None,
        Some(mr) => {
            let a = skip_ws(s, mr.1);
            if 0 <= a < s.len() && s[a] == ',' {
                if left == 0 {
                    None
                } else {
                    parse_members(s, a + 1, mr.0, (left - 1) as nat)
                }
            } else if 0 <= a < s.len() && s[a] == '}' {
                match finish(mr.0) {
                    Some(m) => Some((m, a + 1)),
                    None => None,
                }
            } else {
                None
            }
        },
    }
}

/// Parse the item object whose opening brace stands at `i`.
pub open spec fn parse_object(s: Seq<char>, i: int) -> Option<(ItemModel, int)> {
    if 0 <= i < s.len() && s[i] == '{' {
        parse_members(s, i + 1, no_fields(), 4)
    } else {
        None
    }
}

/// Parse a whole document as one item record: one object, nothing but
/// white-space around it.
pub open spec fn parse_item(s: Seq<char>) -> Option<ItemModel> {
    match parse_object(s, skip_ws(s, 0)) {
        Some(r) => if skip_ws(s, r.1) == s.len() {
            Some(r.0)
        } else {
            None
        },
        None => None,
    }
}

/// Parse the item records of an array from the first record on, and the
/// closing bracket, the records read so far in `acc`.  `left` bounds the
/// records still allowed after this one; a record takes at least one
/// character, so a starting bound of the text's length never refuses a
/// valid document.
pub open spec fn parse_elements(
    s: Seq<char>,
    i: int,
    acc: Seq<ItemModel>,
    left: nat,
) -> Option<(Seq<ItemModel>, int)>
    decreases left,
{
    match parse_object(s, skip_ws(s, i)) {
        None => None,
        Some(r) => {
            let a = skip_ws(s, r.1);
            if 0 <= a < s.len() && s[a] == ',' {
                if left == 0 {
                    None
                } else {
                    parse_elements(s, a + 1, acc.push(r.0), (left - 1) as nat)
                }
            } else if 0 <= a < s.len() && s[a] == ']' {
                Some((acc.push(r.0), a + 1))
            } else {
                None
            }
        },
    }
}

/// Parse a whole document as a table of item records: one array, nothing
/// but white-space around it.
pub open spec fn parse_items(s: Seq<char>) -> Option<Seq<ItemModel>> {
    let i = skip_ws(s, 0);
    if 0 <= i < s.len() && s[i] == '[' {
        let a = skip_ws(s, i + 1);
        if 0 <= a < s.len() && s[a] == ']' {
            if skip_ws(s, a + 1) == s.len() {
                Some(Seq::empty())
            } else {
                None
            }
        } else {
            match parse_elements(s, i + 1, Seq::empty(), s.len()) {
                Some(r) => if skip_ws(s, r.1) == s.len() {
                    Some(r.0)
                } else {
                    None
                },
                None => None,
            }
        }
    } else {
        None
    }
}

/// Exec mirror of `skip_ws`.
fn skip_ws_x(v: &Vec<char>, i: usize) -> (j: usize)
    requires
        i <= v@.len(),
    ensures
        j == skip_ws(v@, i as int),
        i <= j <= v@.len(),
    decreases v@.len() - i,
{
    if i < v.len() {
        let c = v[i];
        if c == ' ' || c == '\t' || c == '\n' || c == '\r' {
            return skip_ws_x(v, i + 1);
        }
    }
    i
}

/// Exec mirror of `simple_escape`.
fn simple_escape_x(c: char) -> (r: Option<char>)
    ensures
        r == simple_escape(c),
{
    if c == '"' {
        Some('"')
    } else if c == '\\' {
        Some('\\')
    } else if c == '/' {
        Some('/')
    } else if c == 'b' {
        Some('\u{8}')
    } else if c == 'f' {
        Some('\u{c}')
    } else if c == 'n' {
        Some('\n')
    } else if c == 'r' {
        Some('\r')
    } else if c == 't' {
        Some('\t')
    } else {
        None
    }
}

/// Exec mirror of `parse_string_body`.
fn parse_string_body_x(v: &Vec<char>, i: usize, acc: Vec<char>) -> (r: Option<(Vec<char>, usize)>)
    requires
        i <= v@.len(),
    ensures
        match r {
            Some(p) => parse_string_body(v@, i as int, acc@) == Some((p.0@, p.1 as int)) && i < p.1
                <= v@.len(),
            None => parse_string_body(v@, i as int, acc@) is None,
        },
    decreases v@.len() - i,
{
    if i >= v.len() {
        return None;
    }
    let c = v[i];
    if c == '"' {
        Some((acc, i + 1))
    } else if c == '\\' {
        if i + 1 < v.len() {
            match simple_escape_x(v[i + 1]) {
                Some(d) => {
                    let mut acc2 = acc;
                    acc2.push(d);
                    parse_string_body_x(v, i + 2, acc2)
                },
                None => None,
            }
        } else {
            None
        }
    } else if (c as u32) < 32 {
        None
    } else {
        let mut acc2 = acc;
        acc2.push(c);
        parse_string_body_x(v, i + 1, acc2)
    }
}

/// Exec mirror of `parse_string`.
fn parse_string_x(v: &Vec<char>, i: usize) -> (r: Option<(Vec<char>, usize)>)
    requires
        i <= v@.len(),
    ensures
        match r {
            Some(p) => parse_string(v@, i as int) == Some((p.0@, p.1 as int)) && i < p.1
                <= v@.len(),
            None => parse_string(v@, i as int) is None,
        },
{
    if i < v.len() && v[i] == '"' {
        parse_string_body_x(v, i + 1, Vec::new())
    } else {
        None
    }
}

/// Exec mirror of `number_acc`, within `u64`; `None` when the run's value
/// leaves `u64`.
fn number_acc_x(v: &Vec<char>, i: usize, acc: u64) -> (r: Option<(u64, usize)>)
    requires
        i <= v@.len(),
    ensures
        match r {
            Some(p) => number_acc(v@, i as int, acc as nat) == (p.0 as nat, p.1 as int) && i <= p.1
                <= v@.len(),
            None => number_acc(v@, i as int, acc as nat).0 > u64::MAX,
        },
    decreases v@.len() - i,
{
    if i < v.len() {
        let c = v[i];
        if crate::numbers::char_is_digit(c) {
            let d = (c as u32 as u64) - 48;
            if acc <= (u64::MAX - d) / 10 {
                proof {
                    assert(acc * 10 + d <= u64::MAX) by (nonlinear_arith)
                        requires
                            acc <= (u64::MAX - d) / 10,
                            d <= u64::MAX,
                    ;
                }
                return number_acc_x(v, i + 1, acc * 10 + d);
            } else {
                proof {
                    let acc2 = (acc as nat * 10 + digit_val(v@[i as int])) as nat;
                    assert(acc2 > u64::MAX) by (nonlinear_arith)
                        requires
                            acc2 == acc as nat * 10 + d,
                            acc > (u64::MAX - d) / 10,
                            d < 10,
                    ;
                    lemma_number_acc_bounds(v@, i + 1, acc2);
                }
                return None;
            }
        }
    }
    Some((acc, i))
}

/// Exec mirror of `parse_number`.
fn parse_number_x(v: &Vec<char>, i: usize) -> (r: Option<(u64, usize)>)
    requires
        i <= v@.len(),
    ensures
        match r {
            Some(p) => parse_number(v@, i as int) == Some((p.0, p.1 as int)) && i < p.1
                <= v@.len(),
            None => parse_number(v@, i as int) is None,
        },
{
    if i < v.len() && crate::numbers::char_is_digit(v[i]) {
        if v[i] == '0' && i + 1 < v.len() && crate::numbers::char_is_digit(v[i + 1]) {
            None
        } else {
            proof {
                lemma_number_acc_bounds(v@, i + 1, (digit_val(v@[i as int])) as nat);
            }
            number_acc_x(v, i, 0)
        }
    } else {
        None
    }
}

/// Exec mirror of `parse_barcode_value`.
fn parse_barcode_value_x(v: &Vec<char>, i: usize) -> (r: Option<(u64, usize)>)
    requires
        i <= v@.len(),
    ensures
        match r {
            Some(p) => parse_barcode_value(v@, i as int) == Some((p.0, p.1 as int)) && i < p.1
                <= v@.len(),
            None => parse_barcode_value(v@, i as int) is None,
        },
{
    if i < v.len() && v[i] == '"' {
        match parse_string_x(v, i) {
            Some(p) => match crate::numbers::parse_u64_chars(&p.0) {
                Some(n) => Some((n, p.1)),
                None => None,
            },
            None => None,
        }
    } else {
        parse_number_x(v, i)
    }
}

/// Exec mirror of `null_at`.
fn null_at_x(v: &Vec<char>, i: usize) -> (b: bool)
    requires
        i <= v@.len(),
    ensures
        b == null_at(v@, i as int),
{
    let n = v.len();
    if n >= 4 && i <= n - 4 {
        v[i] == 'n' && v[i + 1] == 'u' && v[i + 2] == 'l' && v[i + 3] == 'l'
    } else {
        false
    }
}

/// Exec mirror of `parse_last_seen_value`.
fn parse_last_seen_value_x(v: &Vec<char>, i: usize) -> (r: Option<(Option<u64>, usize)>)
    requires
        i <= v@.len(),
    ensures
        match r {
            Some(p) => parse_last_seen_value(v@, i as int) == Some((p.0, p.1 as int)) && i < p.1
                <= v@.len(),
            None => parse_last_seen_value(v@, i as int) is None,
        },
{
    let n = v.len();
    if null_at_x(v, i) {
        proof {
            assert(i + 4 <= n);
        }
        Some((None, i + 4))
    } else {
        match parse_number_x(v, i) {
            Some(p) => Some((Some(p.0), p.1)),
            None => None,
        }
    }
}

/// Exec form of `PartialFields`, decoded text held as character vectors.
struct Partial {
    name: Option<Vec<char>>,
    barcode: Option<u64>,
    location: Option<Vec<char>>,
    last_seen: Option<Option<u64>>,
}

impl View for Partial {
    type V = PartialFields;

    closed spec fn view(&self) -> PartialFields {
        PartialFields {
            name: match self.name {
                Some(v) => Some(v@),
                None => None,
            },
            barcode: self.barcode,
            location: match self.location {
                Some(v) => Some(v@),
                None => None,
            },
            last_seen: self.last_seen,
        }
    }
}

impl Partial {
    fn new() -> (r: Self)
        ensures
            r@ == no_fields(),
    {
        Partial { name: None, barcode: None, location: None, last_seen: None }
    }
}

/// Does `k` read `name`?
fn is_key_name(k: &Vec<char>) -> (b: bool)
    ensures
        b == (k@ == seq!['n', 'a', 'm', 'e']),
{
    let r = k.len() == 4 && k[0] == 'n' && k[1] == 'a' && k[2] == 'm' && k[3] == 'e';
    proof {
        let key = seq!['n', 'a', 'm', 'e'];
        assert(key.len() == 4 && key[0] == 'n' && key[1] == 'a' && key[2] == 'm' && key[3] == 'e');
        if r {
            assert(k@ =~= key);
        }
    }
    r
}

/// Does `k` read `barcode`?
fn is_key_barcode(k: &Vec<char>) -> (b: bool)
    ensures
        b == (k@ == seq!['b', 'a', 'r', 'c', 'o', 'd', 'e']),
{
    let r = k.len() == 7 && k[0] == 'b' && k[1] == 'a' && k[2] == 'r' && k[3] == 'c' && k[4] == 'o'
        && k[5] == 'd' && k[6] == 'e';
    proof {
        let key = seq!['b', 'a', 'r', 'c', 'o', 'd', 'e'];
        assert(key.len() == 7 && key[0] == 'b' && key[1] == 'a' && key[2] == 'r' && key[3] == 'c'
            && key[4] == 'o' && key[5] == 'd' && key[6] == 'e');
        if r {
            assert(k@ =~= key);
        }
    }
    r
}

/// Does `k` read `location`?
fn is_key_location(k: &Vec<char>) -> (b: bool)
    ensures
        b == (k@ == seq!['l', 'o', 'c', 'a', 't', 'i', 'o', 'n']),
{
    let r = k.len() == 8 && k[0] == 'l' && k[1] == 'o' && k[2] == 'c' && k[3] == 'a' && k[4] == 't'
        && k[5] == 'i' && k[6] == 'o' && k[7] == 'n';
    proof {
        let key = seq!['l', 'o', 'c', 'a', 't', 'i', 'o', 'n'];
        assert(key.len() == 8 && key[0] == 'l' && key[1] == 'o' && key[2] == 'c' && key[3] == 'a'
            && key[4] == 't' && key[5] == 'i' && key[6] == 'o' && key[7] == 'n');
        if r {
            assert(k@ =~= key);
        }
    }
    r
}

/// Does `k` read `last_seen`?
fn is_key_last_seen(k: &Vec<char>) -> (b: bool)
    ensures
        b == (k@ == seq!['l', 'a', 's', 't', '_', 's', 'e', 'e', 'n']),
{
    let r = k.len() == 9 && k[0] == 'l' && k[1] == 'a' && k[2] == 's' && k[3] == 't' && k[4] == '_'
        && k[5] == 's' && k[6] == 'e' && k[7] == 'e' && k[8] == 'n';
    proof {
        let key = seq!['l', 'a', 's', 't', '_', 's', 'e', 'e', 'n'];
        assert(key.len() == 9 && key[0] == 'l' && key[1] == 'a' && key[2] == 's' && key[3] == 't'
            && key[4] == '_' && key[5] == 's' && key[6] == 'e' && key[7] == 'e' && key[8] == 'n');
        if r {
            assert(k@ =~= key);
        }
    }
    r
}

/// Exec mirror of `parse_member`.
fn parse_member_x(v: &Vec<char>, i: usize, p: Partial) -> (r: Option<(Partial, usize)>)
    requires
        i <= v@.len(),
    ensures
        match r {
            Some(q) => parse_member(v@, i as int, p@) == Some((q.0@, q.1 as int)) && q.1
                <= v@.len(),
            None => parse_member(v@, i as int, p@) is None,
        },
{
    let k = skip_ws_x(v, i);
    match parse_string_x(v, k) {
        None => None,
        Some(kr) => {
            let key = kr.0;
            let c = skip_ws_x(v, kr.1);
            if !(c < v.len() && v[c] == ':') {
                None
            } else {
                let w = skip_ws_x(v, c + 1);
                if is_key_name(&key) {
                    if p.name.is_some() {
                        None
                    } else {
                        match parse_string_x(v, w) {
                            Some(vr) => Some((Partial { name: Some(vr.0), ..p }, vr.1)),
                            None => None,
                        }
                    }
                } else if is_key_barcode(&key) {
                    if p.barcode.is_some() {
                        None
                    } else {
                        match parse_barcode_value_x(v, w) {
                            Some(vr) => Some((Partial { barcode: Some(vr.0), ..p }, vr.1)),
                            None => None,
                        }
                    }
                } else if is_key_location(&key) {
                    if p.location.is_some() {
                        None
                    } else {
                        match parse_string_x(v, w) {
                            Some(vr) => Some((Partial { location: Some(vr.0), ..p }, vr.1)),
                            None => None,
                        }
                    }
                } else if is_key_last_seen(&key) {
                    if p.last_seen.is_some() {
                        None
                    } else {
                        match parse_last_seen_value_x(v, w) {
                            Some(vr) => Some((Partial { last_seen: Some(vr.0), ..p }, vr.1)),
                            None => None,
                        }
                    }
                } else {
                    None
                }
            }
        },
    }
}

/// Exec mirror of `finish`.
fn finish_x(p: Partial) -> (r: Option<Item>)
    ensures
        match r {
            Some(it) => finish(p@) == Some(it@),
            None => finish(p@) is None,
        },
{
    match (p.name, p.barcode, p.location) {
        (Some(n), Some(b), Some(l)) => Some(
            Item {
                name: crate::text::chars_to_string(&n),
                barcode: b,
                location: crate::text::chars_to_string(&l),
                last_seen: match p.last_seen {
                    Some(x) => x,
                    None => None,
                },
            },
        ),
        _ => None,
    }
}

/// Exec mirror of `parse_members`.
fn parse_members_x(v: &Vec<char>, i: usize, p: Partial, left: u8) -> (r: Option<(Item, usize)>)
    requires
        i <= v@.len(),
    ensures
        match r {
            Some(q) => parse_members(v@, i as int, p@, left as nat) == Some((q.0@, q.1 as int))
                && q.1 <= v@.len(),
            None => parse_members(v@, i as int, p@, left as nat) is None,
        },
    decreases left,
{
    match parse_member_x(v, i, p) {
        None => None,
        Some(mr) => {
            let a = skip_ws_x(v, mr.1);
            if a < v.len() && v[a] == ',' {
                if left == 0 {
                    None
                } else {
                    parse_members_x(v, a + 1, mr.0, left - 1)
                }
            } else if a < v.len() && v[a] == '}' {
                match finish_x(mr.0) {
                    Some(m) => Some((m, a + 1)),
                    None => None,
                }
            } else {
                None
            }
        },
    }
}

/// Exec mirror of `parse_object`.
fn parse_object_x(v: &Vec<char>, i: usize) -> (r: Option<(Item, usize)>)
    requires
        i <= v@.len(),
    ensures
        match r {
            Some(p) => parse_object(v@, i as int) == Some((p.0@, p.1 as int)) && p.1 <= v@.len(),
            None => parse_object(v@, i as int) is None,
        },
{
    if i < v.len() && v[i] == '{' {
        parse_members_x(v, i + 1, Partial::new(), 4)
    } else {
        None
    }
}

/// Parse a whole document, given as its characters, as one item record.
pub fn parse_item_chars(v: &Vec<char>) -> (r: Option<Item>)
    ensures
        match r {
            Some(it) => parse_item(v@) == Some(it@),
            None => parse_item(v@) is None,
        },
{
    let i = skip_ws_x(v, 0);
    match parse_object_x(v, i) {
        Some(p) => {
            let j = skip_ws_x(v, p.1);
            if j == v.len() {
                Some(p.0)
            } else {
                None
            }
        },
        None => None,
    }
}

/// Exec mirror of `parse_elements`.
fn parse_elements_x(v: &Vec<char>, i: usize, acc: Vec<Item>, left: usize) -> (r: Option<
    (Vec<Item>, usize),
>)
    requires
        i <= v@.len(),
    ensures
        match r {
            Some(p) => parse_elements(v@, i as int, models_of(acc@), left as nat) == Some(
                (models_of(p.0@), p.1 as int),
            ) && p.1 <= v@.len(),
            None => parse_elements(v@, i as int, models_of(acc@), left as nat) is None,
        },
    decreases left,
{
    let k = skip_ws_x(v, i);
    match parse_object_x(v, k) {
        None => None,
        Some(p) => {
            let a = skip_ws_x(v, p.1);
            let ghost prev = acc@;
            let mut acc2 = acc;
            acc2.push(p.0);
            proof {
                assert(models_of(prev).len() == prev.len());
                assert forall|t: int| 0 <= t < acc2@.len() implies models_of(acc2@)[t]
                    == models_of(prev).push(p.0@)[t] by {
                    if t < prev.len() {
                        assert(acc2@[t] == prev[t]);
                    } else {
                        assert(acc2@[t] == p.0);
                    }
                }
                assert(models_of(acc2@) =~= models_of(prev).push(p.0@));
            }
            if a < v.len() && v[a] == ',' {
                if left == 0 {
                    None
                } else {
                    parse_elements_x(v, a + 1, acc2, left - 1)
                }
            } else if a < v.len() && v[a] == ']' {
                Some((acc2, a + 1))
            } else {
                None
            }
        },
    }
}

/// Parse a whole document, given as its characters, as a table of item
/// records.
pub fn parse_items_chars(v: &Vec<char>) -> (r: Option<Vec<Item>>)
    ensures
        match r {
            Some(items) => parse_items(v@) == Some(models_of(items@)),
            None => parse_items(v@) is None,
        },
{
    let i = skip_ws_x(v, 0);
    if i < v.len() && v[i] == '[' {
        let a = skip_ws_x(v, i + 1);
        if a < v.len() && v[a] == ']' {
            let j = skip_ws_x(v, a + 1);
            if j == v.len() {
                let out: Vec<Item> = Vec::new();
                proof {
                    assert(models_of(out@) =~= Seq::<ItemModel>::empty());
                }
                Some(out)
            } else {
                None
            }
        } else {
            let acc: Vec<Item> = Vec::new();
            proof {
                assert(models_of(acc@) =~= Seq::<ItemModel>::empty());
            }
            match parse_elements_x(v, i + 1, acc, v.len()) {
                Some(p) => {
                    let j = skip_ws_x(v, p.1);
                    if j == v.len() {
                        Some(p.0)
                    } else {
                        None
                    }
                },
                None => None,
            }
        }
    } else {
        None
    }
}

/// Parse a whole document as a table of item records.
pub fn parse_items_str(s: &str) -> (r: Option<Vec<Item>>)
    ensures
        match r {
            Some(items) => parse_items(s@) == Some(models_of(items@)),
            None => parse_items(s@) is None,
        },
{
    let v = crate::text::str_chars(s);
    parse_items_chars(&v)
}

/// The hexadecimal digit character for `d` (meaningful for `0 <= d < 16`),
/// lower case.
pub open spec fn hex_digit(d: int) -> char {
    if d < 10 {
        crate::numbers::dec_digit(d)
    } else if d == 10 {
        'a'
    } else if d == 11 {
        'b'
    } else if d == 12 {
        'c'
    } else if d == 13 {
        'd'
    } else if d == 14 {
        'e'
    } else {
        'f'
    }
}

/// How one character is written inside a JSON string: quote and backslash
/// escaped, control characters by their short escapes or `\u00..`, and
/// every other character as itself.
pub open spec fn json_escaped_char(c: char) -> Seq<char> {
    if c == '"' {
        seq!['\\', '"']
    } else if c == '\\' {
        seq!['\\', '\\']
    } else if c == '\u{8}' {
        seq!['\\', 'b']
    } else if c == '\t' {
        seq!['\\', 't']
    } else if c == '\n' {
        seq!['\\', 'n']
    } else if c == '\u{c}' {
        seq!['\\', 'f']
    } else if c == '\r' {
        seq!['\\', 'r']
    } else if (c as u32) < 32 {
        seq!['\\', 'u', '0', '0', hex_digit(c as u32 as int / 16), hex_digit(c as u32 as int % 16)]
    } else {
        seq![c]
    }
}

/// How a text reads inside a JSON string.
pub open spec fn json_escaped(s: Seq<char>) -> Seq<char>
    decreases s.len(),
{
    if s.len() == 0 {
        Seq::empty()
    } else {
        json_escaped(s.drop_last()) + json_escaped_char(s.last())
    }
}

/// How an item record is written: one object with the members in the order
/// `name`, `barcode`, `location`, `last_seen`, a never-sighted record's
/// `last_seen` written as `null`.
pub open spec fn json_of_item(m: ItemModel) -> Seq<char> {
    let base = "{\"name\":\""@ + json_escaped(m.name) + "\",\"barcode\":"@ + dec_of(
        m.barcode as int,
    ) + ",\"location\":\""@ + json_escaped(m.location) + "\""@;
    match m.last_seen {
        Some(t) => base + ",\"last_seen\":"@ + dec_of(t as int) + "}"@,
        None => base + ",\"last_seen\":null"@ + "}"@,
    }
}

/// The comma-separated item records inside an array.
pub open spec fn json_items_body(ms: Seq<ItemModel>) -> Seq<char>
    decreases ms.len(),
{
    if ms.len() == 0 {
        Seq::empty()
    } else if ms.len() == 1 {
        json_of_item(ms[0])
    } else {
        json_items_body(ms.drop_last()) + ","@ + json_of_item(ms.last())
    }
}

/// How a table of item records is written: one array in table order.
pub open spec fn json_of_items(ms: Seq<ItemModel>) -> Seq<char> {
    "["@ + json_items_body(ms) + "]"@
}

/// The request body the client sends for a record it creates or modifies:
/// the item shape without a `last_seen` member.
pub open spec fn json_of_request(name: Seq<char>, barcode: u64, location: Seq<char>) -> Seq<
    char,
> {
    "{\"name\":\""@ + json_escaped(name) + "\",\"barcode\":"@ + dec_of(barcode as int)
        + ",\"location\":\""@ + json_escaped(location) + "\"}"@
}

/// Render a hexadecimal digit.
fn hex_digit_x(d: u32) -> (c: char)
    requires
        d < 16,
    ensures
        c == hex_digit(d as int),
{
    if d == 0 {
        '0'
    } else if d == 1 {
        '1'
    } else if d == 2 {
        '2'
    } else if d == 3 {
        '3'
    } else if d == 4 {
        '4'
    } else if d == 5 {
        '5'
    } else if d == 6 {
        '6'
    } else if d == 7 {
        '7'
    } else if d == 8 {
        '8'
    } else if d == 9 {
        '9'
    } else if d == 10 {
        'a'
    } else if d == 11 {
        'b'
    } else if d == 12 {
        'c'
    } else if d == 13 {
        'd'
    } else if d == 14 {
        'e'
    } else {
        'f'
    }
}

/// Append the JSON spelling of one string character.
fn append_escaped_char(out: &mut String, c: char)
    ensures
        final(out)@ == old(out)@ + json_escaped_char(c),
{
    if c == '"' {
        crate::text::push_char(out, '\\');
        crate::text::push_char(out, '"');
    } else if c == '\\' {
        crate::text::push_char(out, '\\');
        crate::text::push_char(out, '\\');
    } else if c == '\u{8}' {
        crate::text::push_char(out, '\\');
        crate::text::push_char(out, 'b');
    } else if c == '\t' {
        crate::text::push_char(out, '\\');
        crate::text::push_char(out, 't');
    } else if c == '\n' {
        crate::text::push_char(out, '\\');
        crate::text::push_char(out, 'n');
    } else if c == '\u{c}' {
        crate::text::push_char(out, '\\');
        crate::text::push_char(out, 'f');
    } else if c == '\r' {
        crate::text::push_char(out, '\\');
        crate::text::push_char(out, 'r');
    } else if (c as u32) < 32 {
        crate::text::push_char(out, '\\');
        crate::text::push_char(out, 'u');
        crate::text::push_char(out, '0');
        crate::text::push_char(out, '0');
        crate::text::push_char(out, hex_digit_x(c as u32 / 16));
        crate::text::push_char(out, hex_digit_x(c as u32 % 16));
    } else {
        crate::text::push_char(out, c);
    }
    proof {
        assert(out@ =~= old(out)@ + json_escaped_char(c));
    }
}

/// Append the JSON spelling of a whole string's text.
fn append_escaped(out: &mut String, s: &str)
    ensures
        final(out)@ == old(out)@ + json_escaped(s@),
{
    let n = s.unicode_len();
    let mut i: usize = 0;
    while i < n
        invariant
            n == s@.len(),
            0 <= i <= n,
            out@ == old(out)@ + json_escaped(s@.subrange(0, i as int)),
        decreases n - i,
    {
        append_escaped_char(out, s.get_char(i));
        proof {
            assert(s@.subrange(0, i + 1).drop_last() =~= s@.subrange(0, i as int));
            assert(s@.subrange(0, i + 1).last() == s@[i as int]);
            assert(out@ =~= old(out)@ + json_escaped(s@.subrange(0, i + 1)));
        }
        i = i + 1;
    }
    proof {
        assert(s@.subrange(0, n as int) =~= s@);
    }
}

/// The JSON document for one item record.
pub fn item_json(it: &Item) -> (r: String)
    ensures
        r@ == json_of_item(it@),
{
    let mut out = String::new();
    out.append("{\"name\":\"");
    proof {
        assert(out@ =~= "{\"name\":\""@);
    }
    append_escaped(&mut out, it.name.as_str());
    out.append("\",\"barcode\":");
    append_dec(&mut out, it.barcode);
    out.append(",\"location\":\"");
    append_escaped(&mut out, it.location.as_str());
    out.append("\"");
    match it.last_seen {
        Some(t) => {
            out.append(",\"last_seen\":");
            append_dec(&mut out, t);
            out.append("}");
        },
        None => {
            out.append(",\"last_seen\":null");
            out.append("}");
        },
    }
    out
}

/// The JSON document for a whole table of item records.
pub fn items_json(items: &Vec<Item>) -> (r: String)
    ensures
        r@ == json_of_items(models_of(items@)),
{
    let ghost ms = models_of(items@);
    let n = items.len();
    let mut out = String::new();
    out.append("[");
    proof {
        assert(out@ =~= "["@ + json_items_body(ms.subrange(0, 0)));
    }
    let mut i: usize = 0;
    while i < n
        invariant
            n == items@.len(),
            ms == models_of(items@),
            0 <= i <= n,
            out@ == "["@ + json_items_body(ms.subrange(0, i as int)),
        decreases n - i,
    {
        if i > 0 {
            out.append(",");
        }
        let piece = item_json(&items[i]);
        out.append(piece.as_str());
        proof {
            assert(ms.subrange(0, i + 1).drop_last() =~= ms.subrange(0, i as int));
            assert(ms.subrange(0, i + 1).last() == ms[i as int]);
            assert(ms[i as int] == items@[i as int]@);
            assert(out@ =~= "["@ + json_items_body(ms.subrange(0, i + 1)));
        }
        i = i + 1;
    }
    out.append("]");
    proof {
        assert(ms.subrange(0, n as int) =~= ms);
        assert(out@ =~= json_of_items(ms));
    }
    out
}

/// The request body for creating or modifying the given record.
pub fn request_json(name: &str, barcode: u64, location: &str) -> (r: String)
    ensures
        r@ == json_of_request(name@, barcode, location@),
{
    let mut out = String::new();
    out.append("{\"name\":\"");
    proof {
        assert(out@ =~= "{\"name\":\""@);
    }
    append_escaped(&mut out, name);
    out.append("\",\"barcode\":");
    append_dec(&mut out, barcode);
    out.append(",\"location\":\"");
    append_escaped(&mut out, location);
    out.append("\"}");
    out
}

/// A character whose JSON spelling this parser can read back: everything
/// but the control characters that lack a short escape.
pub open spec fn wire_safe_char(c: char) -> bool {
    ||| c == '\u{8}'
    ||| c == '\t'
    ||| c == '\n'
    ||| c == '\u{c}'
    ||| c == '\r'
    ||| (c as u32) >= 32
}

/// A text whose JSON spelling this parser can read back.
pub open spec fn wire_safe(s: Seq<char>) -> bool {
    forall|i: int| 0 <= i < s.len() ==> wire_safe_char(#[trigger] s[i])
}

/// `json_escaped` unfolds from the left as well.
proof fn lemma_escaped_left(s: Seq<char>)
    requires
        s.len() > 0,
    ensures
        json_escaped(s) == json_escaped_char(s[0]) + json_escaped(s.drop_first()),
    decreases s.len(),
{
    let dl = s.drop_last();
    if s.len() == 1 {
        assert(dl =~= Seq::<char>::empty());
        assert(s.drop_first() =~= Seq::<char>::empty());
        assert(json_escaped(s) == json_escaped(dl) + json_escaped_char(s.last()));
        assert(json_escaped_char(s[0]) + json_escaped(s.drop_first()) =~= json_escaped_char(
            s[0],
        ));
        assert(Seq::<char>::empty() + json_escaped_char(s.last()) =~= json_escaped_char(s.last()));
    } else {
        lemma_escaped_left(dl);
        assert(s.drop_first().drop_last() =~= dl.drop_first());
        assert(s.drop_first().last() == s.last());
        assert(json_escaped(s.drop_first()) == json_escaped(dl.drop_first()) + json_escaped_char(
            s.last(),
        ));
        assert(json_escaped(s) == (json_escaped_char(s[0]) + json_escaped(dl.drop_first()))
            + json_escaped_char(s.last()));
        assert((json_escaped_char(s[0]) + json_escaped(dl.drop_first())) + json_escaped_char(
            s.last(),
        ) =~= json_escaped_char(s[0]) + (json_escaped(dl.drop_first()) + json_escaped_char(
            s.last(),
        )));
    }
}

/// A text of plain characters is its own JSON spelling.
proof fn lemma_escaped_plain(s: Seq<char>)
    requires
        forall|i: int|
            0 <= i < s.len() ==> (#[trigger] s[i]) != '"' && s[i] != '\\' && (s[i] as u32) >= 32,
    ensures
        json_escaped(s) == s,
    decreases s.len(),
{
    if s.len() > 0 {
        lemma_escaped_plain(s.drop_last());
        assert(json_escaped_char(s.last()) == seq![s.last()]);
        assert(s.drop_last() + seq![s.last()] =~= s);
    }
}

/// Reading a JSON string body whose region spells `t`: the decoded text is
/// `t` and the parser stands just after the closing quote.
proof fn lemma_parse_string_body_region(s: Seq<char>, i: int, t: Seq<char>, acc: Seq<char>)
    requires
        wire_safe(t),
        0 <= i,
        i + json_escaped(t).len() + 1 <= s.len(),
        s.subrange(i, i + json_escaped(t).len()) == json_escaped(t),
        s[i + json_escaped(t).len()] == '"',
    ensures
        parse_string_body(s, i, acc) == Some((acc + t, i + json_escaped(t).len() + 1)),
    decreases t.len(),
{
    let e = json_escaped(t);
    if t.len() == 0 {
        assert(e =~= Seq::<char>::empty());
        assert(s[i] == '"');
        assert(acc + t =~= acc);
    } else {
        lemma_escaped_left(t);
        let c = t[0];
        let ec = json_escaped_char(c);
        let t2 = t.drop_first();
        let e2 = json_escaped(t2);
        assert(e == ec + e2);
        let sub = s.subrange(i, i + e.len());
        assert forall|k: int| 0 <= k < e.len() implies s[i + k] == e[k] by {
            assert(sub[k] == s[i + k]);
        }
        let i2 = i + ec.len();
        assert forall|k: int| 0 <= k < e2.len() implies s[i2 + k] == e2[k] by {
            assert(s[i + (ec.len() + k)] == e[ec.len() + k]);
            assert(e[ec.len() + k] == e2[k]);
        }
        assert(s.subrange(i2, i2 + e2.len()) =~= e2);
        assert(s[i] == e[0]) by {
            assert(sub[0] == s[i]);
        }
        assert(e.len() >= 2 ==> s[i + 1] == e[1]) by {
            if e.len() >= 2 {
                assert(sub[1] == s[i + 1]);
            }
        }
        assert(s[i2 + e2.len()] == '"');
        if c == '"' || c == '\\' {
            assert(ec == seq!['\\', c]);
            assert(s[i] == '\\' && s[i + 1] == c);
            assert(simple_escape(c) == Some(c));
            lemma_parse_string_body_region(s, i + 2, t2, acc.push(c));
            assert(acc.push(c) + t2 =~= acc + t);
        } else if c == '\u{8}' {
            assert(ec == seq!['\\', 'b']);
            assert(s[i] == '\\' && s[i + 1] == 'b');
            lemma_parse_string_body_region(s, i + 2, t2, acc.push(c));
            assert(acc.push(c) + t2 =~= acc + t);
        } else if c == '\t' {
            assert(ec == seq!['\\', 't']);
            assert(s[i] == '\\' && s[i + 1] == 't');
            lemma_parse_string_body_region(s, i + 2, t2, acc.push(c));
            assert(acc.push(c) + t2 =~= acc + t);
        } else if c == '\n' {
            assert(ec == seq!['\\', 'n']);
            assert(s[i] == '\\' && s[i + 1] == 'n');
            lemma_parse_string_body_region(s, i + 2, t2, acc.push(c));
            assert(acc.push(c) + t2 =~= acc + t);
        } else if c == '\u{c}' {
            assert(ec == seq!['\\', 'f']);
            assert(s[i] == '\\' && s[i + 1] == 'f');
            lemma_parse_string_body_region(s, i + 2, t2, acc.push(c));
            assert(acc.push(c) + t2 =~= acc + t);
        } else if c == '\r' {
            assert(ec == seq!['\\', 'r']);
            assert(s[i] == '\\' && s[i + 1] == 'r');
            lemma_parse_string_body_region(s, i + 2, t2, acc.push(c));
            assert(acc.push(c) + t2 =~= acc + t);
        } else {
            assert((c as u32) >= 32);
            assert(ec == seq![c]);
            assert(s[i] == c);
            lemma_parse_string_body_region(s, i + 1, t2, acc.push(c));
            assert(acc.push(c) + t2 =~= acc + t);
        }
    }
}

/// Reading a JSON string token whose content region spells `t`.
proof fn lemma_parse_string_region(s: Seq<char>, i: int, t: Seq<char>)
    requires
        wire_safe(t),
        0 <= i < s.len(),
        s[i] == '"',
        i + 1 + json_escaped(t).len() + 1 <= s.len(),
        s.subrange(i + 1, i + 1 + json_escaped(t).len()) == json_escaped(t),
        s[i + 1 + json_escaped(t).len()] == '"',
    ensures
        parse_string(s, i) == Some((t, i + json_escaped(t).len() + 2)),
{
    lemma_parse_string_body_region(s, i + 1, t, Seq::empty());
    assert(Seq::<char>::empty() + t =~= t);
}

pub(crate) open spec fn pow10(k: nat) -> nat
    decreases k,
{
    if k == 0 {
        1
    } else {
        10 * pow10((k - 1) as nat)
    }
}

/// Fold a run of digit characters onto `acc`, left to right.
pub(crate) open spec fn digits_fold(ds: Seq<char>, acc: nat) -> nat
    decreases ds.len(),
{
    if ds.len() == 0 {
        acc
    } else {
        digits_fold(ds.drop_first(), (acc * 10 + digit_val(ds[0])) as nat)
    }
}

/// `number_acc` over a digit run delimited on the right folds exactly that
/// run.
proof fn lemma_number_acc_run(s: Seq<char>, i: int, j: int, acc: nat)
    requires
        0 <= i <= j <= s.len(),
        forall|k: int| i <= k < j ==> is_digit(#[trigger] s[k]),
        j == s.len() || !is_digit(s[j]),
    ensures
        number_acc(s, i, acc) == (digits_fold(s.subrange(i, j), acc), j),
    decreases j - i,
{
    if i < j {
        let acc2 = (acc * 10 + digit_val(s[i])) as nat;
        lemma_number_acc_run(s, i + 1, j, acc2);
        assert(s.subrange(i, j).drop_first() =~= s.subrange(i + 1, j));
        assert(s.subrange(i, j)[0] == s[i]);
    } else {
        assert(s.subrange(i, j) =~= Seq::<char>::empty());
    }
}

proof fn lemma_digits_fold_concat(a: Seq<char>, b: Seq<char>, acc: nat)
    ensures
        digits_fold(a + b, acc) == digits_fold(b, digits_fold(a, acc)),
    decreases a.len(),
{
    if a.len() == 0 {
        assert(a + b =~= b);
    } else {
        let acc2 = (acc * 10 + digit_val(a[0])) as nat;
        assert((a + b).drop_first() =~= a.drop_first() + b);
        assert((a + b)[0] == a[0]);
        lemma_digits_fold_concat(a.drop_first(), b, acc2);
    }
}

/// The decimal rendering holds nothing but digits, and no redundant
/// leading zero.
pub(crate) proof fn lemma_dec_of_digits(n: int)
    requires
        n >= 0,
    ensures
        dec_of(n).len() >= 1,
        forall|k: int| 0 <= k < dec_of(n).len() ==> is_digit(#[trigger] dec_of(n)[k]),
        n >= 1 ==> dec_of(n)[0] != '0',
    decreases n,
{
    if n < 10 {
        assert(is_digit(dec_digit(n)));
        assert(n >= 1 ==> dec_digit(n) != '0');
    } else {
        lemma_dec_of_digits(n / 10);
        let a = dec_of(n / 10);
        assert(dec_of(n) == a.push(dec_digit(n % 10)));
        assert(is_digit(dec_digit(n % 10)));
        assert forall|k: int| 0 <= k < dec_of(n).len() implies is_digit(
            #[trigger] dec_of(n)[k],
        ) by {
            if k < a.len() {
                assert(dec_of(n)[k] == a[k]);
            }
        }
        assert(dec_of(n)[0] == a[0]);
    }
}

/// Folding the decimal rendering of `n` recovers `n`.
pub(crate) proof fn lemma_dec_of_fold(n: int, acc: nat)
    requires
        n >= 0,
    ensures
        digits_fold(dec_of(n), acc) == acc * pow10(dec_of(n).len() as nat) + n,
    decreases n,
{
    if n < 10 {
        assert(digit_val(dec_digit(n)) == n);
        assert(dec_of(n).drop_first() =~= Seq::<char>::empty());
        assert(digits_fold(dec_of(n), acc) == digits_fold(
            dec_of(n).drop_first(),
            (acc * 10 + n) as nat,
        ));
        assert(digits_fold(Seq::<char>::empty(), (acc * 10 + n) as nat) == (acc * 10 + n) as nat);
        assert(pow10(0) == 1);
        assert(pow10(1) == 10);
    } else {
        lemma_dec_of_fold(n / 10, acc);
        let a = dec_of(n / 10);
        let b = seq![dec_digit(n % 10)];
        assert(dec_of(n) =~= a + b);
        lemma_digits_fold_concat(a, b, acc);
        let v = digits_fold(a, acc);
        let d0 = digit_val(b[0]);
        assert(d0 == n % 10);
        assert(b.drop_first() =~= Seq::<char>::empty());
        assert(digits_fold(b, v) == digits_fold(b.drop_first(), (v * 10 + d0) as nat));
        assert(digits_fold(Seq::<char>::empty(), (v * 10 + d0) as nat) == (v * 10 + d0) as nat);
        assert(digits_fold(b, v) == v * 10 + n % 10);
        let p = pow10(a.len() as nat);
        assert(pow10((a.len() + 1) as nat) == 10 * p);
        assert((acc * p + n / 10) * 10 + n % 10 == acc * (10 * p) + (n / 10 * 10 + n % 10))
            by (nonlinear_arith);
        assert(n / 10 * 10 + n % 10 == n);
        assert(dec_of(n).len() == a.len() + 1);
    }
}

/// Reading a JSON number whose region is the decimal rendering of `n`.
proof fn lemma_parse_number_region(s: Seq<char>, i: int, n: u64)
    requires
        0 <= i,
        i + dec_of(n as int).len() <= s.len(),
        s.subrange(i, i + dec_of(n as int).len()) == dec_of(n as int),
        i + dec_of(n as int).len() == s.len() || !is_digit(s[i + dec_of(n as int).len()]),
    ensures
        parse_number(s, i) == Some((n, i + dec_of(n as int).len())),
{
    let d = dec_of(n as int);
    let j = i + d.len();
    lemma_dec_of_digits(n as int);
    assert forall|k: int| i <= k < j implies is_digit(#[trigger] s[k]) by {
        assert(s.subrange(i, j)[k - i] == s[k]);
        assert(d[k - i] == s[k]);
    }
    assert(s[i] == d[0]) by {
        assert(s.subrange(i, j)[0] == s[i]);
    }
    if s[i] == '0' {
        // Only zero renders with a leading zero, and then as that single
        // digit, so no digit can follow the region.
        assert(n == 0) by {
            if n >= 1 {
                assert(d[0] != '0');
            }
        }
        assert(d.len() == 1);
    }
    lemma_number_acc_run(s, i, j, 0);
    lemma_dec_of_fold(n as int, 0);
    assert(digits_fold(d, 0) == n);
}

/// Reading a `"name": "..."` member whose value region spells `t`.
proof fn lemma_member_name(d: Seq<char>, t: Seq<char>, i: int, p: PartialFields)
    requires
        wire_safe(t),
        p.name is None,
        0 <= i,
        i + 9 + json_escaped(t).len() <= d.len(),
        d[i] == '"',
        d[i + 1] == 'n',
        d[i + 2] == 'a',
        d[i + 3] == 'm',
        d[i + 4] == 'e',
        d[i + 5] == '"',
        d[i + 6] == ':',
        d[i + 7] == '"',
        d.subrange(i + 8, i + 8 + json_escaped(t).len()) == json_escaped(t),
        d[i + 8 + json_escaped(t).len()] == '"',
    ensures
        parse_member(d, i, p) == Some(
            (PartialFields { name: Some(t), ..p }, i + 9 + json_escaped(t).len()),
        ),
{
    reveal_strlit("name");
    assert("name"@ =~= seq!['n', 'a', 'm', 'e']);
    lemma_escaped_plain("name"@);
    assert(skip_ws(d, i) == i);
    assert(d.subrange(i + 1, i + 5) =~= "name"@);
    lemma_parse_string_region(d, i, "name"@);
    assert(parse_string(d, skip_ws(d, i)) == Some(("name"@, i + 6)));
    assert(skip_ws(d, i + 6) == i + 6);
    assert(skip_ws(d, i + 7) == i + 7);
    lemma_parse_string_region(d, i + 7, t);
    assert(parse_string(d, i + 7) == Some((t, i + 9 + json_escaped(t).len())));
}

/// Reading a `"barcode": n` member whose value region is the decimal
/// rendering of `b`.
proof fn lemma_member_barcode(d: Seq<char>, b: u64, i: int, p: PartialFields)
    requires
        p.barcode is None,
        0 <= i,
        i + 10 + dec_of(b as int).len() <= d.len(),
        d[i] == '"',
        d[i + 1] == 'b',
        d[i + 2] == 'a',
        d[i + 3] == 'r',
        d[i + 4] == 'c',
        d[i + 5] == 'o',
        d[i + 6] == 'd',
        d[i + 7] == 'e',
        d[i + 8] == '"',
        d[i + 9] == ':',
        d.subrange(i + 10, i + 10 + dec_of(b as int).len()) == dec_of(b as int),
        i + 10 + dec_of(b as int).len() == d.len() || !is_digit(d[i + 10 + dec_of(b as int).len()]),
    ensures
        parse_member(d, i, p) == Some(
            (PartialFields { barcode: Some(b), ..p }, i + 10 + dec_of(b as int).len()),
        ),
{
    reveal_strlit("barcode");
    assert("barcode"@ =~= seq!['b', 'a', 'r', 'c', 'o', 'd', 'e']);
    lemma_escaped_plain("barcode"@);
    assert(skip_ws(d, i) == i);
    assert(d.subrange(i + 1, i + 8) =~= "barcode"@);
    lemma_parse_string_region(d, i, "barcode"@);
    assert(parse_string(d, skip_ws(d, i)) == Some(("barcode"@, i + 9)));
    assert(skip_ws(d, i + 9) == i + 9);
    lemma_dec_of_digits(b as int);
    assert(d[i + 10] == dec_of(b as int)[0]) by {
        assert(d.subrange(i + 10, i + 10 + dec_of(b as int).len())[0] == d[i + 10]);
    }
    assert(is_digit(d[i + 10]));
    assert(d[i + 10] != '"');
    assert(skip_ws(d, i + 10) == i + 10);
    lemma_parse_number_region(d, i + 10, b);
    assert(parse_barcode_value(d, i + 10) == Some((b, i + 10 + dec_of(b as int).len())));
}

/// Reading a `"location": "..."` member whose value region spells `t`.
proof fn lemma_member_location(d: Seq<char>, t: Seq<char>, i: int, p: PartialFields)
    requires
        wire_safe(t),
        p.location is None,
        0 <= i,
        i + 13 + json_escaped(t).len() <= d.len(),
        d[i] == '"',
        d[i + 1] == 'l',
        d[i + 2] == 'o',
        d[i + 3] == 'c',
        d[i + 4] == 'a',
        d[i + 5] == 't',
        d[i + 6] == 'i',
        d[i + 7] == 'o',
        d[i + 8] == 'n',
        d[i + 9] == '"',
        d[i + 10] == ':',
        d[i + 11] == '"',
        d.subrange(i + 12, i + 12 + json_escaped(t).len()) == json_escaped(t),
        d[i + 12 + json_escaped(t).len()] == '"',
    ensures
        parse_member(d, i, p) == Some(
            (PartialFields { location: Some(t), ..p }, i + 13 + json_escaped(t).len()),
        ),
{
    reveal_strlit("location");
    assert("location"@ =~= seq!['l', 'o', 'c', 'a', 't', 'i', 'o', 'n']);
    lemma_escaped_plain("location"@);
    assert(skip_ws(d, i) == i);
    assert(d.subrange(i + 1, i + 9) =~= "location"@);
    lemma_parse_string_region(d, i, "location"@);
    assert(parse_string(d, skip_ws(d, i)) == Some(("location"@, i + 10)));
    assert(skip_ws(d, i + 10) == i + 10);
    assert(skip_ws(d, i + 11) == i + 11);
    lemma_parse_string_region(d, i + 11, t);
    assert(parse_string(d, i + 11) == Some((t, i + 13 + json_escaped(t).len())));
}

/// Reading a `"last_seen": n` member whose value region is the decimal
/// rendering of `ts`.
proof fn lemma_member_last_seen_num(d: Seq<char>, ts: u64, i: int, p: PartialFields)
    requires
        p.last_seen is None,
        0 <= i,
        i + 12 + dec_of(ts as int).len() <= d.len(),
        d[i] == '"',
        d[i + 1] == 'l',
        d[i + 2] == 'a',
        d[i + 3] == 's',
        d[i + 4] == 't',
        d[i + 5] == '_',
        d[i + 6] == 's',
        d[i + 7] == 'e',
        d[i + 8] == 'e',
        d[i + 9] == 'n',
        d[i + 10] == '"',
        d[i + 11] == ':',
        d.subrange(i + 12, i + 12 + dec_of(ts as int).len()) == dec_of(ts as int),
        i + 12 + dec_of(ts as int).len() == d.len() || !is_digit(
            d[i + 12 + dec_of(ts as int).len()],
        ),
    ensures
        parse_member(d, i, p) == Some(
            (
                PartialFields { last_seen: Some(Some(ts)), ..p },
                i + 12 + dec_of(ts as int).len(),
            ),
        ),
{
    reveal_strlit("last_seen");
    assert("last_seen"@ =~= seq!['l', 'a', 's', 't', '_', 's', 'e', 'e', 'n']);
    lemma_escaped_plain("last_seen"@);
    assert(skip_ws(d, i) == i);
    assert(d.subrange(i + 1, i + 10) =~= "last_seen"@);
    lemma_parse_string_region(d, i, "last_seen"@);
    assert(parse_string(d, skip_ws(d, i)) == Some(("last_seen"@, i + 11)));
    assert(skip_ws(d, i + 11) == i + 11);
    lemma_dec_of_digits(ts as int);
    assert(d[i + 12] == dec_of(ts as int)[0]) by {
        assert(d.subrange(i + 12, i + 12 + dec_of(ts as int).len())[0] == d[i + 12]);
    }
    assert(is_digit(d[i + 12]));
    assert(skip_ws(d, i + 12) == i + 12);
    assert(!null_at(d, i + 12));
    lemma_parse_number_region(d, i + 12, ts);
    assert(parse_last_seen_value(d, i + 12) == Some(
        (Some(ts), i + 12 + dec_of(ts as int).len()),
    ));
}

/// Reading a `"last_seen": null` member.
proof fn lemma_member_last_seen_null(d: Seq<char>, i: int, p: PartialFields)
    requires
        p.last_seen is None,
        0 <= i,
        i + 16 <= d.len(),
        d[i] == '"',
        d[i + 1] == 'l',
        d[i + 2] == 'a',
        d[i + 3] == 's',
        d[i + 4] == 't',
        d[i + 5] == '_',
        d[i + 6] == 's',
        d[i + 7] == 'e',
        d[i + 8] == 'e',
        d[i + 9] == 'n',
        d[i + 10] == '"',
        d[i + 11] == ':',
        d[i + 12] == 'n',
        d[i + 13] == 'u',
        d[i + 14] == 'l',
        d[i + 15] == 'l',
    ensures
        parse_member(d, i, p) == Some((PartialFields { last_seen: Some(None), ..p }, i + 16)),
{
    reveal_strlit("last_seen");
    assert("last_seen"@ =~= seq!['l', 'a', 's', 't', '_', 's', 'e', 'e', 'n']);
    lemma_escaped_plain("last_seen"@);
    assert(skip_ws(d, i) == i);
    assert(d.subrange(i + 1, i + 10) =~= "last_seen"@);
    lemma_parse_string_region(d, i, "last_seen"@);
    assert(parse_string(d, skip_ws(d, i)) == Some(("last_seen"@, i + 11)));
    assert(skip_ws(d, i + 11) == i + 11);
    assert(skip_ws(d, i + 12) == i + 12);
    assert(null_at(d, i + 12));
    assert(parse_last_seen_value(d, i + 12) == Some((None::<u64>, i + 16)));
}

#[verifier::rlimit(100)]
proof fn lemma_round_trip_sighted(m: ItemModel, t: u64)
    requires
        m.last_seen == Some(t),
        wire_safe(m.name),
        wire_safe(m.location),
    ensures
        parse_item(json_of_item(m)) == Some(m),
{
    let d = json_of_item(m);
    let n1 = json_escaped(m.name);
    let e1 = n1.len() as int;
    let bc = dec_of(m.barcode as int);
    let d1 = bc.len() as int;
    let n2 = json_escaped(m.location);
    let e2 = n2.len() as int;
    let dt = dec_of(t as int);
    let d2l = dt.len() as int;
    let l1 = "{\"name\":\""@;
    let l2 = "\",\"barcode\":"@;
    let l3 = ",\"location\":\""@;
    let l4 = "\""@;
    let l5 = ",\"last_seen\":"@;
    let l6 = "}"@;
    reveal_strlit("{\"name\":\"");
    reveal_strlit("\",\"barcode\":");
    reveal_strlit(",\"location\":\"");
    reveal_strlit("\"");
    reveal_strlit(",\"last_seen\":");
    reveal_strlit("}");
    assert(l1.len() == 9 && l2.len() == 12 && l3.len() == 13 && l4.len() == 1 && l5.len() == 13
        && l6.len() == 1);
    assert(d == l1 + n1 + l2 + bc + l3 + n2 + l4 + l5 + dt + l6);
    let ia = 9 + e1;
    let ib = ia + 12 + d1;
    let ic = ib + 14 + e2;
    let ie = ic + 13 + d2l;
    assert(d.len() == ie + 1);
    lemma_dec_of_digits(m.barcode as int);
    lemma_dec_of_digits(t as int);

    assert(d[0] == '{');
    assert(d[1] == '"');
    assert(d[2] == 'n');
    assert(d[3] == 'a');
    assert(d[4] == 'm');
    assert(d[5] == 'e');
    assert(d[6] == '"');
    assert(d[7] == ':');
    assert(d[8] == '"');
    assert(d.subrange(9, 9 + e1) =~= n1);
    assert(d[ia] == '"');
    assert(d[ia + 1] == ',');
    assert(d[ia + 2] == '"');
    assert(d[ia + 3] == 'b');
    assert(d[ia + 4] == 'a');
    assert(d[ia + 5] == 'r');
    assert(d[ia + 6] == 'c');
    assert(d[ia + 7] == 'o');
    assert(d[ia + 8] == 'd');
    assert(d[ia + 9] == 'e');
    assert(d[ia + 10] == '"');
    assert(d[ia + 11] == ':');
    assert(d.subrange(ia + 12, ia + 12 + d1) =~= bc);
    assert(d[ib] == ',');
    assert(d[ib + 1] == '"');
    assert(d[ib + 2] == 'l');
    assert(d[ib + 3] == 'o');
    assert(d[ib + 4] == 'c');
    assert(d[ib + 5] == 'a');
    assert(d[ib + 6] == 't');
    assert(d[ib + 7] == 'i');
    assert(d[ib + 8] == 'o');
    assert(d[ib + 9] == 'n');
    assert(d[ib + 10] == '"');
    assert(d[ib + 11] == ':');
    assert(d[ib + 12] == '"');
    assert(d.subrange(ib + 13, ib + 13 + e2) =~= n2);
    assert(d[ib + 13 + e2] == '"');
    assert(d[ic] == ',');
    assert(d[ic + 1] == '"');
    assert(d[ic + 2] == 'l');
    assert(d[ic + 3] == 'a');
    assert(d[ic + 4] == 's');
    assert(d[ic + 5] == 't');
    assert(d[ic + 6] == '_');
    assert(d[ic + 7] == 's');
    assert(d[ic + 8] == 'e');
    assert(d[ic + 9] == 'e');
    assert(d[ic + 10] == 'n');
    assert(d[ic + 11] == '"');
    assert(d[ic + 12] == ':');
    assert(d.subrange(ic + 13, ic + 13 + d2l) =~= dt);
    assert(d[ie] == '}');

    let p0 = no_fields();
    let p1 = PartialFields { name: Some(m.name), ..p0 };
    let p2 = PartialFields { barcode: Some(m.barcode), ..p1 };
    let p3 = PartialFields { location: Some(m.location), ..p2 };
    let p4 = PartialFields { last_seen: Some(Some(t)), ..p3 };
    lemma_member_name(d, m.name, 1, p0);
    assert(parse_member(d, 1, p0) == Some((p1, ia + 1)));
    lemma_member_barcode(d, m.barcode, ia + 2, p1);
    assert(parse_member(d, ia + 2, p1) == Some((p2, ib)));
    lemma_member_location(d, m.location, ib + 1, p2);
    assert(parse_member(d, ib + 1, p2) == Some((p3, ic)));
    lemma_member_last_seen_num(d, t, ic + 1, p3);
    assert(parse_member(d, ic + 1, p3) == Some((p4, ie)));

    assert(skip_ws(d, ia + 1) == ia + 1);
    assert(skip_ws(d, ib) == ib);
    assert(skip_ws(d, ic) == ic);
    assert(skip_ws(d, ie) == ie);
    assert(parse_members(d, 1, p0, 4) == parse_members(d, ia + 2, p1, 3));
    assert(parse_members(d, ia + 2, p1, 3) == parse_members(d, ib + 1, p2, 2));
    assert(parse_members(d, ib + 1, p2, 2) == parse_members(d, ic + 1, p3, 1));
    assert(finish(p4) == Some(ItemModel {
        name: m.name,
        barcode: m.barcode,
        location: m.location,
        last_seen: Some(t),
    }));
    assert(ItemModel {
        name: m.name,
        barcode: m.barcode,
        location: m.location,
        last_seen: Some(t),
    } =~= m);
    assert(parse_members(d, ic + 1, p3, 1) == Some((m, ie + 1)));

    assert(skip_ws(d, 0) == 0);
    assert(parse_object(d, 0) == Some((m, ie + 1)));
    assert(skip_ws(d, ie + 1) == ie + 1);
    assert(parse_item(d) == Some(m));
}

#[verifier::rlimit(100)]
proof fn lemma_round_trip_unsighted(m: ItemModel)
    requires
        m.last_seen is None,
        wire_safe(m.name),
        wire_safe(m.location),
    ensures
        parse_item(json_of_item(m)) == Some(m),
{
    let d = json_of_item(m);
    let n1 = json_escaped(m.name);
    let e1 = n1.len() as int;
    let bc = dec_of(m.barcode as int);
    let d1 = bc.len() as int;
    let n2 = json_escaped(m.location);
    let e2 = n2.len() as int;
    let l1 = "{\"name\":\""@;
    let l2 = "\",\"barcode\":"@;
    let l3 = ",\"location\":\""@;
    let l4 = "\""@;
    let l5 = ",\"last_seen\":null"@;
    let l6 = "}"@;
    reveal_strlit("{\"name\":\"");
    reveal_strlit("\",\"barcode\":");
    reveal_strlit(",\"location\":\"");
    reveal_strlit("\"");
    reveal_strlit(",\"last_seen\":null");
    reveal_strlit("}");
    assert(l1.len() == 9 && l2.len() == 12 && l3.len() == 13 && l4.len() == 1 && l5.len() == 17
        && l6.len() == 1);
    assert(d == l1 + n1 + l2 + bc + l3 + n2 + l4 + l5 + l6);
    let ia = 9 + e1;
    let ib = ia + 12 + d1;
    let ic = ib + 14 + e2;
    let ie = ic + 17;
    assert(d.len() == ie + 1);
    lemma_dec_of_digits(m.barcode as int);

    assert(d[0] == '{');
    assert(d[1] == '"');
    assert(d[2] == 'n');
    assert(d[3] == 'a');
    assert(d[4] == 'm');
    assert(d[5] == 'e');
    assert(d[6] == '"');
    assert(d[7] == ':');
    assert(d[8] == '"');
    assert(d.subrange(9, 9 + e1) =~= n1);
    assert(d[ia] == '"');
    assert(d[ia + 1] == ',');
    assert(d[ia + 2] == '"');
    assert(d[ia + 3] == 'b');
    assert(d[ia + 4] == 'a');
    assert(d[ia + 5] == 'r');
    assert(d[ia + 6] == 'c');
    assert(d[ia + 7] == 'o');
    assert(d[ia + 8] == 'd');
    assert(d[ia + 9] == 'e');
    assert(d[ia + 10] == '"');
    assert(d[ia + 11] == ':');
    assert(d.subrange(ia + 12, ia + 12 + d1) =~= bc);
    assert(d[ib] == ',');
    assert(d[ib + 1] == '"');
    assert(d[ib + 2] == 'l');
    assert(d[ib + 3] == 'o');
    assert(d[ib + 4] == 'c');
    assert(d[ib + 5] == 'a');
    assert(d[ib + 6] == 't');
    assert(d[ib + 7] == 'i');
    assert(d[ib + 8] == 'o');
    assert(d[ib + 9] == 'n');
    assert(d[ib + 10] == '"');
    assert(d[ib + 11] == ':');
    assert(d[ib + 12] == '"');
    assert(d.subrange(ib + 13, ib + 13 + e2) =~= n2);
    assert(d[ib + 13 + e2] == '"');
    assert(d[ic] == ',');
    assert(d[ic + 1] == '"');
    assert(d[ic + 2] == 'l');
    assert(d[ic + 3] == 'a');
    assert(d[ic + 4] == 's');
    assert(d[ic + 5] == 't');
    assert(d[ic + 6] == '_');
    assert(d[ic + 7] == 's');
    assert(d[ic + 8] == 'e');
    assert(d[ic + 9] == 'e');
    assert(d[ic + 10] == 'n');
    assert(d[ic + 11] == '"');
    assert(d[ic + 12] == ':');
    assert(d[ic + 13] == 'n');
    assert(d[ic + 14] == 'u');
    assert(d[ic + 15] == 'l');
    assert(d[ic + 16] == 'l');
    assert(d[ie] == '}');

    let p0 = no_fields();
    let p1 = PartialFields { name: Some(m.name), ..p0 };
    let p2 = PartialFields { barcode: Some(m.barcode), ..p1 };
    let p3 = PartialFields { location: Some(m.location), ..p2 };
    let p4 = PartialFields { last_seen: Some(None), ..p3 };
    lemma_member_name(d, m.name, 1, p0);
    assert(parse_member(d, 1, p0) == Some((p1, ia + 1)));
    lemma_member_barcode(d, m.barcode, ia + 2, p1);
    assert(parse_member(d, ia + 2, p1) == Some((p2, ib)));
    lemma_member_location(d, m.location, ib + 1, p2);
    assert(parse_member(d, ib + 1, p2) == Some((p3, ic)));
    lemma_member_last_seen_null(d, ic + 1, p3);
    assert(parse_member(d, ic + 1, p3) == Some((p4, ie)));

    assert(skip_ws(d, ia + 1) == ia + 1);
    assert(skip_ws(d, ib) == ib);
    assert(skip_ws(d, ic) == ic);
    assert(skip_ws(d, ie) == ie);
    assert(parse_members(d, 1, p0, 4) == parse_members(d, ia + 2, p1, 3));
    assert(parse_members(d, ia + 2, p1, 3) == parse_members(d, ib + 1, p2, 2));
    assert(parse_members(d, ib + 1, p2, 2) == parse_members(d, ic + 1, p3, 1));
    assert(finish(p4) == Some(ItemModel {
        name: m.name,
        barcode: m.barcode,
        location: m.location,
        last_seen: None,
    }));
    assert(ItemModel {
        name: m.name,
        barcode: m.barcode,
        location: m.location,
        last_seen: None,
    } =~= m);
    assert(parse_members(d, ic + 1, p3, 1) == Some((m, ie + 1)));

    assert(skip_ws(d, 0) == 0);
    assert(parse_object(d, 0) == Some((m, ie + 1)));
    assert(skip_ws(d, ie + 1) == ie + 1);
    assert(parse_item(d) == Some(m));
}

/// The client's request body is read faithfully: the document the client
/// builds for a submission parses on the service to exactly the submitted
/// fields, with no timestamp.
#[verifier::rlimit(100)]
pub proof fn lemma_request_round_trip(name: Seq<char>, barcode: u64, location: Seq<char>)
    requires
        wire_safe(name),
        wire_safe(location),
    ensures
        parse_item(json_of_request(name, barcode, location)) == Some(
            ItemModel { name, barcode, location, last_seen: None },
        ),
{
    let d = json_of_request(name, barcode, location);
    let n1 = json_escaped(name);
    let e1 = n1.len() as int;
    let bc = dec_of(barcode as int);
    let d1 = bc.len() as int;
    let n2 = json_escaped(location);
    let e2 = n2.len() as int;
    let l1 = "{\"name\":\""@;
    let l2 = "\",\"barcode\":"@;
    let l3 = ",\"location\":\""@;
    let lz = "\"}"@;
    reveal_strlit("{\"name\":\"");
    reveal_strlit("\",\"barcode\":");
    reveal_strlit(",\"location\":\"");
    reveal_strlit("\"}");
    assert(l1.len() == 9 && l2.len() == 12 && l3.len() == 13 && lz.len() == 2);
    assert(d == l1 + n1 + l2 + bc + l3 + n2 + lz);
    let ia = 9 + e1;
    let ib = ia + 12 + d1;
    let ic = ib + 14 + e2;
    assert(d.len() == ic + 1);
    lemma_dec_of_digits(barcode as int);

    assert(d[0] == '{');
    assert(d[1] == '"');
    assert(d[2] == 'n');
    assert(d[3] == 'a');
    assert(d[4] == 'm');
    assert(d[5] == 'e');
    assert(d[6] == '"');
    assert(d[7] == ':');
    assert(d[8] == '"');
    assert(d.subrange(9, 9 + e1) =~= n1);
    assert(d[ia] == '"');
    assert(d[ia + 1] == ',');
    assert(d[ia + 2] == '"');
    assert(d[ia + 3] == 'b');
    assert(d[ia + 4] == 'a');
    assert(d[ia + 5] == 'r');
    assert(d[ia + 6] == 'c');
    assert(d[ia + 7] == 'o');
    assert(d[ia + 8] == 'd');
    assert(d[ia + 9] == 'e');
    assert(d[ia + 10] == '"');
    assert(d[ia + 11] == ':');
    assert(d.subrange(ia + 12, ia + 12 + d1) =~= bc);
    assert(d[ib] == ',');
    assert(d[ib + 1] == '"');
    assert(d[ib + 2] == 'l');
    assert(d[ib + 3] == 'o');
    assert(d[ib + 4] == 'c');
    assert(d[ib + 5] == 'a');
    assert(d[ib + 6] == 't');
    assert(d[ib + 7] == 'i');
    assert(d[ib + 8] == 'o');
    assert(d[ib + 9] == 'n');
    assert(d[ib + 10] == '"');
    assert(d[ib + 11] == ':');
    assert(d[ib + 12] == '"');
    assert(d.subrange(ib + 13, ib + 13 + e2) =~= n2);
    assert(d[ib + 13 + e2] == '"');
    assert(d[ic] == '}');

    let p0 = no_fields();
    let p1 = PartialFields { name: Some(name), ..p0 };
    let p2 = PartialFields { barcode: Some(barcode), ..p1 };
    let p3 = PartialFields { location: Some(location), ..p2 };
    lemma_member_name(d, name, 1, p0);
    assert(parse_member(d, 1, p0) == Some((p1, ia + 1)));
    lemma_member_barcode(d, barcode, ia + 2, p1);
    assert(parse_member(d, ia + 2, p1) == Some((p2, ib)));
    lemma_member_location(d, location, ib + 1, p2);
    assert(parse_member(d, ib + 1, p2) == Some((p3, ic)));

    assert(skip_ws(d, ia + 1) == ia + 1);
    assert(skip_ws(d, ib) == ib);
    assert(skip_ws(d, ic) == ic);
    assert(parse_members(d, 1, p0, 4) == parse_members(d, ia + 2, p1, 3));
    assert(parse_members(d, ia + 2, p1, 3) == parse_members(d, ib + 1, p2, 2));
    assert(finish(p3) == Some(ItemModel { name, barcode, location, last_seen: None }));
    assert(parse_members(d, ib + 1, p2, 2) == Some(
        (ItemModel { name, barcode, location, last_seen: None }, ic + 1),
    ));

    assert(skip_ws(d, 0) == 0);
    assert(parse_object(d, 0) == Some((ItemModel { name, barcode, location, last_seen: None }, ic + 1)));
    assert(skip_ws(d, ic + 1) == ic + 1);
}

/// The wire format is lossless: any record whose text fields this parser's
/// escapes can spell — everything a sanitized record holds — parses back
/// from its own JSON document to exactly itself.
pub proof fn lemma_item_round_trip(m: ItemModel)
    requires
        wire_safe(m.name),
        wire_safe(m.location),
    ensures
        parse_item(json_of_item(m)) == Some(m),
{
    match m.last_seen {
        Some(t) => lemma_round_trip_sighted(m, t),
        None => lemma_round_trip_unsighted(m),
    }
}

/// Parse a whole document as one item record.
pub fn parse_item_str(s: &str) -> (r: Option<Item>)
    ensures
        match r {
            Some(it) => parse_item(s@) == Some(it@),
            None => parse_item(s@) is None,
        },
{
    let v = crate::text::str_chars(s);
    parse_item_chars(&v)
}

} // verus!
