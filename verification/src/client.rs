//! The terminal client's logic: command parsing, barcode lists, location
//! shortcuts, server address normalization, and the requests it sends.
//! Reading lines and talking to the network stay outside the library.

use vstd::prelude::*;
use crate::numbers::{parse_u64, dec_of};
use crate::routes::starts_with;
use crate::text::{is_trim_ws, trimmed};

verus! {

/// The record the client submits: the item shape without a timestamp; the
/// service stamps one.
pub struct RequestModel {
    pub name: Seq<char>,
    pub barcode: u64,
    pub location: Seq<char>,
}

/// An item as the client submits it.
#[derive(Debug, Clone)]
pub struct Item {
    pub name: String,
    pub barcode: u64,
    pub location: String,
}

impl View for Item {
    type V = RequestModel;

    open spec fn view(&self) -> RequestModel {
        RequestModel { name: self.name@, barcode: self.barcode, location: self.location@ }
    }
}

impl Item {
    /// The request body this record is sent as.
    pub fn to_json(&self) -> (r: String)
        ensures
            r@ == crate::wire::json_of_request(self@.name, self@.barcode, self@.location),
    {
        crate::wire::request_json(self.name.as_str(), self.barcode, self.location.as_str())
    }
}

/// One command the terminal understands.
#[derive(Debug, Clone, Copy, PartialEq, Eq, Structural)]
pub enum Command {
    New,
    Modify,
    Delete,
    Log,
    All,
    See,
    Server,
    Quit,
    /// Anything else: print the command summary.
    Help,
}

/// The white-space separated tokens of a line, accumulated left to right:
/// `cur` is the token being read, `done` the tokens before it.
pub open spec fn tokens_acc(s: Seq<char>, i: int, cur: Seq<char>, done: Seq<Seq<char>>) -> Seq<
    Seq<char>,
>
    decreases s.len() - i,
{
    if i < 0 || i >= s.len() {
        if cur.len() > 0 {
            done.push(cur)
        } else {
            done
        }
    } else if is_trim_ws(s[i]) {
        if cur.len() > 0 {
            tokens_acc(s, i + 1, Seq::empty(), done.push(cur))
        } else {
            tokens_acc(s, i + 1, Seq::empty(), done)
        }
    } else {
        tokens_acc(s, i + 1, cur.push(s[i]), done)
    }
}

/// The white-space separated tokens of a line.
pub open spec fn tokens(s: Seq<char>) -> Seq<Seq<char>> {
    tokens_acc(s, 0, Seq::empty(), Seq::empty())
}

/// Every token read as a barcode, or nothing when one of them is none.
pub open spec fn parse_all(ts: Seq<Seq<char>>) -> Option<Seq<u64>>
    decreases ts.len(),
{
    if ts.len() == 0 {
        Some(Seq::empty())
    } else {
        match parse_u64(ts[0]) {
            Some(v) => match parse_all(ts.drop_first()) {
                Some(rest) => Some(seq![v] + rest),
                None => None,
            },
            None => None,
        }
    }
}

/// The barcode list of a command line: every token after the command word
/// read as a barcode; nothing when one of them is none.
pub open spec fn args_of(s: Seq<char>) -> Option<Seq<u64>> {
    if tokens(s).len() == 0 {
        Some(Seq::empty())
    } else {
        parse_all(tokens(s).drop_first())
    }
}

/// The command a line names: its first token; a line of pure white-space
/// names none.
pub open spec fn command_of(s: Seq<char>) -> Option<Command> {
    let ts = tokens(s);
    if ts.len() == 0 {
        None
    } else if ts[0] == "new"@ {
        Some(Command::New)
    } else if ts[0] == "modify"@ {
        Some(Command::Modify)
    } else if ts[0] == "delete"@ {
        Some(Command::Delete)
    } else if ts[0] == "log"@ {
        Some(Command::Log)
    } else if ts[0] == "all"@ {
        Some(Command::All)
    } else if ts[0] == "see"@ {
        Some(Command::See)
    } else if ts[0] == "server"@ {
        Some(Command::Server)
    } else if ts[0] == "quit"@ {
        Some(Command::Quit)
    } else {
        Some(Command::Help)
    }
}

/// The views of a token vector.
pub open spec fn token_views(ts: Seq<Vec<char>>) -> Seq<Seq<char>> {
    Seq::new(ts.len(), |i: int| ts[i]@)
}

/// The white-space separated tokens of a line.
fn split_tokens(s: &str) -> (r: Vec<Vec<char>>)
    ensures
        token_views(r@) == tokens(s@),
{
    let v = crate::text::str_chars(s);
    let n = v.len();
    let mut cur: Vec<char> = Vec::new();
    let mut done: Vec<Vec<char>> = Vec::new();
    proof {
        assert(token_views(done@) =~= Seq::<Seq<char>>::empty());
    }
    let mut i: usize = 0;
    while i < n
        invariant
            n == v@.len(),
            v@ == s@,
            0 <= i <= n,
            tokens(s@) == tokens_acc(s@, i as int, cur@, token_views(done@)),
        decreases n - i,
    {
        let c = v[i];
        if crate::text::char_is_trim_ws(c) {
            if cur.len() > 0 {
                let ghost dv = token_views(done@);
                let ghost cv = cur@;
                done.push(cur);
                cur = Vec::new();
                proof {
                    assert(token_views(done@) =~= dv.push(cv));
                }
            } else {
                proof {
                    assert(cur@ =~= Seq::<char>::empty());
                }
            }
        } else {
            cur.push(c);
        }
        i = i + 1;
    }
    if cur.len() > 0 {
        let ghost dv = token_views(done@);
        let ghost cv = cur@;
        done.push(cur);
        proof {
            assert(token_views(done@) =~= dv.push(cv));
        }
    }
    done
}

/// Read the tokens from `k` on as barcodes.
fn parse_all_x(ts: &Vec<Vec<char>>, k: usize) -> (r: Option<Vec<u64>>)
    requires
        k <= ts@.len(),
    ensures
        match r {
            Some(v) => parse_all(token_views(ts@).skip(k as int)) == Some(v@),
            None => parse_all(token_views(ts@).skip(k as int)) is None,
        },
    decreases ts@.len() - k,
{
    let n = ts.len();
    if k == n {
        proof {
            assert(token_views(ts@).skip(k as int) =~= Seq::<Seq<char>>::empty());
        }
        Some(Vec::new())
    } else {
        proof {
            assert(token_views(ts@).skip(k as int)[0] == ts@[k as int]@);
            assert(token_views(ts@).skip(k as int).drop_first() =~= token_views(ts@).skip(
                k + 1,
            ));
        }
        match crate::numbers::parse_u64_chars(&ts[k]) {
            Some(v) => match parse_all_x(ts, k + 1) {
                Some(rest) => {
                    let mut out: Vec<u64> = Vec::new();
                    out.push(v);
                    let mut tail = rest;
                    out.append(&mut tail);
                    proof {
                        assert(out@ =~= seq![v] + parse_all(
                            token_views(ts@).skip(k + 1),
                        ).unwrap());
                    }
                    Some(out)
                },
                None => None,
            },
            None => None,
        }
    }
}

/// The barcode list of a command line; nothing when a token after the
/// command word is no barcode.
pub fn get_args(s: String) -> (r: Option<Vec<u64>>)
    ensures
        match r {
            Some(v) => args_of(s@) == Some(v@),
            None => args_of(s@) is None,
        },
{
    let toks = split_tokens(s.as_str());
    if toks.len() == 0 {
        return Some(Vec::new());
    }
    proof {
        assert(token_views(toks@).skip(1) =~= tokens(s@).drop_first());
    }
    parse_all_x(&toks, 1)
}

/// The command a line names.
pub fn parse_command(s: &str) -> (r: Option<Command>)
    ensures
        r == command_of(s@),
{
    let toks = split_tokens(s);
    if toks.len() == 0 {
        return None;
    }
    proof {
        assert(toks@[0]@ == tokens(s@)[0]);
    }
    let head = &toks[0];
    if crate::routes::chars_eq_str(head, "new") {
        Some(Command::New)
    } else if crate::routes::chars_eq_str(head, "modify") {
        Some(Command::Modify)
    } else if crate::routes::chars_eq_str(head, "delete") {
        Some(Command::Delete)
    } else if crate::routes::chars_eq_str(head, "log") {
        Some(Command::Log)
    } else if crate::routes::chars_eq_str(head, "all") {
        Some(Command::All)
    } else if crate::routes::chars_eq_str(head, "see") {
        Some(Command::See)
    } else if crate::routes::chars_eq_str(head, "server") {
        Some(Command::Server)
    } else if crate::routes::chars_eq_str(head, "quit") {
        Some(Command::Quit)
    } else {
        Some(Command::Help)
    }
}

/// The location a prompt answer names: trimmed, with the single-letter
/// shortcuts standing for the full location names.
pub open spec fn located(s: Seq<char>) -> Seq<char> {
    let t = trimmed(s);
    if t == "l"@ {
        "Levi Fox Hall Tech Box"@
    } else if t == "d"@ {
        "Drama Studio Tech Box"@
    } else if t == "r"@ {
        "Rig"@
    } else if t == "s"@ {
        "Storage outside Levi Fox Hall Tech Box"@
    } else {
        t
    }
}

/// Resolve a location prompt answer.
pub fn resolve_location(s: &str) -> (r: String)
    ensures
        r@ == located(s@),
{
    let t = crate::text::trim(s);
    if crate::routes::str_eq_str(t.as_str(), "l") {
        String::from_str("Levi Fox Hall Tech Box")
    } else if crate::routes::str_eq_str(t.as_str(), "d") {
        String::from_str("Drama Studio Tech Box")
    } else if crate::routes::str_eq_str(t.as_str(), "r") {
        String::from_str("Rig")
    } else if crate::routes::str_eq_str(t.as_str(), "s") {
        String::from_str("Storage outside Levi Fox Hall Tech Box")
    } else {
        t
    }
}

/// The record a `new` command submits, from the two prompt answers.
pub fn process_new_item(barcode: u64, location_line: &str, name_line: &str) -> (r: Item)
    ensures
        r@.name == trimmed(name_line@),
        r@.barcode == barcode,
        r@.location == located(location_line@),
{
    Item {
        name: crate::text::trim(name_line),
        barcode,
        location: resolve_location(location_line),
    }
}

/// The record a `modify` command submits, from the two prompt answers.
pub fn process_modify_item(barcode: u64, location_line: &str, name_line: &str) -> (r: Item)
    ensures
        r@.name == trimmed(name_line@),
        r@.barcode == barcode,
        r@.location == located(location_line@),
{
    Item {
        name: crate::text::trim(name_line),
        barcode,
        location: resolve_location(location_line),
    }
}

/// `s` from `i` on, every `https://` written `http://`.
pub open spec fn replaced_scheme(s: Seq<char>, i: int) -> Seq<char>
    decreases s.len() - i,
{
    if i < 0 || i >= s.len() {
        Seq::empty()
    } else if i + 8 <= s.len() && s.subrange(i, i + 8) == "https://"@ {
        "http://"@ + replaced_scheme(s, i + 8)
    } else {
        seq![s[i]] + replaced_scheme(s, i + 1)
    }
}

/// A server address made plain-scheme: kept as given under `http://`,
/// every `https://` rewritten, and `http://` put before a bare address.
pub open spec fn normalized_server(s: Seq<char>) -> Seq<char> {
    if starts_with(s, "http://"@) {
        s
    } else if starts_with(s, "https://"@) {
        replaced_scheme(s, 0)
    } else {
        "http://"@ + s
    }
}

/// Does `https://` stand at `i`?
fn https_at(v: &Vec<char>, i: usize) -> (b: bool)
    requires
        i <= v@.len(),
    ensures
        b == (i + 8 <= v@.len() && v@.subrange(i as int, i as int + 8) == "https://"@),
{
    let n = v.len();
    let r = n >= 8 && i <= n - 8 && v[i] == 'h' && v[i + 1] == 't' && v[i + 2] == 't' && v[i + 3]
        == 'p' && v[i + 4] == 's' && v[i + 5] == ':' && v[i + 6] == '/' && v[i + 7] == '/';
    proof {
        reveal_strlit("https://");
        if r {
            assert(v@.subrange(i as int, i as int + 8) =~= "https://"@);
        } else {
            if i + 8 <= v@.len() && v@.subrange(i as int, i as int + 8) == "https://"@ {
                assert(v@[i as int] == "https://"@[0]);
                assert(v@[i as int + 1] == "https://"@[1]);
                assert(v@[i as int + 2] == "https://"@[2]);
                assert(v@[i as int + 3] == "https://"@[3]);
                assert(v@[i as int + 4] == "https://"@[4]);
                assert(v@[i as int + 5] == "https://"@[5]);
                assert(v@[i as int + 6] == "https://"@[6]);
                assert(v@[i as int + 7] == "https://"@[7]);
            }
        }
    }
    r
}

/// Normalize a server address to the plain scheme.
pub fn normalize_server(s: &str) -> (r: String)
    ensures
        r@ == normalized_server(s@),
{
    if crate::routes::chars_start_str(&crate::text::str_chars(s), "http://") {
        String::from_str(s)
    } else if crate::routes::chars_start_str(&crate::text::str_chars(s), "https://") {
        let v = crate::text::str_chars(s);
        let n = v.len();
        let mut out = String::new();
        proof {
            assert(out@ + replaced_scheme(s@, 0) =~= replaced_scheme(s@, 0));
        }
        let mut i: usize = 0;
        while i < n
            invariant
                n == v@.len(),
                v@ == s@,
                0 <= i <= n,
                out@ + replaced_scheme(s@, i as int) == replaced_scheme(s@, 0),
            decreases n - i,
        {
            let ghost o = out@;
            if https_at(&v, i) {
                out.append("http://");
                proof {
                    assert(replaced_scheme(s@, i as int) == "http://"@ + replaced_scheme(
                        s@,
                        i + 8,
                    ));
                    assert(out@ + replaced_scheme(s@, i + 8) =~= o + replaced_scheme(
                        s@,
                        i as int,
                    ));
                }
                i = i + 8;
            } else {
                crate::text::push_char(&mut out, v[i]);
                proof {
                    assert(replaced_scheme(s@, i as int) == seq![s@[i as int]] + replaced_scheme(
                        s@,
                        i + 1,
                    ));
                    assert(out@ + replaced_scheme(s@, i + 1) =~= o + replaced_scheme(
                        s@,
                        i as int,
                    ));
                }
                i = i + 1;
            }
        }
        proof {
            assert(replaced_scheme(s@, n as int) =~= Seq::<char>::empty());
            assert(out@ =~= out@ + replaced_scheme(s@, n as int));
        }
        out
    } else {
        let mut out = String::from_str("http://");
        out.append(s);
        out
    }
}

/// The request path reading one item.
pub fn item_path(barcode: u64) -> (r: String)
    ensures
        r@ == "/item/"@ + dec_of(barcode as int),
{
    let mut out = String::from_str("/item/");
    crate::numbers::append_dec(&mut out, barcode);
    out
}

/// The request path deleting one item.
pub fn delete_path(barcode: u64) -> (r: String)
    ensures
        r@ == "/delete/"@ + dec_of(barcode as int),
{
    let mut out = String::from_str("/delete/");
    crate::numbers::append_dec(&mut out, barcode);
    out
}

/// The request path logging a sighting.
pub fn log_path(barcode: u64) -> (r: String)
    ensures
        r@ == "/log/"@ + dec_of(barcode as int),
{
    let mut out = String::from_str("/log/");
    crate::numbers::append_dec(&mut out, barcode);
    out
}

} // verus!
