//! The HTTP handlers: each validates its input, runs one storage operation,
//! and renders a status code with a plain-text or JSON body.  `dispatch`
//! routes a request to its handler.

use vstd::prelude::*;
use crate::item::{ItemModel, sanitized_model};
use crate::numbers::parse_u64;
use crate::routes::{Route, route_of, last_segment};
use crate::store::{
    ItemStore, has_barcode, row_for, removed, replaced, touched, models_of,
};
use crate::wire::{parse_item, json_of_item, json_of_items};

verus! {

/// Request bodies above this many bytes are refused before any parsing.
pub const BODY_CAP: u64 = 65536;

/// A finished response: a status code and a plain-text or JSON body.
/// Every response is served with a permissive cross-origin header.
pub struct Response {
    pub status: u16,
    pub body: String,
}

/// The content type a served file is labelled with.
#[derive(Debug, Clone, Copy, PartialEq, Eq, Structural)]
pub enum Mime {
    Html,
    Css,
    Js,
    Plain,
    Icon,
}

/// What the caller of `dispatch` must do: send a finished response, or
/// serve a file the library does not read itself.
pub enum Action {
    /// Send this response.
    Respond(Response),
    /// Serve the site file at `target` (a path below the site's asset
    /// directory), labelled `mime`; 404 when it cannot be read.
    ServeAsset { target: String, mime: Mime },
    /// Serve a raw dump of the backing store file; 404 when it cannot be
    /// read.
    ServeDatabase,
}

/// The view of a request body: the text, or nothing when the bytes did not
/// decode.
pub open spec fn body_view(body: Option<&str>) -> Option<Seq<char>> {
    match body {
        Some(s) => Some(s@),
        None => None,
    }
}

/// The item a request body parses to, if it parses.
pub open spec fn parsed_of(body: Option<Seq<char>>) -> Option<ItemModel> {
    match body {
        Some(t) => parse_item(t),
        None => None,
    }
}

/// What a create or modify request stores: the submitted fields sanitized,
/// the record stamped as last seen now.
pub open spec fn stamped(m: ItemModel, now: u64) -> ItemModel {
    ItemModel { last_seen: Some(now), ..sanitized_model(m) }
}

/// Every row's text fields sanitized, order kept.
pub open spec fn sanitized_rows(ms: Seq<ItemModel>) -> Seq<ItemModel> {
    Seq::new(ms.len(), |i: int| sanitized_model(ms[i]))
}

/// The create handler's contract, relating the table before and after to
/// the response: an oversized body is refused unread, a malformed one
/// unsaved; a taken barcode is a conflict; otherwise the sanitized, stamped
/// record is appended.
pub open spec fn create_post(
    pre: Seq<ItemModel>,
    post: Seq<ItemModel>,
    hint: u64,
    body: Option<Seq<char>>,
    now: u64,
    status: u16,
    out: Seq<char>,
) -> bool {
    &&& hint > BODY_CAP ==> status == 413 && out == "Body too big"@ && post == pre
    &&& hint <= BODY_CAP && parsed_of(body) is None ==> status == 400 && out == "Invalid JSON"@
        && post == pre
    &&& hint <= BODY_CAP ==> match parsed_of(body) {
        Some(m) => if has_barcode(pre, m.barcode) {
            status == 409 && out == "Item already exists"@ && post == pre
        } else {
            status == 200 && out == "OK"@ && post == pre.push(stamped(m, now))
        },
        None => true,
    }
}

/// The modify handler's contract: as `create_post`, but the record must
/// already exist and is overwritten in place; nothing is ever inserted.
pub open spec fn update_post(
    pre: Seq<ItemModel>,
    post: Seq<ItemModel>,
    hint: u64,
    body: Option<Seq<char>>,
    now: u64,
    status: u16,
    out: Seq<char>,
) -> bool {
    &&& hint > BODY_CAP ==> status == 413 && out == "Body too big"@ && post == pre
    &&& hint <= BODY_CAP && parsed_of(body) is None ==> status == 400 && out == "Invalid JSON"@
        && post == pre
    &&& hint <= BODY_CAP ==> match parsed_of(body) {
        Some(m) => if has_barcode(pre, m.barcode) {
            status == 200 && out == "OK"@ && post == replaced(pre, stamped(m, now))
        } else {
            status == 404 && out == "Item not found"@ && post == pre
        },
        None => true,
    }
}

/// The read-one handler's contract: a path whose last segment is no barcode
/// is refused; a missing barcode is not found; otherwise the row is served
/// sanitized.
pub open spec fn read_post(rows: Seq<ItemModel>, path: Seq<char>, status: u16, out: Seq<
    char,
>) -> bool {
    match parse_u64(last_segment(path)) {
        None => status == 400 && out == "Invalid barcode"@,
        Some(b) => if has_barcode(rows, b) {
            status == 200 && out == json_of_item(sanitized_model(row_for(rows, b)))
        } else {
            status == 404 && out == "Item not found"@
        },
    }
}

/// The read-all handler's contract: every row, sanitized, in table order.
pub open spec fn list_post(rows: Seq<ItemModel>, status: u16, out: Seq<char>) -> bool {
    status == 200 && out == json_of_items(sanitized_rows(rows))
}

/// The delete handler's contract.
pub open spec fn delete_post(
    pre: Seq<ItemModel>,
    post: Seq<ItemModel>,
    path: Seq<char>,
    status: u16,
    out: Seq<char>,
) -> bool {
    match parse_u64(last_segment(path)) {
        None => status == 400 && out == "Invalid barcode"@ && post == pre,
        Some(b) => if has_barcode(pre, b) {
            status == 200 && out == "OK"@ && post == removed(pre, b)
        } else {
            status == 404 && out == "Item not found"@ && post == pre
        },
    }
}

/// The log-sighting handler's contract: only `last_seen` changes, and only
/// for an existing row.
pub open spec fn log_post(
    pre: Seq<ItemModel>,
    post: Seq<ItemModel>,
    path: Seq<char>,
    now: u64,
    status: u16,
    out: Seq<char>,
) -> bool {
    match parse_u64(last_segment(path)) {
        None => status == 400 && out == "Invalid barcode"@ && post == pre,
        Some(b) => if has_barcode(pre, b) {
            status == 200 && out == "OK"@ && post == touched(pre, b, now)
        } else {
            status == 404 && out == "Item not found"@ && post == pre
        },
    }
}

/// Create an item from a request body, refusing oversized and malformed
/// bodies, and barcodes already taken.
pub fn new_item(store: &mut ItemStore, body_hint: u64, body: Option<&str>, now: u64) -> (r:
    Response)
    requires
        old(store).wf(),
    ensures
        final(store).wf(),
        create_post(
            old(store)@,
            final(store)@,
            body_hint,
            body_view(body),
            now,
            r.status,
            r.body@,
        ),
{
    if body_hint > BODY_CAP {
        return Response { status: 413, body: String::from_str("Body too big") };
    }
    let parsed = match body {
        Some(s) => crate::wire::parse_item_str(s),
        None => None,
    };
    match parsed {
        None => Response { status: 400, body: String::from_str("Invalid JSON") },
        Some(it) => {
            let mut it = it;
            it.sanitize();
            it.last_seen = Some(now);
            match it.save(store) {
                Ok(_) => Response { status: 200, body: String::from_str("OK") },
                Err(_) => Response { status: 409, body: String::from_str("Item already exists") },
            }
        },
    }
}

/// Overwrite an existing item from a request body.
pub fn modify_item_endpoint(
    store: &mut ItemStore,
    body_hint: u64,
    body: Option<&str>,
    now: u64,
) -> (r: Response)
    requires
        old(store).wf(),
    ensures
        final(store).wf(),
        update_post(
            old(store)@,
            final(store)@,
            body_hint,
            body_view(body),
            now,
            r.status,
            r.body@,
        ),
{
    if body_hint > BODY_CAP {
        return Response { status: 413, body: String::from_str("Body too big") };
    }
    let parsed = match body {
        Some(s) => crate::wire::parse_item_str(s),
        None => None,
    };
    match parsed {
        None => Response { status: 400, body: String::from_str("Invalid JSON") },
        Some(it) => {
            let mut it = it;
            it.sanitize();
            it.last_seen = Some(now);
            match crate::store::modify_item(store, it) {
                Ok(_) => Response { status: 200, body: String::from_str("OK") },
                Err(_) => Response { status: 404, body: String::from_str("Item not found") },
            }
        },
    }
}

/// Serve one item, sanitized, by the barcode in the path.
pub fn item(store: &ItemStore, path: &str) -> (r: Response)
    requires
        store.wf(),
    ensures
        read_post(store@, path@, r.status, r.body@),
{
    match crate::routes::barcode_from_path(path) {
        None => Response { status: 400, body: String::from_str("Invalid barcode") },
        Some(b) => match crate::store::load_item(store, b) {
            Ok(it) => {
                let mut it = it;
                it.sanitize();
                Response { status: 200, body: crate::wire::item_json(&it) }
            },
            Err(_) => Response { status: 404, body: String::from_str("Item not found") },
        },
    }
}

/// Serve every item, sanitized, in table order.
pub fn all_items(store: &ItemStore) -> (r: Response)
    ensures
        list_post(store@, r.status, r.body@),
{
    let items = match crate::store::load_items(store) {
        Ok(v) => v,
        Err(_) => Vec::new(),
    };
    let n = items.len();
    let mut clean: Vec<crate::item::Item> = Vec::new();
    let mut i: usize = 0;
    while i < n
        invariant
            n == items@.len(),
            models_of(items@) == store@,
            0 <= i <= n,
            models_of(clean@) =~= sanitized_rows(store@).subrange(0, i as int),
        decreases n - i,
    {
        let mut it = items[i].duplicate();
        it.sanitize();
        let ghost prev = clean@;
        clean.push(it);
        proof {
            assert(models_of(prev).len() == prev.len());
            assert(prev.len() == i);
            assert(clean@ == prev.push(clean@[i as int]));
            assert(models_of(clean@).len() == i + 1);
            assert forall|k: int| 0 <= k < i + 1 implies models_of(clean@)[k] == sanitized_rows(
                store@,
            ).subrange(0, i + 1)[k] by {
                if k < i {
                    assert(clean@[k] == prev[k]);
                    assert(models_of(prev)[k] == sanitized_rows(store@).subrange(0, i as int)[k]);
                } else {
                    assert(clean@[k]@ == sanitized_model(store@[i as int]));
                }
            }
            assert(models_of(clean@) =~= sanitized_rows(store@).subrange(0, i + 1));
        }
        i = i + 1;
    }
    proof {
        assert(sanitized_rows(store@).subrange(0, n as int) =~= sanitized_rows(store@));
    }
    Response { status: 200, body: crate::wire::items_json(&clean) }
}

/// Delete the item named by the path's barcode.
pub fn delete_item_endpoint(store: &mut ItemStore, path: &str) -> (r: Response)
    requires
        old(store).wf(),
    ensures
        final(store).wf(),
        delete_post(old(store)@, final(store)@, path@, r.status, r.body@),
{
    match crate::routes::barcode_from_path(path) {
        None => Response { status: 400, body: String::from_str("Invalid barcode") },
        Some(b) => match crate::store::delete_item(store, b) {
            Ok(_) => Response { status: 200, body: String::from_str("OK") },
            Err(_) => Response { status: 404, body: String::from_str("Item not found") },
        },
    }
}

/// Log a sighting of the item named by the path's barcode: stamp it as
/// last seen now, touching nothing else.
pub fn log_item(store: &mut ItemStore, path: &str, now: u64) -> (r: Response)
    requires
        old(store).wf(),
    ensures
        final(store).wf(),
        log_post(old(store)@, final(store)@, path@, now, r.status, r.body@),
{
    match crate::routes::barcode_from_path(path) {
        None => Response { status: 400, body: String::from_str("Invalid barcode") },
        Some(b) => match crate::store::touch_last_seen(store, b, now) {
            Ok(_) => Response { status: 200, body: String::from_str("OK") },
            Err(_) => Response { status: 404, body: String::from_str("Item not found") },
        },
    }
}

/// The content type a site file is labelled with, by its exact path.
pub open spec fn mime_of(target: Seq<char>) -> Mime {
    if target == "/index.html"@ {
        Mime::Html
    } else if target == "/style.css"@ {
        Mime::Css
    } else if target == "/script.js"@ {
        Mime::Js
    } else {
        Mime::Plain
    }
}

/// The site file an asset path serves: the index page for the bare root.
pub open spec fn asset_target(path: Seq<char>) -> Seq<char> {
    if path == "/"@ {
        "/index.html"@
    } else {
        path
    }
}

/// Route a request to its handler.  The caller supplies the request path,
/// the declared body size, the body text (`None` when the bytes did not
/// decode), and the current Unix time, and performs the returned action.
pub fn dispatch(
    store: &mut ItemStore,
    path: &str,
    body_hint: u64,
    body: Option<&str>,
    now: u64,
) -> (r: Action)
    requires
        old(store).wf(),
    ensures
        final(store).wf(),
        match route_of(path@) {
            Route::NewItem => (r matches Action::Respond(p) && create_post(
                old(store)@,
                final(store)@,
                body_hint,
                body_view(body),
                now,
                p.status,
                p.body@,
            )),
            Route::AllItems => (r matches Action::Respond(p) && final(store)@ == old(store)@
                && list_post(old(store)@, p.status, p.body@)),
            Route::OneItem => (r matches Action::Respond(p) && final(store)@ == old(store)@
                && read_post(old(store)@, path@, p.status, p.body@)),
            Route::Modify => (r matches Action::Respond(p) && update_post(
                old(store)@,
                final(store)@,
                body_hint,
                body_view(body),
                now,
                p.status,
                p.body@,
            )),
            Route::Delete => (r matches Action::Respond(p) && delete_post(
                old(store)@,
                final(store)@,
                path@,
                p.status,
                p.body@,
            )),
            Route::Log => (r matches Action::Respond(p) && log_post(
                old(store)@,
                final(store)@,
                path@,
                now,
                p.status,
                p.body@,
            )),
            Route::Asset => (r matches Action::ServeAsset { target, mime } && final(store)@ == old(
                store,
            )@ && target@ == asset_target(path@) && mime == mime_of(asset_target(path@))),
            Route::Favicon => (r matches Action::ServeAsset { target, mime } && final(store)@
                == old(store)@ && target@ == "/favicon.ico"@ && mime == Mime::Icon),
            Route::Database => (r matches Action::ServeDatabase && final(store)@ == old(store)@),
            Route::Unknown => (r matches Action::Respond(p) && final(store)@ == old(store)@
                && p.status == 404 && p.body@ == "Not found"@),
        },
{
    match crate::routes::route_of_path(path) {
        Route::NewItem => Action::Respond(new_item(store, body_hint, body, now)),
        Route::AllItems => Action::Respond(all_items(store)),
        Route::OneItem => Action::Respond(item(store, path)),
        Route::Modify => Action::Respond(modify_item_endpoint(store, body_hint, body, now)),
        Route::Delete => Action::Respond(delete_item_endpoint(store, path)),
        Route::Log => Action::Respond(log_item(store, path, now)),
        Route::Asset => {
            let target = if crate::routes::str_eq_str(path, "/") {
                String::from_str("/index.html")
            } else {
                String::from_str(path)
            };
            let mime = if crate::routes::str_eq_str(target.as_str(), "/index.html") {
                Mime::Html
            } else if crate::routes::str_eq_str(target.as_str(), "/style.css") {
                Mime::Css
            } else if crate::routes::str_eq_str(target.as_str(), "/script.js") {
                Mime::Js
            } else {
                Mime::Plain
            };
            Action::ServeAsset { target, mime }
        },
        Route::Favicon => Action::ServeAsset {
            target: String::from_str("/favicon.ico"),
            mime: Mime::Icon,
        },
        Route::Database => Action::ServeDatabase,
        Route::Unknown => Action::Respond(
            Response { status: 404, body: String::from_str("Not found") },
        ),
    }
}

} // verus!
