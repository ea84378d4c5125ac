use barcode::item::Item;
use barcode::routes::{barcode_from_path, route_of_path, Route};
use barcode::service::{dispatch, new_item, Action, Mime, Response};
use barcode::store::ItemStore;

fn respond(action: Action) -> Response {
    match action {
        Action::Respond(p) => p,
        _ => panic!("expected a finished response"),
    }
}

#[test]
fn routes_match_the_table() {
    assert_eq!(route_of_path("/new"), Route::NewItem);
    assert_eq!(route_of_path("/all"), Route::AllItems);
    assert_eq!(route_of_path("/item/42"), Route::OneItem);
    assert_eq!(route_of_path("/modify"), Route::Modify);
    assert_eq!(route_of_path("/delete/42"), Route::Delete);
    assert_eq!(route_of_path("/log/42"), Route::Log);
    assert_eq!(route_of_path("/"), Route::Asset);
    assert_eq!(route_of_path("/index.html"), Route::Asset);
    assert_eq!(route_of_path("/style.css"), Route::Asset);
    assert_eq!(route_of_path("/script.js"), Route::Asset);
    assert_eq!(route_of_path("/favicon.ico"), Route::Favicon);
    assert_eq!(route_of_path("/get_database"), Route::Database);
    assert_eq!(route_of_path("/nonsense"), Route::Unknown);
    assert_eq!(route_of_path("/new/"), Route::Unknown);
}

#[test]
fn barcode_comes_from_last_path_segment() {
    assert_eq!(barcode_from_path("/item/42"), Some(42));
    assert_eq!(barcode_from_path("/delete/0"), Some(0));
    assert_eq!(barcode_from_path("/item/"), None);
    assert_eq!(barcode_from_path("/item/4/2"), Some(2));
    assert_eq!(barcode_from_path("/item/42abc"), None);
}

#[test]
fn end_to_end_create_then_read() {
    let mut store = ItemStore::new();
    let body = "{\"name\":\"Spotlight #3!\",\"barcode\":42,\"location\":\"Rig?\"}";
    let p = respond(dispatch(&mut store, "/new", body.len() as u64, Some(body), 1000));
    assert_eq!(p.status, 200);
    assert_eq!(p.body, "OK");

    let p = respond(dispatch(&mut store, "/item/42", 0, None, 1001));
    assert_eq!(p.status, 200);
    assert_eq!(
        p.body,
        "{\"name\":\"Spotlight 3\",\"barcode\":42,\"location\":\"Rig\",\"last_seen\":1000}"
    );
}

#[test]
fn repeating_the_create_conflicts() {
    let mut store = ItemStore::new();
    let body = "{\"name\":\"Spotlight #3!\",\"barcode\":42,\"location\":\"Rig?\"}";
    let p = respond(dispatch(&mut store, "/new", body.len() as u64, Some(body), 1000));
    assert_eq!(p.status, 200);

    let p = respond(dispatch(&mut store, "/new", body.len() as u64, Some(body), 1002));
    assert_eq!(p.status, 409);
    assert_eq!(p.body, "Item already exists");

    // The table retains exactly the prior row.
    let p = respond(dispatch(&mut store, "/item/42", 0, None, 1003));
    assert_eq!(
        p.body,
        "{\"name\":\"Spotlight 3\",\"barcode\":42,\"location\":\"Rig\",\"last_seen\":1000}"
    );
}

#[test]
fn delete_then_read_is_not_found() {
    let mut store = ItemStore::new();
    let body = "{\"name\":\"a\",\"barcode\":42,\"location\":\"b\"}";
    respond(dispatch(&mut store, "/new", body.len() as u64, Some(body), 1));

    let p = respond(dispatch(&mut store, "/delete/42", 0, None, 2));
    assert_eq!(p.status, 200);
    assert_eq!(p.body, "OK");

    let p = respond(dispatch(&mut store, "/item/42", 0, None, 3));
    assert_eq!(p.status, 404);
    assert_eq!(p.body, "Item not found");
}

#[test]
fn logging_updates_only_the_timestamp() {
    let mut store = ItemStore::new();

    let p = respond(dispatch(&mut store, "/log/42", 0, None, 5));
    assert_eq!(p.status, 404);

    let body = "{\"name\":\"lamp\",\"barcode\":42,\"location\":\"shelf\"}";
    respond(dispatch(&mut store, "/new", body.len() as u64, Some(body), 10));

    let p = respond(dispatch(&mut store, "/log/42", 0, None, 2000));
    assert_eq!(p.status, 200);
    assert_eq!(p.body, "OK");

    let p = respond(dispatch(&mut store, "/item/42", 0, None, 2001));
    assert_eq!(
        p.body,
        "{\"name\":\"lamp\",\"barcode\":42,\"location\":\"shelf\",\"last_seen\":2000}"
    );
}

#[test]
fn oversized_body_is_refused_before_parsing() {
    let mut store = ItemStore::new();
    // A well-formed body: the declared size alone must refuse it.
    let body = "{\"name\":\"a\",\"barcode\":1,\"location\":\"b\"}";
    let p = new_item(&mut store, 65537, Some(body), 1);
    assert_eq!(p.status, 413);
    assert_eq!(p.body, "Body too big");
    assert_eq!(store.len(), 0);

    // Garbage of the same declared size is refused identically.
    let p = new_item(&mut store, 65537, Some("not json at all"), 1);
    assert_eq!(p.status, 413);
    assert_eq!(p.body, "Body too big");
    assert_eq!(store.len(), 0);

    // At the cap itself the body is read and parsed.
    let p = new_item(&mut store, 65536, Some(body), 1);
    assert_eq!(p.status, 200);
}

#[test]
fn malformed_body_is_bad_request() {
    let mut store = ItemStore::new();
    let p = respond(dispatch(&mut store, "/new", 10, Some("{nope"), 1));
    assert_eq!(p.status, 400);
    assert_eq!(p.body, "Invalid JSON");
    // Bytes that did not decode as text are refused the same way.
    let p = respond(dispatch(&mut store, "/modify", 10, None, 1));
    assert_eq!(p.status, 400);
    assert_eq!(p.body, "Invalid JSON");
}

#[test]
fn bad_path_barcode_is_bad_request() {
    let mut store = ItemStore::new();
    let p = respond(dispatch(&mut store, "/item/notanumber", 0, None, 1));
    assert_eq!(p.status, 400);
    assert_eq!(p.body, "Invalid barcode");
    let p = respond(dispatch(&mut store, "/delete/notanumber", 0, None, 1));
    assert_eq!(p.status, 400);
    let p = respond(dispatch(&mut store, "/log/", 0, None, 1));
    assert_eq!(p.status, 400);
}

#[test]
fn modify_missing_is_not_found_and_inserts_nothing() {
    let mut store = ItemStore::new();
    let body = "{\"name\":\"a\",\"barcode\":9,\"location\":\"b\"}";
    let p = respond(dispatch(&mut store, "/modify", body.len() as u64, Some(body), 1));
    assert_eq!(p.status, 404);
    assert_eq!(p.body, "Item not found");
    assert_eq!(store.len(), 0);
}

#[test]
fn all_items_lists_sanitized_rows_in_order() {
    let mut store = ItemStore::new();
    let p = respond(dispatch(&mut store, "/all", 0, None, 1));
    assert_eq!(p.status, 200);
    assert_eq!(p.body, "[]");

    let one = "{\"name\":\"a!\",\"barcode\":1,\"location\":\"p\"}";
    let two = "{\"name\":\"b\",\"barcode\":2,\"location\":\"q#\"}";
    respond(dispatch(&mut store, "/new", one.len() as u64, Some(one), 10));
    respond(dispatch(&mut store, "/new", two.len() as u64, Some(two), 20));

    let p = respond(dispatch(&mut store, "/all", 0, None, 30));
    assert_eq!(p.status, 200);
    assert_eq!(
        p.body,
        "[{\"name\":\"a\",\"barcode\":1,\"location\":\"p\",\"last_seen\":10},{\"name\":\"b\",\"barcode\":2,\"location\":\"q\",\"last_seen\":20}]"
    );
}

#[test]
fn unknown_path_is_not_found() {
    let mut store = ItemStore::new();
    let p = respond(dispatch(&mut store, "/elsewhere", 0, None, 1));
    assert_eq!(p.status, 404);
    assert_eq!(p.body, "Not found");
}

#[test]
fn asset_routes_hand_back_serve_actions() {
    let mut store = ItemStore::new();
    match dispatch(&mut store, "/", 0, None, 1) {
        Action::ServeAsset { target, mime } => {
            assert_eq!(target, "/index.html");
            assert_eq!(mime, Mime::Html);
        }
        _ => panic!("expected an asset action"),
    }
    match dispatch(&mut store, "/style.css", 0, None, 1) {
        Action::ServeAsset { target, mime } => {
            assert_eq!(target, "/style.css");
            assert_eq!(mime, Mime::Css);
        }
        _ => panic!("expected an asset action"),
    }
    match dispatch(&mut store, "/favicon.ico", 0, None, 1) {
        Action::ServeAsset { target, mime } => {
            assert_eq!(target, "/favicon.ico");
            assert_eq!(mime, Mime::Icon);
        }
        _ => panic!("expected an asset action"),
    }
    match dispatch(&mut store, "/get_database", 0, None, 1) {
        Action::ServeDatabase => {}
        _ => panic!("expected the database action"),
    }
}

#[test]
fn legacy_rows_are_sanitized_on_read() {
    let mut store = ItemStore::new();
    // A row stored before sanitization existed, written through the
    // storage layer directly.
    let legacy = Item {
        name: "dusty *old* lamp".to_string(),
        barcode: 70,
        location: "attic (north)".to_string(),
        last_seen: Some(9),
    };
    legacy.save(&mut store).unwrap();

    let p = respond(dispatch(&mut store, "/item/70", 0, None, 10));
    assert_eq!(
        p.body,
        "{\"name\":\"dusty old lamp\",\"barcode\":70,\"location\":\"attic north\",\"last_seen\":9}"
    );
}
