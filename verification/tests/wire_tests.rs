use barcode::item::Item;
use barcode::text::{cap_at_n, sanitize};
use barcode::wire::{item_json, items_json, parse_item_str, parse_items_str, request_json};

fn plain_item(body: &str) -> Item {
    parse_item_str(body).expect("body should parse")
}

#[test]
fn parses_plain_object() {
    let it = plain_item("{\"name\":\"lamp\",\"barcode\":42,\"location\":\"shelf\",\"last_seen\":123}");
    assert_eq!(it.name, "lamp");
    assert_eq!(it.barcode, 42);
    assert_eq!(it.location, "shelf");
    assert_eq!(it.last_seen, Some(123));
}

#[test]
fn parses_any_member_order_and_whitespace() {
    let it = plain_item(
        " { \"location\" : \"shelf\" ,\n\t\"barcode\" : 7 , \"name\" : \"lamp\" } ",
    );
    assert_eq!(it.name, "lamp");
    assert_eq!(it.barcode, 7);
    assert_eq!(it.location, "shelf");
    assert_eq!(it.last_seen, None);
}

#[test]
fn parses_barcode_given_as_numeric_string() {
    let it = plain_item("{\"name\":\"a\",\"barcode\":\"42\",\"location\":\"b\"}");
    assert_eq!(it.barcode, 42);
}

#[test]
fn parses_null_last_seen_as_never_sighted() {
    let it = plain_item("{\"name\":\"a\",\"barcode\":1,\"location\":\"b\",\"last_seen\":null}");
    assert_eq!(it.last_seen, None);
}

#[test]
fn decodes_string_escapes() {
    let it = plain_item("{\"name\":\"a\\nb\\t\\\"c\\\\\",\"barcode\":1,\"location\":\"x\\/y\"}");
    assert_eq!(it.name, "a\nb\t\"c\\");
    assert_eq!(it.location, "x/y");
}

#[test]
fn refuses_malformed_documents() {
    // Not an object.
    assert!(parse_item_str("42").is_none());
    assert!(parse_item_str("").is_none());
    assert!(parse_item_str("[]").is_none());
    // Missing a required member.
    assert!(parse_item_str("{\"name\":\"a\",\"barcode\":1}").is_none());
    assert!(parse_item_str("{}").is_none());
    // Duplicate member.
    assert!(
        parse_item_str("{\"name\":\"a\",\"name\":\"b\",\"barcode\":1,\"location\":\"c\"}")
            .is_none()
    );
    // Unknown member.
    assert!(
        parse_item_str("{\"name\":\"a\",\"barcode\":1,\"location\":\"b\",\"extra\":0}").is_none()
    );
    // Trailing content.
    assert!(parse_item_str("{\"name\":\"a\",\"barcode\":1,\"location\":\"b\"} x").is_none());
    // Bad numbers: leading zero, sign, overflow.
    assert!(parse_item_str("{\"name\":\"a\",\"barcode\":01,\"location\":\"b\"}").is_none());
    assert!(parse_item_str("{\"name\":\"a\",\"barcode\":-1,\"location\":\"b\"}").is_none());
    assert!(
        parse_item_str(
            "{\"name\":\"a\",\"barcode\":18446744073709551616,\"location\":\"b\"}"
        )
        .is_none()
    );
    // Unknown escape and raw control character.
    assert!(parse_item_str("{\"name\":\"a\\x\",\"barcode\":1,\"location\":\"b\"}").is_none());
    assert!(parse_item_str("{\"name\":\"a\nb\",\"barcode\":1,\"location\":\"b\"}").is_none());
}

#[test]
fn barcode_upper_bound_is_accepted() {
    let it = plain_item(
        "{\"name\":\"a\",\"barcode\":18446744073709551615,\"location\":\"b\"}",
    );
    assert_eq!(it.barcode, u64::MAX);
}

#[test]
fn serializes_exactly() {
    let it = Item {
        name: "lamp".to_string(),
        barcode: 42,
        location: "shelf".to_string(),
        last_seen: Some(123),
    };
    assert_eq!(
        item_json(&it),
        "{\"name\":\"lamp\",\"barcode\":42,\"location\":\"shelf\",\"last_seen\":123}"
    );
    let never = Item {
        name: "x".to_string(),
        barcode: 0,
        location: "y".to_string(),
        last_seen: None,
    };
    assert_eq!(
        item_json(&never),
        "{\"name\":\"x\",\"barcode\":0,\"location\":\"y\",\"last_seen\":null}"
    );
}

#[test]
fn serializes_escapes() {
    let it = Item {
        name: "a\nb\"c\\".to_string(),
        barcode: 1,
        location: "t\tu".to_string(),
        last_seen: None,
    };
    let s = item_json(&it);
    assert_eq!(
        s,
        "{\"name\":\"a\\nb\\\"c\\\\\",\"barcode\":1,\"location\":\"t\\tu\",\"last_seen\":null}"
    );
}

#[test]
fn serializes_arrays_in_table_order() {
    let a = Item {
        name: "a".to_string(),
        barcode: 1,
        location: "p".to_string(),
        last_seen: Some(5),
    };
    let b = Item {
        name: "b".to_string(),
        barcode: 2,
        location: "q".to_string(),
        last_seen: None,
    };
    assert_eq!(items_json(&vec![]), "[]");
    assert_eq!(
        items_json(&vec![a, b]),
        "[{\"name\":\"a\",\"barcode\":1,\"location\":\"p\",\"last_seen\":5},{\"name\":\"b\",\"barcode\":2,\"location\":\"q\",\"last_seen\":null}]"
    );
}

#[test]
fn parses_arrays_of_items() {
    assert_eq!(parse_items_str("[]").unwrap().len(), 0);
    assert_eq!(parse_items_str(" [ ] ").unwrap().len(), 0);
    let items = parse_items_str(
        "[{\"name\":\"a\",\"barcode\":1,\"location\":\"p\",\"last_seen\":5},\n {\"name\":\"b\",\"barcode\":2,\"location\":\"q\",\"last_seen\":null}]",
    )
    .unwrap();
    assert_eq!(items.len(), 2);
    assert_eq!(items[0].name, "a");
    assert_eq!(items[0].barcode, 1);
    assert_eq!(items[0].last_seen, Some(5));
    assert_eq!(items[1].name, "b");
    assert_eq!(items[1].last_seen, None);
    // Malformed arrays are refused.
    assert!(parse_items_str("[,]").is_none());
    assert!(parse_items_str("[{\"name\":\"a\",\"barcode\":1,\"location\":\"p\"}").is_none());
    assert!(parse_items_str("[] trailing").is_none());
    assert!(parse_items_str("[{\"name\":\"a\",\"barcode\":1,\"location\":\"p\"},]").is_none());
}

#[test]
fn array_round_trips_through_own_parser() {
    let a = Item {
        name: "a 1".to_string(),
        barcode: 1,
        location: "p".to_string(),
        last_seen: Some(5),
    };
    let b = Item {
        name: "b 2".to_string(),
        barcode: 2,
        location: "q".to_string(),
        last_seen: None,
    };
    let doc = items_json(&vec![a, b]);
    let back = parse_items_str(&doc).unwrap();
    assert_eq!(back.len(), 2);
    assert_eq!(back[0].name, "a 1");
    assert_eq!(back[0].last_seen, Some(5));
    assert_eq!(back[1].name, "b 2");
    assert_eq!(back[1].last_seen, None);
}

#[test]
fn round_trips_through_own_parser() {
    let it = Item {
        name: "flood light 12".to_string(),
        barcode: 987,
        location: "rig left".to_string(),
        last_seen: Some(4444),
    };
    let back = parse_item_str(&item_json(&it)).unwrap();
    assert_eq!(back.name, it.name);
    assert_eq!(back.barcode, it.barcode);
    assert_eq!(back.location, it.location);
    assert_eq!(back.last_seen, it.last_seen);
}

#[test]
fn serialized_item_agrees_with_serde_json() {
    let it = Item {
        name: "spot\t1".to_string(),
        barcode: 42,
        location: "rig".to_string(),
        last_seen: Some(777),
    };
    let v: serde_json::Value = serde_json::from_str(&item_json(&it)).unwrap();
    assert_eq!(v["name"].as_str(), Some("spot\t1"));
    assert_eq!(v["barcode"].as_u64(), Some(42));
    assert_eq!(v["location"].as_str(), Some("rig"));
    assert_eq!(v["last_seen"].as_u64(), Some(777));
}

#[test]
fn parser_accepts_serde_json_output() {
    let mut obj = serde_json::Map::new();
    obj.insert(
        "name".to_string(),
        serde_json::Value::String("mirror ball".to_string()),
    );
    obj.insert("barcode".to_string(), serde_json::Value::from(31u64));
    obj.insert(
        "location".to_string(),
        serde_json::Value::String("ceiling".to_string()),
    );
    obj.insert("last_seen".to_string(), serde_json::Value::from(99u64));
    let body = serde_json::to_string(&serde_json::Value::Object(obj)).unwrap();
    let it = parse_item_str(&body).unwrap();
    assert_eq!(it.name, "mirror ball");
    assert_eq!(it.barcode, 31);
    assert_eq!(it.location, "ceiling");
    assert_eq!(it.last_seen, Some(99));
}

#[test]
fn request_body_has_no_last_seen_member() {
    let body = request_json("lamp", 8, "shelf");
    assert_eq!(body, "{\"name\":\"lamp\",\"barcode\":8,\"location\":\"shelf\"}");
    // The service accepts it, reading the absent timestamp as never seen.
    let it = parse_item_str(&body).unwrap();
    assert_eq!(it.last_seen, None);
}

#[test]
fn sanitize_strips_to_alphanumeric_and_whitespace() {
    assert_eq!(sanitize("Spotlight #3!"), "Spotlight 3");
    assert_eq!(sanitize("Rig?"), "Rig");
    assert_eq!(sanitize("a-b_c.d"), "abcd");
    assert_eq!(sanitize("tabs\tand\nlines"), "tabs\tand\nlines");
    assert_eq!(sanitize("héllo"), "hllo");
    assert_eq!(sanitize(""), "");
}

#[test]
fn cap_at_n_truncates_with_ellipsis() {
    assert_eq!(cap_at_n(5, "abcdefgh"), "abcde...");
    assert_eq!(cap_at_n(5, "abcde"), "abcde");
    assert_eq!(cap_at_n(0, ""), "");
    // Counting is by character, so a multi-byte character is kept whole.
    assert_eq!(cap_at_n(2, "h\u{e9}llo"), "h\u{e9}...");
}
