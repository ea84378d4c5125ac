use barcode::item::Item;
use barcode::store::{delete_item, load_item, load_items, modify_item, ItemStore, StoreError};

#[test]
fn test_item() {
    let mut store = ItemStore::new();

    let item = Item::new("item".to_string(), 42, "location".to_string());
    item.save(&mut store).unwrap();
    let loaded_item = load_item(&store, 42).unwrap();
    assert_eq!(item.name, loaded_item.name);
    assert_eq!(item.barcode, loaded_item.barcode);
    assert_eq!(item.location, loaded_item.location);
    assert_eq!(item.last_seen, loaded_item.last_seen);
}

#[test]
fn test_new_and_load() {
    let mut store = ItemStore::new();

    let item = Item::new("item".to_string(), 43, "location".to_string());
    item.save(&mut store).unwrap();
    let checked_item = load_item(&store, 43).unwrap();
    assert_eq!(item.name, checked_item.name);
    assert_eq!(item.barcode, checked_item.barcode);
    assert_eq!(item.location, checked_item.location);
    assert_eq!(item.last_seen, checked_item.last_seen);
}

#[test]
fn test_delete() {
    let mut store = ItemStore::new();

    let item = Item::new("item".to_string(), 44, "location".to_string());
    item.save(&mut store).unwrap();
    let items_initial_len = load_items(&store).unwrap().len();
    delete_item(&mut store, 44).unwrap();
    let items = load_items(&store).unwrap();
    assert_eq!(items.len(), items_initial_len - 1);
}

#[test]
fn duplicate_barcode_is_conflict_and_keeps_prior_row() {
    let mut store = ItemStore::new();
    let first = Item {
        name: "lamp".to_string(),
        barcode: 7,
        location: "shelf".to_string(),
        last_seen: Some(100),
    };
    first.save(&mut store).unwrap();

    let second = Item {
        name: "other".to_string(),
        barcode: 7,
        location: "elsewhere".to_string(),
        last_seen: Some(200),
    };
    assert_eq!(second.save(&mut store), Err(StoreError::Conflict));

    let rows = load_items(&store).unwrap();
    assert_eq!(rows.len(), 1);
    assert_eq!(rows[0].name, "lamp");
    assert_eq!(rows[0].location, "shelf");
    assert_eq!(rows[0].last_seen, Some(100));
}

#[test]
fn loading_missing_barcode_is_not_found() {
    let store = ItemStore::new();
    match load_item(&store, 999) {
        Err(StoreError::NotFound) => {}
        other => panic!("expected NotFound, got {:?}", other),
    }
}

#[test]
fn deleting_twice_second_is_not_found() {
    let mut store = ItemStore::new();
    let item = Item {
        name: "a".to_string(),
        barcode: 5,
        location: "b".to_string(),
        last_seen: Some(1),
    };
    item.save(&mut store).unwrap();
    assert_eq!(delete_item(&mut store, 5), Ok(()));
    assert_eq!(delete_item(&mut store, 5), Err(StoreError::NotFound));
}

#[test]
fn modifying_missing_barcode_inserts_nothing() {
    let mut store = ItemStore::new();
    let item = Item {
        name: "ghost".to_string(),
        barcode: 11,
        location: "nowhere".to_string(),
        last_seen: Some(1),
    };
    assert_eq!(modify_item(&mut store, item), Err(StoreError::NotFound));
    assert_eq!(load_items(&store).unwrap().len(), 0);
}

#[test]
fn modify_overwrites_fields_in_place() {
    let mut store = ItemStore::new();
    let item = Item {
        name: "cable".to_string(),
        barcode: 3,
        location: "bin".to_string(),
        last_seen: Some(10),
    };
    item.save(&mut store).unwrap();
    let changed = Item {
        name: "long cable".to_string(),
        barcode: 3,
        location: "drawer".to_string(),
        last_seen: Some(20),
    };
    modify_item(&mut store, changed).unwrap();
    let row = load_item(&store, 3).unwrap();
    assert_eq!(row.name, "long cable");
    assert_eq!(row.location, "drawer");
    assert_eq!(row.last_seen, Some(20));
    assert_eq!(load_items(&store).unwrap().len(), 1);
}

#[test]
fn clock_stamps_new_items() {
    let item = Item::new("x".to_string(), 1, "y".to_string());
    assert!(item.last_seen.is_some());
}
