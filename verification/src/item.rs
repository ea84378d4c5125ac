//! The item record: a barcoded physical object with a free-text name and
//! location and an optional last-seen timestamp.

use vstd::prelude::*;
use crate::text::sanitized;

verus! {

/// The mathematical content of an item record.
#[verifier::ext_equal]
pub struct ItemModel {
    pub name: Seq<char>,
    pub barcode: u64,
    pub location: Seq<char>,
    pub last_seen: Option<u64>,
}

/// An item record as stored and served.  `barcode` identifies the item;
/// `last_seen` is a Unix timestamp in seconds.
#[derive(Debug, Clone)]
pub struct Item {
    pub name: String,
    pub barcode: u64,
    pub location: String,
    pub last_seen: Option<u64>,
}

impl View for Item {
    type V = ItemModel;

    open spec fn view(&self) -> ItemModel {
        ItemModel {
            name: self.name@,
            barcode: self.barcode,
            location: self.location@,
            last_seen: self.last_seen,
        }
    }
}

/// The model with its text fields sanitized; barcode and timestamp are
/// never touched by sanitization.
pub open spec fn sanitized_model(m: ItemModel) -> ItemModel {
    ItemModel { name: sanitized(m.name), location: sanitized(m.location), ..m }
}

impl Item {
    /// A fresh record, last seen now.
    pub fn new(name: String, barcode: u64, location: String) -> (r: Self)
        ensures
            r@.name == name@,
            r@.barcode == barcode,
            r@.location == location@,
            r@.last_seen is Some,
    {
        Item { name, barcode, location, last_seen: Some(crate::clock::now_ts()) }
    }

    /// Strip every character that is not an ASCII letter, digit or
    /// whitespace from the text fields.
    pub fn sanitize(&mut self)
        ensures
            final(self)@ == sanitized_model(old(self)@),
    {
        let clean_name = crate::text::sanitize(self.name.as_str());
        self.name = clean_name;
        let clean_location = crate::text::sanitize(self.location.as_str());
        self.location = clean_location;
    }

    /// A fresh record with the same content.
    pub fn duplicate(&self) -> (r: Item)
        ensures
            r@ == self@,
    {
        Item {
            name: self.name.clone(),
            barcode: self.barcode,
            location: self.location.clone(),
            last_seen: self.last_seen,
        }
    }
}

} // verus!
