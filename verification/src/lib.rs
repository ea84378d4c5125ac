//! Inventory tracking for barcoded items.
//!
//! The library holds the verified core of a small inventory service and its
//! terminal client: the item record and its sanitization rules, an in-memory
//! model of the items table with unique barcodes, the JSON wire format for
//! item records, the HTTP route table and handlers, and the client's command
//! parsing.  Network and file plumbing around it lives outside the library.

pub mod clock;
pub mod client;
pub mod item;
pub mod laws;
pub mod numbers;
pub mod routes;
pub mod service;
pub mod store;
pub mod text;
pub mod wire;
