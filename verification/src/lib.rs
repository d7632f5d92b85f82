//! Bookkeeping and decision logic of a Bluetooth Low Energy client: scan
//! filters, the registry of discovered and connected devices, notification
//! listeners, and the retry and polling policies of connecting and
//! disconnecting.

pub mod address_map;
pub mod connection;
pub mod device;
pub mod error;
pub mod filter;
pub mod models;
pub mod scanning;
pub mod uuids;
