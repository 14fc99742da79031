//! IEC 61850 building blocks with machine-checked contracts.

pub mod asn1;
pub mod client;
pub mod ethernet;
pub mod goose;
pub mod mms;
pub mod model;
pub mod notation;
pub mod octets;
pub mod text;
pub mod time;
pub mod tools;
pub mod ui;
