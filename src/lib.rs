//! Canonical data model for events observed on Ethereum: a fixed-width
//! 256-bit integer, Ethereum addresses with their textual forms, the event
//! union with its payload records, and the byte encoding and digest that
//! independent observers compute identically.

pub mod uint;
pub mod address;
pub mod encoding;
pub mod events;
