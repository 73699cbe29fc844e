//! A control panel for a device on a serial line.
//!
//! The panel (`panel`) shows what the device reports and turns what the user does into requests
//! to the link (`link`), which says step by step what to do with the port. Between the link and
//! the device go frames (`frame`, `stream`) with a checksum (`crc`). What holds of all of it
//! together stands in `laws`.
pub mod crc;
pub mod frame;
pub mod frequency;
pub mod laws;
pub mod link;
pub mod message;
pub mod panel;
pub mod stream;
pub mod text;
