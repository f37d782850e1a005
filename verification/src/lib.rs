//! Core of an ARP watcher: a verified resolution cache with conflict policy,
//! bit-exact ARP frame encoding and decoding, subnet enumeration for active
//! scans, classification of inbound frames, seeding from the OS resolution
//! table, and interface selection.
//!
//! Everything here works on plain values. The raw link-layer channels, the
//! alert delivery and the terminal front end live outside this crate and talk
//! to it through these types.

pub mod addr;
pub mod cache;
pub mod frame;
pub mod listener;
pub mod literal;
pub mod seed;
pub mod sender;
pub mod subnet;
pub mod text;
pub mod watcher;
