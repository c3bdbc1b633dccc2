//! HTML escaping with verified scanners.
//!
//! The five characters `"`, `&`, `'`, `<` and `>` are replaced by their
//! entities; every other byte is copied as it is. `model` says what the
//! escaped form of an input is, `naive` holds the reference scanner, and
//! `fallback` and `vector` hold the faster ones, each proved to append
//! exactly what the reference scanner appends. `dispatch` chooses among them
//! and lets the host put a scanner of its own in their place.

pub mod buffer;
pub mod dispatch;
pub mod encoding;
pub mod fallback;
pub mod model;
pub mod naive;
pub mod table;
pub mod vector;

pub use buffer::Buffer;
pub use dispatch::{
    escape, escape_to_buf, escape_to_string, register_escape_fn, select_tier, Capabilities,
    DispatchSlot, Scanner, Tier,
};
