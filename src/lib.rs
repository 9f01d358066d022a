//! A small paste service core: short random identifiers, and the rules that
//! bind them to payloads held by a key-value backend.

pub mod memory;
pub mod paste_id;
pub mod service;
pub mod store;
