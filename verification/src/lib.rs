//! Reference-data model for the FIX financial-messaging protocol.
//!
//! A vendor-style schema document (fields, components, messages, header,
//! trailer) is normalized into an immutable [`dict::Dictionary`] that callers
//! query for message layouts, field tags, datatypes, and enumerated value
//! sets.

pub mod assemble;
pub mod builder;
pub mod dict;
pub mod errors;
pub mod export;
pub mod import;
pub mod laws;
pub mod raw;
pub mod topo;
pub mod types;
pub mod util;
