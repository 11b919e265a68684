//! Parser for the bracketed structured-data field of syslog messages.
//!
//! The field looks like `[id@32473 key="value" key2="value2"][id2 k="v"]`.
//! Two compatibility profiles are offered: a strict one, where only
//! well-formed bracket groups with at least one parameter are accepted,
//! and a lenient one, where bracketed text that merely resembles
//! structured data is consumed and dropped instead of failing the parse.
//! Parameter values are stored raw (escape sequences untouched); escape
//! decoding happens lazily, on demand.

pub mod decode;
pub mod element;
pub mod grammar;
pub mod laws;
pub mod parser;
