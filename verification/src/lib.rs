//! Decoder for the binary VDF serialization format: a tag-driven recursive
//! grammar over a byte buffer, producing a tree of objects, strings and
//! 32-bit integers, with lowercase-folded keys.

pub mod errors;
pub mod text;
pub mod value;
pub mod cursor;
pub mod grammar;
pub mod decode;
pub mod icons;
pub mod apps;
pub mod encoding;
pub mod laws;
