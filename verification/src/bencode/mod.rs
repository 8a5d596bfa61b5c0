//! The bencode codec: four kinds of value, a decoder that reports how many
//! bytes it consumed, and an encoder whose output is canonical.

pub mod canonical;
pub mod decoder;
pub mod encoder;
pub mod laws;
pub mod model;
pub mod order;
pub mod value;

pub use decoder::{decode, decode_prefix, decode_with_span};
pub use encoder::encode;
pub use value::{BencodeDict, BencodeValue};
