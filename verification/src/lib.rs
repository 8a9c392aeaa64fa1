//! Hiding byte payloads in the chunk structure of PNG-formatted files.
//!
//! The crate models the PNG chunk wire format (length-prefixed, type-tagged,
//! CRC-checked records), an ordered chunk container with parse / mutate /
//! serialize operations, and a fixed-alphabet additive stream cipher used to
//! obscure a message before it is embedded.

pub mod chunk;
pub mod chunk_type;
pub mod crypt;
pub mod png;
pub mod text;
pub mod wire;
