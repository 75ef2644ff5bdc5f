//! A verified codec for a STUN-style binary message format: a 20-byte
//! header with an interleaved method/class type field, a magic cookie and a
//! 12-byte transaction id, followed by 4-byte-aligned type-length-value
//! attribute records.  The codec encodes a structured [`message::Message`]
//! into its wire bytes, decodes wire bytes back, and recovers the transport
//! address hidden in an XOR-mapped-address attribute.

pub mod attribute;
pub mod error;
pub mod error_code;
pub mod integrity;
pub mod message;
pub mod xor_addr;
