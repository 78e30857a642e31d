//! A hexadecimal codec: an encoder that writes each byte as its canonical
//! two-digit uppercase hex form, and a decoder that reads hex characters back
//! into bytes, skipping whitespace, optionally skipping other non-hex
//! characters, and reporting an unpaired trailing digit.

pub mod codec;
pub mod model;

pub use codec::DecodeError;
pub use codec::decode;
pub use codec::encode;
pub use codec::pair_to_hex;
pub use codec::to_hex_value;
