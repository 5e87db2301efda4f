//! Framing of addressed, attributed messages for a byte-stream transport.
//!
//! An [`envelope::AddressedAttributedMessage`] carries an opaque payload
//! together with a routing address and an [`attributes::MessageAttributes`]
//! block of provenance metadata. The whole message is encoded as a flat byte
//! sequence: the address, the attribute block and the payload are separated
//! by `$` bytes, and the five attribute fields inside the block are separated
//! by `|` bytes. Only the first two `$` bytes are structurally significant,
//! so the payload may contain arbitrary bytes, delimiters included.

pub mod attributes;
pub mod delimited;
pub mod envelope;
pub mod render;

pub use attributes::MessageAttributes;
pub use envelope::AddressedAttributedMessage;
pub use envelope::FrameError;
