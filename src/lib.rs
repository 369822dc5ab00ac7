//! Server side of a length-framed game protocol: the variable-length integer
//! codec, primitive field codecs, packet framing with optional zlib
//! compression, packet identity checks and the connection phase machine.

pub mod varint;
pub mod codec;
pub mod compression;
pub mod error;
pub mod packets;
pub mod phases;
pub mod session;
