//! Erasure coding of pslices into pshreds: a payload is cut into 64 framed data
//! shards, extended to 256 shreds by a Reed-Solomon code, and recovered from any
//! 64 of them.

pub mod bytes;
pub mod cache;
pub mod codec;
pub mod error;
pub mod fec;
pub mod framing;
pub mod transport;

pub use error::{DecodeError, EncodeError};
pub use fec::{ConstellationEncoder, DATA_PSHREDS, PARITY_PSHREDS, TOTAL_PSHREDS};
