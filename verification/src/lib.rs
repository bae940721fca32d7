//! Transport framing for the MTProto binary RPC protocol.
//!
//! The crate turns a stream of raw bytes exchanged over a socket into
//! discrete application messages and back, under four interchangeable
//! framing schemes: abridged, intermediate, full (with sequence numbers
//! and CRC32 integrity checks) and obfuscated (a stream-cipher wrapper
//! around any of the others).  It also holds the authorization-key
//! identity derivation and small hexadecimal helpers used around it.

pub mod auth_key;
pub mod buffer;
pub mod ctr;
pub mod hex;
pub mod transport;

pub use auth_key::AuthKey;
pub use buffer::DequeBuffer;
