use vstd::prelude::*;

verus! {

/// The error type reported by the different transports when something is wrong.
///
/// Certain transports will only produce certain variants of this error.
///
/// `MissingBytes` is not a fatal condition: it asks the caller to retry the
/// call once more bytes have arrived.  On any other variant the connection
/// should not continue.
#[derive(Clone, Copy, Debug, PartialEq, Eq, Structural)]
pub enum Error {
    /// Not enough bytes are provided.
    MissingBytes,
    /// The length is either too short or too long to represent a valid packet.
    BadLen(i32),
    /// The sequence number received does not match the expected value.
    BadSeq { expected: i32, received: i32 },
    /// The checksum of the packet does not match its expected value.
    BadCrc { computed: u32, received: u32 },
    /// A negative length was received, indicating a transport-level error.
    /// The absolute value of this length behaves like an HTTP status code:
    ///
    /// * 404, if the authorization key used was not found, meaning that the
    ///   server is not aware of the key used by the client, so it cannot be
    ///   used to securely communicate with it.
    ///
    /// * 429, if too many transport connections are established to the same
    ///   IP address in a too-short lapse of time.
    Status(i32),
}

} // verus!
