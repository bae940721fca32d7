//! The several MTProto transports.
//!
//! This layer takes serialized messages and packs them in a framed format
//! that can be sent over a byte stream, and locates and validates framed
//! messages inside a buffer of accumulated incoming bytes.

use vstd::prelude::*;

use crate::buffer::DequeBuffer;

mod abridged;
mod error;
mod full;
mod intermediate;
mod obfuscated;
mod wire;

pub use abridged::Abridged;
pub use error::Error;
pub use full::Full;
pub use intermediate::Intermediate;
pub use obfuscated::Obfuscated;

verus! {

/// Relies on the derived `Clone` of `core::ops::Range`, which vstd leaves
/// unspecified; nothing is claimed of the copy.
pub assume_specification<Idx: Clone>[ <core::ops::Range<Idx> as Clone>::clone ](
    r: &core::ops::Range<Idx>,
) -> core::ops::Range<Idx>;

/// Result from a successful call to [`Transport::unpack`].
#[derive(Clone, Debug, PartialEq)]
pub struct UnpackedOffset {
    /// Range of the inner data contained within the unpacked transport message.
    pub data_range: core::ops::Range<usize>,
    /// Offset where the next transport message will start within the buffer.
    pub next_offset: usize,
}

/// The common contract of the four framing schemes.
///
/// Each implementation describes itself with spec functions: `packed` gives
/// the exact bytes `pack` leaves in the buffer, `unpack_result` the exact
/// outcome of `unpack`, and `after_pack` / `after_unpack` the state of the
/// transport afterwards, so callers can reason about whole exchanges.
pub trait Transport: Sized {
    /// Well-formedness of the transport's own state.
    spec fn wf(self) -> bool;

    /// Inputs `pack` accepts: at least, a payload whose length is a
    /// multiple of four and small enough for the scheme's length field.
    spec fn pack_pre(self, data: Seq<u8>) -> bool;

    /// The exact framed bytes that `pack` leaves in the buffer.
    spec fn packed(self, data: Seq<u8>) -> Seq<u8>;

    /// The transport state after `pack`.
    spec fn after_pack(self, data: Seq<u8>) -> Self;

    /// What `unpack` may be called on; `true` for the plain transports.
    spec fn unpack_pre(self, data: Seq<u8>) -> bool;

    /// The exact outcome of `unpack` on a buffer holding `data`.
    spec fn unpack_result(self, data: Seq<u8>) -> Result<UnpackedOffset, Error>;

    /// The buffer contents after `unpack`; only the obfuscated transport
    /// rewrites bytes (it deciphers them in place).
    spec fn unpacked_buf(self, data: Seq<u8>) -> Seq<u8>;

    /// The transport state after `unpack`.
    spec fn after_unpack(self, data: Seq<u8>) -> Self;

    /// Frames the current full contents of the buffer as one outgoing
    /// message, mutating the buffer in place.
    fn pack(&mut self, buffer: &mut DequeBuffer)
        requires
            old(self).wf(),
            old(self).pack_pre(old(buffer)@),
        ensures
            (*final(self)).wf(),
            final(buffer)@ == old(self).packed(old(buffer)@),
            *final(self) == old(self).after_pack(old(buffer)@),
    ;

    /// Inspects the buffer starting at offset 0 and either reports that the
    /// full frame has not arrived yet (`Err(Error::MissingBytes)`), returns
    /// the validated offsets of one message, or reports a fatal error.
    ///
    /// Subsequent calls must be made with the same buffer, with the bytes
    /// `[0, next_offset)` of a previous success removed.
    fn unpack(&mut self, buffer: &mut DequeBuffer) -> (r: Result<UnpackedOffset, Error>)
        requires
            old(self).wf(),
            old(self).unpack_pre(old(buffer)@),
        ensures
            (*final(self)).wf(),
            r == old(self).unpack_result(old(buffer)@),
            final(buffer)@ == old(self).unpacked_buf(old(buffer)@),
            *final(self) == old(self).after_unpack(old(buffer)@),
            (match r {
                Ok(off) => off.data_range.start <= off.data_range.end
                    && off.data_range.end <= off.next_offset
                    && off.next_offset <= final(buffer)@.len(),
                Err(_) => true,
            }),
    ;
}

/// The capability of transports that announce their framing scheme with a
/// fixed four-byte marker sent once at connection start.
pub trait Tagged: Transport {
    /// The marker's bytes.
    spec fn tag_spec() -> Seq<u8>;

    /// The transport state once the tag has been handed out.
    spec fn after_tag(self) -> Self;

    /// Gets the transport tag for use in the obfuscated transport and
    /// changes the internal state to avoid sending the tag again.
    ///
    /// Must be called at most once per connection, before any `pack` or
    /// `unpack` call.
    fn init_tag(&mut self) -> (r: [u8; 4])
        requires
            old(self).wf(),
        ensures
            (*final(self)).wf(),
            r@ == Self::tag_spec(),
            *final(self) == old(self).after_tag(),
    ;
}

} // verus!
