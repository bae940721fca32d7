//! The intermediate MTProto transport.
//!
//! A one-time four-byte tag announces the scheme, then every frame is the
//! payload behind an explicit four-byte little-endian length.  A negative
//! length carries a server-reported status code instead of a frame.

use vstd::prelude::*;
use vstd::bytes::{spec_u32_from_le_bytes, spec_u32_to_le_bytes, u32_to_le_bytes};

use crate::buffer::DequeBuffer;
use super::wire::{as_signed, to_signed, read_u32_le};
use super::{Error, Tagged, Transport, UnpackedOffset};

verus! {

/// The four-byte marker of this scheme, distinct from the abridged one.
pub open spec fn intermediate_tag() -> Seq<u8> {
    seq![0xeeu8, 0xeeu8, 0xeeu8, 0xeeu8]
}

/// The exact bytes of one intermediate frame around `data`: the tag first
/// if it has not been sent yet, then the length, then the payload.
pub open spec fn intermediate_packed(tag_sent: bool, data: Seq<u8>) -> Seq<u8> {
    if tag_sent {
        spec_u32_to_le_bytes(data.len() as u32) + data
    } else {
        intermediate_tag() + spec_u32_to_le_bytes(data.len() as u32) + data
    }
}

/// The exact outcome of reading one intermediate frame at the start of
/// `data`.
pub open spec fn intermediate_unpack(data: Seq<u8>) -> Result<UnpackedOffset, Error> {
    if data.len() < 4 {
        Err(Error::MissingBytes)
    } else {
        let word = spec_u32_from_le_bytes(data.subrange(0, 4));
        if word >= 0x80000000 {
            Err(Error::Status(as_signed(word)))
        } else if data.len() < 4 + word {
            Err(Error::MissingBytes)
        } else {
            Ok(
                (UnpackedOffset {
                    data_range: (4usize as usize)..((4 + word) as usize),
                    next_offset: (4 + word) as usize,
                }),
            )
        }
    }
}

/// A connection's intermediate framing scheme.  Its only state is whether
/// the one-time tag still has to go out ahead of the next frame.
pub struct Intermediate {
    /// Whether the scheme's tag has already been emitted or handed out.
    pub tag_sent: bool,
}

impl Intermediate {
    /// Creates a new instance of the transport; the tag has not been sent.
    pub fn new() -> (r: Intermediate)
        ensures
            r == (Intermediate { tag_sent: false }),
    {
        Intermediate { tag_sent: false }
    }
}

impl Transport for Intermediate {
    open spec fn wf(self) -> bool {
        true
    }

    open spec fn pack_pre(self, data: Seq<u8>) -> bool {
        data.len() % 4 == 0 && data.len() < 0x80000000
    }

    open spec fn packed(self, data: Seq<u8>) -> Seq<u8> {
        intermediate_packed(self.tag_sent, data)
    }

    open spec fn after_pack(self, data: Seq<u8>) -> Intermediate {
        Intermediate { tag_sent: true }
    }

    open spec fn unpack_pre(self, data: Seq<u8>) -> bool {
        true
    }

    open spec fn unpack_result(self, data: Seq<u8>) -> Result<UnpackedOffset, Error> {
        intermediate_unpack(data)
    }

    open spec fn unpacked_buf(self, data: Seq<u8>) -> Seq<u8> {
        data
    }

    open spec fn after_unpack(self, data: Seq<u8>) -> Intermediate {
        self
    }

    fn pack(&mut self, buffer: &mut DequeBuffer) {
        let len = buffer.len();
        let head = u32_to_le_bytes(len as u32);
        buffer.extend_front(head.as_slice());
        if !self.tag_sent {
            let mut tag: Vec<u8> = Vec::new();
            tag.push(0xee);
            tag.push(0xee);
            tag.push(0xee);
            tag.push(0xee);
            buffer.extend_front(tag.as_slice());
            self.tag_sent = true;
            proof {
                assert(tag@ =~= intermediate_tag());
                assert(buffer@ == intermediate_packed(old(self).tag_sent, old(buffer)@));
            }
        }
    }

    fn unpack(&mut self, buffer: &mut DequeBuffer) -> (r: Result<UnpackedOffset, Error>) {
        let n = buffer.len();
        if n < 4 {
            return Err(Error::MissingBytes);
        }
        let word = read_u32_le(buffer, 0);
        if word >= 0x80000000 {
            return Err(Error::Status(to_signed(word)));
        }
        let plen = word as usize;
        if n < 4 + plen {
            return Err(Error::MissingBytes);
        }
        Ok(UnpackedOffset { data_range: 4..(4 + plen), next_offset: 4 + plen })
    }
}

/// Framing and unframing are inverse: reading one intermediate frame
/// built around `data` (the tag already sent) yields exactly the range
/// holding `data` and consumes exactly the packed length.
pub proof fn lemma_intermediate_roundtrip(data: Seq<u8>)
    requires
        data.len() % 4 == 0,
        data.len() < 0x1000000,
    ensures
        ({
            let framed = intermediate_packed(true, data);
            match intermediate_unpack(framed) {
                Ok(off) => framed.subrange(
                    off.data_range.start as int,
                    off.data_range.end as int,
                ) == data && off.next_offset == framed.len(),
                Err(_) => false,
            }
        }),
{
    let framed = intermediate_packed(true, data);
    vstd::bytes::lemma_auto_spec_u32_to_from_le_bytes();
    assert(framed.subrange(0, 4) =~= spec_u32_to_le_bytes(data.len() as u32));
    assert(framed.subrange(4, (4 + data.len()) as int) =~= data);
}

/// Any strict prefix of an intermediate frame only asks for more bytes:
/// never a fatal error, never a partial range.
pub proof fn lemma_intermediate_truncated(data: Seq<u8>, cut: int)
    requires
        data.len() % 4 == 0,
        data.len() < 0x1000000,
        0 <= cut < intermediate_packed(true, data).len(),
    ensures
        intermediate_unpack(intermediate_packed(true, data).take(cut)) == Err::<
            UnpackedOffset,
            Error,
        >(Error::MissingBytes),
{
    let framed = intermediate_packed(true, data);
    let t = framed.take(cut);
    if cut >= 4 {
        vstd::bytes::lemma_auto_spec_u32_to_from_le_bytes();
        assert(t.subrange(0, 4) =~= spec_u32_to_le_bytes(data.len() as u32));
        assert(t.len() < 4 + data.len());
    }
}

impl Tagged for Intermediate {
    open spec fn tag_spec() -> Seq<u8> {
        intermediate_tag()
    }

    open spec fn after_tag(self) -> Intermediate {
        Intermediate { tag_sent: true }
    }

    fn init_tag(&mut self) -> (r: [u8; 4]) {
        self.tag_sent = true;
        let r: [u8; 4] = [0xee, 0xee, 0xee, 0xee];
        proof {
            assert(r@ =~= intermediate_tag());
        }
        r
    }
}

} // verus!
