//! The full MTProto transport.
//!
//! Frames carry a total length, a per-direction sequence number and a
//! trailing CRC32, so reordering and corruption are detected.  Two
//! counters — one for sent frames, one for received frames — start at
//! zero and advance by one per frame in their direction.

use vstd::prelude::*;
use vstd::bytes::{spec_u32_from_le_bytes, spec_u32_to_le_bytes, u32_to_le_bytes};

use crate::buffer::DequeBuffer;
use super::wire::{as_signed, to_signed, read_u32_le};
use super::{Error, Transport, UnpackedOffset};

verus! {

/// The CRC32 of a byte sequence, as the checksum field carries it.
pub uninterp spec fn crc32_of(data: Seq<u8>) -> u32;

/// Relies on `crc32fast::hash`: the IEEE CRC32 of the bytes, a function
/// of the bytes alone.
#[verifier::external_body]
fn crc32(bytes: &Vec<u8>) -> (r: u32)
    ensures
        r == crc32_of(bytes@),
{
    crc32fast::hash(bytes.as_slice())
}

/// A counter advanced by one, wrapping at the 32-bit boundary.
pub open spec fn next_seq(x: u32) -> u32 {
    if x == 0xffffffffu32 {
        0u32
    } else {
        (x + 1) as u32
    }
}

/// The exact bytes of one full frame around `data`, sent under sequence
/// number `seq`: length, sequence number, payload, then the CRC32 of the
/// three fields before it.
pub open spec fn full_packed(data: Seq<u8>, seq: u32) -> Seq<u8> {
    let body = spec_u32_to_le_bytes((data.len() + 12) as u32) + spec_u32_to_le_bytes(seq) + data;
    body + spec_u32_to_le_bytes(crc32_of(body))
}

/// The exact outcome of reading one full frame at the start of `data`
/// when the next received frame is owed sequence number `expected`.
pub open spec fn full_unpack(data: Seq<u8>, expected: u32) -> Result<UnpackedOffset, Error> {
    if data.len() < 4 {
        Err(Error::MissingBytes)
    } else {
        let word = spec_u32_from_le_bytes(data.subrange(0, 4));
        if as_signed(word) < 12 {
            Err(Error::BadLen(as_signed(word)))
        } else if data.len() < word {
            Err(Error::MissingBytes)
        } else {
            let seq_word = spec_u32_from_le_bytes(data.subrange(4, 8));
            if seq_word != expected {
                Err(
                    Error::BadSeq {
                        expected: as_signed(expected),
                        received: as_signed(seq_word),
                    },
                )
            } else {
                let computed = crc32_of(data.subrange(0, word - 4));
                let received = spec_u32_from_le_bytes(data.subrange(word - 4, word as int));
                if computed != received {
                    Err(Error::BadCrc { computed, received })
                } else {
                    Ok(
                        (UnpackedOffset {
                            data_range: (8usize as usize)..((word - 4) as usize),
                            next_offset: word as usize,
                        }),
                    )
                }
            }
        }
    }
}

/// A connection's full framing scheme and its two sequence counters.
pub struct Full {
    /// Sequence number the next sent frame will carry.
    pub send_seq: u32,
    /// Sequence number the next received frame must carry.
    pub recv_seq: u32,
}

impl Full {
    /// Creates a new instance of the transport, with both counters at zero.
    pub fn new() -> (r: Full)
        ensures
            r == (Full { send_seq: 0u32, recv_seq: 0u32 }),
    {
        Full { send_seq: 0, recv_seq: 0 }
    }
}

impl Transport for Full {
    open spec fn wf(self) -> bool {
        true
    }

    open spec fn pack_pre(self, data: Seq<u8>) -> bool {
        data.len() % 4 == 0 && data.len() + 12 < 0x80000000
    }

    open spec fn packed(self, data: Seq<u8>) -> Seq<u8> {
        full_packed(data, self.send_seq)
    }

    open spec fn after_pack(self, data: Seq<u8>) -> Full {
        Full { send_seq: next_seq(self.send_seq), recv_seq: self.recv_seq }
    }

    open spec fn unpack_pre(self, data: Seq<u8>) -> bool {
        true
    }

    open spec fn unpack_result(self, data: Seq<u8>) -> Result<UnpackedOffset, Error> {
        full_unpack(data, self.recv_seq)
    }

    open spec fn unpacked_buf(self, data: Seq<u8>) -> Seq<u8> {
        data
    }

    open spec fn after_unpack(self, data: Seq<u8>) -> Full {
        if full_unpack(data, self.recv_seq) is Ok {
            Full { send_seq: self.send_seq, recv_seq: next_seq(self.recv_seq) }
        } else {
            self
        }
    }

    fn pack(&mut self, buffer: &mut DequeBuffer) {
        let len = buffer.len();
        let seq_bytes = u32_to_le_bytes(self.send_seq);
        buffer.extend_front(seq_bytes.as_slice());
        let len_bytes = u32_to_le_bytes((len + 12) as u32);
        buffer.extend_front(len_bytes.as_slice());
        let body = buffer.subvec(0, buffer.len());
        proof {
            assert(body@ =~= buffer@);
        }
        let crc = crc32(&body);
        let crc_bytes = u32_to_le_bytes(crc);
        buffer.extend_from_slice(crc_bytes.as_slice());
        self.send_seq = if self.send_seq == 0xffffffffu32 {
            0
        } else {
            self.send_seq + 1
        };
        proof {
            let data = old(buffer)@;
            let body_spec = spec_u32_to_le_bytes((data.len() + 12) as u32) + spec_u32_to_le_bytes(
                old(self).send_seq,
            ) + data;
            assert(body@ =~= body_spec);
            assert(buffer@ =~= body_spec + spec_u32_to_le_bytes(crc32_of(body_spec)));
        }
    }

    fn unpack(&mut self, buffer: &mut DequeBuffer) -> (r: Result<UnpackedOffset, Error>) {
        let n = buffer.len();
        if n < 4 {
            return Err(Error::MissingBytes);
        }
        let word = read_u32_le(buffer, 0);
        let leni = to_signed(word);
        if leni < 12 {
            return Err(Error::BadLen(leni));
        }
        let total = word as usize;
        if n < total {
            return Err(Error::MissingBytes);
        }
        let seq_word = read_u32_le(buffer, 4);
        if seq_word != self.recv_seq {
            return Err(
                Error::BadSeq {
                    expected: to_signed(self.recv_seq),
                    received: to_signed(seq_word),
                },
            );
        }
        let checked = buffer.subvec(0, total - 4);
        let computed = crc32(&checked);
        let received = read_u32_le(buffer, total - 4);
        if computed != received {
            return Err(Error::BadCrc { computed, received });
        }
        self.recv_seq = if self.recv_seq == 0xffffffffu32 {
            0
        } else {
            self.recv_seq + 1
        };
        Ok(UnpackedOffset { data_range: 8..(total - 4), next_offset: total })
    }
}

/// The pieces a well-formed full frame splits into: its length word, its
/// sequence word, the checked region and the stored checksum.
proof fn lemma_full_packed_fields(data: Seq<u8>, seq: u32)
    requires
        data.len() + 12 < 0x80000000,
    ensures
        ({
            let framed = full_packed(data, seq);
            let body = spec_u32_to_le_bytes((data.len() + 12) as u32) + spec_u32_to_le_bytes(seq)
                + data;
            &&& framed.len() == data.len() + 12
            &&& framed.subrange(0, 4) == spec_u32_to_le_bytes((data.len() + 12) as u32)
            &&& framed.subrange(4, 8) == spec_u32_to_le_bytes(seq)
            &&& framed.subrange(8, (data.len() + 8) as int) == data
            &&& framed.subrange(0, (data.len() + 8) as int) == body
            &&& framed.subrange((data.len() + 8) as int, (data.len() + 12) as int)
                == spec_u32_to_le_bytes(crc32_of(body))
        }),
{
    let framed = full_packed(data, seq);
    let body = spec_u32_to_le_bytes((data.len() + 12) as u32) + spec_u32_to_le_bytes(seq) + data;
    vstd::bytes::lemma_auto_spec_u32_to_from_le_bytes();
    assert(spec_u32_to_le_bytes((data.len() + 12) as u32).len() == 4);
    assert(spec_u32_to_le_bytes(seq).len() == 4);
    assert(spec_u32_to_le_bytes(crc32_of(body)).len() == 4);
    assert(framed.subrange(0, 4) =~= spec_u32_to_le_bytes((data.len() + 12) as u32));
    assert(framed.subrange(4, 8) =~= spec_u32_to_le_bytes(seq));
    assert(framed.subrange(8, (data.len() + 8) as int) =~= data);
    assert(body.len() == data.len() + 8);
    assert(framed == body + spec_u32_to_le_bytes(crc32_of(body)));
    assert(framed.subrange(0, (data.len() + 8) as int) =~= body);
    assert(framed.subrange((data.len() + 8) as int, (data.len() + 12) as int)
        =~= spec_u32_to_le_bytes(crc32_of(body)));
}

/// Framing and unframing are inverse when the received sequence number
/// is the expected one: reading one full frame built around `data`
/// yields exactly the range holding `data` and consumes exactly the
/// packed length.
pub proof fn lemma_full_roundtrip(data: Seq<u8>, seq: u32)
    requires
        data.len() % 4 == 0,
        data.len() < 0x1000000,
    ensures
        ({
            let framed = full_packed(data, seq);
            match full_unpack(framed, seq) {
                Ok(off) => framed.subrange(
                    off.data_range.start as int,
                    off.data_range.end as int,
                ) == data && off.next_offset == framed.len(),
                Err(_) => false,
            }
        }),
{
    let framed = full_packed(data, seq);
    lemma_full_packed_fields(data, seq);
    vstd::bytes::lemma_auto_spec_u32_to_from_le_bytes();
    assert(framed.subrange(8, (data.len() + 12 - 4) as int) == data);
}

/// Any strict prefix of a full frame only asks for more bytes: never a
/// fatal error, never a partial range.
pub proof fn lemma_full_truncated(data: Seq<u8>, seq: u32, expected: u32, cut: int)
    requires
        data.len() % 4 == 0,
        data.len() < 0x1000000,
        0 <= cut < full_packed(data, seq).len(),
    ensures
        full_unpack(full_packed(data, seq).take(cut), expected) == Err::<UnpackedOffset, Error>(
            Error::MissingBytes,
        ),
{
    let framed = full_packed(data, seq);
    let t = framed.take(cut);
    lemma_full_packed_fields(data, seq);
    if cut >= 4 {
        vstd::bytes::lemma_auto_spec_u32_to_from_le_bytes();
        assert(t.subrange(0, 4) =~= spec_u32_to_le_bytes((data.len() + 12) as u32));
        assert(t.len() < data.len() + 12);
    }
}

/// A frame whose sequence number is not exactly the running expected
/// counter is rejected as a bad sequence, whatever else it holds.
pub proof fn lemma_full_bad_sequence(data: Seq<u8>, seq: u32, expected: u32)
    requires
        data.len() % 4 == 0,
        data.len() < 0x1000000,
        seq != expected,
    ensures
        full_unpack(full_packed(data, seq), expected) == Err::<UnpackedOffset, Error>(
            Error::BadSeq { expected: as_signed(expected), received: as_signed(seq) },
        ),
{
    lemma_full_packed_fields(data, seq);
    vstd::bytes::lemma_auto_spec_u32_to_from_le_bytes();
}

/// Two consecutive sends carry sequence numbers that differ by exactly
/// one: the counter advances with every packed frame.
pub proof fn lemma_full_consecutive_sequence(t: Full, d1: Seq<u8>, d2: Seq<u8>)
    requires
        d1.len() + 12 < 0x80000000,
        d2.len() + 12 < 0x80000000,
    ensures
        ({
            let f1 = t.packed(d1);
            let f2 = t.after_pack(d1).packed(d2);
            spec_u32_from_le_bytes(f2.subrange(4, 8)) == next_seq(
                spec_u32_from_le_bytes(f1.subrange(4, 8)),
            )
        }),
{
    lemma_full_packed_fields(d1, t.send_seq);
    lemma_full_packed_fields(d2, next_seq(t.send_seq));
    vstd::bytes::lemma_auto_spec_u32_to_from_le_bytes();
}

/// Corrupting any byte of the stored checksum of a valid frame makes
/// unpacking fail with a checksum mismatch.
pub proof fn lemma_full_corrupted_checksum(data: Seq<u8>, seq: u32, at: int, b: u8)
    requires
        data.len() % 4 == 0,
        data.len() < 0x1000000,
        data.len() + 8 <= at < data.len() + 12,
        b != full_packed(data, seq)[at],
    ensures
        full_unpack(full_packed(data, seq).update(at, b), seq) matches Err(Error::BadCrc {
            computed,
            received,
        }),
{
    let framed = full_packed(data, seq);
    let bad = framed.update(at, b);
    let body = spec_u32_to_le_bytes((data.len() + 12) as u32) + spec_u32_to_le_bytes(seq) + data;
    lemma_full_packed_fields(data, seq);
    vstd::bytes::lemma_auto_spec_u32_to_from_le_bytes();
    assert(bad.subrange(0, 4) =~= framed.subrange(0, 4));
    assert(bad.subrange(4, 8) =~= framed.subrange(4, 8));
    assert(bad.subrange(0, (data.len() + 8) as int) =~= body);
    let stored = bad.subrange((data.len() + 8) as int, (data.len() + 12) as int);
    assert(stored[at - (data.len() + 8)] == b);
    assert(stored != spec_u32_to_le_bytes(crc32_of(body)));
    assert(spec_u32_from_le_bytes(stored) != crc32_of(body)) by {
        if spec_u32_from_le_bytes(stored) == crc32_of(body) {
            assert(spec_u32_to_le_bytes(spec_u32_from_le_bytes(stored)) == stored);
        }
    };
}

/// Corrupting a payload byte of a valid frame is caught as a checksum
/// mismatch whenever the corrupted region's checksum differs from the
/// stored one — which only a checksum collision can prevent.
pub proof fn lemma_full_corrupted_payload(data: Seq<u8>, seq: u32, at: int, b: u8)
    requires
        data.len() % 4 == 0,
        data.len() < 0x1000000,
        8 <= at < data.len() + 8,
        b != full_packed(data, seq)[at],
        crc32_of(full_packed(data, seq).update(at, b).subrange(0, (data.len() + 8) as int))
            != crc32_of(full_packed(data, seq).subrange(0, (data.len() + 8) as int)),
    ensures
        full_unpack(full_packed(data, seq).update(at, b), seq) matches Err(Error::BadCrc {
            computed,
            received,
        }),
{
    let framed = full_packed(data, seq);
    let bad = framed.update(at, b);
    let body = spec_u32_to_le_bytes((data.len() + 12) as u32) + spec_u32_to_le_bytes(seq) + data;
    lemma_full_packed_fields(data, seq);
    vstd::bytes::lemma_auto_spec_u32_to_from_le_bytes();
    assert(bad.subrange(0, 4) =~= framed.subrange(0, 4));
    assert(bad.subrange(4, 8) =~= framed.subrange(4, 8));
    assert(framed.subrange(0, (data.len() + 8) as int) == body);
    assert(bad.subrange((data.len() + 8) as int, (data.len() + 12) as int) =~= framed.subrange(
        (data.len() + 8) as int,
        (data.len() + 12) as int,
    ));
}

/// Corrupting any byte of the sequence field of a valid frame makes
/// unpacking fail with a sequence mismatch.
pub proof fn lemma_full_corrupted_sequence(data: Seq<u8>, seq: u32, at: int, b: u8)
    requires
        data.len() % 4 == 0,
        data.len() < 0x1000000,
        4 <= at < 8,
        b != full_packed(data, seq)[at],
    ensures
        full_unpack(full_packed(data, seq).update(at, b), seq) matches Err(Error::BadSeq {
            expected,
            received,
        }),
{
    let framed = full_packed(data, seq);
    let bad = framed.update(at, b);
    lemma_full_packed_fields(data, seq);
    vstd::bytes::lemma_auto_spec_u32_to_from_le_bytes();
    assert(bad.subrange(0, 4) =~= framed.subrange(0, 4));
    let field = bad.subrange(4, 8);
    assert(field[at - 4] == b);
    assert(field != spec_u32_to_le_bytes(seq));
    assert(spec_u32_from_le_bytes(field) != seq) by {
        if spec_u32_from_le_bytes(field) == seq {
            assert(spec_u32_to_le_bytes(spec_u32_from_le_bytes(field)) == field);
        }
    };
}

} // verus!
