//! The obfuscated MTProto transport.
//!
//! Wraps another transport so the stream looks like random bytes.  A
//! 64-byte random header, sent once at connection start, seeds two
//! AES-256 counter-mode keystreams: the sender's, drawn from one slice
//! of the header, and the receiver's, drawn from the byte-reversed form
//! of the same slice, so both peers derive matching ciphers without any
//! negotiation.  Bytes 56 to 60 of the header carry the wrapped
//! transport's tag, enciphered along with the rest of the tail, so only
//! a holder of the header's secret learns which scheme follows.

use vstd::prelude::*;
use vstd::bytes::{spec_u32_from_le_bytes, spec_u128_from_le_bytes, u128_from_le_bytes};

use crate::buffer::DequeBuffer;
use crate::ctr::{CtrCipher, apply_keystream, ctr_add, lemma_apply_keystream_concat,
    lemma_apply_keystream_involution};
use super::{Error, Tagged, Transport, UnpackedOffset};

verus! {

/// Relies on `getrandom::getrandom` for one draw of 64 random bytes;
/// nothing is assumed of the values, and `None` reports that the source
/// of randomness failed.
#[verifier::external_body]
fn random_header_bytes() -> (r: Option<[u8; 64]>) {
    let mut buf = [0u8; 64];
    match getrandom::getrandom(&mut buf) {
        Ok(()) => Some(buf),
        Err(_) => None,
    }
}

/// First words that a random header must avoid: they would make the
/// connection's opening bytes coincide with another well-known protocol
/// and let a passive observer fingerprint the scheme.
pub open spec fn reserved_first_word(w: u32) -> bool {
    w == 0x44414548u32 || w == 0x54534f50u32 || w == 0x20544547u32 || w == 0x4954504fu32
        || w == 0xddddddddu32 || w == 0xeeeeeeeeu32 || w == 0x02010316u32
}

/// Whether a freshly drawn 64-byte header may open a connection: its
/// first byte must not look abridged, its first word must be no reserved
/// marker, and its second word must not be zero.
pub open spec fn header_usable(h: Seq<u8>) -> bool {
    &&& h.len() == 64
    &&& h[0] != 0xef
    &&& !reserved_first_word(spec_u32_from_le_bytes(h.subrange(0, 4)))
    &&& spec_u32_from_le_bytes(h.subrange(4, 8)) != 0u32
}

/// Big-endian reading of 16 bytes, as counter blocks begin.
pub open spec fn be_u128(s: Seq<u8>) -> u128 {
    spec_u128_from_le_bytes(s.reverse())
}

/// Reads the little-endian 32-bit word of the header starting at `at`.
fn word_at(h: &[u8; 64], at: usize) -> (r: u32)
    requires
        at + 4 <= 64,
    ensures
        r == spec_u32_from_le_bytes(h@.subrange(at as int, at as int + 4)),
{
    let mut v: Vec<u8> = Vec::new();
    v.push(h[at]);
    v.push(h[at + 1]);
    v.push(h[at + 2]);
    v.push(h[at + 3]);
    proof {
        assert(v@ =~= h@.subrange(at as int, at as int + 4));
    }
    vstd::bytes::u32_from_le_bytes(v.as_slice())
}

/// Decides whether a drawn header may be used.
fn check_header(h: &[u8; 64]) -> (r: bool)
    ensures
        r == header_usable(h@),
{
    let b0 = h[0];
    let w0 = word_at(h, 0);
    let w1 = word_at(h, 4);
    b0 != 0xef && !(w0 == 0x44414548 || w0 == 0x54534f50 || w0 == 0x20544547 || w0 == 0x4954504f
        || w0 == 0xdddddddd || w0 == 0xeeeeeeee || w0 == 0x02010316) && w1 != 0
}

/// Copies 32 bytes out of `v` into a key array.
fn key_from(v: &Vec<u8>, start: usize) -> (r: [u8; 32])
    requires
        start + 32 <= v@.len(),
    ensures
        r@ == v@.subrange(start as int, start as int + 32),
{
    let n = v.len();
    let mut r: [u8; 32] = [0; 32];
    let mut i: usize = 0;
    while i < 32
        invariant
            i <= 32,
            n == v@.len(),
            start + 32 <= v@.len(),
            r@.len() == 32,
            forall|j: int| 0 <= j < i ==> r@[j] == v@[start + j],
        decreases 32 - i,
    {
        r[i] = v[start + i];
        i = i + 1;
    }
    proof {
        assert(r@ =~= v@.subrange(start as int, start as int + 32));
    }
    r
}

/// Reads the big-endian 128-bit word of `v` starting at `start`.
fn be_u128_of(v: &Vec<u8>, start: usize) -> (r: u128)
    requires
        start + 16 <= v@.len(),
    ensures
        r == be_u128(v@.subrange(start as int, start as int + 16)),
{
    let n = v.len();
    let mut rev: Vec<u8> = Vec::new();
    let mut i: usize = 0;
    while i < 16
        invariant
            i <= 16,
            n == v@.len(),
            start + 16 <= v@.len(),
            rev@.len() == i,
            forall|j: int| 0 <= j < i ==> rev@[j] == v@[start + 15 - j],
        decreases 16 - i,
    {
        rev.push(v[start + 15 - i]);
        i = i + 1;
    }
    proof {
        assert(rev@ =~= v@.subrange(start as int, start as int + 16).reverse());
    }
    u128_from_le_bytes(rev.as_slice())
}

/// Builds the byte-reversed form of `v`'s bytes 8 to 56, from which the
/// receiving keystream is drawn.
fn reversed_key_segment(v: &Vec<u8>) -> (r: Vec<u8>)
    requires
        v@.len() == 64,
    ensures
        r@ == v@.subrange(8, 56).reverse(),
{
    let mut rev: Vec<u8> = Vec::new();
    let mut i: usize = 0;
    while i < 48
        invariant
            i <= 48,
            v@.len() == 64,
            rev@.len() == i,
            forall|j: int| 0 <= j < i ==> rev@[j] == v@[55 - j],
        decreases 48 - i,
    {
        rev.push(v[55 - i]);
        i = i + 1;
    }
    proof {
        assert(rev@ =~= v@.subrange(8, 56).reverse());
    }
    rev
}

/// A connection's obfuscated framing scheme: the wrapped transport, the
/// two directions' ciphers, the one-time wire header still to be sent,
/// and how many bytes at the front of the receive buffer are already
/// deciphered.
pub struct Obfuscated<T> {
    /// The wrapped framing scheme.
    pub inner: T,
    /// Keystream for outgoing bytes.
    pub enc: CtrCipher,
    /// Keystream for incoming bytes.
    pub dec: CtrCipher,
    /// The wire form of the one-time header: 56 clear bytes, then the
    /// enciphered tail that hides the wrapped transport's tag.
    pub header: [u8; 64],
    /// Whether the wire header has already gone out.
    pub header_sent: bool,
    /// How many bytes at the front of the receive buffer were already
    /// deciphered by earlier calls.
    pub upto: usize,
}

/// How a connection's state is drawn from the plain 64-byte header `h`
/// (the random draw with the wrapped transport's tag already embedded at
/// bytes 56 to 60): the sending cipher from bytes 8 to 56, the receiving
/// cipher from their byte-reversed form, and the wire header already
/// enciphered past byte 56, with the sending keystream advanced over all
/// 64 header bytes.
pub open spec fn derived_from<T: Tagged>(o: Obfuscated<T>, inner0: T, h: Seq<u8>) -> bool {
    &&& header_usable(h)
    &&& h.subrange(56, 60) == T::tag_spec()
    &&& o.inner == inner0.after_tag()
    &&& o.enc.key@ == h.subrange(8, 40)
    &&& o.enc.counter == ctr_add(be_u128(h.subrange(40, 56)), 4)
    &&& o.enc.off == 0
    &&& o.dec.key@ == h.subrange(8, 56).reverse().subrange(0, 32)
    &&& o.dec.counter == be_u128(h.subrange(8, 56).reverse().subrange(32, 48))
    &&& o.dec.off == 0
    &&& o.header@ == h.take(56) + apply_keystream(
        h.subrange(8, 40),
        be_u128(h.subrange(40, 56)),
        0,
        h,
    ).subrange(56, 64)
    &&& o.header_sent == false
    &&& o.upto == 0
}

impl<T: Transport> Obfuscated<T> {
    /// The receive buffer as the wrapped transport will see it: the
    /// already deciphered prefix, then the rest deciphered by the
    /// receiving keystream.
    pub open spec fn deciphered(self, data: Seq<u8>) -> Seq<u8> {
        data.take(self.upto as int) + apply_keystream(
            self.dec.key@,
            self.dec.counter,
            self.dec.off as nat,
            data.skip(self.upto as int),
        )
    }
}

impl<T: Transport + Tagged> Obfuscated<T> {
    /// Sets a connection up from one given header draw.  The draw is
    /// rejected — and nothing consumed of the wrapped transport's tag —
    /// when its opening bytes would give the scheme away.
    pub fn new_with_header(inner: T, header: [u8; 64]) -> (r: Option<Obfuscated<T>>)
        requires
            inner.wf(),
        ensures
            (match r {
                Some(o) => o.wf() && derived_from(
                    o,
                    inner,
                    header@.take(56) + T::tag_spec() + header@.skip(60),
                ),
                None => !header_usable(header@),
            }),
    {
        if !check_header(&header) {
            return None;
        }
        let mut inner = inner;
        let tag = inner.init_tag();
        let mut h = header;
        h[56] = tag[0];
        h[57] = tag[1];
        h[58] = tag[2];
        h[59] = tag[3];
        proof {
            assert(h@ =~= header@.take(56) + T::tag_spec() + header@.skip(60));
            assert(h@.subrange(0, 4) =~= header@.subrange(0, 4));
            assert(h@.subrange(4, 8) =~= header@.subrange(4, 8));
            assert(h@.subrange(56, 60) =~= T::tag_spec());
        }
        let mut hv: Vec<u8> = Vec::new();
        hv.extend_from_slice(h.as_slice());
        let enc_key = key_from(&hv, 8);
        let enc_iv = be_u128_of(&hv, 40);
        let rev = reversed_key_segment(&hv);
        let dec_key = key_from(&rev, 0);
        let dec_iv = be_u128_of(&rev, 32);
        proof {
            assert(hv@.subrange(8, 40) =~= h@.subrange(8, 40));
            assert(hv@.subrange(40, 56) =~= h@.subrange(40, 56));
            assert(rev@.subrange(0, 32) =~= h@.subrange(8, 56).reverse().subrange(0, 32));
            assert(rev@.subrange(32, 48) =~= h@.subrange(8, 56).reverse().subrange(32, 48));
        }
        let mut enc = CtrCipher::new(enc_key, enc_iv);
        let dec = CtrCipher::new(dec_key, dec_iv);
        let mut tail = DequeBuffer::new();
        tail.extend_from_slice(h.as_slice());
        enc.apply(&mut tail, 0);
        proof {
            assert(apply_keystream(enc_key@, enc_iv, 0nat, h@).len() == 64);
            assert(tail@ =~= apply_keystream(enc_key@, enc_iv, 0nat, h@));
        }
        let mut wire = h;
        wire[56] = tail.get(56);
        wire[57] = tail.get(57);
        wire[58] = tail.get(58);
        wire[59] = tail.get(59);
        wire[60] = tail.get(60);
        wire[61] = tail.get(61);
        wire[62] = tail.get(62);
        wire[63] = tail.get(63);
        proof {
            assert(wire@ =~= h@.take(56) + apply_keystream(enc_key@, enc_iv, 0nat, h@).subrange(
                56,
                64,
            ));
        }
        Some(Obfuscated { inner, enc, dec, header: wire, header_sent: false, upto: 0 })
    }

    /// Sets a connection up from a fresh random draw, drawing again while
    /// the bytes would give the scheme away.  `None` reports that the
    /// source of randomness failed.
    pub fn new(inner: T) -> (r: Option<Obfuscated<T>>)
        requires
            inner.wf(),
        ensures
            (match r {
                Some(o) => o.wf() && (exists|h: Seq<u8>| derived_from(o, inner, h)),
                None => true,
            }),
    {
        let mut draw = random_header_bytes();
        let mut attempts: usize = 64;
        while attempts > 0
            invariant
                inner.wf(),
            decreases attempts,
        {
            match draw {
                None => {
                    return None;
                },
                Some(header) => {
                    if check_header(&header) {
                        let r = Self::new_with_header(inner, header);
                        proof {
                            if r is Some {
                                let h = header@.take(56) + T::tag_spec() + header@.skip(60);
                                assert(derived_from(r->Some_0, inner, h));
                            }
                        }
                        return r;
                    }
                },
            }
            draw = random_header_bytes();
            attempts = attempts - 1;
        }
        None
    }
}

impl<T: Transport> Transport for Obfuscated<T> {
    open spec fn wf(self) -> bool {
        self.inner.wf() && self.enc.wf() && self.dec.wf()
    }

    open spec fn pack_pre(self, data: Seq<u8>) -> bool {
        self.inner.pack_pre(data)
    }

    open spec fn packed(self, data: Seq<u8>) -> Seq<u8> {
        let ct = apply_keystream(
            self.enc.key@,
            self.enc.counter,
            self.enc.off as nat,
            self.inner.packed(data),
        );
        if self.header_sent {
            ct
        } else {
            self.header@ + ct
        }
    }

    open spec fn after_pack(self, data: Seq<u8>) -> Obfuscated<T> {
        Obfuscated {
            inner: self.inner.after_pack(data),
            enc: self.enc.advanced(self.inner.packed(data).len()),
            dec: self.dec,
            header: self.header,
            header_sent: true,
            upto: self.upto,
        }
    }

    open spec fn unpack_pre(self, data: Seq<u8>) -> bool {
        self.upto <= data.len() && self.inner.unpack_pre(self.deciphered(data))
    }

    open spec fn unpack_result(self, data: Seq<u8>) -> Result<UnpackedOffset, Error> {
        self.inner.unpack_result(self.deciphered(data))
    }

    open spec fn unpacked_buf(self, data: Seq<u8>) -> Seq<u8> {
        self.inner.unpacked_buf(self.deciphered(data))
    }

    open spec fn after_unpack(self, data: Seq<u8>) -> Obfuscated<T> {
        let dd = self.deciphered(data);
        Obfuscated {
            inner: self.inner.after_unpack(dd),
            enc: self.enc,
            dec: self.dec.advanced((data.len() - self.upto) as nat),
            header: self.header,
            header_sent: self.header_sent,
            upto: (match self.inner.unpack_result(dd) {
                Ok(off) => (self.inner.unpacked_buf(dd).len() - off.next_offset) as usize,
                Err(_) => self.inner.unpacked_buf(dd).len() as usize,
            }),
        }
    }

    fn pack(&mut self, buffer: &mut DequeBuffer) {
        self.inner.pack(buffer);
        self.enc.apply(buffer, 0);
        proof {
            assert(buffer@ =~= apply_keystream(
                old(self).enc.key@,
                old(self).enc.counter,
                old(self).enc.off as nat,
                old(self).inner.packed(old(buffer)@),
            ));
        }
        if !self.header_sent {
            let head = self.header;
            buffer.extend_front(head.as_slice());
            self.header_sent = true;
        }
    }

    fn unpack(&mut self, buffer: &mut DequeBuffer) -> (r: Result<UnpackedOffset, Error>) {
        self.dec.apply(buffer, self.upto);
        proof {
            assert(buffer@ =~= old(self).deciphered(old(buffer)@));
        }
        let r = self.inner.unpack(buffer);
        match r {
            Ok(off) => {
                let next = off.next_offset;
                self.upto = buffer.len() - next;
                Ok(off)
            },
            Err(e) => {
                self.upto = buffer.len();
                Err(e)
            },
        }
    }
}

/// Packing the same plaintext twice on one connection consumes two
/// back-to-back stretches of the sending keystream — the position
/// advances by the first frame's whole length and is never reused — and
/// a mirrored cipher standing where the sender's stood recovers both
/// frames in order from the concatenated ciphertexts.
pub proof fn lemma_obfuscated_pack_twice<T: Transport>(o: Obfuscated<T>, d1: Seq<u8>, d2: Seq<u8>)
    requires
        o.wf(),
        o.header_sent,
    ensures
        ({
            let o1 = o.after_pack(d1);
            &&& o1.enc == o.enc.advanced(o.inner.packed(d1).len())
            &&& apply_keystream(
                o.enc.key@,
                o.enc.counter,
                o.enc.off as nat,
                o.packed(d1) + o1.packed(d2),
            ) == o.inner.packed(d1) + o1.inner.packed(d2)
        }),
{
    let o1 = o.after_pack(d1);
    let f1 = o.inner.packed(d1);
    let f2 = o1.inner.packed(d2);
    lemma_mirrored_ciphers_recover_frames(o.enc.key@, o.enc.counter, o.enc.off as nat, f1, f2);
}

/// Packing two frames in a row consumes two back-to-back stretches of
/// the sending keystream, and the peer's mirrored cipher, standing where
/// the sender's began, recovers both frames in order from the
/// concatenated ciphertexts.
pub proof fn lemma_mirrored_ciphers_recover_frames(
    key: Seq<u8>,
    counter: u128,
    off: nat,
    f1: Seq<u8>,
    f2: Seq<u8>,
)
    requires
        off < 16,
    ensures
        apply_keystream(
            key,
            counter,
            off,
            apply_keystream(key, counter, off, f1) + apply_keystream(
                key,
                ctr_add(counter, ((off + f1.len()) / 16) as nat),
                ((off + f1.len()) % 16) as nat,
                f2,
            ),
        ) == f1 + f2,
{
    let c2 = ctr_add(counter, ((off + f1.len()) / 16) as nat);
    let off2 = ((off + f1.len()) % 16) as nat;
    let e1 = apply_keystream(key, counter, off, f1);
    let e2 = apply_keystream(key, c2, off2, f2);
    assert(e1.len() == f1.len());
    lemma_apply_keystream_concat(key, counter, off, e1, e2);
    lemma_apply_keystream_involution(key, counter, off, f1);
    lemma_apply_keystream_involution(key, c2, off2, f2);
}

} // verus!
