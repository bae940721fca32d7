//! The lightest MTProto transport.
//!
//! No tag on the wire, no checksum, no sequence number: a frame is the
//! payload behind a one-byte header, or a four-byte header once the
//! payload holds 127 or more 4-byte words.

use vstd::prelude::*;

use crate::buffer::DequeBuffer;
use super::{Error, Tagged, Transport, UnpackedOffset};

verus! {

/// The four-byte marker by which the obfuscated transport announces this
/// scheme; the plain scheme sends nothing ahead of its frames.
pub open spec fn abridged_tag() -> Seq<u8> {
    seq![0xefu8, 0xefu8, 0xefu8, 0xefu8]
}

/// The header that precedes a payload of `len` bytes: `len / 4` in one
/// byte while it stays under 127, else the sentinel `0x7f` followed by
/// `len / 4` in three little-endian bytes.
pub open spec fn abridged_header(len: nat) -> Seq<u8> {
    if len / 4 < 127 {
        seq![(len / 4) as u8]
    } else {
        seq![
            0x7fu8,
            ((len / 4) % 256) as u8,
            ((len / 4) / 256 % 256) as u8,
            ((len / 4) / 65536 % 256) as u8,
        ]
    }
}

/// The exact bytes of one abridged frame around `data`.
pub open spec fn abridged_packed(data: Seq<u8>) -> Seq<u8> {
    abridged_header(data.len()) + data
}

/// The exact outcome of reading one abridged frame at the start of `data`.
pub open spec fn abridged_unpack(data: Seq<u8>) -> Result<UnpackedOffset, Error> {
    if data.len() < 1 {
        Err(Error::MissingBytes)
    } else if data[0] < 0x7f {
        let plen = (data[0] as nat) * 4;
        if data.len() < 1 + plen {
            Err(Error::MissingBytes)
        } else {
            Ok(
                (UnpackedOffset {
                    data_range: (1usize as usize)..((1 + plen) as usize),
                    next_offset: (1 + plen) as usize,
                }),
            )
        }
    } else if data.len() < 4 {
        Err(Error::MissingBytes)
    } else {
        let words = (data[1] as nat) + (data[2] as nat) * 256 + (data[3] as nat) * 65536;
        let plen = words * 4;
        if data.len() < 4 + plen {
            Err(Error::MissingBytes)
        } else {
            Ok(
                (UnpackedOffset {
                    data_range: (4usize as usize)..((4 + plen) as usize),
                    next_offset: (4 + plen) as usize,
                }),
            )
        }
    }
}

/// A connection's abridged framing scheme.  It keeps no state: frames
/// carry nothing but a length.
pub struct Abridged;

impl Abridged {
    /// Creates a new instance of the transport.
    pub fn new() -> (r: Abridged)
        ensures
            r == (Abridged {  }),
    {
        Abridged {  }
    }
}

impl Transport for Abridged {
    open spec fn wf(self) -> bool {
        true
    }

    open spec fn pack_pre(self, data: Seq<u8>) -> bool {
        data.len() % 4 == 0 && data.len() < 0x4000000
    }

    open spec fn packed(self, data: Seq<u8>) -> Seq<u8> {
        abridged_packed(data)
    }

    open spec fn after_pack(self, data: Seq<u8>) -> Abridged {
        self
    }

    open spec fn unpack_pre(self, data: Seq<u8>) -> bool {
        true
    }

    open spec fn unpack_result(self, data: Seq<u8>) -> Result<UnpackedOffset, Error> {
        abridged_unpack(data)
    }

    open spec fn unpacked_buf(self, data: Seq<u8>) -> Seq<u8> {
        data
    }

    open spec fn after_unpack(self, data: Seq<u8>) -> Abridged {
        self
    }

    fn pack(&mut self, buffer: &mut DequeBuffer) {
        let words = buffer.len() / 4;
        if words < 127 {
            let mut head: Vec<u8> = Vec::new();
            head.push(words as u8);
            buffer.extend_front(head.as_slice());
        } else {
            let mut head: Vec<u8> = Vec::new();
            head.push(0x7f);
            head.push((words % 256) as u8);
            head.push((words / 256 % 256) as u8);
            head.push((words / 65536 % 256) as u8);
            buffer.extend_front(head.as_slice());
        }
        proof {
            assert(buffer@ == abridged_packed(old(buffer)@));
        }
    }

    fn unpack(&mut self, buffer: &mut DequeBuffer) -> (r: Result<UnpackedOffset, Error>) {
        if buffer.len() < 1 {
            return Err(Error::MissingBytes);
        }
        let b0 = buffer.get(0);
        if b0 < 0x7f {
            let plen = (b0 as usize) * 4;
            if buffer.len() < 1 + plen {
                return Err(Error::MissingBytes);
            }
            Ok(UnpackedOffset { data_range: 1..(1 + plen), next_offset: 1 + plen })
        } else {
            if buffer.len() < 4 {
                return Err(Error::MissingBytes);
            }
            let words = (buffer.get(1) as usize) + (buffer.get(2) as usize) * 256 + (buffer.get(3)
                as usize) * 65536;
            let plen = words * 4;
            if buffer.len() < 4 + plen {
                return Err(Error::MissingBytes);
            }
            Ok(UnpackedOffset { data_range: 4..(4 + plen), next_offset: 4 + plen })
        }
    }
}

/// Framing and unframing are inverse: reading one abridged frame built
/// around `data` yields exactly the range holding `data` and consumes
/// exactly the packed length.
pub proof fn lemma_abridged_roundtrip(data: Seq<u8>)
    requires
        data.len() % 4 == 0,
        data.len() < 0x1000000,
    ensures
        ({
            let framed = abridged_packed(data);
            match abridged_unpack(framed) {
                Ok(off) => framed.subrange(
                    off.data_range.start as int,
                    off.data_range.end as int,
                ) == data && off.next_offset == framed.len(),
                Err(_) => false,
            }
        }),
{
    let len = data.len();
    let framed = abridged_packed(data);
    lemma_abridged_words(len);
    if len / 4 < 127 {
        assert(framed[0] == (len / 4) as u8);
        assert((framed[0] as nat) * 4 == len);
        assert(framed.subrange(1, (1 + len) as int) =~= data);
    } else {
        assert(framed[0] == 0x7f);
        let words = (framed[1] as nat) + (framed[2] as nat) * 256 + (framed[3] as nat) * 65536;
        assert(words == len / 4);
        assert(framed.subrange(4, (4 + len) as int) =~= data);
    }
}

/// The length put into an abridged header comes back out of it.
proof fn lemma_abridged_words(len: nat)
    requires
        len % 4 == 0,
        len < 0x1000000,
    ensures
        (len / 4) * 4 == len,
        len / 4 >= 127 ==> ((len / 4) % 256) + ((len / 4) / 256 % 256) * 256 + ((len / 4) / 65536
            % 256) * 65536 == len / 4,
{
    let w = len / 4;
    assert(4 * (len / 4) + (len % 4) == len) by {
        vstd::arithmetic::div_mod::lemma_fundamental_div_mod(len as int, 4int);
    };
    assert(w % 256 + (w / 256 % 256) * 256 + (w / 65536 % 256) * 65536 == w) by {
        vstd::arithmetic::div_mod::lemma_fundamental_div_mod(w as int, 256int);
        vstd::arithmetic::div_mod::lemma_fundamental_div_mod((w / 256) as int, 256int);
        vstd::arithmetic::div_mod::lemma_fundamental_div_mod((w / 65536) as int, 256int);
        assert(w / 256 / 256 == w / 65536) by {
            vstd::arithmetic::div_mod::lemma_div_denominator(w as int, 256int, 256int);
        };
        assert(w / 65536 < 256);
    };
}

/// Any strict prefix of an abridged frame only asks for more bytes:
/// never a fatal error, never a partial range.
pub proof fn lemma_abridged_truncated(data: Seq<u8>, cut: int)
    requires
        data.len() % 4 == 0,
        data.len() < 0x1000000,
        0 <= cut < abridged_packed(data).len(),
    ensures
        abridged_unpack(abridged_packed(data).take(cut)) == Err::<UnpackedOffset, Error>(Error::MissingBytes),
{
    let len = data.len();
    let framed = abridged_packed(data);
    let t = framed.take(cut);
    lemma_abridged_words(len);
    if cut >= 1 {
        assert(t[0] == framed[0]);
        if len / 4 < 127 {
            assert((t[0] as nat) * 4 == len);
            assert(t.len() < 1 + len);
        } else {
            assert(t[0] == 0x7f);
            if cut >= 4 {
                let words = (t[1] as nat) + (t[2] as nat) * 256 + (t[3] as nat) * 65536;
                assert(words == len / 4);
                assert(t.len() < 4 + len);
            }
        }
    }
}

impl Tagged for Abridged {
    open spec fn tag_spec() -> Seq<u8> {
        abridged_tag()
    }

    open spec fn after_tag(self) -> Abridged {
        self
    }

    fn init_tag(&mut self) -> (r: [u8; 4]) {
        let r: [u8; 4] = [0xef, 0xef, 0xef, 0xef];
        proof {
            assert(r@ =~= abridged_tag());
        }
        r
    }
}

} // verus!
