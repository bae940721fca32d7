//! AES-256 counter-mode stream cipher.
//!
//! The obfuscated transport scrambles its bytes with the keystream that
//! AES-256 produces over a big-endian 128-bit counter.  Only the block
//! function itself comes from outside; the counter discipline, the
//! exclusive-or combination and the bookkeeping of the position within
//! the stream are all verified here.

use aes::cipher::{BlockEncrypt, KeyInit};
use vstd::prelude::*;

use crate::buffer::DequeBuffer;

verus! {

/// The AES-256 encryption, under `key`, of the 16-byte block holding the
/// big-endian form of `counter`.
pub uninterp spec fn aes256_block(key: Seq<u8>, counter: u128) -> Seq<u8>;

/// Relies on `aes::Aes256::encrypt_block`: the AES-256 block function, a
/// function of the 32-byte key and the 16-byte block alone.
#[verifier::external_body]
fn aes256_encrypt_counter(key: &[u8; 32], counter: u128) -> (r: [u8; 16])
    ensures
        r@ == aes256_block(key@, counter),
{
    let cipher = aes::Aes256::new(aes::cipher::generic_array::GenericArray::from_slice(key));
    let mut block = aes::cipher::generic_array::GenericArray::from(counter.to_be_bytes());
    cipher.encrypt_block(&mut block);
    block.into()
}

/// The block counter after one step, wrapping at the 128-bit boundary.
pub open spec fn next_block(c: u128) -> u128 {
    if c == 0xffffffffffffffffffffffffffffffffu128 {
        0u128
    } else {
        (c + 1) as u128
    }
}

/// The block counter after `k` steps.
pub open spec fn ctr_add(counter: u128, k: nat) -> u128
    decreases k,
{
    if k == 0 {
        counter
    } else {
        next_block(ctr_add(counter, (k - 1) as nat))
    }
}

/// Stepping a counter twice in sequence is stepping it once by the sum.
pub proof fn lemma_ctr_add_add(counter: u128, p: nat, q: nat)
    ensures
        ctr_add(ctr_add(counter, p), q) == ctr_add(counter, p + q),
    decreases q,
{
    if q > 0 {
        lemma_ctr_add_add(counter, p, (q - 1) as nat);
    }
}

/// Byte `i` of the keystream still owed by a cipher standing at block
/// `counter`, offset `off` within that block.
pub open spec fn ks_byte(key: Seq<u8>, counter: u128, off: nat, i: nat) -> u8 {
    aes256_block(key, ctr_add(counter, (off + i) / 16))[(((off + i) % 16) as int)]
}

/// `data` combined byte for byte with the keystream from state
/// `(counter, off)`.  Applying it twice from the same state gives the
/// data back: the combination is an exclusive-or.
pub open spec fn apply_keystream(key: Seq<u8>, counter: u128, off: nat, data: Seq<u8>) -> Seq<u8> {
    Seq::new(data.len(), |i: int| data[i] ^ ks_byte(key, counter, off, i as nat))
}

/// One direction of a connection's stream cipher: the key, the counter
/// block that is next to be enciphered, and how many keystream bytes of
/// that block are already consumed.
pub struct CtrCipher {
    /// The 32-byte AES-256 key.
    pub key: [u8; 32],
    /// The 128-bit big-endian counter of the current block.
    pub counter: u128,
    /// Position within the current block, below 16.
    pub off: usize,
}

impl CtrCipher {
    /// The position within the current block stays inside it.
    pub open spec fn wf(self) -> bool {
        self.off < 16
    }

    /// The cipher state once `n` keystream bytes have been consumed.
    pub open spec fn advanced(self, n: nat) -> CtrCipher {
        CtrCipher {
            key: self.key,
            counter: ctr_add(self.counter, ((self.off + n) / 16) as nat),
            off: ((self.off + n) % 16) as usize,
        }
    }

    /// A cipher at the start of the keystream for `key` and `counter`.
    pub fn new(key: [u8; 32], counter: u128) -> (r: CtrCipher)
        ensures
            r == (CtrCipher { key, counter, off: 0usize }),
    {
        CtrCipher { key, counter, off: 0 }
    }

    /// Enciphers (equally: deciphers) the bytes of `[start, len)` in
    /// place, consuming one keystream byte per buffer byte.
    pub fn apply(&mut self, buffer: &mut DequeBuffer, start: usize)
        requires
            old(self).wf(),
            start <= old(buffer)@.len(),
        ensures
            (*final(self)).wf(),
            final(buffer)@ == old(buffer)@.take(start as int) + apply_keystream(
                old(self).key@,
                old(self).counter,
                old(self).off as nat,
                old(buffer)@.skip(start as int),
            ),
            *final(self) == old(self).advanced((old(buffer)@.len() - start) as nat),
    {
        let ghost s0 = *self;
        let ghost buf0 = buffer@;
        let ghost key0 = self.key@;
        let ghost c0 = self.counter;
        let ghost off0 = self.off as nat;
        let ghost enc = apply_keystream(key0, c0, off0, buf0.skip(start as int));
        let n = buffer.len();
        let mut i: usize = start;
        let mut ksblock = aes256_encrypt_counter(&self.key, self.counter);
        while i < n
            invariant
                start <= i <= n,
                n == buffer@.len(),
                n == buf0.len(),
                s0.off < 16,
                key0 == s0.key@,
                c0 == s0.counter,
                off0 == s0.off as nat,
                self.wf(),
                *self == s0.advanced((i - start) as nat),
                ksblock@ == aes256_block(key0, self.counter),
                enc == apply_keystream(key0, c0, off0, buf0.skip(start as int)),
                forall|j: int| 0 <= j < start ==> buffer@[j] == buf0[j],
                forall|j: int| start <= j < i ==> buffer@[j] == enc[j - start],
                forall|j: int| i <= j < n ==> buffer@[j] == buf0[j],
            decreases n - i,
        {
            let ghost m = (i - start) as nat;
            proof {
                assert(self.off == ((off0 + m) % 16) as usize);
                assert(self.counter == ctr_add(c0, ((off0 + m) / 16) as nat));
                assert(off0 + m == self.off + 16 * ((off0 + m) / 16)) by {
                    assert(self.off == (off0 + m) % 16);
                    vstd::arithmetic::div_mod::lemma_fundamental_div_mod(
                        (off0 + m) as int,
                        16int,
                    );
                };
            }
            let b = buffer.get(i);
            let k = ksblock[self.off];
            proof {
                assert(k == ks_byte(key0, c0, off0, m));
                assert(enc[m as int] == b ^ k);
            }
            buffer.set(i, b ^ k);
            self.off = self.off + 1;
            proof {
                let t = off0 + m;
                vstd::arithmetic::div_mod::lemma_fundamental_div_mod(t as int, 16int);
                vstd::arithmetic::div_mod::lemma_fundamental_div_mod((t + 1) as int, 16int);
            }
            if self.off == 16 {
                self.off = 0;
                self.counter = if self.counter == 0xffffffffffffffffffffffffffffffffu128 {
                    0
                } else {
                    self.counter + 1
                };
                ksblock = aes256_encrypt_counter(&self.key, self.counter);
                proof {
                    let t = off0 + m;
                    assert(t % 16 == 15);
                    assert((t + 1) % 16 == 0 && (t + 1) / 16 == t / 16 + 1) by {
                        vstd::arithmetic::div_mod::lemma_fundamental_div_mod(t as int, 16int);
                        vstd::arithmetic::div_mod::lemma_fundamental_div_mod(
                            (t + 1) as int,
                            16int,
                        );
                    };
                    assert(ctr_add(c0, (t + 1) / 16) == next_block(ctr_add(c0, t / 16))) by {
                        lemma_ctr_add_add(c0, t / 16, 1nat);
                    };
                }
            } else {
                proof {
                    let t = off0 + m;
                    assert((t + 1) % 16 == t % 16 + 1 && (t + 1) / 16 == t / 16) by {
                        vstd::arithmetic::div_mod::lemma_fundamental_div_mod(t as int, 16int);
                        vstd::arithmetic::div_mod::lemma_fundamental_div_mod(
                            (t + 1) as int,
                            16int,
                        );
                    };
                }
            }
            i = i + 1;
        }
        proof {
            assert(final(buffer)@ =~= old(buffer)@.take(start as int) + enc);
        }
    }
}

/// Applying the same keystream twice gives the data back: combination is
/// an exclusive-or with keystream bytes that depend only on the state.
pub proof fn lemma_apply_keystream_involution(
    key: Seq<u8>,
    counter: u128,
    off: nat,
    data: Seq<u8>,
)
    ensures
        apply_keystream(key, counter, off, apply_keystream(key, counter, off, data)) == data,
{
    let twice = apply_keystream(key, counter, off, apply_keystream(key, counter, off, data));
    assert forall|i: int| 0 <= i < data.len() implies twice[i] == data[i] by {
        let k = ks_byte(key, counter, off, i as nat);
        let x = data[i];
        assert(x ^ k ^ k == x) by (bit_vector);
    };
    assert(twice =~= data);
}

/// Deciphering a truncated stream gives the truncation of the
/// deciphered stream: what a prefix of a frame deciphers to does not
/// depend on the bytes still to come.
pub proof fn lemma_apply_keystream_take(
    key: Seq<u8>,
    counter: u128,
    off: nat,
    data: Seq<u8>,
    cut: int,
)
    requires
        0 <= cut <= data.len(),
    ensures
        apply_keystream(key, counter, off, data.take(cut)) == apply_keystream(
            key,
            counter,
            off,
            data,
        ).take(cut),
{
    assert(apply_keystream(key, counter, off, data.take(cut)) =~= apply_keystream(
        key,
        counter,
        off,
        data,
    ).take(cut));
}

/// Enciphering a concatenation is enciphering the first part, then the
/// second from the advanced state: the keystream never repositions.
pub proof fn lemma_apply_keystream_concat(
    key: Seq<u8>,
    counter: u128,
    off: nat,
    a: Seq<u8>,
    b: Seq<u8>,
)
    requires
        off < 16,
    ensures
        apply_keystream(key, counter, off, a + b) == apply_keystream(key, counter, off, a)
            + apply_keystream(
            key,
            ctr_add(counter, (off + a.len()) / 16),
            (off + a.len()) % 16,
            b,
        ),
{
    let t = off + a.len();
    let c2 = ctr_add(counter, t / 16);
    let off2 = t % 16;
    assert forall|m: nat| ks_byte(key, c2, off2, m) == ks_byte(key, counter, off, a.len() + m) by {
        let s = off2 + m;
        assert(t == 16 * (t / 16) + off2) by {
            vstd::arithmetic::div_mod::lemma_fundamental_div_mod(t as int, 16int);
        };
        assert((t + m) == 16 * (t / 16) + s);
        assert((t + m) / 16 == t / 16 + s / 16 && (t + m) % 16 == s % 16) by {
            vstd::arithmetic::div_mod::lemma_fundamental_div_mod(s as int, 16int);
            vstd::arithmetic::div_mod::lemma_fundamental_div_mod((t + m) as int, 16int);
            vstd::arithmetic::div_mod::lemma_fundamental_div_mod_converse(
                (t + m) as int,
                16int,
                (t / 16 + s / 16) as int,
                (s % 16) as int,
            );
        };
        lemma_ctr_add_add(counter, t / 16, s / 16);
    };
    assert(apply_keystream(key, counter, off, a + b) =~= apply_keystream(key, counter, off, a)
        + apply_keystream(key, c2, off2, b));
}

} // verus!
