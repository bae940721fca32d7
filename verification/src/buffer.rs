use vstd::prelude::*;
use vstd::pervasive::VecAdditionalExecFns;

verus! {

/// Growable byte buffer with a contiguous view.
///
/// Transports prepend small headers to an already serialized payload and
/// callers strip consumed prefixes after each successful unpack, so the
/// buffer offers pushes at both ends and cheap removal of a prefix range.
pub struct DequeBuffer {
    data: Vec<u8>,
}

impl View for DequeBuffer {
    type V = Seq<u8>;

    closed spec fn view(&self) -> Seq<u8> {
        self.data@
    }
}

impl DequeBuffer {
    /// Creates an empty buffer.
    pub fn new() -> (r: DequeBuffer)
        ensures
            r@ == Seq::<u8>::empty(),
    {
        DequeBuffer { data: Vec::new() }
    }

    /// Number of bytes currently held.
    pub fn len(&self) -> (r: usize)
        ensures
            r == self@.len(),
    {
        self.data.len()
    }

    /// Reads the byte at position `i`.
    pub fn get(&self, i: usize) -> (r: u8)
        requires
            i < self@.len(),
        ensures
            r == self@[i as int],
    {
        self.data[i]
    }

    /// Overwrites the byte at position `i`.
    pub fn set(&mut self, i: usize, b: u8)
        requires
            i < old(self)@.len(),
        ensures
            final(self)@ == old(self)@.update(i as int, b),
    {
        self.data.set(i, b);
    }

    /// Appends one byte at the back.
    pub fn push(&mut self, b: u8)
        ensures
            final(self)@ == old(self)@.push(b),
    {
        self.data.push(b);
    }

    /// Appends a slice of bytes at the back.
    pub fn extend_from_slice(&mut self, other: &[u8])
        ensures
            final(self)@ == old(self)@ + other@,
    {
        self.data.extend_from_slice(other);
    }

    /// Prepends a slice of bytes at the front.
    pub fn extend_front(&mut self, head: &[u8])
        ensures
            final(self)@ == head@ + old(self)@,
    {
        let mut out: Vec<u8> = Vec::new();
        out.extend_from_slice(head);
        out.append(&mut self.data);
        self.data = out;
    }

    /// Removes the first `n` bytes, keeping the rest.
    pub fn skip_prefix(&mut self, n: usize)
        requires
            n <= old(self)@.len(),
        ensures
            final(self)@ == old(self)@.skip(n as int),
    {
        let rest = self.data.split_off(n);
        self.data = rest;
    }

    /// Copies the bytes of `[start, end)` into a fresh vector.
    pub fn subvec(&self, start: usize, end: usize) -> (r: Vec<u8>)
        requires
            start <= end <= self@.len(),
        ensures
            r@ == self@.subrange(start as int, end as int),
    {
        let mut out: Vec<u8> = Vec::new();
        let mut i: usize = start;
        while i < end
            invariant
                start <= i <= end <= self@.len(),
                out@ == self@.subrange(start as int, i as int),
            decreases end - i,
        {
            out.push(self.data[i]);
            assert(self@.subrange(start as int, i + 1) == self@.subrange(
                start as int,
                i as int,
            ).push(self@[i as int]));
            i = i + 1;
        }
        out
    }
}

} // verus!
