//! The owned byte region that crosses the boundary.
use vstd::prelude::*;

verus! {

/// A length-prefixed byte region with a single owner. The bytes in use are
/// `[0, len)`; `capacity` is at least `len`. Ownership moves with the value,
/// and consuming it with `free` releases it exactly once.
pub struct Buffer {
    capacity: usize,
    data: Vec<u8>,
}

impl View for Buffer {
    type V = Seq<u8>;

    closed spec fn view(&self) -> Seq<u8> {
        self.data@
    }
}

/// Appends `src[from..to]` to `dst`.
pub fn append_range(dst: &mut Vec<u8>, src: &[u8], from: usize, to: usize)
    requires
        from <= to <= src@.len(),
    ensures
        final(dst)@ == old(dst)@ + src@.subrange(from as int, to as int),
{
    let mut i: usize = from;
    while i < to
        invariant
            from <= i <= to <= src@.len(),
            dst@ == old(dst)@ + src@.subrange(from as int, i as int),
        decreases to - i,
    {
        dst.push(src[i]);
        i = i + 1;
        assert(dst@ =~= old(dst)@ + src@.subrange(from as int, i as int));
    }
}

impl Buffer {
    pub closed spec fn spec_capacity(&self) -> nat {
        self.capacity as nat
    }

    /// The buffer's capacity covers its bytes.
    pub closed spec fn wf(&self) -> bool {
        self.data@.len() <= self.capacity
    }

    /// A fresh buffer of `size` zero bytes.
    pub fn allocate(size: usize) -> (r: Buffer)
        ensures
            r.wf(),
            r@ == Seq::new(size as nat, |i: int| 0u8),
            r.spec_capacity() >= size,
    {
        let mut data: Vec<u8> = Vec::new();
        let mut i: usize = 0;
        while i < size
            invariant
                i <= size,
                data@ == Seq::new(i as nat, |j: int| 0u8),
            decreases size - i,
        {
            data.push(0u8);
            i = i + 1;
            assert(data@ =~= Seq::new(i as nat, |j: int| 0u8));
        }
        Buffer { capacity: size, data }
    }

    /// A new buffer holding a copy of `bytes`.
    pub fn from_bytes(bytes: &[u8]) -> (r: Buffer)
        ensures
            r.wf(),
            r@ == bytes@,
            r.spec_capacity() == bytes@.len(),
    {
        let mut data: Vec<u8> = Vec::new();
        append_range(&mut data, bytes, 0, bytes.len());
        assert(data@ =~= bytes@);
        Buffer { capacity: bytes.len(), data }
    }

    /// A buffer that takes over `data`.
    pub fn from_vec(data: Vec<u8>) -> (r: Buffer)
        ensures
            r.wf(),
            r@ == data@,
            r.spec_capacity() == data@.len(),
    {
        Buffer { capacity: data.len(), data }
    }

    /// An empty buffer: what an unused error slot holds.
    pub fn empty() -> (r: Buffer)
        ensures
            r.wf(),
            r@ == Seq::<u8>::empty(),
            r.spec_capacity() == 0,
    {
        Buffer { capacity: 0, data: Vec::new() }
    }

    /// The number of bytes in use.
    pub fn len(&self) -> (r: usize)
        ensures
            r == self@.len(),
    {
        self.data.len()
    }

    pub fn capacity(&self) -> (r: usize)
        ensures
            r == self.spec_capacity(),
    {
        self.capacity
    }

    /// Read-only view of the bytes `[0, len)`.
    pub fn as_bytes(&self) -> (r: &[u8])
        ensures
            r@ == self@,
    {
        self.data.as_slice()
    }

    /// Grows the capacity by `additional`; the bytes are kept. The old buffer
    /// is consumed, so it cannot be used after the call.
    pub fn reserve(self, additional: usize) -> (r: Buffer)
        requires
            self.wf(),
            self.spec_capacity() + additional <= usize::MAX,
        ensures
            r.wf(),
            r@ == self@,
            r.spec_capacity() == self.spec_capacity() + additional,
    {
        Buffer { capacity: self.capacity + additional, data: self.data }
    }

    /// Releases the buffer. Taking it by value makes a second release, or a
    /// use after release, impossible.
    pub fn free(self) {
    }
}

} // verus!
