//! An in-memory byte source with a read position.

use vstd::prelude::*;

verus! {

/// A byte buffer together with a read position.
///
/// The position may be moved anywhere in the `u64` range, also past the end of
/// the buffer; a read that cannot be served in full yields nothing and leaves
/// the position where it was.
pub struct ByteSource {
    data: Vec<u8>,
    pos: u64,
}

/// The part of `bytes` that starts at `start` and is `count` long, or `None`
/// where the buffer does not hold all of it.
pub open spec fn window(bytes: Seq<u8>, start: int, count: int) -> Option<Seq<u8>> {
    if 0 <= start && 0 <= count && start + count <= bytes.len() {
        Some(bytes.subrange(start, start + count))
    } else {
        None
    }
}

impl ByteSource {
    /// The bytes that the source holds.
    pub closed spec fn bytes(&self) -> Seq<u8> {
        self.data@
    }

    /// The current read position.
    pub closed spec fn pos(&self) -> u64 {
        self.pos
    }

    /// The length of the buffer fits the machine's address width.
    pub proof fn lemma_len_fits(&self)
        ensures
            self.bytes().len() <= usize::MAX,
    {
        assert(self.data@.len() == self.data.len());
    }

    /// A source over `data`, positioned at its first byte.
    pub fn new(data: Vec<u8>) -> (s: Self)
        ensures
            s.bytes() == data@,
            s.pos() == 0,
    {
        ByteSource { data, pos: 0 }
    }

    /// The number of bytes in the source.
    pub fn len(&self) -> (n: u64)
        ensures
            n == self.bytes().len(),
    {
        self.data.len() as u64
    }

    /// The current read position.
    pub fn position(&self) -> (p: u64)
        ensures
            p == self.pos(),
    {
        self.pos
    }

    /// Moves the read position to `pos`, which may lie past the end.
    pub fn seek(&mut self, pos: u64)
        ensures
            final(self).pos() == pos,
            final(self).bytes() == old(self).bytes(),
    {
        self.pos = pos;
    }

    /// True when no byte is left at or after the read position.
    pub fn at_end(&self) -> (b: bool)
        ensures
            b == (self.pos() >= self.bytes().len()),
    {
        self.pos >= self.data.len() as u64
    }

    /// The byte at `index`, without moving the read position.
    pub fn byte_at(&self, index: u64) -> (r: Option<u8>)
        ensures
            r == (if index < self.bytes().len() {
                Some(self.bytes()[index as int])
            } else {
                None
            }),
    {
        if index < self.data.len() as u64 {
            Some(self.data[index as usize])
        } else {
            None
        }
    }

    /// A copy of the `count` bytes that start at `start`, without moving the
    /// read position; `None` where the source does not hold all of them.
    pub fn slice(&self, start: u64, count: u64) -> (r: Option<Vec<u8>>)
        ensures
            match r {
                Some(v) => window(self.bytes(), start as int, count as int) == Some(v@),
                None => window(self.bytes(), start as int, count as int) is None,
            },
    {
        let len: u64 = self.data.len() as u64;
        if start > len || count > len - start {
            return None;
        }
        let mut out: Vec<u8> = Vec::new();
        let mut i: u64 = 0;
        while i < count
            invariant
                len == self.data@.len(),
                len <= usize::MAX,
                start <= len,
                count <= len - start,
                i <= count,
                out@ == self.data@.subrange(start as int, start + i),
            decreases count - i,
        {
            let ghost before = out@;
            out.push(self.data[(start + i) as usize]);
            assert(out@ =~= self.data@.subrange(start as int, start + i + 1)) by {
                assert(out@ == before.push(self.data@[start + i]));
            }
            i = i + 1;
        }
        Some(out)
    }

    /// Reads the byte at the read position and steps over it.
    pub fn read_byte(&mut self) -> (r: Option<u8>)
        ensures
            final(self).bytes() == old(self).bytes(),
            match r {
                Some(b) => {
                    &&& old(self).pos() < old(self).bytes().len()
                    &&& b == old(self).bytes()[old(self).pos() as int]
                    &&& final(self).pos() == old(self).pos() + 1
                },
                None => {
                    &&& old(self).pos() >= old(self).bytes().len()
                    &&& final(self).pos() == old(self).pos()
                },
            },
    {
        match self.byte_at(self.pos) {
            Some(b) => {
                proof {
                    self.lemma_len_fits();
                }
                self.pos = self.pos + 1;
                Some(b)
            },
            None => None,
        }
    }

    /// Reads exactly `count` bytes from the read position and steps over
    /// them; where fewer are left, nothing is read.
    pub fn read_exact(&mut self, count: u64) -> (r: Option<Vec<u8>>)
        ensures
            final(self).bytes() == old(self).bytes(),
            match r {
                Some(v) => {
                    &&& window(old(self).bytes(), old(self).pos() as int, count as int) == Some(v@)
                    &&& final(self).pos() == old(self).pos() + count
                },
                None => {
                    &&& window(old(self).bytes(), old(self).pos() as int, count as int) is None
                    &&& final(self).pos() == old(self).pos()
                },
            },
    {
        match self.slice(self.pos, count) {
            Some(v) => {
                proof {
                    self.lemma_len_fits();
                }
                self.pos = self.pos + count;
                Some(v)
            },
            None => None,
        }
    }
}

} // verus!
