//! A read position over an immutable byte buffer.

use vstd::prelude::*;
use vstd::slice::slice_subrange;

verus! {

/// A byte buffer together with the offset of the next unread byte.
///
/// The offset never passes the end of the buffer.
pub struct ByteCursor<'a> {
    data: &'a [u8],
    pos: usize,
}

impl<'a> ByteCursor<'a> {
    #[verifier::type_invariant]
    spec fn in_bounds(&self) -> bool {
        self.pos <= self.data@.len()
    }

    /// The whole buffer, read or not.
    pub closed spec fn bytes(&self) -> Seq<u8> {
        self.data@
    }

    /// The number of bytes already read.
    pub closed spec fn offset(&self) -> nat {
        self.pos as nat
    }

    /// The bytes not yet read.
    pub open spec fn rest(&self) -> Seq<u8> {
        self.bytes().skip(self.offset() as int)
    }

    /// A cursor at the start of `data`.
    pub fn new(data: &'a [u8]) -> (cursor: Self)
        ensures
            cursor.bytes() == data@,
            cursor.offset() == 0,
    {
        ByteCursor { data, pos: 0 }
    }

    /// The number of bytes already read.
    pub fn position(&self) -> (pos: usize)
        ensures
            pos == self.offset(),
            pos <= self.bytes().len(),
    {
        proof {
            use_type_invariant(self);
        }
        self.pos
    }

    /// The number of bytes not yet read.
    pub fn remaining(&self) -> (n: usize)
        ensures
            n == self.rest().len(),
            n == self.bytes().len() - self.offset(),
    {
        proof {
            use_type_invariant(self);
        }
        self.data.len() - self.pos
    }

    /// Reads the next `n` bytes and steps over them, or reads nothing where
    /// fewer than `n` remain.
    pub fn take(&mut self, n: usize) -> (taken: Option<&'a [u8]>)
        ensures
            final(self).bytes() == old(self).bytes(),
            final(self).offset() <= final(self).bytes().len(),
            match taken {
                Some(s) => {
                    &&& n <= old(self).rest().len()
                    &&& s@ == old(self).rest().take(n as int)
                    &&& final(self).offset() == old(self).offset() + n
                },
                None => {
                    &&& n > old(self).rest().len()
                    &&& final(self).offset() == old(self).offset()
                },
            },
    {
        proof {
            use_type_invariant(&*self);
        }
        if n > self.data.len() - self.pos {
            return None;
        }
        let start = self.pos;
        let taken = slice_subrange(self.data, start, start + n);
        self.pos = start + n;
        assert(taken@ =~= old(self).rest().take(n as int));
        Some(taken)
    }

    /// What is left after `n` more bytes have been read is what was left
    /// before, without its first `n` bytes.
    pub proof fn lemma_rest_after(self, before: Self, n: nat)
        requires
            self.bytes() == before.bytes(),
            self.offset() == before.offset() + n,
            self.offset() <= self.bytes().len(),
        ensures
            self.rest() == before.rest().skip(n as int),
    {
        assert(self.rest() =~= before.rest().skip(n as int));
    }

    /// Moves the cursor back to an offset it has already passed. An offset
    /// ahead of the cursor moves nothing.
    pub fn rewind(&mut self, pos: usize)
        ensures
            final(self).bytes() == old(self).bytes(),
            final(self).offset() <= final(self).bytes().len(),
            final(self).offset() == if pos <= old(self).offset() {
                pos as nat
            } else {
                old(self).offset()
            },
    {
        proof {
            use_type_invariant(&*self);
        }
        if pos <= self.pos {
            self.pos = pos;
        }
    }
}

} // verus!
