//! A forward-only reader over the bytes of a message.

use vstd::prelude::*;
use vstd::slice::slice_subrange;
use crate::bytes::concat_bytes_as_u16;
use crate::bytes::concat_bytes_as_u32;
use crate::bytes::field;
use crate::error::FormatError;

verus! {

/// A position in a byte string. Reads hand out the bytes at the position and
/// move it forward; nothing moves it back.
pub struct ByteCursor<'a> {
    data: &'a [u8],
    pos: usize,
}

impl<'a> ByteCursor<'a> {
    /// The whole byte string that the cursor walks.
    pub closed spec fn source(&self) -> Seq<u8> {
        self.data@
    }

    /// How many bytes have been consumed.
    pub closed spec fn offset(&self) -> nat {
        self.pos as nat
    }

    /// The position lies inside the byte string or at its end.
    pub open spec fn wf(&self) -> bool {
        self.offset() <= self.source().len() <= usize::MAX
    }

    /// How many bytes are still to be read.
    pub open spec fn left(&self) -> nat {
        (self.source().len() - self.offset()) as nat
    }

    /// The next `n` bytes.
    pub open spec fn upcoming(&self, n: nat) -> Seq<u8> {
        self.source().subrange(self.offset() as int, self.offset() as int + n as int)
    }

    /// After a read of `n` bytes from `before`: same bytes, `n` further on.
    pub open spec fn moved(&self, before: &ByteCursor, n: nat) -> bool {
        &&& self.wf()
        &&& self.source() == before.source()
        &&& self.offset() == before.offset() + n
    }

    /// A cursor at the start of `data`.
    pub fn new(data: &'a [u8]) -> (c: Self)
        ensures
            c.wf(),
            c.source() == data@,
            c.offset() == 0,
    {
        proof {
            assert(data@.len() == data.len());
        }
        ByteCursor { data, pos: 0 }
    }

    /// The number of bytes consumed so far.
    pub fn position(&self) -> (p: usize)
        ensures
            p == self.offset(),
    {
        self.pos
    }

    /// The number of bytes not yet consumed.
    pub fn remaining(&self) -> (n: usize)
        requires
            self.wf(),
        ensures
            n == self.left(),
    {
        self.data.len() - self.pos
    }

    /// The byte `at` places ahead of the position. Nothing is consumed.
    pub fn peek_u8(&self, at: usize) -> (b: u8)
        requires
            self.wf(),
            at < self.left(),
        ensures
            b == self.source()[self.offset() + at],
    {
        self.data[self.pos + at]
    }

    /// The big-endian integer in the `width` bytes that start `at` places
    /// ahead of the position. Nothing is consumed.
    pub fn peek_uint(&self, at: usize, width: usize) -> (value: u32)
        requires
            self.wf(),
            width <= 4,
            at + width <= self.left(),
        ensures
            value as nat == field(self.source(), self.offset() + at, width as int),
    {
        concat_bytes_as_u32(self.data, self.pos + at, width)
    }

    /// The big-endian integer in the two bytes that start `at` places ahead
    /// of the position. Nothing is consumed.
    pub fn peek_u16(&self, at: usize) -> (value: u16)
        requires
            self.wf(),
            at + 2 <= self.left(),
        ensures
            value as nat == field(self.source(), self.offset() + at, 2),
    {
        concat_bytes_as_u16(self.data, self.pos + at, 2)
    }

    /// Whether the next bytes are exactly `pattern`. Nothing is consumed.
    pub fn starts_with(&self, pattern: &[u8]) -> (b: bool)
        requires
            self.wf(),
        ensures
            b <==> (pattern@.len() <= self.left() && self.upcoming(pattern@.len()) == pattern@),
    {
        let n: usize = pattern.len();
        if self.data.len() - self.pos < n {
            return false;
        }
        let mut i: usize = 0;
        while i < n
            invariant
                n == pattern@.len(),
                self.pos + n <= self.data.len(),
                i <= n,
                forall|k: int| 0 <= k < i ==> self.data@[self.pos + k] == pattern@[k],
            decreases n - i,
        {
            if self.data[self.pos + i] != pattern[i] {
                assert(self.upcoming(n as nat)[i as int] != pattern@[i as int]);
                return false;
            }
            i = i + 1;
        }
        assert(self.upcoming(n as nat) =~= pattern@);
        true
    }

    /// Hands out the next `n` bytes and moves past them, or fails with
    /// `Truncated` and stays in place when fewer than `n` are left.
    pub fn read_exact(&mut self, n: usize) -> (r: Result<&'a [u8], FormatError>)
        requires
            old(self).wf(),
        ensures
            final(self).wf(),
            final(self).source() == old(self).source(),
            match r {
                Ok(bytes) => {
                    &&& n <= old(self).left()
                    &&& bytes@ == old(self).upcoming(n as nat)
                    &&& final(self).offset() == old(self).offset() + n
                },
                Err(e) => {
                    &&& e == FormatError::Truncated
                    &&& n > old(self).left()
                    &&& final(self).offset() == old(self).offset()
                },
            },
    {
        if self.data.len() - self.pos < n {
            return Err(FormatError::Truncated);
        }
        let bytes = slice_subrange(self.data, self.pos, self.pos + n);
        self.pos = self.pos + n;
        Ok(bytes)
    }

    /// Moves past the next `n` bytes, or fails with `Truncated` and stays in
    /// place when fewer than `n` are left.
    pub fn skip(&mut self, n: usize) -> (r: Result<(), FormatError>)
        requires
            old(self).wf(),
        ensures
            match r {
                Ok(_) => n <= old(self).left() && final(self).moved(old(self), n as nat),
                Err(e) => e == FormatError::Truncated && n > old(self).left() && final(self).moved(
                    old(self),
                    0,
                ),
            },
    {
        if self.data.len() - self.pos < n {
            return Err(FormatError::Truncated);
        }
        self.pos = self.pos + n;
        Ok(())
    }

    /// Reads a big-endian unsigned integer of `width` bytes, or fails with
    /// `Truncated` and stays in place when fewer than `width` bytes are left.
    pub fn read_uint(&mut self, width: usize) -> (r: Result<u32, FormatError>)
        requires
            old(self).wf(),
            1 <= width <= 4,
        ensures
            final(self).wf(),
            final(self).source() == old(self).source(),
            match r {
                Ok(value) => {
                    &&& width <= old(self).left()
                    &&& value as nat == field(
                        old(self).source(),
                        old(self).offset() as int,
                        width as int,
                    )
                    &&& final(self).offset() == old(self).offset() + width
                },
                Err(e) => {
                    &&& e == FormatError::Truncated
                    &&& width > old(self).left()
                    &&& final(self).offset() == old(self).offset()
                },
            },
    {
        match self.read_exact(width) {
            Ok(bytes) => {
                assert(bytes@.subrange(0, 0 + width as int) =~= old(self).source().subrange(
                    old(self).offset() as int,
                    old(self).offset() as int + width as int,
                ));
                Ok(concat_bytes_as_u32(bytes, 0, width))
            },
            Err(e) => Err(e),
        }
    }
}

} // verus!
