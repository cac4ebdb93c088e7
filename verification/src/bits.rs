//! Reading a byte string as a stream of bits, most significant bit first.

use vstd::prelude::*;
use vstd::arithmetic::power2::pow2;
use vstd::arithmetic::power2::lemma_pow2_unfold;
use vstd::arithmetic::power2::lemma_pow2_strictly_increases;
use vstd::arithmetic::power2::lemma2_to64;
use crate::error::DecodeError;

verus! {

/// Bit `k` of a byte, counted from the most significant bit, as 0 or 1.
pub open spec fn bit_of(byte: u8, k: int) -> nat {
    ((byte >> ((7 - k) as u8)) & 1u8) as nat
}

/// Bit `i` of a byte string, as 0 or 1. Bit 0 is the most significant bit of
/// the first byte.
pub open spec fn bit_at(data: Seq<u8>, i: int) -> nat {
    bit_of(data[i / 8], i % 8)
}

/// The unsigned integer that the `n` bits from bit `start` on spell, most
/// significant bit first.
pub open spec fn bits_value(data: Seq<u8>, start: int, n: nat) -> nat
    decreases n,
{
    if n == 0 {
        0
    } else {
        2 * bits_value(data, start, (n - 1) as nat) + bit_at(data, start + n - 1)
    }
}

/// A bit is 0 or 1.
pub proof fn lemma_bit_of_range(byte: u8, k: int)
    requires
        0 <= k < 8,
    ensures
        bit_of(byte, k) <= 1,
{
    let s = (7 - k) as u8;
    assert((byte >> s) & 1u8 <= 1) by (bit_vector);
}

/// `n` bits spell a number below `2^n`.
pub proof fn lemma_bits_value_bound(data: Seq<u8>, start: int, n: nat)
    requires
        0 <= start,
    ensures
        bits_value(data, start, n) < pow2(n),
    decreases n,
{
    if n == 0 {
        lemma2_to64();
    } else {
        lemma_bits_value_bound(data, start, (n - 1) as nat);
        lemma_bit_of_range(data[(start + n - 1) / 8], (start + n - 1) % 8);
        lemma_pow2_unfold(n);
    }
}

/// A place in a byte string, counted in bits. Reads hand out the number that
/// the next bits spell and move past them.
pub struct BitReader<'a> {
    data: &'a [u8],
    byte: usize,
    bit: u8,
}

impl<'a> BitReader<'a> {
    /// The whole byte string that the reader walks.
    pub closed spec fn source(&self) -> Seq<u8> {
        self.data@
    }

    /// How many bits have been consumed.
    pub closed spec fn offset(&self) -> nat {
        (self.byte * 8 + self.bit) as nat
    }

    /// The position lies inside the byte string or at its end.
    pub closed spec fn wf(&self) -> bool {
        &&& self.bit < 8
        &&& self.byte <= self.data@.len()
        &&& self.byte == self.data@.len() ==> self.bit == 0
    }

    /// How many bits are still to be read.
    pub open spec fn left(&self) -> nat {
        (8 * self.source().len() - self.offset()) as nat
    }

    /// After a read of `n` bits from `before`: same bytes, `n` bits further
    /// on.
    pub open spec fn moved(&self, before: &BitReader, n: nat) -> bool {
        &&& self.wf()
        &&& self.source() == before.source()
        &&& self.offset() == before.offset() + n
    }

    /// The position of a well-formed reader is within the bits of its
    /// source.
    pub proof fn lemma_offset_bound(&self)
        requires
            self.wf(),
        ensures
            self.offset() <= 8 * self.source().len(),
    {
    }

    /// A reader at the first bit of `data`.
    pub fn new(data: &'a [u8]) -> (r: Self)
        ensures
            r.wf(),
            r.source() == data@,
            r.offset() == 0,
    {
        BitReader { data, byte: 0, bit: 0 }
    }

    /// Whether at least `n` bits are left.
    pub fn has_bits(&self, n: u32) -> (b: bool)
        requires
            self.wf(),
            n <= 32,
        ensures
            b == (n <= self.left()),
    {
        let bytes_left: usize = self.data.len() - self.byte;
        if bytes_left >= 5 {
            true
        } else {
            n <= (bytes_left as u32) * 8 - self.bit as u32
        }
    }

    /// Reads the next `n` bits as an unsigned integer, most significant bit
    /// first, or fails with `Truncated` and stays in place when fewer than
    /// `n` bits are left. Reading no bits gives 0.
    pub fn read_bits(&mut self, n: u32) -> (r: Result<u32, DecodeError>)
        requires
            old(self).wf(),
            n <= 32,
        ensures
            match r {
                Ok(value) => {
                    &&& n <= old(self).left()
                    &&& value == bits_value(old(self).source(), old(self).offset() as int, n as nat)
                    &&& final(self).moved(old(self), n as nat)
                },
                Err(e) => {
                    &&& e == DecodeError::Truncated
                    &&& n > old(self).left()
                    &&& final(self).moved(old(self), 0)
                },
            },
    {
        if !self.has_bits(n) {
            return Err(DecodeError::Truncated);
        }
        let ghost start = self.offset() as int;
        let ghost data = self.data@;
        let mut acc: u64 = 0;
        let mut k: u32 = 0;
        proof {
            lemma2_to64();
        }
        while k < n
            invariant
                k <= n <= 32,
                self.wf(),
                self.data@ == data,
                self.offset() == start + k,
                start + n <= 8 * data.len(),
                acc == bits_value(data, start, k as nat),
                acc < pow2(k as nat),
            decreases n - k,
        {
            let byte: u8 = self.data[self.byte];
            let shift: u8 = 7 - self.bit;
            let b: u8 = (byte >> shift) & 1;
            proof {
                assert((byte >> shift) & 1u8 <= 1) by (bit_vector);
                assert((start + k) / 8 == self.byte as int);
                assert((start + k) % 8 == self.bit as int);
                assert(b as nat == bit_at(data, start + k));
                lemma_pow2_unfold((k + 1) as nat);
                lemma_pow2_strictly_increases((k + 1) as nat, 33);
                lemma2_to64();
            }
            acc = acc * 2 + b as u64;
            if self.bit == 7 {
                self.bit = 0;
                self.byte = self.byte + 1;
            } else {
                self.bit = self.bit + 1;
            }
            k = k + 1;
        }
        proof {
            lemma2_to64();
            if n < 32 {
                lemma_pow2_strictly_increases(n as nat, 32);
            }
        }
        Ok(acc as u32)
    }
}

} // verus!
