//! Big-endian integers in byte strings.

use vstd::prelude::*;
use vstd::arithmetic::div_mod::lemma_mul_mod_noop_general;
use vstd::arithmetic::div_mod::lemma_add_mod_noop;
use vstd::arithmetic::div_mod::lemma_small_mod;

verus! {

/// The number that a byte string spells when it is read as one unsigned
/// integer, most significant byte first.
pub open spec fn be_value(s: Seq<u8>) -> nat
    decreases s.len(),
{
    if s.len() == 0 {
        0
    } else {
        be_value(s.drop_last()) * 256 + s.last() as nat
    }
}

/// The big-endian number in the `width` bytes of `data` that start at `at`.
pub open spec fn field(data: Seq<u8>, at: int, width: int) -> nat {
    be_value(data.subrange(at, at + width))
}

/// `256` to the power `n`.
pub open spec fn pow256(n: nat) -> nat
    decreases n,
{
    if n == 0 {
        1
    } else {
        256 * pow256((n - 1) as nat)
    }
}

/// A byte string of `n` bytes spells a number below `256^n`.
pub proof fn lemma_be_value_bound(s: Seq<u8>)
    ensures
        be_value(s) < pow256(s.len()),
    decreases s.len(),
{
    if s.len() > 0 {
        lemma_be_value_bound(s.drop_last());
    }
}

/// Appending one byte shifts the number by eight bits and adds the byte.
pub proof fn lemma_be_value_push(s: Seq<u8>, b: u8)
    ensures
        be_value(s.push(b)) == be_value(s) * 256 + b as nat,
{
    assert(s.push(b).drop_last() =~= s);
}

proof fn lemma_shift_in_u32(r: u32, b: u8)
    ensures
        ((r << 8) | (b as u32)) as int == (r as int * 256 + b as int) % 0x1_0000_0000,
{
    assert(((r << 8) | (b as u32)) == ((r as u64 * 256 + b as u64) % 0x1_0000_0000) as u32)
        by (bit_vector);
    assert((r as u64 * 256 + b as u64) % 0x1_0000_0000 == (r as int * 256 + b as int)
        % 0x1_0000_0000);
}

proof fn lemma_shift_in_u16(r: u16, b: u8)
    ensures
        ((r << 8) | (b as u16)) as int == (r as int * 256 + b as int) % 0x1_0000,
{
    assert(((r << 8) | (b as u16)) == ((r as u32 * 256 + b as u32) % 0x1_0000) as u16)
        by (bit_vector);
    assert((r as u32 * 256 + b as u32) % 0x1_0000 == (r as int * 256 + b as int) % 0x1_0000);
}

proof fn lemma_shift_in_u64(r: u64, b: u8)
    ensures
        ((r << 8) | (b as u64)) as int == (r as int * 256 + b as int) % 0x1_0000_0000_0000_0000,
{
    assert(((r << 8) | (b as u64)) == ((r as u128 * 256 + b as u128) % 0x1_0000_0000_0000_0000)
        as u64) by (bit_vector);
    assert((r as u128 * 256 + b as u128) % 0x1_0000_0000_0000_0000 == (r as int * 256 + b as int)
        % 0x1_0000_0000_0000_0000);
}

proof fn lemma_mod_step(x: int, b: int, m: int)
    requires
        m > 0,
    ensures
        ((x % m) * 256 + b) % m == (x * 256 + b) % m,
{
    lemma_mul_mod_noop_general(x, 256, m);
    lemma_add_mod_noop((x % m) * 256, b, m);
    lemma_add_mod_noop(x * 256, b, m);
}

/// Reads `len` bytes of `buf` from `start` as one big-endian integer and keeps
/// its low 32 bits. With `len <= 4` nothing is cut off.
pub fn concat_bytes_as_u32(buf: &[u8], start: usize, len: usize) -> (ret: u32)
    requires
        start + len <= buf.len(),
    ensures
        ret as nat == field(buf@, start as int, len as int) % 0x1_0000_0000,
        len <= 4 ==> ret as nat == field(buf@, start as int, len as int),
{
    let end: usize = start + len;
    let mut ret: u32 = 0;
    let mut i: usize = start;
    while i < end
        invariant
            end == start + len,
            start <= i <= end <= buf.len(),
            ret as nat == be_value(buf@.subrange(start as int, i as int)) % 0x1_0000_0000,
        decreases end - i,
    {
        let b: u8 = buf[i];
        proof {
            let prev = buf@.subrange(start as int, i as int);
            assert(buf@.subrange(start as int, i + 1) =~= prev.push(b));
            lemma_be_value_push(prev, b);
            lemma_shift_in_u32(ret, b);
            lemma_mod_step(be_value(prev) as int, b as int, 0x1_0000_0000);
        }
        ret = (ret << 8) | (b as u32);
        i = i + 1;
    }
    proof {
        if len <= 4 {
            lemma_be_value_width(buf@.subrange(start as int, start + len), 4);
            lemma_pow256_values();
            lemma_small_mod(be_value(buf@.subrange(start as int, start + len)), 0x1_0000_0000);
        }
    }
    ret
}

/// Reads `len` bytes of `buf` from `start` as one big-endian integer and keeps
/// its low 16 bits. With `len <= 2` nothing is cut off.
pub fn concat_bytes_as_u16(buf: &[u8], start: usize, len: usize) -> (ret: u16)
    requires
        start + len <= buf.len(),
    ensures
        ret as nat == field(buf@, start as int, len as int) % 0x1_0000,
        len <= 2 ==> ret as nat == field(buf@, start as int, len as int),
{
    let end: usize = start + len;
    let mut ret: u16 = 0;
    let mut i: usize = start;
    while i < end
        invariant
            end == start + len,
            start <= i <= end <= buf.len(),
            ret as nat == be_value(buf@.subrange(start as int, i as int)) % 0x1_0000,
        decreases end - i,
    {
        let b: u8 = buf[i];
        proof {
            let prev = buf@.subrange(start as int, i as int);
            assert(buf@.subrange(start as int, i + 1) =~= prev.push(b));
            lemma_be_value_push(prev, b);
            lemma_shift_in_u16(ret, b);
            lemma_mod_step(be_value(prev) as int, b as int, 0x1_0000);
        }
        ret = (ret << 8) | (b as u16);
        i = i + 1;
    }
    proof {
        if len <= 2 {
            lemma_be_value_width(buf@.subrange(start as int, start + len), 2);
            lemma_pow256_values();
            lemma_small_mod(be_value(buf@.subrange(start as int, start + len)), 0x1_0000);
        }
    }
    ret
}

/// Reads `len` bytes of `buf` from `start` as one big-endian integer and keeps
/// its low 64 bits. With `len <= 8` nothing is cut off.
pub fn concat_bytes_as_u64(buf: &[u8], start: usize, len: usize) -> (ret: u64)
    requires
        start + len <= buf.len(),
    ensures
        ret as nat == field(buf@, start as int, len as int) % 0x1_0000_0000_0000_0000,
        len <= 8 ==> ret as nat == field(buf@, start as int, len as int),
{
    let end: usize = start + len;
    let mut ret: u64 = 0;
    let mut i: usize = start;
    while i < end
        invariant
            end == start + len,
            start <= i <= end <= buf.len(),
            ret as nat == be_value(buf@.subrange(start as int, i as int)) % 0x1_0000_0000_0000_0000,
        decreases end - i,
    {
        let b: u8 = buf[i];
        proof {
            let prev = buf@.subrange(start as int, i as int);
            assert(buf@.subrange(start as int, i + 1) =~= prev.push(b));
            lemma_be_value_push(prev, b);
            lemma_shift_in_u64(ret, b);
            lemma_mod_step(be_value(prev) as int, b as int, 0x1_0000_0000_0000_0000);
        }
        ret = (ret << 8) | (b as u64);
        i = i + 1;
    }
    proof {
        if len <= 8 {
            lemma_be_value_width(buf@.subrange(start as int, start + len), 8);
            lemma_pow256_values();
            lemma_small_mod(be_value(buf@.subrange(start as int, start + len)), 0x1_0000_0000_0000_0000);
        }
    }
    ret
}

/// `256^n` grows with `n`, so a string of at most `n` bytes spells a number
/// below `256^n`.
pub proof fn lemma_be_value_width(s: Seq<u8>, n: nat)
    requires
        s.len() <= n,
    ensures
        be_value(s) < pow256(n),
{
    lemma_be_value_bound(s);
    lemma_pow256_monotonic(s.len(), n);
}

/// The powers of 256 that the fixed-width integers of a message need.
pub proof fn lemma_pow256_values()
    ensures
        pow256(0) == 1,
        pow256(1) == 0x100,
        pow256(2) == 0x1_0000,
        pow256(3) == 0x100_0000,
        pow256(4) == 0x1_0000_0000,
        pow256(8) == 0x1_0000_0000_0000_0000,
{
    reveal_with_fuel(pow256, 9);
}

/// `256^a <= 256^b` whenever `a <= b`.
pub proof fn lemma_pow256_monotonic(a: nat, b: nat)
    requires
        a <= b,
    ensures
        pow256(a) <= pow256(b),
    decreases b,
{
    if a < b {
        lemma_pow256_monotonic(a, (b - 1) as nat);
    }
}

} // verus!
