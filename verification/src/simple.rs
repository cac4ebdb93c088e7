//! Simple packing (data representation template 5.0).
//!
//! The data are the packed integers one after the other, each of the same
//! number of bits, most significant bit first, with no padding between
//! them. Bits after the last value are padding.

use vstd::prelude::*;
use vstd::arithmetic::div_mod::lemma_div_denominator;
use vstd::arithmetic::div_mod::lemma_basic_div;
use vstd::arithmetic::power2::lemma2_to64;
use vstd::arithmetic::power2::lemma_pow2_pos;
use vstd::arithmetic::power2::lemma_pow2_unfold;
use vstd::arithmetic::power2::pow2;
use crate::bits::bit_at;
use crate::bits::bits_value;
use crate::bits::lemma_bits_value_bound;
use crate::bits::BitReader;
use crate::error::DecodeError;

verus! {

/// The first `count` integers of `width` bits in a byte string.
pub open spec fn simple_values(data: Seq<u8>, width: nat, count: nat) -> Seq<Option<u32>> {
    Seq::new(count, |i: int| Some(bits_value(data, i * width, width) as u32))
}

/// What unpacking `count` integers of `width` bits gives: the integers, or
/// `UnsupportedFeature` for a width above 32 bits, or `Truncated` where the
/// bytes hold fewer than `count * width` bits.
pub open spec fn unpack_simple_spec(data: Seq<u8>, width: u8, count: u32) -> Result<
    Seq<Option<u32>>,
    DecodeError,
> {
    if width > 32 {
        Err(DecodeError::UnsupportedFeature)
    } else if count * width > 8 * data.len() {
        Err(DecodeError::Truncated)
    } else {
        Ok(simple_values(data, width as nat, count as nat))
    }
}

/// Binary digit `k` of a number of `width` digits, digit 0 being the most
/// significant.
pub open spec fn digit(value: nat, width: nat, k: int) -> nat {
    (value / pow2((width - 1 - k) as nat)) % 2
}

/// Whether a byte string holds the given numbers packed: the bits of the
/// string are the binary digits of the numbers, `width` digits for each,
/// one number after the other.
pub open spec fn holds_packed(data: Seq<u8>, values: Seq<u32>, width: nat) -> bool {
    &&& values.len() * width <= 8 * data.len()
    &&& forall|i: int| 0 <= i < values.len() ==> (#[trigger] values[i]) < pow2(width)
    &&& forall|i: int, k: int|
        0 <= i < values.len() && 0 <= k < width ==> #[trigger] bit_at(data, i * width + k) == digit(
            values[i] as nat,
            width,
            k,
        )
}

/// The first `n` of the `width` bits of a packed number spell the number
/// without its last `width - n` digits.
proof fn lemma_leading_digits(data: Seq<u8>, start: int, value: nat, width: nat, n: nat)
    requires
        n <= width,
        value < pow2(width),
        forall|k: int| 0 <= k < width ==> #[trigger] bit_at(data, start + k) == digit(value, width, k),
    ensures
        bits_value(data, start, n) == value / pow2((width - n) as nat),
    decreases n,
{
    if n == 0 {
        lemma_basic_div(value as int, pow2(width) as int);
    } else {
        lemma_leading_digits(data, start, value, width, (n - 1) as nat);
        let low = pow2((width - n) as nat);
        lemma_pow2_pos((width - n) as nat);
        lemma_pow2_unfold((width - n + 1) as nat);
        lemma_div_denominator(value as int, low as int, 2);
        assert(low * 2 == 2 * low) by (nonlinear_arith);
        assert(bit_at(data, start + (n - 1)) == digit(value, width, n - 1));
    }
}

/// Packing and unpacking give the numbers back: a byte string that holds
/// numbers packed with a width of at most 32 bits is unpacked to exactly
/// these numbers, and no point is missing.
pub proof fn lemma_unpack_packed(data: Seq<u8>, values: Seq<u32>, width: u8)
    requires
        width <= 32,
        values.len() <= u32::MAX,
        holds_packed(data, values, width as nat),
    ensures
        unpack_simple_spec(data, width, values.len() as u32) == Ok::<Seq<Option<u32>>, DecodeError>(
            values.map_values(|v: u32| Some(v)),
        ),
{
    let unpacked = simple_values(data, width as nat, values.len());
    let wanted = values.map_values(|v: u32| Some(v));
    assert forall|i: int| 0 <= i < values.len() implies unpacked[i] == wanted[i] by {
        assert forall|k: int| 0 <= k < width implies #[trigger] bit_at(data, i * width + k) == digit(
            values[i] as nat,
            width as nat,
            k,
        ) by {}
        lemma_leading_digits(data, i * width, values[i] as nat, width as nat, width as nat);
        lemma2_to64();
    }
    assert(unpacked =~= wanted);
    assert(values.len() as u32 * width == values.len() * width);
}

/// Unpacks `count` integers of `width` bits each from the body of
/// Section 7. No point of the result is missing.
pub fn unpack_simple(data: &[u8], width: u8, count: u32) -> (r: Result<
    Vec<Option<u32>>,
    DecodeError,
>)
    ensures
        match r {
            Ok(values) => unpack_simple_spec(data@, width, count) == Ok::<
                Seq<Option<u32>>,
                DecodeError,
            >(values@),
            Err(e) => unpack_simple_spec(data@, width, count) == Err::<
                Seq<Option<u32>>,
                DecodeError,
            >(e),
        },
{
    if width > 32 {
        return Err(DecodeError::UnsupportedFeature);
    }
    let mut reader = BitReader::new(data);
    let mut values: Vec<Option<u32>> = Vec::new();
    let mut i: u32 = 0;
    proof {
        assert(0 * width == 0) by (nonlinear_arith);
    }
    while i < count
        invariant
            width <= 32,
            i <= count,
            reader.wf(),
            reader.source() == data@,
            reader.offset() == i * width,
            values@ == simple_values(data@, width as nat, i as nat),
        decreases count - i,
    {
        proof {
            assert((i + 1) * width == i * width + width) by (nonlinear_arith);
        }
        match reader.read_bits(width as u32) {
            Ok(value) => {
                values.push(Some(value));
                proof {
                    assert(values@ =~= simple_values(data@, width as nat, (i + 1) as nat));
                }
            },
            Err(e) => {
                proof {
                    reader.lemma_offset_bound();
                    assert((i + 1) * width <= count * width) by (nonlinear_arith)
                        requires
                            i + 1 <= count,
                    ;
                }
                return Err(e);
            },
        }
        i = i + 1;
    }
    proof {
        reader.lemma_offset_bound();
    }
    Ok(values)
}

} // verus!
