//! The bit map of Section 6: one bit per grid point, most significant bit
//! first. A 1 says that the next packed value belongs to the point, a 0 that
//! the point is missing and takes no value.

use vstd::prelude::*;
use crate::bits::bit_at;
use crate::bits::lemma_bit_of_range;
use crate::bits::BitReader;
use crate::error::DecodeError;

verus! {

/// Whether the bit map marks grid point `i` as present.
pub open spec fn present(bitmap: Seq<u8>, i: int) -> bool {
    bit_at(bitmap, i) == 1
}

/// The number of points among the first `n` that the bit map marks as
/// present.
pub open spec fn rank(bitmap: Seq<u8>, n: nat) -> nat
    decreases n,
{
    if n == 0 {
        0
    } else {
        rank(bitmap, (n - 1) as nat) + if present(bitmap, n - 1) {
            1nat
        } else {
            0nat
        }
    }
}

/// The values laid out on a grid of `points` points: a present point takes
/// the next value, a missing point takes none.
pub open spec fn spread(values: Seq<Option<u32>>, bitmap: Seq<u8>, points: nat) -> Seq<
    Option<u32>,
> {
    Seq::new(
        points,
        |i: int|
            if present(bitmap, i) {
                values[rank(bitmap, i as nat) as int]
            } else {
                None
            },
    )
}

/// What laying values out by a bit map gives: the grid, or `Truncated` for a
/// bit map of fewer bits than the grid has points, or `InvalidPacking` where
/// the bit map marks more or fewer points as present than there are values.
pub open spec fn apply_bitmap_spec(values: Seq<Option<u32>>, bitmap: Seq<u8>, points: u32) -> Result<
    Seq<Option<u32>>,
    DecodeError,
> {
    if 8 * bitmap.len() < points {
        Err(DecodeError::Truncated)
    } else if rank(bitmap, points as nat) != values.len() {
        Err(DecodeError::InvalidPacking)
    } else {
        Ok(spread(values, bitmap, points as nat))
    }
}

/// The count of present points does not go down as more points are
/// counted, and it is at most the number of points.
pub proof fn lemma_rank_monotonic(bitmap: Seq<u8>, m: nat, n: nat)
    requires
        m <= n,
    ensures
        rank(bitmap, m) <= rank(bitmap, n),
        rank(bitmap, n) <= n,
    decreases n,
{
    if n > 0 {
        if m < n {
            lemma_rank_monotonic(bitmap, m, (n - 1) as nat);
        } else {
            lemma_rank_monotonic(bitmap, (n - 1) as nat, (n - 1) as nat);
        }
    }
}

/// On the grid that a bit map lays out, a point that the bit map marks with
/// a 0 is missing, and a point that it marks with a 1 holds the value whose
/// place among the values is the number of points marked with a 1 before
/// it.
pub proof fn lemma_bitmap_marks(values: Seq<Option<u32>>, bitmap: Seq<u8>, points: u32, i: int)
    requires
        0 <= i < points,
        apply_bitmap_spec(values, bitmap, points) is Ok,
    ensures
        apply_bitmap_spec(values, bitmap, points).unwrap().len() == points,
        !present(bitmap, i) ==> apply_bitmap_spec(values, bitmap, points).unwrap()[i] is None,
        present(bitmap, i) ==> rank(bitmap, i as nat) < values.len() && apply_bitmap_spec(
            values,
            bitmap,
            points,
        ).unwrap()[i] == values[rank(bitmap, i as nat) as int],
{
    lemma_rank_monotonic(bitmap, (i + 1) as nat, points as nat);
}

/// Lays the packed values out on the grid that the bit map describes.
/// `bitmap` is the body of Section 6 after its indicator byte.
pub fn apply_bitmap(values: &[Option<u32>], bitmap: &[u8], points: u32) -> (r: Result<
    Vec<Option<u32>>,
    DecodeError,
>)
    ensures
        match r {
            Ok(grid) => apply_bitmap_spec(values@, bitmap@, points) == Ok::<
                Seq<Option<u32>>,
                DecodeError,
            >(grid@),
            Err(e) => apply_bitmap_spec(values@, bitmap@, points) == Err::<
                Seq<Option<u32>>,
                DecodeError,
            >(e),
        },
{
    let needed: u64 = (points as u64 + 7) / 8;
    if (bitmap.len() as u64) < needed {
        return Err(DecodeError::Truncated);
    }
    let available: usize = values.len();
    let mut reader = BitReader::new(bitmap);
    let mut grid: Vec<Option<u32>> = Vec::new();
    let mut used: usize = 0;
    let mut i: u32 = 0;
    while i < points
        invariant
            i <= points,
            points <= 8 * bitmap@.len(),
            available == values@.len(),
            reader.wf(),
            reader.source() == bitmap@,
            reader.offset() == i,
            used == rank(bitmap@, i as nat),
            used <= available,
            grid@ == spread(values@, bitmap@, i as nat),
        decreases points - i,
    {
        let bit = match reader.read_bits(1) {
            Ok(bit) => bit,
            Err(e) => {
                return Err(e);
            },
        };
        proof {
            reveal_with_fuel(crate::bits::bits_value, 2);
            lemma_bit_of_range(bitmap@[i as int / 8], i as int % 8);
        }
        if bit == 1 {
            if used >= available {
                proof {
                    lemma_rank_monotonic(bitmap@, (i + 1) as nat, points as nat);
                }
                return Err(DecodeError::InvalidPacking);
            }
            grid.push(values[used]);
            used = used + 1;
        } else {
            grid.push(None);
        }
        proof {
            assert(grid@ =~= spread(values@, bitmap@, (i + 1) as nat));
        }
        i = i + 1;
    }
    if used != available {
        return Err(DecodeError::InvalidPacking);
    }
    Ok(grid)
}

} // verus!
