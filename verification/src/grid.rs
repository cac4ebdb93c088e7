//! A decoded grid and its raw binary form.

use vstd::prelude::*;

verus! {

/// The order of the four bytes of a value in the output.
#[derive(Debug, Clone, Copy, PartialEq, Eq)]
pub enum ByteOrder {
    /// Most significant byte first.
    Big,
    /// Least significant byte first.
    Little,
}

/// The bit pattern of the quiet NaN that stands for a missing point in the
/// output.
pub const CANONICAL_NAN: u32 = 0x7FC0_0000;

/// The values of a grid, point by point: the bit pattern of an IEEE 754
/// single-precision number, or nothing where the point is missing.
#[derive(Debug, Clone, PartialEq, Eq)]
pub struct DecodedGrid {
    pub values: Vec<Option<u32>>,
}

impl View for DecodedGrid {
    type V = Seq<Option<u32>>;

    open spec fn view(&self) -> Seq<Option<u32>> {
        self.values@
    }
}

/// The 32 bits written for a grid point.
pub open spec fn point_bits(value: Option<u32>) -> u32 {
    match value {
        Some(bits) => bits,
        None => CANONICAL_NAN,
    }
}

/// Byte `k` of a 32-bit pattern, byte 0 being the most significant.
pub open spec fn be_byte(bits: u32, k: int) -> u8 {
    if k == 0 {
        (bits / 0x100_0000) as u8
    } else if k == 1 {
        (bits / 0x1_0000 % 0x100) as u8
    } else if k == 2 {
        (bits / 0x100 % 0x100) as u8
    } else {
        (bits % 0x100) as u8
    }
}

/// Byte `k` of the four bytes written for a 32-bit pattern.
pub open spec fn word_byte(bits: u32, order: ByteOrder, k: int) -> u8 {
    match order {
        ByteOrder::Big => be_byte(bits, k),
        ByteOrder::Little => be_byte(bits, 3 - k),
    }
}

/// The bytes written for a grid: four for each point, in grid order.
pub open spec fn emit_spec(grid: Seq<Option<u32>>, order: ByteOrder) -> Seq<u8> {
    Seq::new(4 * grid.len(), |j: int| word_byte(point_bits(grid[j / 4]), order, j % 4))
}

/// A byte string with the bytes of each group of four in reverse order.
pub open spec fn reverse_each_4_bytes(bytes: Seq<u8>) -> Seq<u8> {
    Seq::new(bytes.len(), |j: int| bytes[4 * (j / 4) + 3 - j % 4])
}

/// Writing a grid least significant byte first gives the bytes of writing
/// it most significant byte first, with each group of four reversed.
pub proof fn lemma_byte_order(grid: Seq<Option<u32>>)
    ensures
        emit_spec(grid, ByteOrder::Little) == reverse_each_4_bytes(emit_spec(grid, ByteOrder::Big)),
{
    let little = emit_spec(grid, ByteOrder::Little);
    let big = emit_spec(grid, ByteOrder::Big);
    assert forall|j: int| 0 <= j < little.len() implies little[j] == reverse_each_4_bytes(big)[j] by {
        let k = 4 * (j / 4) + 3 - j % 4;
        assert(k / 4 == j / 4);
        assert(k % 4 == 3 - j % 4);
    }
    assert(little =~= reverse_each_4_bytes(big));
}

/// A missing point is written as the canonical NaN, `7F C0 00 00` most
/// significant byte first and `00 00 C0 7F` least significant byte first,
/// whatever the other points hold.
pub proof fn lemma_missing_is_nan(grid: Seq<Option<u32>>, i: int)
    requires
        0 <= i < grid.len(),
        grid[i] is None,
    ensures
        emit_spec(grid, ByteOrder::Big).subrange(4 * i, 4 * i + 4) == seq![0x7Fu8, 0xC0, 0x00, 0x00],
        emit_spec(grid, ByteOrder::Little).subrange(4 * i, 4 * i + 4) == seq![
            0x00u8,
            0x00,
            0xC0,
            0x7F,
        ],
{
    let big = emit_spec(grid, ByteOrder::Big).subrange(4 * i, 4 * i + 4);
    let little = emit_spec(grid, ByteOrder::Little).subrange(4 * i, 4 * i + 4);
    assert forall|k: int| 0 <= k < 4 implies big[k] == seq![0x7Fu8, 0xC0, 0x00, 0x00][k]
        && little[k] == seq![0x00u8, 0x00, 0xC0, 0x7F][k] by {
        assert((4 * i + k) / 4 == i);
        assert((4 * i + k) % 4 == k);
    }
    assert(big =~= seq![0x7Fu8, 0xC0, 0x00, 0x00]);
    assert(little =~= seq![0x00u8, 0x00, 0xC0, 0x7F]);
}

/// A point that is not missing is written as its own bit pattern.
pub proof fn lemma_present_is_kept(grid: Seq<Option<u32>>, i: int, bits: u32)
    requires
        0 <= i < grid.len(),
        grid[i] == Some(bits),
    ensures
        forall|k: int|
            0 <= k < 4 ==> #[trigger] emit_spec(grid, ByteOrder::Big)[4 * i + k] == be_byte(bits, k),
        forall|k: int|
            0 <= k < 4 ==> #[trigger] emit_spec(grid, ByteOrder::Little)[4 * i + k] == be_byte(
                bits,
                3 - k,
            ),
{
    assert forall|k: int| 0 <= k < 4 implies #[trigger] emit_spec(grid, ByteOrder::Big)[4 * i + k]
        == be_byte(bits, k) && #[trigger] emit_spec(grid, ByteOrder::Little)[4 * i + k] == be_byte(
        bits,
        3 - k,
    ) by {
        assert((4 * i + k) / 4 == i);
        assert((4 * i + k) % 4 == k);
    }
}

impl DecodedGrid {
    /// The number of grid points.
    pub fn len(&self) -> (n: usize)
        ensures
            n == self@.len(),
    {
        self.values.len()
    }
}

/// Writes a grid as raw 32-bit values in the given byte order. A missing
/// point is written as the canonical quiet NaN `0x7FC00000`.
pub fn emit(grid: &DecodedGrid, order: ByteOrder) -> (bytes: Vec<u8>)
    ensures
        bytes@ == emit_spec(grid@, order),
{
    let n: usize = grid.values.len();
    let mut bytes: Vec<u8> = Vec::new();
    let mut i: usize = 0;
    while i < n
        invariant
            n == grid@.len(),
            i <= n,
            bytes@.len() == 4 * i,
            forall|j: int|
                0 <= j < 4 * i ==> #[trigger] bytes@[j] == word_byte(
                    point_bits(grid@[j / 4]),
                    order,
                    j % 4,
                ),
        decreases n - i,
    {
        let bits: u32 = match grid.values[i] {
            Some(bits) => bits,
            None => CANONICAL_NAN,
        };
        let b0: u8 = (bits / 0x100_0000) as u8;
        let b1: u8 = (bits / 0x1_0000 % 0x100) as u8;
        let b2: u8 = (bits / 0x100 % 0x100) as u8;
        let b3: u8 = (bits % 0x100) as u8;
        match order {
            ByteOrder::Big => {
                bytes.push(b0);
                bytes.push(b1);
                bytes.push(b2);
                bytes.push(b3);
            },
            ByteOrder::Little => {
                bytes.push(b3);
                bytes.push(b2);
                bytes.push(b1);
                bytes.push(b0);
            },
        }
        i = i + 1;
    }
    proof {
        assert(bytes@ =~= emit_spec(grid@, order));
    }
    bytes
}

} // verus!
