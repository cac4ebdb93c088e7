//! Unpacking the values of one submessage.
//!
//! The packed integers are read from Section 7 as Section 5 says, and laid
//! out on the grid as the bit map of Section 6 says. What turns a packed
//! integer into a physical value is arithmetic on floating-point numbers,
//! which the caller supplies as a function from the scaling and the integer
//! to the bit pattern of the value.

use vstd::prelude::*;
use crate::assemble::submessage_valid;
use crate::bitmap::apply_bitmap;
use crate::bitmap::apply_bitmap_spec;
use crate::bitmap::lemma_bitmap_marks;
use crate::bitmap::present;
use crate::error::DecodeError;
use crate::grid::emit_spec;
use crate::grid::lemma_missing_is_nan;
use crate::grid::ByteOrder;
use crate::grid::DecodedGrid;
use crate::packing::parse_packing;
use crate::packing::parse_packing_spec;
use crate::packing::PackingModel;
use crate::packing::PackingSpec;
use crate::packing::Scaling;
use crate::run_length::unpack_run_length;
use crate::run_length::unpack_run_length_spec;
use crate::scan::lemma_sections_ordered;
use crate::scan::Message;
use crate::scan::MessageModel;
use crate::section::Section;
use crate::section::SectionBody;
use crate::simple::unpack_simple;
use crate::template::resolve_section;
use crate::template::resolve_section_spec;
use crate::simple::unpack_simple_spec;

verus! {

/// The packed values that a Section 7 body holds under the given packing:
/// `count` values, none where the packing itself marks a point as missing.
pub open spec fn unpack_values_spec(spec: PackingModel, data: Seq<u8>, count: u32) -> Result<
    Seq<Option<u32>>,
    DecodeError,
> {
    match spec {
        PackingModel::Simple { bit_width, .. } => unpack_simple_spec(data, bit_width, count),
        PackingModel::RunLength {
            bit_width,
            max_level,
            levels,
            ..
        } => unpack_run_length_spec(data, bit_width, max_level, levels, count),
    }
}

/// Unpacks `count` packed values from the body of Section 7.
pub fn unpack_values(spec: &PackingSpec, data: &[u8], count: u32) -> (r: Result<
    Vec<Option<u32>>,
    DecodeError,
>)
    ensures
        match r {
            Ok(values) => unpack_values_spec(spec@, data@, count) == Ok::<
                Seq<Option<u32>>,
                DecodeError,
            >(values@),
            Err(e) => unpack_values_spec(spec@, data@, count) == Err::<
                Seq<Option<u32>>,
                DecodeError,
            >(e),
        },
{
    match spec {
        PackingSpec::Simple { bit_width, .. } => unpack_simple(data, *bit_width, count),
        PackingSpec::RunLength { bit_width, max_level, levels, .. } => unpack_run_length(
            data,
            *bit_width,
            *max_level,
            levels.as_slice(),
            count,
        ),
    }
}

/// The number of points that a Section 3 or a Section 5 declares.
pub open spec fn declared_points(section: Section) -> u32 {
    match section.body {
        SectionBody::GridDefinition(grid) => grid.num_points,
        SectionBody::DataRepresentation(repr) => repr.num_points,
        _ => 0,
    }
}

/// Whether a Section 6 says that a bit map follows its indicator.
pub open spec fn has_bitmap(section: Section) -> bool {
    section.body == (SectionBody::Bitmap { indicator: 0 })
}

/// Whether the templates of the Sections 3, 4 and 5 of a submessage are
/// all known: if not, the error that reports the first that is not.
pub open spec fn resolve_submessage_spec(m: MessageModel, index: int) -> Result<(), DecodeError> {
    let sub = m.submessages[index];
    match resolve_section_spec(m.sections[sub.section3 as int]) {
        Err(e) => Err(e),
        Ok(_) => match resolve_section_spec(m.sections[sub.section4 as int]) {
            Err(e) => Err(e),
            Ok(_) => resolve_section_spec(m.sections[sub.section5 as int]),
        },
    }
}

/// The scaling and the packed values of submessage `index`, point by point,
/// or the reason why they cannot be had.
///
/// The templates of the submessage's Sections 3, 4 and 5 must be known
/// (`UnsupportedTemplate`), and the bytes must reach to the end of its
/// Section 7 (`Truncated`). The packing is read from Section 5. Without a
/// bit map the number of values that Section 5 declares must be the number
/// of points of the grid (`InvalidPacking`). The values are unpacked from
/// Section 7, and with a bit map they are laid out by it.
pub open spec fn unpack_submessage_spec(data: Seq<u8>, m: MessageModel, index: int) -> Result<
    (Scaling, Seq<Option<u32>>),
    DecodeError,
> {
    let sub = m.submessages[index];
    let section3 = m.sections[sub.section3 as int];
    let section5 = m.sections[sub.section5 as int];
    let section6 = m.sections[sub.section6 as int];
    let section7 = m.sections[sub.section7 as int];
    if resolve_submessage_spec(m, index) is Err {
        Err(resolve_submessage_spec(m, index)->Err_0)
    } else if data.len() < section7.end {
        Err(DecodeError::Truncated)
    } else {
        match parse_packing_spec(section5.bytes_spec(data, 5)) {
            Err(e) => Err(e),
            Ok(spec) => if !has_bitmap(section6) && declared_points(section5) != declared_points(
                section3,
            ) {
                Err(DecodeError::InvalidPacking)
            } else {
                match unpack_values_spec(
                    spec,
                    section7.bytes_spec(data, 5),
                    declared_points(section5),
                ) {
                    Err(e) => Err(e),
                    Ok(values) => if has_bitmap(section6) {
                        match apply_bitmap_spec(
                            values,
                            section6.bytes_spec(data, 6),
                            declared_points(section3),
                        ) {
                            Err(e) => Err(e),
                            Ok(grid) => Ok((spec.scaling(), grid)),
                        }
                    } else {
                        Ok((spec.scaling(), values))
                    },
                }
            },
        }
    }
}

/// The values unpacked from Section 7 are as many as were asked for.
pub proof fn lemma_unpacked_count(spec: PackingModel, data: Seq<u8>, count: u32)
    ensures
        unpack_values_spec(spec, data, count) matches Ok(values) ==> values.len() == count,
{
}

/// A decoded submessage has one value, or none, for every point of its
/// grid.
pub proof fn lemma_unpacked_grid(data: Seq<u8>, m: MessageModel, index: int)
    ensures
        unpack_submessage_spec(data, m, index) matches Ok((_, grid)) ==> grid.len()
            == declared_points(m.sections[m.submessages[index].section3 as int]),
{
    let sub = m.submessages[index];
    let section5 = m.sections[sub.section5 as int];
    let section7 = m.sections[sub.section7 as int];
    if let Ok(spec) = parse_packing_spec(section5.bytes_spec(data, 5)) {
        lemma_unpacked_count(spec, section7.bytes_spec(data, 5), declared_points(section5));
    }
}

/// A point that the bit map of a submessage marks with a 0 is written as
/// the canonical NaN in both byte orders.
pub proof fn lemma_unmapped_is_written_as_nan<F: Fn(Scaling, u32) -> u32>(
    data: Seq<u8>,
    m: MessageModel,
    index: int,
    grid: Seq<Option<u32>>,
    to_bits: F,
    i: int,
)
    requires
        unpack_submessage_spec(data, m, index) matches Ok((scaling, packed)) && scaled_by(
            grid,
            packed,
            scaling,
            to_bits,
        ),
        has_bitmap(m.sections[m.submessages[index].section6 as int]),
        0 <= i < declared_points(m.sections[m.submessages[index].section3 as int]),
        !present(m.sections[m.submessages[index].section6 as int].bytes_spec(data, 6), i),
    ensures
        emit_spec(grid, ByteOrder::Big).subrange(4 * i, 4 * i + 4) == seq![0x7Fu8, 0xC0, 0x00, 0x00],
        emit_spec(grid, ByteOrder::Little).subrange(4 * i, 4 * i + 4) == seq![
            0x00u8,
            0x00,
            0xC0,
            0x7F,
        ],
{
    let sub = m.submessages[index];
    let section3 = m.sections[sub.section3 as int];
    let section5 = m.sections[sub.section5 as int];
    let section6 = m.sections[sub.section6 as int];
    let section7 = m.sections[sub.section7 as int];
    let spec = parse_packing_spec(section5.bytes_spec(data, 5)).unwrap();
    let values = unpack_values_spec(
        spec,
        section7.bytes_spec(data, 5),
        declared_points(section5),
    ).unwrap();
    lemma_bitmap_marks(values, section6.bytes_spec(data, 6), declared_points(section3), i);
    let (scaling, packed) = unpack_submessage_spec(data, m, index).unwrap();
    lemma_missing_is_written_as_nan(grid, packed, scaling, to_bits, i);
}

fn points_of(section: &Section) -> (n: u32)
    ensures
        n == declared_points(*section),
{
    match section.body {
        SectionBody::GridDefinition(grid) => grid.num_points,
        SectionBody::DataRepresentation(repr) => repr.num_points,
        _ => 0,
    }
}

fn bitmap_follows(section: &Section) -> (b: bool)
    ensures
        b == has_bitmap(*section),
{
    match section.body {
        SectionBody::Bitmap { indicator } => indicator == 0,
        _ => false,
    }
}

/// Unpacks the packed values of submessage `index` of a scanned message from
/// the bytes that the message was scanned from, and returns them with the
/// scaling that turns them into physical values.
pub fn unpack_submessage(data: &[u8], message: &Message, index: usize) -> (r: Result<
    (Scaling, Vec<Option<u32>>),
    DecodeError,
>)
    requires
        message.wf(),
        index < message@.submessages.len(),
    ensures
        match r {
            Ok((scaling, values)) => unpack_submessage_spec(data@, message@, index as int) == Ok::<
                (Scaling, Seq<Option<u32>>),
                DecodeError,
            >((scaling, values@)) && values@.len() == declared_points(
                message@.sections[message@.submessages[index as int].section3 as int],
            ),
            Err(e) => unpack_submessage_spec(data@, message@, index as int) == Err::<
                (Scaling, Seq<Option<u32>>),
                DecodeError,
            >(e),
        },
{
    let sections = message.sections();
    let sub = message.submessages()[index];
    proof {
        lemma_unpacked_grid(data@, message@, index as int);
        assert(submessage_valid(sections@, message@.submessages[index as int]));
        lemma_sections_ordered(sections@, 0, sub.section5 as int, sub.section6 as int);
        lemma_sections_ordered(sections@, 0, sub.section6 as int, sub.section7 as int);
        assert(sections@[sub.section5 as int].wf());
        assert(sections@[sub.section6 as int].wf());
        assert(sections@[sub.section7 as int].wf());
    }
    let section3 = &sections[sub.section3];
    let section4 = &sections[sub.section4];
    let section5 = &sections[sub.section5];
    let section6 = &sections[sub.section6];
    let section7 = &sections[sub.section7];
    if let Err(e) = resolve_section(section3) {
        return Err(e);
    }
    if let Err(e) = resolve_section(section4) {
        return Err(e);
    }
    if let Err(e) = resolve_section(section5) {
        return Err(e);
    }
    if data.len() < section7.end {
        return Err(DecodeError::Truncated);
    }
    let spec = match parse_packing(section5.bytes(data, 5)) {
        Ok(spec) => spec,
        Err(e) => {
            return Err(e);
        },
    };
    let declared: u32 = points_of(section5);
    let points: u32 = points_of(section3);
    let mapped: bool = bitmap_follows(section6);
    if !mapped && declared != points {
        return Err(DecodeError::InvalidPacking);
    }
    let values = match unpack_values(&spec, section7.bytes(data, 5), declared) {
        Ok(values) => values,
        Err(e) => {
            return Err(e);
        },
    };
    if mapped {
        match apply_bitmap(values.as_slice(), section6.bytes(data, 6), points) {
            Ok(grid) => Ok((spec.scaling(), grid)),
            Err(e) => Err(e),
        }
    } else {
        Ok((spec.scaling(), values))
    }
}

/// Whether `grid` is `packed` with every packed integer turned into a bit
/// pattern that `to_bits` may return for it, and every missing point left
/// missing.
pub open spec fn scaled_by<F: Fn(Scaling, u32) -> u32>(
    grid: Seq<Option<u32>>,
    packed: Seq<Option<u32>>,
    scaling: Scaling,
    to_bits: F,
) -> bool {
    &&& grid.len() == packed.len()
    &&& forall|i: int|
        0 <= i < packed.len() ==> match #[trigger] packed[i] {
            None => grid[i] is None,
            Some(x) => grid[i] matches Some(bits) && call_ensures(to_bits, (scaling, x), bits),
        }
}

/// A point without a packed value is written as the canonical NaN in both
/// byte orders, whatever function scales the values: a point that the bit
/// map marks as missing, and a point of level 0 in a run-length packing.
pub proof fn lemma_missing_is_written_as_nan<F: Fn(Scaling, u32) -> u32>(
    grid: Seq<Option<u32>>,
    packed: Seq<Option<u32>>,
    scaling: Scaling,
    to_bits: F,
    i: int,
)
    requires
        scaled_by(grid, packed, scaling, to_bits),
        0 <= i < packed.len(),
        packed[i] is None,
    ensures
        emit_spec(grid, ByteOrder::Big).subrange(4 * i, 4 * i + 4) == seq![0x7Fu8, 0xC0, 0x00, 0x00],
        emit_spec(grid, ByteOrder::Little).subrange(4 * i, 4 * i + 4) == seq![
            0x00u8,
            0x00,
            0xC0,
            0x7F,
        ],
{
    lemma_missing_is_nan(grid, i);
}

/// Turns packed integers into the bit patterns of physical values, point by
/// point. A missing point stays missing.
pub fn apply_scaling<F: Fn(Scaling, u32) -> u32>(
    packed: &[Option<u32>],
    scaling: Scaling,
    to_bits: F,
) -> (grid: DecodedGrid)
    requires
        forall|x: u32| call_requires(to_bits, (scaling, x)),
    ensures
        scaled_by(grid@, packed@, scaling, to_bits),
{
    let n: usize = packed.len();
    let mut values: Vec<Option<u32>> = Vec::new();
    let mut i: usize = 0;
    while i < n
        invariant
            n == packed@.len(),
            i <= n,
            forall|x: u32| call_requires(to_bits, (scaling, x)),
            scaled_by(values@, packed@.take(i as int), scaling, to_bits),
        decreases n - i,
    {
        let ghost before = values@;
        match packed[i] {
            Some(x) => {
                values.push(Some(to_bits(scaling, x)));
            },
            None => {
                values.push(None);
            },
        }
        proof {
            let now = packed@.take(i + 1);
            assert forall|k: int| 0 <= k < now.len() implies match #[trigger] now[k] {
                None => values@[k] is None,
                Some(x) => values@[k] matches Some(bits) && call_ensures(to_bits, (scaling, x), bits),
            } by {
                if k < i {
                    assert(packed@.take(i as int)[k] == now[k]);
                    assert(values@[k] == before[k]);
                }
            }
        }
        i = i + 1;
    }
    proof {
        assert(packed@.take(n as int) =~= packed@);
    }
    DecodedGrid { values }
}

/// Decodes submessage `index` of a scanned message from the bytes that the
/// message was scanned from.
///
/// `to_bits` takes the scaling of the packing and a packed integer `x` and
/// returns the bit pattern of the physical value
/// `(reference + x * 2^binary_scale) / 10^decimal_scale`. It is called once
/// for every point that is not missing, in grid order.
pub fn decode<F: Fn(Scaling, u32) -> u32>(
    data: &[u8],
    message: &Message,
    index: usize,
    to_bits: F,
) -> (r: Result<DecodedGrid, DecodeError>)
    requires
        message.wf(),
        index < message@.submessages.len(),
        forall|scaling: Scaling, x: u32| call_requires(to_bits, (scaling, x)),
    ensures
        match r {
            Ok(grid) => (unpack_submessage_spec(data@, message@, index as int) matches Ok(
                (scaling, packed),
            ) && scaled_by(grid@, packed, scaling, to_bits)) && grid@.len() == declared_points(
                message@.sections[message@.submessages[index as int].section3 as int],
            ),
            Err(e) => unpack_submessage_spec(data@, message@, index as int) == Err::<
                (Scaling, Seq<Option<u32>>),
                DecodeError,
            >(e),
        },
{
    match unpack_submessage(data, message, index) {
        Ok((scaling, packed)) => Ok(apply_scaling(packed.as_slice(), scaling, to_bits)),
        Err(e) => Err(e),
    }
}

} // verus!
