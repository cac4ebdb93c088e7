//! The parameters of a packing, as the body of Section 5 gives them.
//!
//! The body opens with the number of packed values (4 bytes) and the number
//! of the data representation template (2 bytes). What follows depends on
//! the template. Signed fields are stored as sign and magnitude: the top bit
//! is the sign, the other bits are the absolute value.

use vstd::prelude::*;
use crate::bytes::concat_bytes_as_u16;
use crate::bytes::concat_bytes_as_u32;
use crate::bytes::field;
use crate::error::DecodeError;
use crate::error::TemplateCategory;
use crate::template::resolve;
use crate::template::resolve_spec;
use crate::template::Template;

verus! {

/// How a packed integer `x` becomes a physical value:
/// `(reference + x * 2^binary_scale) / 10^decimal_scale`, where `reference`
/// is the bit pattern of an IEEE 754 single-precision number.
#[derive(Debug, Clone, Copy, PartialEq, Eq)]
pub struct Scaling {
    pub reference: u32,
    pub binary_scale: i16,
    pub decimal_scale: i16,
}

/// The parameters of one packing.
#[derive(Debug, Clone, PartialEq, Eq)]
pub enum PackingSpec {
    /// Simple packing: every value takes `bit_width` bits.
    Simple { scaling: Scaling, bit_width: u8 },
    /// Run-length packing: tokens of `bit_width` bits, levels up to
    /// `max_level`, and the table of level values, which is scaled by
    /// `decimal_scale` alone.
    RunLength { bit_width: u8, max_level: u16, decimal_scale: i16, levels: Vec<u16> },
}

/// The parameters of one packing, as plain mathematical values.
pub enum PackingModel {
    Simple { scaling: Scaling, bit_width: u8 },
    RunLength { bit_width: u8, max_level: u16, decimal_scale: i16, levels: Seq<u16> },
}

impl View for PackingSpec {
    type V = PackingModel;

    open spec fn view(&self) -> PackingModel {
        match self {
            PackingSpec::Simple { scaling, bit_width } => PackingModel::Simple {
                scaling: *scaling,
                bit_width: *bit_width,
            },
            PackingSpec::RunLength {
                bit_width,
                max_level,
                decimal_scale,
                levels,
            } => PackingModel::RunLength {
                bit_width: *bit_width,
                max_level: *max_level,
                decimal_scale: *decimal_scale,
                levels: levels@,
            },
        }
    }
}

impl PackingModel {
    /// The scaling that turns the packed integers into physical values. The
    /// level values of a run-length packing have no reference value and no
    /// binary scale.
    pub open spec fn scaling(self) -> Scaling {
        match self {
            PackingModel::Simple { scaling, .. } => scaling,
            PackingModel::RunLength { decimal_scale, .. } => Scaling {
                reference: 0,
                binary_scale: 0,
                decimal_scale,
            },
        }
    }
}

impl PackingSpec {
    /// The scaling that turns the packed integers into physical values.
    pub fn scaling(&self) -> (s: Scaling)
        ensures
            s == self@.scaling(),
    {
        match self {
            PackingSpec::Simple { scaling, .. } => *scaling,
            PackingSpec::RunLength { decimal_scale, .. } => Scaling {
                reference: 0,
                binary_scale: 0,
                decimal_scale: *decimal_scale,
            },
        }
    }
}

/// The number that sixteen bits spell as sign and magnitude.
pub open spec fn signed16(raw: u16) -> i16 {
    if raw >= 0x8000 {
        (0x8000 - raw) as i16
    } else {
        raw as i16
    }
}

/// The number that eight bits spell as sign and magnitude.
pub open spec fn signed8(raw: u8) -> i16 {
    if raw >= 0x80 {
        (0x80 - raw) as i16
    } else {
        raw as i16
    }
}

/// Reads sixteen bits as sign and magnitude.
pub fn sign_magnitude16(raw: u16) -> (v: i16)
    ensures
        v == signed16(raw),
        raw < 0x8000 ==> v == raw,
        raw >= 0x8000 ==> v == 0x8000 - raw,
{
    if raw >= 0x8000 {
        -((raw - 0x8000) as i16)
    } else {
        raw as i16
    }
}

/// Reads eight bits as sign and magnitude.
pub fn sign_magnitude8(raw: u8) -> (v: i16)
    ensures
        v == signed8(raw),
        raw < 0x80 ==> v == raw,
        raw >= 0x80 ==> v == 0x80 - raw,
{
    if raw >= 0x80 {
        -((raw - 0x80) as i16)
    } else {
        raw as i16
    }
}

/// The parameters of simple packing in a Section 5 body.
pub open spec fn simple_at(body: Seq<u8>) -> PackingModel {
    PackingModel::Simple {
        scaling: Scaling {
            reference: field(body, 6, 4) as u32,
            binary_scale: signed16(field(body, 10, 2) as u16),
            decimal_scale: signed16(field(body, 12, 2) as u16),
        },
        bit_width: body[14],
    }
}

/// The number of entries of the level table in a Section 5 body of
/// run-length packing.
pub open spec fn level_count(body: Seq<u8>) -> nat {
    field(body, 9, 2)
}

/// The parameters of run-length packing in a Section 5 body.
pub open spec fn run_length_at(body: Seq<u8>) -> PackingModel {
    PackingModel::RunLength {
        bit_width: body[6],
        max_level: field(body, 7, 2) as u16,
        decimal_scale: signed8(body[11]),
        levels: Seq::new(level_count(body), |i: int| field(body, 12 + 2 * i, 2) as u16),
    }
}

/// The packing that a Section 5 body describes.
///
/// A body too short for the template number, or for the fields of its
/// template, is `Truncated`. A template other than 5.0 and 5.200 is
/// `UnsupportedTemplate`.
pub open spec fn parse_packing_spec(body: Seq<u8>) -> Result<PackingModel, DecodeError> {
    if body.len() < 6 {
        Err(DecodeError::Truncated)
    } else {
        match resolve_spec(TemplateCategory::DataRepresentation, field(body, 4, 2) as u16) {
            Err(e) => Err(e),
            Ok(Template::SimplePacking) => if body.len() < 15 {
                Err(DecodeError::Truncated)
            } else {
                Ok(simple_at(body))
            },
            Ok(Template::RunLengthPacking) => if body.len() < 12 || body.len() < 12 + 2
                * level_count(body) {
                Err(DecodeError::Truncated)
            } else {
                Ok(run_length_at(body))
            },
            Ok(_) => Err(
                DecodeError::UnsupportedTemplate(
                    TemplateCategory::DataRepresentation,
                    field(body, 4, 2) as u16,
                ),
            ),
        }
    }
}

/// Reads the packing parameters from the body of Section 5, that is from
/// the bytes after the section's five-byte header.
pub fn parse_packing(body: &[u8]) -> (r: Result<PackingSpec, DecodeError>)
    ensures
        match r {
            Ok(spec) => parse_packing_spec(body@) == Ok::<PackingModel, DecodeError>(spec@),
            Err(e) => parse_packing_spec(body@) == Err::<PackingModel, DecodeError>(e),
        },
{
    let len: usize = body.len();
    if len < 6 {
        return Err(DecodeError::Truncated);
    }
    let number: u16 = concat_bytes_as_u16(body, 4, 2);
    let template = match resolve(TemplateCategory::DataRepresentation, number) {
        Ok(template) => template,
        Err(e) => {
            return Err(e);
        },
    };
    match template {
        Template::SimplePacking => {
            if len < 15 {
                return Err(DecodeError::Truncated);
            }
            let scaling = Scaling {
                reference: concat_bytes_as_u32(body, 6, 4),
                binary_scale: sign_magnitude16(concat_bytes_as_u16(body, 10, 2)),
                decimal_scale: sign_magnitude16(concat_bytes_as_u16(body, 12, 2)),
            };
            Ok(PackingSpec::Simple { scaling, bit_width: body[14] })
        },
        Template::RunLengthPacking => {
            if len < 12 {
                return Err(DecodeError::Truncated);
            }
            let count: u16 = concat_bytes_as_u16(body, 9, 2);
            if len - 12 < 2 * (count as usize) {
                return Err(DecodeError::Truncated);
            }
            let mut levels: Vec<u16> = Vec::new();
            let mut i: usize = 0;
            while i < count as usize
                invariant
                    i <= count,
                    len == body@.len(),
                    12 + 2 * count <= len,
                    levels@.len() == i,
                    forall|k: int|
                        0 <= k < i ==> #[trigger] levels@[k] == field(body@, 12 + 2 * k, 2) as u16,
                decreases count - i,
            {
                levels.push(concat_bytes_as_u16(body, 12 + 2 * i, 2));
                i = i + 1;
            }
            let spec = PackingSpec::RunLength {
                bit_width: body[6],
                max_level: concat_bytes_as_u16(body, 7, 2),
                decimal_scale: sign_magnitude8(body[11]),
                levels,
            };
            proof {
                assert(spec@->RunLength_levels =~= run_length_at(body@)->RunLength_levels);
            }
            Ok(spec)
        },
        _ => Err(DecodeError::UnsupportedTemplate(TemplateCategory::DataRepresentation, number)),
    }
}

} // verus!
