//! The sections of a message and what is read from each.
//!
//! Every section but the first and the last starts with a five-byte header:
//! its length in bytes, header included, and its number. Of a body only the
//! leading fixed fields are read; the rest is passed over.

use vstd::prelude::*;
use vstd::slice::slice_subrange;
use crate::bytes::concat_bytes_as_u64;
use crate::bytes::field;
use crate::cursor::ByteCursor;
use crate::error::FormatError;

verus! {

/// The fixed fields of Section 1.
#[derive(Debug, Clone, Copy, PartialEq, Eq)]
pub struct Identification {
    pub centre: u16,
    pub subcentre: u16,
    pub master_table_version: u8,
    pub local_table_version: u8,
    pub ref_time_significance: u8,
    pub year: u16,
    pub month: u8,
    pub day: u8,
    pub hour: u8,
    pub minute: u8,
    pub second: u8,
    pub production_status: u8,
    pub data_type: u8,
}

/// The fixed fields of Section 3.
#[derive(Debug, Clone, Copy, PartialEq, Eq)]
pub struct GridDefinition {
    /// Number of points of the grid.
    pub num_points: u32,
    /// Number of the grid definition template.
    pub template: u16,
}

/// The fixed fields of Section 4.
#[derive(Debug, Clone, Copy, PartialEq, Eq)]
pub struct ProductDefinition {
    /// Number of coordinate values that follow the template.
    pub num_coordinates: u16,
    /// Number of the product definition template.
    pub template: u16,
}

/// The fixed fields of Section 5.
#[derive(Debug, Clone, Copy, PartialEq, Eq)]
pub struct DataRepresentation {
    /// Number of values that Section 7 holds.
    pub num_points: u32,
    /// Number of the data representation template.
    pub template: u16,
}

/// What was read from the body of a section.
#[derive(Debug, Clone, Copy, PartialEq, Eq)]
pub enum SectionBody {
    Indicator,
    Identification(Identification),
    LocalUse,
    GridDefinition(GridDefinition),
    ProductDefinition(ProductDefinition),
    DataRepresentation(DataRepresentation),
    Bitmap { indicator: u8 },
    Data,
    End,
}

/// One section of a message: its number, the bytes `start..end` of the
/// stream that it occupies, and the fields read from its body.
#[derive(Debug, Clone, Copy, PartialEq, Eq)]
pub struct Section {
    pub number: u8,
    pub start: usize,
    pub end: usize,
    pub body: SectionBody,
}

impl SectionBody {
    /// The section number that goes with this kind of body.
    pub open spec fn number(self) -> u8 {
        match self {
            SectionBody::Indicator => 0,
            SectionBody::Identification(_) => 1,
            SectionBody::LocalUse => 2,
            SectionBody::GridDefinition(_) => 3,
            SectionBody::ProductDefinition(_) => 4,
            SectionBody::DataRepresentation(_) => 5,
            SectionBody::Bitmap { .. } => 6,
            SectionBody::Data => 7,
            SectionBody::End => 8,
        }
    }
}

/// The least number of bytes that a section with the given number has: its
/// header, if it has one, and the fields that are read from its body.
/// Sections 0 and 8 have exactly that many.
pub open spec fn min_section_size(number: u8) -> int {
    if number == 0 {
        16
    } else if number == 1 {
        21
    } else if number == 3 {
        14
    } else if number == 4 {
        9
    } else if number == 5 {
        11
    } else if number == 6 {
        6
    } else if number == 8 {
        4
    } else {
        5
    }
}

impl Section {
    /// The section has room for its header and the fields read from it, its
    /// number is one of 0 to 8, its body is of the kind that the number
    /// names, and a bit-map indicator is one of the two that are supported.
    pub open spec fn wf(self) -> bool {
        &&& self.end - self.start >= min_section_size(self.number)
        &&& (self.number == 0 || self.number == 8) ==> self.end - self.start == min_section_size(
            self.number,
        )
        &&& self.number == self.body.number()
        &&& (self.body matches SectionBody::Bitmap { indicator } ==> indicator == 0 || indicator
            == 255)
    }

    /// The bytes of the section in the stream `data`, from `skip` bytes
    /// after its start to its end.
    pub open spec fn bytes_spec(self, data: Seq<u8>, skip: int) -> Seq<u8> {
        data.subrange(self.start + skip, self.end as int)
    }

    /// The bytes of the section in the stream `data` that it was scanned
    /// from, without its first `skip` bytes: with a `skip` of 5, the body
    /// after the header.
    pub fn bytes<'a>(&self, data: &'a [u8], skip: usize) -> (bytes: &'a [u8])
        requires
            self.start + skip <= self.end <= data.len(),
        ensures
            bytes@ == self.bytes_spec(data@, skip as int),
    {
        slice_subrange(data, self.start + skip, self.end)
    }

    /// Number of bytes that the section occupies.
    pub fn size(&self) -> (n: usize)
        requires
            self.start <= self.end,
        ensures
            n == self.end - self.start,
    {
        self.end - self.start
    }
}

/// Whether the four bytes at `pos` spell `GRIB`.
pub open spec fn is_magic(data: Seq<u8>, pos: int) -> bool {
    &&& data[pos] == 0x47
    &&& data[pos + 1] == 0x52
    &&& data[pos + 2] == 0x49
    &&& data[pos + 3] == 0x42
}

/// Whether the four bytes at `pos` exist and spell `7777`.
pub open spec fn is_end_marker(data: Seq<u8>, pos: int) -> bool {
    &&& pos + 4 <= data.len()
    &&& data[pos] == 0x37
    &&& data[pos + 1] == 0x37
    &&& data[pos + 2] == 0x37
    &&& data[pos + 3] == 0x37
}

/// Section 0 at `pos`: the total length of the message that it declares, or
/// the reason why there is no Section 0 there.
pub open spec fn parse_indicator(data: Seq<u8>, pos: int) -> Result<u64, FormatError> {
    if data.len() - pos < 16 {
        Err(FormatError::Truncated)
    } else if !is_magic(data, pos) {
        Err(FormatError::NotGrib)
    } else if data[pos + 7] != 2 {
        Err(FormatError::UnsupportedEdition)
    } else {
        Ok(field(data, pos + 8, 8) as u64)
    }
}

/// The section header at `pos`: the section's number and its length.
pub open spec fn parse_header(data: Seq<u8>, pos: int) -> Result<(u8, usize), FormatError> {
    if data.len() - pos < 5 {
        Err(FormatError::Truncated)
    } else {
        Ok((data[pos + 4], field(data, pos, 4) as usize))
    }
}

/// Section 8 at `pos`.
pub open spec fn parse_end(data: Seq<u8>, pos: int) -> Result<(), FormatError> {
    if data.len() - pos < 4 {
        Err(FormatError::Truncated)
    } else if !is_end_marker(data, pos) {
        Err(FormatError::MalformedStructure)
    } else {
        Ok(())
    }
}

/// Whether a section of `sect_size` bytes has room for `fixed` bytes of
/// fields after its header, and its body lies within the bytes from `pos` on.
pub open spec fn body_fits(data: Seq<u8>, pos: int, sect_size: usize, fixed: int) -> bool {
    &&& sect_size >= 5 + fixed
    &&& sect_size - 5 <= data.len() - pos
}

/// The fixed fields of a Section 1 body that starts at `pos`.
pub open spec fn identification_at(data: Seq<u8>, pos: int) -> Identification {
    Identification {
        centre: field(data, pos, 2) as u16,
        subcentre: field(data, pos + 2, 2) as u16,
        master_table_version: data[pos + 4],
        local_table_version: data[pos + 5],
        ref_time_significance: data[pos + 6],
        year: field(data, pos + 7, 2) as u16,
        month: data[pos + 9],
        day: data[pos + 10],
        hour: data[pos + 11],
        minute: data[pos + 12],
        second: data[pos + 13],
        production_status: data[pos + 14],
        data_type: data[pos + 15],
    }
}

/// The body of Section 1 at `pos`.
pub open spec fn parse_identification(data: Seq<u8>, pos: int, sect_size: usize) -> Result<
    Identification,
    FormatError,
> {
    if body_fits(data, pos, sect_size, 16) {
        Ok(identification_at(data, pos))
    } else {
        Err(FormatError::Truncated)
    }
}

/// A body of which no field is read (Sections 2 and 7) at `pos`.
pub open spec fn parse_opaque(data: Seq<u8>, pos: int, sect_size: usize) -> Result<
    (),
    FormatError,
> {
    if body_fits(data, pos, sect_size, 0) {
        Ok(())
    } else {
        Err(FormatError::Truncated)
    }
}

/// The body of Section 3 at `pos`.
pub open spec fn parse_grid_definition(data: Seq<u8>, pos: int, sect_size: usize) -> Result<
    GridDefinition,
    FormatError,
> {
    if body_fits(data, pos, sect_size, 9) {
        Ok(
            GridDefinition {
                num_points: field(data, pos + 1, 4) as u32,
                template: field(data, pos + 7, 2) as u16,
            },
        )
    } else {
        Err(FormatError::Truncated)
    }
}

/// The body of Section 4 at `pos`.
pub open spec fn parse_product_definition(data: Seq<u8>, pos: int, sect_size: usize) -> Result<
    ProductDefinition,
    FormatError,
> {
    if body_fits(data, pos, sect_size, 4) {
        Ok(
            ProductDefinition {
                num_coordinates: field(data, pos, 2) as u16,
                template: field(data, pos + 2, 2) as u16,
            },
        )
    } else {
        Err(FormatError::Truncated)
    }
}

/// The body of Section 5 at `pos`.
pub open spec fn parse_data_representation(data: Seq<u8>, pos: int, sect_size: usize) -> Result<
    DataRepresentation,
    FormatError,
> {
    if body_fits(data, pos, sect_size, 6) {
        Ok(
            DataRepresentation {
                num_points: field(data, pos, 4) as u32,
                template: field(data, pos + 4, 2) as u16,
            },
        )
    } else {
        Err(FormatError::Truncated)
    }
}

/// The body of Section 6 at `pos`: its bit-map indicator, which says that a
/// bit map follows (0) or that there is none (255). Any other indicator
/// names a predefined bit map and is refused.
pub open spec fn parse_bitmap(data: Seq<u8>, pos: int, sect_size: usize) -> Result<
    u8,
    FormatError,
> {
    if !body_fits(data, pos, sect_size, 1) {
        Err(FormatError::Truncated)
    } else if data[pos] != 0 && data[pos] != 255 {
        Err(FormatError::UnsupportedFeature)
    } else {
        Ok(data[pos])
    }
}

/// How far a body reader moves: past the body when it succeeds, not at all
/// when it fails.
pub open spec fn body_consumed<T>(r: Result<T, FormatError>, sect_size: usize) -> nat {
    if r is Ok {
        (sect_size - 5) as nat
    } else {
        0
    }
}

fn has_body(f: &ByteCursor, sect_size: usize, fixed: usize) -> (b: bool)
    requires
        f.wf(),
        fixed <= 16,
    ensures
        b == body_fits(f.source(), f.offset() as int, sect_size, fixed as int),
{
    sect_size >= 5 + fixed && sect_size - 5 <= f.remaining()
}

/// Reads Section 0 and returns the total length of the message.
///
/// The 16 bytes of the section are read first and checked then: wrong magic
/// letters fail with `NotGrib` and an edition other than 2 with
/// `UnsupportedEdition`, and in both cases the 16 bytes have been consumed.
/// With fewer than 16 bytes left the call fails with `Truncated` and
/// consumes nothing.
pub fn unpack_sect0(f: &mut ByteCursor) -> (r: Result<u64, FormatError>)
    requires
        old(f).wf(),
    ensures
        r == parse_indicator(old(f).source(), old(f).offset() as int),
        final(f).moved(old(f), if old(f).left() < 16 { 0 } else { 16 }),
{
    let buf = match f.read_exact(16) {
        Ok(buf) => buf,
        Err(e) => {
            return Err(e);
        },
    };
    proof {
        let at = old(f).offset() as int;
        assert forall|k: int| 0 <= k < 16 implies buf@[k] == old(f).source()[at + k] by {}
        assert(buf@.subrange(8, 16) =~= old(f).source().subrange(at + 8, at + 16));
    }
    if !(buf[0] == 0x47 && buf[1] == 0x52 && buf[2] == 0x49 && buf[3] == 0x42) {
        return Err(FormatError::NotGrib);
    }
    if buf[7] != 2 {
        return Err(FormatError::UnsupportedEdition);
    }
    let fsize: u64 = concat_bytes_as_u64(buf, 8, 8);
    Ok(fsize)
}

/// Reads the fixed fields of a Section 1 body and passes over the rest of
/// the section.
pub fn unpack_sect1_body(f: &mut ByteCursor, sect_size: usize) -> (r: Result<
    Identification,
    FormatError,
>)
    requires
        old(f).wf(),
    ensures
        r == parse_identification(old(f).source(), old(f).offset() as int, sect_size),
        final(f).moved(old(f), body_consumed(r, sect_size)),
{
    if !has_body(f, sect_size, 16) {
        return Err(FormatError::Truncated);
    }
    let ident = Identification {
        centre: f.peek_u16(0),
        subcentre: f.peek_u16(2),
        master_table_version: f.peek_u8(4),
        local_table_version: f.peek_u8(5),
        ref_time_significance: f.peek_u8(6),
        year: f.peek_u16(7),
        month: f.peek_u8(9),
        day: f.peek_u8(10),
        hour: f.peek_u8(11),
        minute: f.peek_u8(12),
        second: f.peek_u8(13),
        production_status: f.peek_u8(14),
        data_type: f.peek_u8(15),
    };
    let _ = f.skip(sect_size - 5);
    Ok(ident)
}

/// Passes over a Section 2 body.
pub fn unpack_sect2_body(f: &mut ByteCursor, sect_size: usize) -> (r: Result<(), FormatError>)
    requires
        old(f).wf(),
    ensures
        r == parse_opaque(old(f).source(), old(f).offset() as int, sect_size),
        final(f).moved(old(f), body_consumed(r, sect_size)),
{
    if !has_body(f, sect_size, 0) {
        return Err(FormatError::Truncated);
    }
    let _ = f.skip(sect_size - 5);
    Ok(())
}

/// Reads the point count and the template number of a Section 3 body and
/// passes over the rest of the section.
pub fn unpack_sect3_body(f: &mut ByteCursor, sect_size: usize) -> (r: Result<
    GridDefinition,
    FormatError,
>)
    requires
        old(f).wf(),
    ensures
        r == parse_grid_definition(old(f).source(), old(f).offset() as int, sect_size),
        final(f).moved(old(f), body_consumed(r, sect_size)),
{
    if !has_body(f, sect_size, 9) {
        return Err(FormatError::Truncated);
    }
    let npoints: u32 = f.peek_uint(1, 4);
    let grid_tmpl_code: u16 = f.peek_u16(7);
    let _ = f.skip(sect_size - 5);
    Ok(GridDefinition { num_points: npoints, template: grid_tmpl_code })
}

/// Reads the coordinate count and the template number of a Section 4 body
/// and passes over the rest of the section.
pub fn unpack_sect4_body(f: &mut ByteCursor, sect_size: usize) -> (r: Result<
    ProductDefinition,
    FormatError,
>)
    requires
        old(f).wf(),
    ensures
        r == parse_product_definition(old(f).source(), old(f).offset() as int, sect_size),
        final(f).moved(old(f), body_consumed(r, sect_size)),
{
    if !has_body(f, sect_size, 4) {
        return Err(FormatError::Truncated);
    }
    let ncoordinates: u16 = f.peek_u16(0);
    let prod_tmpl_code: u16 = f.peek_u16(2);
    let _ = f.skip(sect_size - 5);
    Ok(ProductDefinition { num_coordinates: ncoordinates, template: prod_tmpl_code })
}

/// Reads the value count and the template number of a Section 5 body and
/// passes over the rest of the section.
pub fn unpack_sect5_body(f: &mut ByteCursor, sect_size: usize) -> (r: Result<
    DataRepresentation,
    FormatError,
>)
    requires
        old(f).wf(),
    ensures
        r == parse_data_representation(old(f).source(), old(f).offset() as int, sect_size),
        final(f).moved(old(f), body_consumed(r, sect_size)),
{
    if !has_body(f, sect_size, 6) {
        return Err(FormatError::Truncated);
    }
    let npoints7: u32 = f.peek_uint(0, 4);
    let represent_tmpl_code: u16 = f.peek_u16(4);
    let _ = f.skip(sect_size - 5);
    Ok(DataRepresentation { num_points: npoints7, template: represent_tmpl_code })
}

/// Reads the bit-map indicator of a Section 6 body and passes over the rest
/// of the section. An indicator other than 0 and 255 fails with
/// `UnsupportedFeature`, and nothing is consumed.
pub fn unpack_sect6_body(f: &mut ByteCursor, sect_size: usize) -> (r: Result<u8, FormatError>)
    requires
        old(f).wf(),
    ensures
        r == parse_bitmap(old(f).source(), old(f).offset() as int, sect_size),
        final(f).moved(old(f), body_consumed(r, sect_size)),
{
    if !has_body(f, sect_size, 1) {
        return Err(FormatError::Truncated);
    }
    let bitmap_indicator: u8 = f.peek_u8(0);
    if bitmap_indicator != 0 && bitmap_indicator != 255 {
        return Err(FormatError::UnsupportedFeature);
    }
    let _ = f.skip(sect_size - 5);
    Ok(bitmap_indicator)
}

/// Passes over a Section 7 body.
pub fn unpack_sect7_body(f: &mut ByteCursor, sect_size: usize) -> (r: Result<(), FormatError>)
    requires
        old(f).wf(),
    ensures
        r == parse_opaque(old(f).source(), old(f).offset() as int, sect_size),
        final(f).moved(old(f), body_consumed(r, sect_size)),
{
    if !has_body(f, sect_size, 0) {
        return Err(FormatError::Truncated);
    }
    let _ = f.skip(sect_size - 5);
    Ok(())
}

/// Reads Section 8. Fails, and consumes nothing, when fewer than four bytes
/// are left (`Truncated`) or they are not `7777` (`MalformedStructure`).
pub fn unpack_sect8(f: &mut ByteCursor) -> (r: Result<(), FormatError>)
    requires
        old(f).wf(),
    ensures
        r == parse_end(old(f).source(), old(f).offset() as int),
        final(f).moved(old(f), if r is Ok { 4 } else { 0 }),
{
    if f.remaining() < 4 {
        return Err(FormatError::Truncated);
    }
    let marker: [u8; 4] = [0x37, 0x37, 0x37, 0x37];
    if !f.starts_with(marker.as_slice()) {
        assert(is_end_marker(f.source(), f.offset() as int) ==> f.upcoming(4) =~= marker@);
        return Err(FormatError::MalformedStructure);
    }
    assert(forall|k: int| 0 <= k < 4 ==> f.upcoming(4)[k] == f.source()[f.offset() + k]);
    let _ = f.skip(4);
    Ok(())
}

/// Reads the header that opens Sections 1 to 7 and returns the section's
/// number and its length. Fails with `Truncated`, and consumes nothing, when
/// fewer than five bytes are left.
pub fn unpack_sect_header(f: &mut ByteCursor) -> (r: Result<(u8, usize), FormatError>)
    requires
        old(f).wf(),
    ensures
        r == parse_header(old(f).source(), old(f).offset() as int),
        final(f).moved(old(f), if r is Ok { 5 } else { 0 }),
{
    if f.remaining() < 5 {
        return Err(FormatError::Truncated);
    }
    let sect_size: usize = f.peek_uint(0, 4) as usize;
    let sect_num: u8 = f.peek_u8(4);
    let _ = f.skip(5);
    Ok((sect_num, sect_size))
}

} // verus!
