//! Walking a byte stream section by section.

use vstd::prelude::*;
use crate::assemble::assemble;
use crate::assemble::assemble_spec;
use crate::assemble::lemma_assemble_valid;
use crate::assemble::submessage_valid;
use crate::assemble::submessages_valid;
use crate::assemble::SubMessage;
use crate::cursor::ByteCursor;
use crate::error::FormatError;
use crate::section::body_fits;
use crate::section::is_end_marker;
use crate::section::is_magic;
use crate::section::min_section_size;
use crate::section::parse_bitmap;
use crate::section::parse_data_representation;
use crate::section::parse_grid_definition;
use crate::section::parse_header;
use crate::section::parse_identification;
use crate::section::parse_indicator;
use crate::section::parse_opaque;
use crate::section::parse_product_definition;
use crate::section::unpack_sect0;
use crate::section::unpack_sect1_body;
use crate::section::unpack_sect2_body;
use crate::section::unpack_sect3_body;
use crate::section::unpack_sect4_body;
use crate::section::unpack_sect5_body;
use crate::section::unpack_sect6_body;
use crate::section::unpack_sect7_body;
use crate::section::unpack_sect8;
use crate::section::unpack_sect_header;
use crate::section::Section;
use crate::section::SectionBody;

verus! {

/// A scanned message: the total length that Section 0 declares, the sections
/// in the order in which they stand in the stream, and the submessages that
/// they form.
#[derive(Debug, Clone, PartialEq, Eq)]
pub struct Message {
    total_length: u64,
    sections: Vec<Section>,
    submessages: Vec<SubMessage>,
}

/// What a message holds, as plain mathematical values.
pub struct MessageModel {
    pub total_length: u64,
    pub sections: Seq<Section>,
    pub submessages: Seq<SubMessage>,
}

/// The sections lie end to end from byte `from` on, and each is well formed.
pub open spec fn contiguous(sections: Seq<Section>, from: int) -> bool {
    &&& forall|i: int| 0 <= i < sections.len() ==> (#[trigger] sections[i]).wf()
    &&& sections.len() > 0 ==> sections[0].start == from
    &&& forall|i: int|
        0 <= i < sections.len() - 1 ==> (#[trigger] sections[i]).end == sections[i + 1].start
}

impl MessageModel {
    /// The sections start with Section 0 at byte 0, lie end to end, stop at
    /// the declared total length, and the submessages are those that the
    /// sections form.
    pub open spec fn wf(self) -> bool {
        &&& self.sections.len() >= 2
        &&& self.sections.len() <= usize::MAX
        &&& contiguous(self.sections, 0)
        &&& self.sections[0].number == 0
        &&& self.sections.last().number == 8
        &&& self.sections.last().end == self.total_length
        &&& assemble_spec(self.sections) == Ok::<Seq<SubMessage>, FormatError>(self.submessages)
        &&& submessages_valid(self.sections, self.submessages)
    }
}

impl View for Message {
    type V = MessageModel;

    closed spec fn view(&self) -> MessageModel {
        MessageModel {
            total_length: self.total_length,
            sections: self.sections@,
            submessages: self.submessages@,
        }
    }
}

impl Message {
    /// The message is one that a scan can return.
    pub open spec fn wf(&self) -> bool {
        self@.wf()
    }

    /// The total length of the message in bytes, as Section 0 declares it.
    pub fn total_length(&self) -> (n: u64)
        ensures
            n == self@.total_length,
    {
        self.total_length
    }

    /// The GRIB edition of the message.
    pub fn edition(&self) -> (e: u8)
        ensures
            e == 2,
    {
        2
    }

    /// The sections in stream order.
    pub fn sections(&self) -> (s: &Vec<Section>)
        ensures
            s@ == self@.sections,
    {
        &self.sections
    }

    /// The submessages in stream order.
    pub fn submessages(&self) -> (s: &Vec<SubMessage>)
        ensures
            s@ == self@.submessages,
    {
        &self.submessages
    }
}

/// Whether a section with the given number may follow one with number
/// `prev`: numbers do not go down, except that after Section 7 a further
/// submessage may start at Section 2, 3 or 4. Only Sections 1 to 7 have a
/// header.
pub open spec fn order_allowed(prev: u8, number: u8) -> bool {
    &&& 1 <= number <= 7
    &&& (prev <= number || (prev == 7 && 2 <= number <= 4))
}

/// What is read from the body at `pos` of a section with the given number
/// and length.
pub open spec fn parse_body(number: u8, data: Seq<u8>, pos: int, sect_size: usize) -> Result<
    SectionBody,
    FormatError,
> {
    if number == 1 {
        match parse_identification(data, pos, sect_size) {
            Ok(ident) => Ok(SectionBody::Identification(ident)),
            Err(e) => Err(e),
        }
    } else if number == 2 {
        match parse_opaque(data, pos, sect_size) {
            Ok(_) => Ok(SectionBody::LocalUse),
            Err(e) => Err(e),
        }
    } else if number == 3 {
        match parse_grid_definition(data, pos, sect_size) {
            Ok(grid) => Ok(SectionBody::GridDefinition(grid)),
            Err(e) => Err(e),
        }
    } else if number == 4 {
        match parse_product_definition(data, pos, sect_size) {
            Ok(product) => Ok(SectionBody::ProductDefinition(product)),
            Err(e) => Err(e),
        }
    } else if number == 5 {
        match parse_data_representation(data, pos, sect_size) {
            Ok(repr) => Ok(SectionBody::DataRepresentation(repr)),
            Err(e) => Err(e),
        }
    } else if number == 6 {
        match parse_bitmap(data, pos, sect_size) {
            Ok(indicator) => Ok(SectionBody::Bitmap { indicator }),
            Err(e) => Err(e),
        }
    } else if number == 7 {
        match parse_opaque(data, pos, sect_size) {
            Ok(_) => Ok(SectionBody::Data),
            Err(e) => Err(e),
        }
    } else {
        Err(FormatError::MalformedStructure)
    }
}

/// `head`, followed by the sections of `tail` if there are any.
pub open spec fn prepend(head: Seq<Section>, tail: Result<Seq<Section>, FormatError>) -> Result<
    Seq<Section>,
    FormatError,
> {
    match tail {
        Ok(rest) => Ok(head + rest),
        Err(e) => Err(e),
    }
}

/// The sections that stand from byte `pos` on, after a section with number
/// `prev`, up to and with Section 8; or the first failure on the way.
///
/// At each place the end marker `7777` is looked for first. Where it stands,
/// Section 8 is recorded and the walk is over. Elsewhere a header is read,
/// then the order of the sections is checked, then the body is read.
pub open spec fn scan_sections(data: Seq<u8>, pos: int, prev: u8) -> Result<
    Seq<Section>,
    FormatError,
>
    decreases data.len() - pos,
{
    if data.len() - pos < 4 {
        Err(FormatError::Truncated)
    } else if is_end_marker(data, pos) {
        Ok(
            seq![
                Section {
                    number: 8,
                    start: pos as usize,
                    end: (pos + 4) as usize,
                    body: SectionBody::End,
                },
            ],
        )
    } else {
        match parse_header(data, pos) {
            Err(e) => Err(e),
            Ok((number, size)) => {
                if !order_allowed(prev, number) {
                    Err(FormatError::MalformedStructure)
                } else {
                    match parse_body(number, data, pos + 5, size) {
                        Err(e) => Err(e),
                        Ok(body) => {
                            if size >= 5 {
                                prepend(
                                    seq![
                                        Section {
                                            number,
                                            start: pos as usize,
                                            end: (pos + size) as usize,
                                            body,
                                        },
                                    ],
                                    scan_sections(data, pos + size, number),
                                )
                            } else {
                                Err(FormatError::Truncated)
                            }
                        },
                    }
                }
            },
        }
    }
}

/// Section 0 as it is recorded.
pub open spec fn indicator_section() -> Section {
    Section { number: 0, start: 0, end: 16, body: SectionBody::Indicator }
}

/// The message that a byte stream holds, or the reason why it holds none.
///
/// Section 0 is read first. Then the sections are walked up to Section 8,
/// where the bytes walked must be as many as Section 0 declares
/// (`SizeMismatch`). Last, the sections are grouped into submessages.
pub open spec fn scan_spec(data: Seq<u8>) -> Result<MessageModel, FormatError> {
    match parse_indicator(data, 0) {
        Err(e) => Err(e),
        Ok(total_length) => match scan_sections(data, 16, 0) {
            Err(e) => Err(e),
            Ok(rest) => {
                let sections = seq![indicator_section()] + rest;
                if sections.last().end != total_length {
                    Err(FormatError::SizeMismatch)
                } else {
                    match assemble_spec(sections) {
                        Err(e) => Err(e),
                        Ok(submessages) => Ok(
                            MessageModel { total_length, sections, submessages },
                        ),
                    }
                }
            },
        },
    }
}

/// A body that was read has at least its header's five bytes and ends
/// within the stream, and it is of the kind that the number names.
proof fn lemma_parse_body(number: u8, data: Seq<u8>, pos: int, sect_size: usize)
    ensures
        parse_body(number, data, pos, sect_size) matches Ok(body) ==> {
            &&& body_fits(data, pos, sect_size, min_section_size(number) - 5)
            &&& number != 0 && number != 8
            &&& body.number() == number
            &&& (body matches SectionBody::Bitmap { indicator } ==> indicator == 0 || indicator
                == 255)
        },
{
}

/// A well-formed section, followed by sections that lie end to end from
/// where it ends, lies end to end with them; the last section stays the
/// last.
proof fn lemma_contiguous_prepend(head: Section, rest: Seq<Section>, from: int)
    requires
        head.wf(),
        head.start == from,
        rest.len() > 0,
        contiguous(rest, head.end as int),
    ensures
        contiguous(seq![head] + rest, from),
        (seq![head] + rest).last() == rest.last(),
{
    let all = seq![head] + rest;
    assert forall|i: int| 0 <= i < all.len() implies (#[trigger] all[i]).wf() by {
        if i > 0 {
            assert(all[i] == rest[i - 1]);
        }
    }
    assert forall|i: int| 0 <= i < all.len() - 1 implies (#[trigger] all[i]).end == all[i
        + 1].start by {
        assert(all[i + 1] == rest[i]);
        if i > 0 {
            assert(all[i] == rest[i - 1]);
        }
    }
}

/// The sections that a walk from `pos` returns lie end to end from `pos`,
/// each is well formed, the last is Section 8, and none reaches past the
/// end of the stream.
pub proof fn lemma_scan_sections(data: Seq<u8>, pos: int, prev: u8)
    requires
        0 <= pos,
        data.len() <= usize::MAX,
    ensures
        scan_sections(data, pos, prev) matches Ok(sections) ==> {
            &&& sections.len() >= 1
            &&& contiguous(sections, pos)
            &&& sections.last().number == 8
            &&& sections.last().end <= data.len()
            &&& sections.len() <= data.len() - pos
        },
    decreases data.len() - pos,
{
    if data.len() - pos >= 4 && !is_end_marker(data, pos) {
        if let Ok((number, size)) = parse_header(data, pos) {
            if order_allowed(prev, number) {
                lemma_parse_body(number, data, pos + 5, size);
                if let Ok(body) = parse_body(number, data, pos + 5, size) {
                    lemma_scan_sections(data, pos + size, number);
                    if let Ok(rest) = scan_sections(data, pos + size, number) {
                        let head = Section {
                            number,
                            start: pos as usize,
                            end: (pos + size) as usize,
                            body,
                        };
                        lemma_contiguous_prepend(head, rest, pos);
                    }
                }
            }
        }
    }
}

/// Sections that lie end to end come in the order of their byte offsets.
pub proof fn lemma_sections_ordered(sections: Seq<Section>, from: int, i: int, j: int)
    requires
        contiguous(sections, from),
        0 <= i < j < sections.len(),
    ensures
        sections[i].start < sections[i].end <= sections[j].start < sections[j].end,
    decreases j - i,
{
    assert(sections[i].wf());
    assert(sections[j].wf());
    if i + 1 < j {
        lemma_sections_ordered(sections, from, i + 1, j);
        assert(sections[i + 1].wf());
    }
}

/// The Sections 3, 4, 5, 6 and 7 of a submessage are all there and stand in
/// that order in the stream.
pub open spec fn in_stream_order(sections: Seq<Section>, sub: SubMessage) -> bool {
    &&& sub.section7 < sections.len()
    &&& sections[sub.section3 as int].number == 3
    &&& sections[sub.section4 as int].number == 4
    &&& sections[sub.section5 as int].number == 5
    &&& sections[sub.section6 as int].number == 6
    &&& sections[sub.section7 as int].number == 7
    &&& sections[sub.section3 as int].start < sections[sub.section4 as int].start
    &&& sections[sub.section4 as int].start < sections[sub.section5 as int].start
    &&& sections[sub.section5 as int].start < sections[sub.section6 as int].start
    &&& sections[sub.section6 as int].start < sections[sub.section7 as int].start
}

/// In a well-formed message every submessage has its sections in stream
/// order, and the submessages follow one another in the stream.
pub proof fn lemma_submessages_ordered(m: MessageModel)
    requires
        m.wf(),
    ensures
        forall|k: int|
            0 <= k < m.submessages.len() ==> in_stream_order(
                m.sections,
                #[trigger] m.submessages[k],
            ),
        forall|j: int, k: int|
            0 <= j < k < m.submessages.len() ==> m.sections[(
            #[trigger] m.submessages[j]).section7 as int].start < m.sections[(
            #[trigger] m.submessages[k]).section4 as int].start,
{
    assert forall|k: int| 0 <= k < m.submessages.len() implies in_stream_order(
        m.sections,
        #[trigger] m.submessages[k],
    ) by {
        let sub = m.submessages[k];
        assert(submessage_valid(m.sections, sub));
        lemma_sections_ordered(m.sections, 0, sub.section3 as int, sub.section4 as int);
        lemma_sections_ordered(m.sections, 0, sub.section4 as int, sub.section5 as int);
        lemma_sections_ordered(m.sections, 0, sub.section5 as int, sub.section6 as int);
        lemma_sections_ordered(m.sections, 0, sub.section6 as int, sub.section7 as int);
    }
    assert forall|j: int, k: int| 0 <= j < k < m.submessages.len() implies m.sections[(
    #[trigger] m.submessages[j]).section7 as int].start < m.sections[(
    #[trigger] m.submessages[k]).section4 as int].start by {
        assert(submessage_valid(m.sections, m.submessages[j]));
        assert(submessage_valid(m.sections, m.submessages[k]));
        lemma_sections_ordered(
            m.sections,
            0,
            m.submessages[j].section7 as int,
            m.submessages[k].section4 as int,
        );
    }
}

/// Whenever a byte string scans to a message, every submessage of it has
/// its Sections 3, 4, 5, 6 and 7, and they stand in that order in the
/// stream.
pub proof fn lemma_scan_orders_submessages(data: Seq<u8>)
    requires
        data.len() <= usize::MAX,
    ensures
        scan_spec(data) matches Ok(m) ==> forall|k: int|
            0 <= k < m.submessages.len() ==> in_stream_order(
                m.sections,
                #[trigger] m.submessages[k],
            ),
{
    lemma_scan_wf(data);
    if let Ok(m) = scan_spec(data) {
        lemma_submessages_ordered(m);
    }
}

/// A byte string of fewer than 16 bytes is truncated, one that does not
/// start with `GRIB` is no GRIB message, and one of another edition than 2
/// is unsupported, whatever follows the first 16 bytes.
pub proof fn lemma_scan_boundary(data: Seq<u8>)
    ensures
        data.len() < 16 ==> scan_spec(data) == Err::<MessageModel, FormatError>(
            FormatError::Truncated,
        ),
        data.len() >= 16 && !is_magic(data, 0) ==> scan_spec(data) == Err::<
            MessageModel,
            FormatError,
        >(FormatError::NotGrib),
        data.len() >= 16 && is_magic(data, 0) && data[7] != 2 ==> scan_spec(data) == Err::<
            MessageModel,
            FormatError,
        >(FormatError::UnsupportedEdition),
{
}

/// Scanning is a function of the bytes: two scans of one byte string give
/// the same message.
pub proof fn lemma_scan_deterministic(data: Seq<u8>, first: Message, second: Message)
    requires
        scan_spec(data) == Ok::<MessageModel, FormatError>(first@),
        scan_spec(data) == Ok::<MessageModel, FormatError>(second@),
    ensures
        first@ == second@,
        first@.total_length == second@.total_length,
        first@.sections == second@.sections,
        first@.submessages == second@.submessages,
{
}

/// Whatever a scan returns is a well-formed message that ends within the
/// stream.
pub proof fn lemma_scan_wf(data: Seq<u8>)
    requires
        data.len() <= usize::MAX,
    ensures
        scan_spec(data) matches Ok(m) ==> m.wf() && m.total_length <= data.len(),
{
    if let Ok(total_length) = parse_indicator(data, 0) {
        lemma_scan_sections(data, 16, 0);
        if let Ok(rest) = scan_sections(data, 16, 0) {
            let sections = seq![indicator_section()] + rest;
            lemma_contiguous_prepend(indicator_section(), rest, 0);
            lemma_assemble_valid(sections);
        }
    }
}

fn unpack_body(number: u8, f: &mut ByteCursor, sect_size: usize) -> (r: Result<
    SectionBody,
    FormatError,
>)
    requires
        old(f).wf(),
        1 <= number <= 7,
    ensures
        r == parse_body(number, old(f).source(), old(f).offset() as int, sect_size),
        final(f).moved(old(f), if r is Ok { (sect_size - 5) as nat } else { 0 }),
{
    if number == 1 {
        match unpack_sect1_body(f, sect_size) {
            Ok(ident) => Ok(SectionBody::Identification(ident)),
            Err(e) => Err(e),
        }
    } else if number == 2 {
        match unpack_sect2_body(f, sect_size) {
            Ok(_) => Ok(SectionBody::LocalUse),
            Err(e) => Err(e),
        }
    } else if number == 3 {
        match unpack_sect3_body(f, sect_size) {
            Ok(grid) => Ok(SectionBody::GridDefinition(grid)),
            Err(e) => Err(e),
        }
    } else if number == 4 {
        match unpack_sect4_body(f, sect_size) {
            Ok(product) => Ok(SectionBody::ProductDefinition(product)),
            Err(e) => Err(e),
        }
    } else if number == 5 {
        match unpack_sect5_body(f, sect_size) {
            Ok(repr) => Ok(SectionBody::DataRepresentation(repr)),
            Err(e) => Err(e),
        }
    } else if number == 6 {
        match unpack_sect6_body(f, sect_size) {
            Ok(indicator) => Ok(SectionBody::Bitmap { indicator }),
            Err(e) => Err(e),
        }
    } else {
        match unpack_sect7_body(f, sect_size) {
            Ok(_) => Ok(SectionBody::Data),
            Err(e) => Err(e),
        }
    }
}

fn order_ok(prev: u8, number: u8) -> (b: bool)
    ensures
        b == order_allowed(prev, number),
{
    1 <= number && number <= 7 && (prev <= number || (prev == 7 && 2 <= number && number <= 4))
}

/// Walks the sections that follow Section 0, up to and with Section 8.
fn walk(f: &mut ByteCursor) -> (r: Result<Vec<Section>, FormatError>)
    requires
        old(f).wf(),
        old(f).offset() == 16,
    ensures
        final(f).wf(),
        final(f).source() == old(f).source(),
        match r {
            Ok(sections) => scan_sections(old(f).source(), 16, 0) == Ok::<
                Seq<Section>,
                FormatError,
            >(sections@.subrange(1, sections@.len() as int)) && sections@.len() >= 1
                && sections@[0] == indicator_section(),
            Err(e) => scan_sections(old(f).source(), 16, 0) == Err::<Seq<Section>, FormatError>(e),
        },
{
    let ghost data = f.source();
    let mut sections: Vec<Section> = Vec::new();
    sections.push(Section { number: 0, start: 0, end: 16, body: SectionBody::Indicator });
    let mut prev: u8 = 0;
    loop
        invariant
            f.wf(),
            f.source() == data,
            data == old(f).source(),
            f.offset() >= 16,
            sections@.len() >= 1,
            sections@[0] == indicator_section(),
            scan_sections(data, 16, 0) == prepend(
                sections@.subrange(1, sections@.len() as int),
                scan_sections(data, f.offset() as int, prev),
            ),
        decreases f.left(),
    {
        let start: usize = f.position();
        let ghost before = sections@.subrange(1, sections@.len() as int);
        match unpack_sect8(f) {
            Ok(_) => {
                let end: usize = f.position();
                sections.push(Section { number: 8, start, end, body: SectionBody::End });
                proof {
                    assert(sections@.subrange(1, sections@.len() as int) =~= before + seq![
                        sections@.last(),
                    ]);
                }
                return Ok(sections);
            },
            Err(FormatError::Truncated) => {
                return Err(FormatError::Truncated);
            },
            Err(_) => {},
        }
        let (number, size) = match unpack_sect_header(f) {
            Ok(header) => header,
            Err(e) => {
                return Err(e);
            },
        };
        if !order_ok(prev, number) {
            return Err(FormatError::MalformedStructure);
        }
        let body = match unpack_body(number, f, size) {
            Ok(body) => body,
            Err(e) => {
                return Err(e);
            },
        };
        proof {
            lemma_parse_body(number, data, start + 5, size);
        }
        let end: usize = f.position();
        let section = Section { number, start, end, body };
        sections.push(section);
        proof {
            let rest = scan_sections(data, start + size, number);
            assert(sections@.subrange(1, sections@.len() as int) =~= before + seq![section]);
            if let Ok(tail) = rest {
                assert((before + seq![section]) + tail =~= before + (seq![section] + tail));
            }
        }
        prev = number;
    }
}

/// Scans a byte stream that holds one message.
///
/// The stream must open with the 16 bytes of Section 0: fewer bytes fail
/// with `Truncated`, other magic letters with `NotGrib`, an edition other
/// than 2 with `UnsupportedEdition`, and nothing further is read. Then each
/// section is recorded with its number, its byte range and the fixed fields
/// of its body, up to the end marker. A header or a body that the stream
/// cannot hold fails with `Truncated`, a section out of order with
/// `MalformedStructure`, a predefined bit map with `UnsupportedFeature`. At
/// the end marker the bytes walked must equal the declared total length
/// (`SizeMismatch`). Last the sections are grouped into submessages, which
/// may fail as `assemble` does. Bytes after the end marker are not looked
/// at.
pub fn scan(data: &[u8]) -> (r: Result<Message, FormatError>)
    ensures
        match r {
            Ok(m) => scan_spec(data@) == Ok::<MessageModel, FormatError>(m@) && m.wf()
                && m@.total_length <= data@.len(),
            Err(e) => scan_spec(data@) == Err::<MessageModel, FormatError>(e),
        },
{
    let total: usize = data.len();
    let mut f = ByteCursor::new(data);
    let total_length: u64 = match unpack_sect0(&mut f) {
        Ok(n) => n,
        Err(e) => {
            return Err(e);
        },
    };
    let sections = match walk(&mut f) {
        Ok(sections) => sections,
        Err(e) => {
            return Err(e);
        },
    };
    proof {
        assert(sections@ =~= seq![indicator_section()] + sections@.subrange(
            1,
            sections@.len() as int,
        ));
        lemma_scan_sections(data@, 16, 0);
    }
    let last: usize = sections[sections.len() - 1].end;
    if last as u64 != total_length {
        return Err(FormatError::SizeMismatch);
    }
    let submessages = match assemble(sections.as_slice()) {
        Ok(submessages) => submessages,
        Err(e) => {
            return Err(e);
        },
    };
    let message = Message { total_length, sections, submessages };
    proof {
        lemma_scan_wf(data@);
    }
    Ok(message)
}

} // verus!
