use grib::assemble::assemble;
use grib::assemble::SubMessage;
use grib::error::DecodeError;
use grib::error::FormatError;
use grib::error::TemplateCategory;
use grib::scan::scan;
use grib::section::DataRepresentation;
use grib::section::GridDefinition;
use grib::section::ProductDefinition;
use grib::section::Section;
use grib::section::SectionBody;
use grib::template::identify;
use grib::template::list_templates;
use grib::template::resolve;
use grib::template::Template;
use grib::template::TemplateInfo;
use grib::view::InspectItem;
use grib::view::InspectView;

fn section(number: u8, body: &[u8]) -> Vec<u8> {
    let mut v = ((body.len() + 5) as u32).to_be_bytes().to_vec();
    v.push(number);
    v.extend_from_slice(body);
    v
}

fn padded(fields: &[u8], len: usize) -> Vec<u8> {
    let mut v = fields.to_vec();
    while v.len() < len {
        v.push(0);
    }
    v
}

fn sect1() -> Vec<u8> {
    section(1, &[0, 34, 0, 0, 5, 1, 0, 0x07, 0xe0, 8, 22, 2, 0, 0, 0, 2])
}

fn sect3(npoints: u32, template: u16, body_len: usize) -> Vec<u8> {
    let n = npoints.to_be_bytes();
    let t = template.to_be_bytes();
    section(3, &padded(&[0, n[0], n[1], n[2], n[3], 0, 0, t[0], t[1]], body_len))
}

fn sect4(template: u16, body_len: usize) -> Vec<u8> {
    let t = template.to_be_bytes();
    section(4, &padded(&[0, 0, t[0], t[1]], body_len))
}

fn sect5(npoints: u32, template: u16, body_len: usize) -> Vec<u8> {
    let n = npoints.to_be_bytes();
    let t = template.to_be_bytes();
    section(5, &padded(&[n[0], n[1], n[2], n[3], t[0], t[1]], body_len))
}

fn sect6(indicator: u8) -> Vec<u8> {
    section(6, &[indicator])
}

fn sect7(body_len: usize) -> Vec<u8> {
    section(7, &padded(&[], body_len))
}

fn message(sections: &[Vec<u8>]) -> Vec<u8> {
    let total: usize = 16 + sections.iter().map(|s| s.len()).sum::<usize>() + 4;
    let mut v = vec![b'G', b'R', b'I', b'B', 0, 0, 0, 2];
    v.extend_from_slice(&(total as u64).to_be_bytes());
    for s in sections {
        v.extend_from_slice(s);
    }
    v.extend_from_slice(b"7777");
    v
}

fn one_field() -> Vec<u8> {
    message(&[sect1(), sect3(4, 0, 9), sect4(0, 4), sect5(4, 0, 16), sect6(255), sect7(4)])
}

fn nowcast() -> Vec<u8> {
    let data_sizes = [1391usize, 1399, 1404, 1395, 1395, 1397, 1386];
    let mut sections = vec![sect1(), sect3(10000, 0, 67)];
    for size in data_sizes {
        sections.push(sect4(0, 29));
        sections.push(sect5(10000, 200, 18));
        sections.push(sect6(255));
        sections.push(sect7(size - 5));
    }
    message(&sections)
}

fn numbered(numbers: &[u8]) -> Vec<Section> {
    let mut v = Vec::new();
    let mut start = 0usize;
    for &number in numbers {
        let body = match number {
            0 => SectionBody::Indicator,
            2 => SectionBody::LocalUse,
            3 => SectionBody::GridDefinition(GridDefinition { num_points: 1, template: 0 }),
            4 => SectionBody::ProductDefinition(ProductDefinition {
                num_coordinates: 0,
                template: 0,
            }),
            5 => SectionBody::DataRepresentation(DataRepresentation {
                num_points: 1,
                template: 0,
            }),
            6 => SectionBody::Bitmap { indicator: 255 },
            7 => SectionBody::Data,
            8 => SectionBody::End,
            _ => SectionBody::LocalUse,
        };
        v.push(Section { number, start, end: start + 16, body });
        start += 16;
    }
    v
}

#[test]
fn scan_of_one_field() {
    let data = one_field();
    let message = scan(&data).unwrap();
    assert_eq!(message.total_length(), data.len() as u64);
    assert_eq!(message.edition(), 2);
    let numbers: Vec<u8> = message.sections().iter().map(|s| s.number).collect();
    assert_eq!(numbers, vec![0, 1, 3, 4, 5, 6, 7, 8]);
    let ranges: Vec<(usize, usize)> = message.sections().iter().map(|s| (s.start, s.end)).collect();
    assert_eq!(
        ranges,
        vec![(0, 16), (16, 37), (37, 51), (51, 60), (60, 81), (81, 87), (87, 96), (96, 100)]
    );
    assert_eq!(
        message.sections()[2].body,
        SectionBody::GridDefinition(GridDefinition { num_points: 4, template: 0 })
    );
    assert_eq!(
        message.sections()[4].body,
        SectionBody::DataRepresentation(DataRepresentation { num_points: 4, template: 0 })
    );
    assert_eq!(message.sections()[5].body, SectionBody::Bitmap { indicator: 255 });
    assert_eq!(message.sections()[7].body, SectionBody::End);
    assert_eq!(
        message.submessages(),
        &vec![SubMessage {
            section2: None,
            section3: 2,
            section4: 3,
            section5: 4,
            section6: 5,
            section7: 6,
        }]
    );
}

#[test]
fn scan_does_not_read_past_the_end_marker() {
    let mut data = one_field();
    let clean = scan(&data).unwrap();
    data.extend_from_slice(b"trailing bytes");
    assert_eq!(scan(&data), Ok(clean));
}

#[test]
fn scan_twice_gives_equal_messages() {
    let data = nowcast();
    let first = scan(&data);
    let second = scan(&data);
    assert!(first.is_ok());
    assert_eq!(first, second);
    let copy = data.clone();
    assert_eq!(scan(&copy), first);
    let broken = &data[..data.len() - 1];
    assert_eq!(scan(broken), scan(broken));
    assert!(scan(broken).is_err());
}

#[test]
fn scan_of_a_too_small_file_is_truncated() {
    assert_eq!(scan(b"foo"), Err(FormatError::Truncated));
    assert_eq!(scan(b""), Err(FormatError::Truncated));
    assert_eq!(scan(&one_field()[..15]), Err(FormatError::Truncated));
}

#[test]
fn scan_of_a_non_grib_file() {
    assert_eq!(scan(b"foo foo foo foo foo foo foo foo "), Err(FormatError::NotGrib));
    let mut data = one_field();
    data[0] = b'g';
    assert_eq!(scan(&data), Err(FormatError::NotGrib));
    assert_eq!(scan(&data[..16]), Err(FormatError::NotGrib));
}

#[test]
fn scan_of_another_edition() {
    let mut data = one_field();
    data[7] = 1;
    assert_eq!(scan(&data), Err(FormatError::UnsupportedEdition));
    assert_eq!(scan(&data[..16]), Err(FormatError::UnsupportedEdition));
    data[7] = 3;
    assert_eq!(scan(&data), Err(FormatError::UnsupportedEdition));
}

#[test]
fn scan_of_a_cut_message_is_truncated() {
    let data = one_field();
    for len in 16..data.len() {
        assert_eq!(scan(&data[..len]), Err(FormatError::Truncated));
    }
    assert!(scan(&data).is_ok());
}

#[test]
fn scan_of_a_section_shorter_than_its_fields_is_truncated() {
    let data = message(&[sect1(), section(3, &[0; 8]), sect4(0, 4), sect5(4, 0, 16), sect6(255), sect7(4)]);
    assert_eq!(scan(&data), Err(FormatError::Truncated));
    let exact = message(&[sect1(), section(3, &[0; 9]), sect4(0, 4), sect5(4, 0, 16), sect6(255), sect7(4)]);
    assert!(scan(&exact).is_ok());
    let mut tiny = one_field();
    tiny[16..20].copy_from_slice(&4u32.to_be_bytes());
    assert_eq!(scan(&tiny), Err(FormatError::Truncated));
}

#[test]
fn scan_checks_the_total_length_at_the_end() {
    let mut data = one_field();
    data[15] += 1;
    assert_eq!(scan(&data), Err(FormatError::SizeMismatch));
    data[15] -= 2;
    assert_eq!(scan(&data), Err(FormatError::SizeMismatch));
    data[15] += 1;
    assert!(scan(&data).is_ok());
}

#[test]
fn scan_refuses_sections_out_of_order() {
    let cases = [
        vec![sect1(), sect3(4, 0, 9), sect4(0, 4), sect5(4, 0, 16), sect6(255), sect7(4), sect1()],
        vec![sect1(), sect4(0, 4), sect3(4, 0, 9), sect5(4, 0, 16), sect6(255), sect7(4)],
        vec![sect1(), sect3(4, 0, 9), sect4(0, 4), sect6(255), sect5(4, 0, 16), sect7(4)],
        vec![sect1(), sect3(4, 0, 9), sect4(0, 4), sect5(4, 0, 16), sect6(255), sect7(4), sect5(4, 0, 16)],
        vec![sect3(4, 0, 9), sect1(), sect4(0, 4), sect5(4, 0, 16), sect6(255), sect7(4)],
        vec![sect1(), sect3(4, 0, 9), sect4(0, 4), sect5(4, 0, 16), sect6(255), sect7(4), section(9, &[])],
        vec![sect1(), section(0, &[0; 11])],
        vec![sect1(), sect3(4, 0, 9), sect4(0, 4), sect5(4, 0, 16), sect7(4)],
        vec![sect1(), sect3(4, 0, 9), sect4(0, 4), sect5(4, 0, 16), sect6(255)],
        vec![sect1(), sect3(4, 0, 9), sect5(4, 0, 16), sect6(255), sect7(4)],
    ];
    for sections in cases {
        assert_eq!(scan(&message(&sections)), Err(FormatError::MalformedStructure));
    }
}

#[test]
fn scan_without_a_grid_definition() {
    let data = message(&[sect1(), sect4(0, 4), sect5(4, 0, 16), sect6(255), sect7(4)]);
    assert_eq!(scan(&data), Err(FormatError::MissingGridDefinition));
    let local = message(&[sect1(), section(2, &[1, 2]), sect4(0, 4), sect5(4, 0, 16), sect6(255), sect7(4)]);
    assert_eq!(scan(&local), Err(FormatError::MissingGridDefinition));
}

#[test]
fn scan_of_a_predefined_bitmap_is_unsupported() {
    let data = message(&[sect1(), sect3(4, 0, 9), sect4(0, 4), sect5(4, 0, 16), sect6(254), sect7(4)]);
    assert_eq!(scan(&data), Err(FormatError::UnsupportedFeature));
    let first = message(&[sect1(), sect3(4, 0, 9), sect4(0, 4), sect5(4, 0, 16), sect6(1), sect7(4)]);
    assert_eq!(scan(&first), Err(FormatError::UnsupportedFeature));
}

#[test]
fn scan_of_a_message_without_data() {
    let message = scan(&message(&[sect1()])).unwrap();
    assert_eq!(message.sections().len(), 3);
    assert!(message.submessages().is_empty());
    assert!(list_templates(&message).is_empty());
}

#[test]
fn scan_takes_over_sections_2_and_3() {
    let data = message(&[
        sect1(),
        section(2, &[1, 2, 3]),
        sect3(4, 0, 9),
        sect4(0, 4),
        sect5(4, 0, 16),
        sect6(255),
        sect7(4),
        sect4(0, 4),
        sect5(4, 0, 16),
        sect6(255),
        sect7(4),
        sect3(8, 30, 9),
        sect4(8, 4),
        sect5(8, 200, 16),
        sect6(255),
        sect7(4),
        section(2, &[]),
        sect3(8, 30, 9),
        sect4(8, 4),
        sect5(8, 200, 16),
        sect6(255),
        sect7(4),
    ]);
    let message = scan(&data).unwrap();
    assert_eq!(
        message.submessages(),
        &vec![
            SubMessage { section2: Some(2), section3: 3, section4: 4, section5: 5, section6: 6, section7: 7 },
            SubMessage { section2: Some(2), section3: 3, section4: 8, section5: 9, section6: 10, section7: 11 },
            SubMessage { section2: Some(2), section3: 12, section4: 13, section5: 14, section6: 15, section7: 16 },
            SubMessage { section2: Some(17), section3: 18, section4: 19, section5: 20, section6: 21, section7: 22 },
        ]
    );
    assert_eq!(
        list_templates(&message),
        vec![
            TemplateInfo { category: TemplateCategory::Grid, number: 0 },
            TemplateInfo { category: TemplateCategory::Product, number: 0 },
            TemplateInfo { category: TemplateCategory::DataRepresentation, number: 0 },
            TemplateInfo { category: TemplateCategory::Grid, number: 30 },
            TemplateInfo { category: TemplateCategory::Product, number: 8 },
            TemplateInfo { category: TemplateCategory::DataRepresentation, number: 200 },
        ]
    );
}

#[test]
fn submessages_are_ordered_by_byte_offset() {
    for data in [one_field(), nowcast()] {
        let message = scan(&data).unwrap();
        let sections = message.sections();
        let mut last = 0usize;
        for sub in message.submessages() {
            assert_eq!(sections[sub.section3].number, 3);
            assert_eq!(sections[sub.section4].number, 4);
            assert_eq!(sections[sub.section5].number, 5);
            assert_eq!(sections[sub.section6].number, 6);
            assert_eq!(sections[sub.section7].number, 7);
            assert!(sections[sub.section3].start < sections[sub.section4].start);
            assert!(sections[sub.section4].start < sections[sub.section5].start);
            assert!(sections[sub.section5].start < sections[sub.section6].start);
            assert!(sections[sub.section6].start < sections[sub.section7].start);
            assert!(last < sections[sub.section4].start);
            last = sections[sub.section7].start;
        }
        for pair in sections.windows(2) {
            assert_eq!(pair[0].end, pair[1].start);
            assert!(pair[0].start < pair[0].end);
        }
    }
}

#[test]
fn nowcast_has_seven_submessages_on_one_grid() {
    let data = nowcast();
    let message = scan(&data).unwrap();
    assert_eq!(message.total_length(), 0x2851);
    let expected: [(usize, usize, u8); 32] = [
        (0x0000, 0x0010, 0),
        (0x0010, 0x0025, 1),
        (0x0025, 0x006d, 3),
        (0x006d, 0x008f, 4),
        (0x008f, 0x00a6, 5),
        (0x00a6, 0x00ac, 6),
        (0x00ac, 0x061b, 7),
        (0x061b, 0x063d, 4),
        (0x063d, 0x0654, 5),
        (0x0654, 0x065a, 6),
        (0x065a, 0x0bd1, 7),
        (0x0bd1, 0x0bf3, 4),
        (0x0bf3, 0x0c0a, 5),
        (0x0c0a, 0x0c10, 6),
        (0x0c10, 0x118c, 7),
        (0x118c, 0x11ae, 4),
        (0x11ae, 0x11c5, 5),
        (0x11c5, 0x11cb, 6),
        (0x11cb, 0x173e, 7),
        (0x173e, 0x1760, 4),
        (0x1760, 0x1777, 5),
        (0x1777, 0x177d, 6),
        (0x177d, 0x1cf0, 7),
        (0x1cf0, 0x1d12, 4),
        (0x1d12, 0x1d29, 5),
        (0x1d29, 0x1d2f, 6),
        (0x1d2f, 0x22a4, 7),
        (0x22a4, 0x22c6, 4),
        (0x22c6, 0x22dd, 5),
        (0x22dd, 0x22e3, 6),
        (0x22e3, 0x284d, 7),
        (0x284d, 0x2851, 8),
    ];
    let found: Vec<(usize, usize, u8)> =
        message.sections().iter().map(|s| (s.start, s.end, s.number)).collect();
    assert_eq!(found, expected.to_vec());
    let subs = message.submessages();
    assert_eq!(subs.len(), 7);
    for (k, sub) in subs.iter().enumerate() {
        assert_eq!(
            *sub,
            SubMessage {
                section2: None,
                section3: 2,
                section4: 3 + 4 * k,
                section5: 4 + 4 * k,
                section6: 5 + 4 * k,
                section7: 6 + 4 * k,
            }
        );
        assert_eq!(message.sections()[sub.section7].start, expected[6 + 4 * k].0);
    }
    assert_eq!(
        list_templates(&message),
        vec![
            TemplateInfo { category: TemplateCategory::Grid, number: 0 },
            TemplateInfo { category: TemplateCategory::Product, number: 0 },
            TemplateInfo { category: TemplateCategory::DataRepresentation, number: 200 },
        ]
    );
}

#[test]
fn assemble_groups_sections() {
    let sections = numbered(&[0, 1, 3, 4, 5, 6, 7, 4, 5, 6, 7, 8]);
    assert_eq!(
        assemble(&sections),
        Ok(vec![
            SubMessage { section2: None, section3: 2, section4: 3, section5: 4, section6: 5, section7: 6 },
            SubMessage { section2: None, section3: 2, section4: 7, section5: 8, section6: 9, section7: 10 },
        ])
    );
    assert_eq!(assemble(&numbered(&[0, 1, 8])), Ok(vec![]));
    assert_eq!(assemble(&[]), Ok(vec![]));
}

#[test]
fn assemble_remembers_the_last_sections_2_and_3() {
    let sections = numbered(&[0, 1, 2, 3, 3, 4, 5, 6, 7, 2, 4, 5, 6, 7, 3, 4, 5, 6, 7, 8]);
    assert_eq!(
        assemble(&sections),
        Ok(vec![
            SubMessage { section2: Some(2), section3: 4, section4: 5, section5: 6, section6: 7, section7: 8 },
            SubMessage { section2: Some(9), section3: 4, section4: 10, section5: 11, section6: 12, section7: 13 },
            SubMessage { section2: Some(9), section3: 14, section4: 15, section5: 16, section6: 17, section7: 18 },
        ])
    );
}

#[test]
fn assemble_needs_a_grid_definition() {
    assert_eq!(
        assemble(&numbered(&[0, 1, 4, 5, 6, 7, 8])),
        Err(FormatError::MissingGridDefinition)
    );
    assert_eq!(
        assemble(&numbered(&[0, 1, 2, 4, 5, 6, 7, 3, 8])),
        Err(FormatError::MissingGridDefinition)
    );
    assert_eq!(assemble(&numbered(&[4])), Err(FormatError::MissingGridDefinition));
}

#[test]
fn assemble_refuses_a_broken_submessage() {
    let cases: [&[u8]; 12] = [
        &[0, 1, 3, 4, 6, 5, 7, 8],
        &[0, 1, 3, 4, 5, 7, 8],
        &[0, 1, 3, 4, 5, 6, 8],
        &[0, 1, 3, 4, 5, 6],
        &[0, 1, 3, 4, 4, 5, 6, 7, 8],
        &[0, 1, 3, 4, 3, 5, 6, 7, 8],
        &[0, 1, 3, 4, 5, 6, 2, 7, 8],
        &[0, 1, 3, 5, 6, 7, 8],
        &[0, 1, 3, 4, 5, 6, 7, 7, 8],
        &[0, 1, 3, 6, 8],
        &[0, 1, 3, 9, 4, 5, 6, 7, 8],
        &[0, 1, 3, 4, 1, 5, 6, 7, 8],
    ];
    for numbers in cases {
        assert_eq!(assemble(&numbered(numbers)), Err(FormatError::MalformedStructure));
    }
}

#[test]
fn assemble_reports_the_first_failure() {
    assert_eq!(
        assemble(&numbered(&[0, 1, 5, 4, 5, 6, 7, 8])),
        Err(FormatError::MalformedStructure)
    );
    assert_eq!(
        assemble(&numbered(&[0, 1, 4, 6, 8])),
        Err(FormatError::MissingGridDefinition)
    );
}

#[test]
fn resolve_knows_four_templates() {
    assert_eq!(resolve(TemplateCategory::Grid, 0), Ok(Template::LatitudeLongitude));
    assert_eq!(resolve(TemplateCategory::Product, 0), Ok(Template::AnalysisOrForecast));
    assert_eq!(resolve(TemplateCategory::DataRepresentation, 0), Ok(Template::SimplePacking));
    assert_eq!(resolve(TemplateCategory::DataRepresentation, 200), Ok(Template::RunLengthPacking));
}

#[test]
fn resolve_reports_the_unsupported_pair() {
    assert_eq!(
        resolve(TemplateCategory::Grid, 200),
        Err(DecodeError::UnsupportedTemplate(TemplateCategory::Grid, 200))
    );
    assert_eq!(
        resolve(TemplateCategory::Product, 8),
        Err(DecodeError::UnsupportedTemplate(TemplateCategory::Product, 8))
    );
    assert_eq!(
        resolve(TemplateCategory::DataRepresentation, 3),
        Err(DecodeError::UnsupportedTemplate(TemplateCategory::DataRepresentation, 3))
    );
    assert_eq!(
        resolve(TemplateCategory::DataRepresentation, 65535),
        Err(DecodeError::UnsupportedTemplate(TemplateCategory::DataRepresentation, 65535))
    );
    assert_eq!(
        identify(TemplateCategory::Product, 8),
        Template::Unsupported(TemplateInfo { category: TemplateCategory::Product, number: 8 })
    );
    assert_eq!(identify(TemplateCategory::DataRepresentation, 200), Template::RunLengthPacking);
}

#[test]
fn category_names_its_section() {
    assert_eq!(TemplateCategory::Grid.section_number(), 3);
    assert_eq!(TemplateCategory::Product.section_number(), 4);
    assert_eq!(TemplateCategory::DataRepresentation.section_number(), 5);
}

#[test]
fn unsupported_templates_are_listed() {
    let data = message(&[
        sect1(),
        sect3(4, 101, 9),
        sect4(40, 4),
        sect5(4, 3, 16),
        sect6(255),
        sect7(4),
        sect4(40, 4),
        sect5(4, 101, 16),
        sect6(255),
        sect7(4),
    ]);
    let message = scan(&data).unwrap();
    assert_eq!(
        list_templates(&message),
        vec![
            TemplateInfo { category: TemplateCategory::Grid, number: 101 },
            TemplateInfo { category: TemplateCategory::Product, number: 40 },
            TemplateInfo { category: TemplateCategory::DataRepresentation, number: 3 },
            TemplateInfo { category: TemplateCategory::DataRepresentation, number: 101 },
        ]
    );
}

#[test]
fn view_counts_its_lines() {
    let data = nowcast();
    let message = scan(&data).unwrap();
    let mut view = InspectView::new();
    assert!(!view.with_headers());
    assert_eq!(view.num_lines(), 0);
    view.add(InspectItem::Sections(message.sections()));
    assert!(!view.with_headers());
    assert_eq!(view.num_lines(), 32);
    view.add(InspectItem::Templates(list_templates(&message)));
    assert!(view.with_headers());
    assert_eq!(view.num_lines(), 1 + 32 + 1 + 1 + 3);
    assert_eq!(view.items[0].title(), "Sections");
    assert_eq!(view.items[1].title(), "Templates");
    assert_eq!(view.items[0].len(), 32);
    assert_eq!(view.items[1].len(), 3);
    let mut templates_only = InspectView::new();
    templates_only.add(InspectItem::Templates(list_templates(&message)));
    assert_eq!(templates_only.num_lines(), 3);
}
