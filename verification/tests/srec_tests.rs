use asml::srec::Line;
use asml::srec::LineFault;
use asml::srec::SrecType;
use asml::srec::Srecord;
use asml::srec::SrecordError;
use asml::srec::code_to_srecord;
use asml::srec::convert_hex;
use asml::srec::parse_text;
use asml::srec::srecord_to_code;
use asml::vm::CodeSection;

#[test]
fn test_convert_hex() {
    let hex_str = "0123456789ABCDEF".as_bytes();
    let converted = convert_hex(hex_str);

    assert_eq!(converted, vec![0x01, 0x23, 0x45, 0x67, 0x89, 0xAB, 0xCD, 0xEF]);
}

#[test]
fn convert_hex_rejects_odd_lengths() {
    assert_eq!(convert_hex(b"ABC"), Vec::<u8>::new());
}

#[test]
fn header_checksum() {
    let l = Line {
        rec_type: SrecType::SrecHeader,
        address: 0x0000,
        data: vec![0x68, 0x65, 0x6C, 0x6C, 0x6F, 0x20, 0x20, 0x20, 0x20, 0x20, 0x00, 0x00],
    };
    assert_eq!(l.gen_checksum(), 0x3C);
}

#[test]
fn data_checksum() {
    let l = Line {
        rec_type: SrecType::SrecData16,
        address: 0x0038,
        data: vec![
            0x48, 0x65, 0x6C, 0x6C, 0x6F, 0x20, 0x77, 0x6F, 0x72, 0x6C, 0x64, 0x2E, 0x0A, 0x00,
        ],
    };
    assert_eq!(l.gen_checksum(), 0x42);
}

#[test]
fn count_and_start_checksums() {
    let c = Line { rec_type: SrecType::SrecCount16, address: 0x0003, data: vec![] };
    assert_eq!(c.gen_checksum(), 0xF9);
    let s = Line { rec_type: SrecType::SrecStart16, address: 0x0000, data: vec![] };
    assert_eq!(s.gen_checksum(), 0xFC);
}

#[test]
fn lines_render_as_text() {
    let l = Line { rec_type: SrecType::SrecStart16, address: 0x0000, data: vec![] };
    assert_eq!(l.render(), b"S9030000FC".to_vec());
}

#[test]
fn wide_addresses_grow_past_four_digits() {
    let l = Line { rec_type: SrecType::SrecData32, address: 0x0112_3456, data: vec![] };
    let text = l.render();
    assert!(text.starts_with(b"S305"));
    assert!(text[4..].starts_with(b"1123456"));
}

#[test]
fn an_image_round_trips_through_the_codec() {
    let code = vec![
        CodeSection { org: 0x0000, code: vec![25, 1, 0x00, 0x41, 18] },
        CodeSection { org: 0x0100, code: vec![1, 2, 3] },
    ];
    let records = code_to_srecord(&code, b"ASML");
    let text = records.render();
    let parsed = parse_text(&text).unwrap();
    let back = srecord_to_code(&parsed);
    // the header, count and start records come along as extra sections
    assert_eq!(back.len(), 5);
    assert_eq!(back[1].org, 0x0000);
    assert_eq!(back[1].code, vec![25, 1, 0x00, 0x41, 18]);
    assert_eq!(back[2].org, 0x0100);
    assert_eq!(back[2].code, vec![1, 2, 3]);
}

#[test]
fn long_sections_split_at_252_bytes() {
    let big = vec![7u8; 300];
    let records = code_to_srecord(&[CodeSection { org: 0x2000, code: big }], b"HD");
    // header, two data records, count, start
    assert_eq!(records.0.len(), 5);
    assert_eq!(records.0[1].address, 0x2000);
    assert_eq!(records.0[1].data.len(), 252);
    assert_eq!(records.0[2].address, 0x20FC);
    assert_eq!(records.0[2].data.len(), 48);
    assert_eq!(records.0[3].rec_type, SrecType::SrecCount16);
    assert_eq!(records.0[3].address, 2);
}

#[test]
fn bad_checksums_are_rejected_with_their_line() {
    let text = b"S9030000FD\n".to_vec();
    match parse_text(&text) {
        Err(SrecordError::InvalidLine(1, LineFault::BadChecksum)) => {},
        other => panic!("expected a checksum fault, got {:?}", other),
    }
}

#[test]
fn short_lines_are_rejected() {
    let text = b"S903\n".to_vec();
    match parse_text(&text) {
        Err(SrecordError::InvalidLine(1, LineFault::BadShape)) => {},
        other => panic!("expected a shape fault, got {:?}", other),
    }
}

#[test]
fn byte_count_must_match() {
    // S1 stating a count of 4, with five bytes following it
    let text = b"S1040041424344\n".to_vec();
    match parse_text(&text) {
        Err(SrecordError::InvalidLine(1, LineFault::BadByteCount)) => {},
        other => panic!("expected a byte-count fault, got {:?}", other),
    }
}

#[test]
fn count_record_must_match_the_records_before_it() {
    // a start record alone, then a count record claiming five records
    let mut rec = Srecord(Vec::new());
    rec.add_header(b"HD");
    rec.add_record16(SrecType::SrecCount16, 5, &[]);
    let text = rec.render();
    match parse_text(&text) {
        Err(SrecordError::InvalidLine(2, LineFault::BadRecordCount)) => {},
        other => panic!("expected a record-count fault, got {:?}", other),
    }
}

#[test]
fn surrounding_whitespace_is_trimmed() {
    let text = b"  S9030000FC  \n".to_vec();
    let parsed = parse_text(&text).unwrap();
    assert_eq!(parsed.0.len(), 1);
    assert_eq!(parsed.0[0].rec_type, SrecType::SrecStart16);
}

#[test]
fn wide_count_checksum_sums_every_address_byte() {
    let l = Line { rec_type: SrecType::SrecCount24, address: 0x10000, data: vec![] };
    // byte count 4, address bytes 00 00 01: complement of 5
    assert_eq!(l.gen_checksum(), 250);
}
