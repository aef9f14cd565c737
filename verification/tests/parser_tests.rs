use asml::lexer::Lexer;
use asml::parser::ParseFault;
use asml::parser::Parser;
use asml::parser::ParserError;
use asml::parser::parse_register_lit;
use asml::parser::parse_u16;
use asml::program::Program;
use asml::token::Token;
use asml::token::TokenType;

fn tok(t: TokenType, lit: &str) -> Token {
    Token::with_literal(t, lit.as_bytes().to_vec(), 0, 0)
}

#[test]
fn parser_address_idents() {
    let tokens = vec![tok(TokenType::IDENT, "str+2")];
    let mut p = Parser::new(tokens);
    let addr = p.parse_address(0).unwrap();
    assert!(addr == 0);

    let link = &p.prog.parts[p.prog.part_i].link_map[0];
    assert!(link.0 == 0);
    assert!(link.1.label == b"str".to_vec());
    assert!(link.1.offset == 2);
}

#[test]
fn program_address_idents() {
    let tokens = vec![tok(TokenType::IDENT, "str+2")];
    let mut p = Parser::new(tokens);
    let addr = p.parse_address(0).unwrap();
    assert!(addr == 0);

    let link = &p.prog.parts[p.prog.part_i].link_map[0];
    assert!(link.0 == 0);
    assert!(link.1.label == b"str".to_vec());
    assert!(link.1.offset == 2);
}

// Every supported numeric literal form denotes the same value.
#[test]
fn number_forms_agree() {
    assert_eq!(parse_u16(b"123"), Some(0x7B));
    assert_eq!(parse_u16(b"0x7B"), Some(0x7B));
    assert_eq!(parse_u16(b"!7B"), Some(0x7B));
}

#[test]
fn number_forms_reject_garbage() {
    assert_eq!(parse_u16(b""), None);
    assert_eq!(parse_u16(b"12x"), None);
    assert_eq!(parse_u16(b"0xG1"), None);
    assert_eq!(parse_u16(b"65536"), None);
    assert_eq!(parse_u16(b"!"), None);
    assert_eq!(parse_u16(b"!FFFF"), Some(0xFFFF));
    assert_eq!(parse_u16(b"65535"), Some(0xFFFF));
}

#[test]
fn register_literals() {
    assert_eq!(parse_register_lit(b"A").unwrap(), 10);
    assert_eq!(parse_register_lit(b"3").unwrap(), 3);
    assert_eq!(parse_register_lit(b"0xD").unwrap(), 13);
    assert!(parse_register_lit(b"G").is_err());
    assert!(parse_register_lit(b"").is_err());
}

// Lexing %SP gives a register literal distinct from %A's.
#[test]
fn stack_pointer_register_is_distinct() {
    let mut lx = Lexer::new(b"%SP".to_vec());
    let sp = lx.next_token();
    assert_eq!(sp.name, TokenType::REGISTER);
    assert_eq!(sp.literal, b"SP".to_vec());

    let mut lx2 = Lexer::new(b"%A".to_vec());
    let a = lx2.next_token();
    assert_eq!(a.name, TokenType::REGISTER);
    assert_eq!(a.literal, b"A".to_vec());
    assert_ne!(sp.literal, a.literal);
}

#[test]
fn lexer_walks_a_line() {
    let mut lx = Lexer::new(b"LOAD %A #0x1234\nHALT\n".to_vec());
    let t1 = lx.next_token();
    assert_eq!(t1.name, TokenType::LOAD);
    let t2 = lx.next_token();
    assert_eq!(t2.name, TokenType::REGISTER);
    assert_eq!(t2.literal, b"A".to_vec());
    let t3 = lx.next_token();
    assert_eq!(t3.name, TokenType::IMMEDIATE);
    let t4 = lx.next_token();
    assert_eq!(t4.name, TokenType::NUMBER);
    assert_eq!(t4.literal, b"0x1234".to_vec());
    let t5 = lx.next_token();
    assert_eq!(t5.name, TokenType::END_INST);
    let t6 = lx.next_token();
    assert_eq!(t6.name, TokenType::HALT);
    let t7 = lx.next_token();
    assert_eq!(t7.name, TokenType::END_INST);
    let t8 = lx.next_token();
    assert_eq!(t8.name, TokenType::EOF);
    let t9 = lx.next_token();
    assert_eq!(t9.name, TokenType::EOF);
}

#[test]
fn lexer_keywords_comments_labels() {
    let mut lx = Lexer::new(b":loop ; a note\n".to_vec());
    let t1 = lx.next_token();
    assert_eq!(t1.name, TokenType::LABEL);
    assert_eq!(t1.literal, b"loop".to_vec());
    // the byte after a label is consumed with it; the comment follows
    let t2 = lx.next_token();
    assert_eq!(t2.name, TokenType::COMMENT);
    assert_eq!(t2.literal, b"a note".to_vec());
}

#[test]
fn lexer_strings() {
    let mut lx = Lexer::new(b"\"AB\"".to_vec());
    let t = lx.next_token();
    assert_eq!(t.name, TokenType::STRING);
    assert_eq!(t.literal, b"AB".to_vec());
}

// A pending link with label "foo" and offset 2 is recorded under a zero
// placeholder, and linking with foo at 0x0010 patches in 0x0012.
#[test]
fn pending_link_resolves_with_offset() {
    let tokens = vec![
        tok(TokenType::JMPA, ""),
        tok(TokenType::IDENT, "foo+2"),
        tok(TokenType::END_INST, ""),
    ];
    let p = Parser::new(tokens);
    let mut prog = p.parse().unwrap();
    // the placeholder is zero
    assert_eq!(prog.parts[0].bytes[1], 0);
    assert_eq!(prog.parts[0].bytes[2], 0);
    prog.labels.push((b"foo".to_vec(), 0x0010));
    asml::linker::link(&mut prog).unwrap();
    assert_eq!(prog.parts[0].bytes[1], 0x00);
    assert_eq!(prog.parts[0].bytes[2], 0x12);
}

#[test]
fn undefined_label_fails_link() {
    let tokens = vec![
        tok(TokenType::JMPA, ""),
        tok(TokenType::IDENT, "nowhere"),
        tok(TokenType::END_INST, ""),
    ];
    let p = Parser::new(tokens);
    let mut prog = p.parse().unwrap();
    match asml::linker::link(&mut prog) {
        Err(asml::linker::LinkError::UndefinedLabel(l)) => assert_eq!(l, b"nowhere".to_vec()),
        _ => panic!("expected an undefined label"),
    }
}

// Regions at 0x0000 (length 0x10) and 0x0020 validate; regions at 0x0000
// (length 0x30) and 0x0020 overlap.
#[test]
fn region_overlap_is_rejected() {
    let mut ok = Program::new();
    ok.append_code(&[0u8; 0x10]);
    ok.add_code_part(0x20);
    ok.append_code(&[1, 2, 3]);
    assert!(ok.validate().is_ok());

    let mut bad = Program::new();
    bad.append_code(&[0u8; 0x30]);
    bad.add_code_part(0x20);
    bad.append_code(&[1, 2, 3]);
    let e = bad.validate().unwrap_err();
    assert_eq!(e.origin, 0x0000);
    assert_eq!(e.next_origin, 0x0020);
}

#[test]
fn labels_resolve_current_cursor() {
    let tokens = vec![
        tok(TokenType::NOOP, ""),
        tok(TokenType::END_INST, ""),
        tok(TokenType::LABEL, "here"),
        tok(TokenType::HALT, ""),
        tok(TokenType::END_INST, ""),
    ];
    let p = Parser::new(tokens);
    let prog = p.parse().unwrap();
    assert_eq!(prog.labels.len(), 1);
    assert_eq!(prog.labels[0].0, b"here".to_vec());
    assert_eq!(prog.labels[0].1, 1);
}

#[test]
fn bad_register_is_reported() {
    let tokens = vec![
        tok(TokenType::PUSH, ""),
        tok(TokenType::REGISTER, "F"),
        tok(TokenType::END_INST, ""),
    ];
    let p = Parser::new(tokens);
    match p.parse() {
        Err(ParserError::InvalidCode(ParseFault::InvalidRegister, _)) => {},
        other => panic!("expected an invalid register, got {:?}", other),
    }
}

#[test]
fn long_string_operand_is_reported() {
    let tokens = vec![
        tok(TokenType::JMPA, ""),
        tok(TokenType::STRING, "ABC"),
        tok(TokenType::END_INST, ""),
    ];
    let p = Parser::new(tokens);
    match p.parse() {
        Err(ParserError::InvalidCode(ParseFault::StringTooLong, _)) => {},
        other => panic!("expected a long-string fault, got {:?}", other),
    }
}

#[test]
fn fdb_rejects_strings() {
    let tokens = vec![
        tok(TokenType::FDB, ""),
        tok(TokenType::STRING, "AB"),
        tok(TokenType::END_INST, ""),
    ];
    let p = Parser::new(tokens);
    match p.parse() {
        Err(ParserError::InvalidCode(ParseFault::FdbString, _)) => {},
        other => panic!("expected the string rejection, got {:?}", other),
    }
}

#[test]
fn fcb_appends_bytes_and_strings() {
    let tokens = vec![
        tok(TokenType::FCB, ""),
        tok(TokenType::NUMBER, "65"),
        tok(TokenType::COMMA, ""),
        tok(TokenType::STRING, "BC"),
        tok(TokenType::END_INST, ""),
    ];
    let p = Parser::new(tokens);
    let prog = p.parse().unwrap();
    assert_eq!(prog.parts[0].bytes, b"ABC".to_vec());
}

#[test]
fn fcb_rejects_wide_bytes() {
    let tokens = vec![
        tok(TokenType::FCB, ""),
        tok(TokenType::NUMBER, "256"),
        tok(TokenType::END_INST, ""),
    ];
    let p = Parser::new(tokens);
    match p.parse() {
        Err(ParserError::InvalidCode(ParseFault::InvalidByte, _)) => {},
        other => panic!("expected an invalid byte, got {:?}", other),
    }
}

#[test]
fn dollar_resolves_immediately() {
    let tokens = vec![
        tok(TokenType::NOOP, ""),
        tok(TokenType::END_INST, ""),
        tok(TokenType::JMPA, ""),
        tok(TokenType::IDENT, "$+3"),
        tok(TokenType::END_INST, ""),
    ];
    let p = Parser::new(tokens);
    let prog = p.parse().unwrap();
    // the jump operand was the cursor (1, before the operand bytes) plus 3
    assert_eq!(prog.parts[0].bytes, vec![0, 20, 0x00, 0x04]);
}

#[test]
fn unknown_token_is_reported() {
    let tokens = vec![tok(TokenType::COMMA, "")];
    let p = Parser::new(tokens);
    match p.parse() {
        Err(ParserError::InvalidCode(ParseFault::UnknownToken, _)) => {},
        other => panic!("expected an unknown token fault, got {:?}", other),
    }
}

#[test]
fn compile_pipeline_encodes_and_links() {
    let src = b"LDSP #0x8000\nCALL sub\nHALT\n:sub\nLOAD %1 #0x41\nSTR %1 0xFFFD\nRTN\n".to_vec();
    let code = asml::compiler::compile(src).unwrap();
    assert_eq!(code.len(), 1);
    assert_eq!(code[0].org, 0);
    // LDSPI 8000; CALLA 0007; HALT; LOADI 1 0041; STRA 1 FFFD; RTN
    assert_eq!(
        code[0].code,
        vec![22, 0x80, 0x00, 15, 0x00, 0x07, 18, 25, 1, 0x00, 0x41, 27, 1, 0xFF, 0xFD, 17]
    );
}

#[test]
fn rotate_instruction_form() {
    // the rotate grammar reads one extra token between the register and
    // the immediate marker
    let tokens = vec![
        tok(TokenType::ROTL, ""),
        tok(TokenType::REGISTER, "A"),
        tok(TokenType::NUMBER, "0"),
        tok(TokenType::IMMEDIATE, ""),
        tok(TokenType::NUMBER, "1"),
        tok(TokenType::END_INST, ""),
    ];
    let p = Parser::new(tokens);
    let prog = p.parse().unwrap();
    assert_eq!(prog.parts[0].bytes, vec![14, 10, 1]);
}

#[test]
fn rotate_count_must_fit_a_byte() {
    let tokens = vec![
        tok(TokenType::ROTL, ""),
        tok(TokenType::REGISTER, "A"),
        tok(TokenType::NUMBER, "0"),
        tok(TokenType::IMMEDIATE, ""),
        tok(TokenType::NUMBER, "300"),
        tok(TokenType::END_INST, ""),
    ];
    let p = Parser::new(tokens);
    match p.parse() {
        Err(ParserError::InvalidCode(ParseFault::RotateCount, _)) => {},
        other => panic!("expected a rotate-count fault, got {:?}", other),
    }
}

#[test]
fn rmb_reserves_zero_bytes() {
    let tokens = vec![
        tok(TokenType::RMB, ""),
        tok(TokenType::NUMBER, "4"),
        tok(TokenType::END_INST, ""),
        tok(TokenType::HALT, ""),
        tok(TokenType::END_INST, ""),
    ];
    let p = Parser::new(tokens);
    let prog = p.parse().unwrap();
    assert_eq!(prog.parts[0].bytes, vec![0, 0, 0, 0, 18]);
}

#[test]
fn org_opens_a_new_region() {
    let tokens = vec![
        tok(TokenType::NOOP, ""),
        tok(TokenType::END_INST, ""),
        tok(TokenType::ORG, ""),
        tok(TokenType::NUMBER, "0x20"),
        tok(TokenType::END_INST, ""),
        tok(TokenType::HALT, ""),
        tok(TokenType::END_INST, ""),
    ];
    let p = Parser::new(tokens);
    let prog = p.parse().unwrap();
    assert_eq!(prog.parts.len(), 2);
    assert_eq!(prog.parts[0].start_pc, 0);
    assert_eq!(prog.parts[0].bytes, vec![0]);
    assert_eq!(prog.parts[1].start_pc, 0x20);
    assert_eq!(prog.parts[1].bytes, vec![18]);
}

#[test]
fn label_redefinition_last_wins() {
    let mut prog = Program::new();
    prog.add_label(b"twice");
    prog.append_code(&[18]);
    prog.add_label(b"twice");
    // the table keeps both entries; lookups see the later one, as the
    // linker reads it
    assert_eq!(prog.labels.len(), 2);
    assert_eq!(prog.labels[1].1, 1);
}

#[test]
fn unterminated_strings_end_at_the_source() {
    let mut lx = Lexer::new(b"\"AB".to_vec());
    let t = lx.next_token();
    assert_eq!(t.name, TokenType::STRING);
    assert_eq!(t.literal, b"AB".to_vec());
}

#[test]
fn empty_string_operand_reads_zero() {
    let tokens = vec![
        tok(TokenType::JMPA, ""),
        tok(TokenType::STRING, ""),
        tok(TokenType::END_INST, ""),
    ];
    let p = Parser::new(tokens);
    let prog = p.parse().unwrap();
    assert_eq!(prog.parts[0].bytes, vec![20, 0, 0]);
}

#[test]
fn two_byte_string_operand_reads_big_endian() {
    let tokens = vec![
        tok(TokenType::JMPA, ""),
        tok(TokenType::STRING, "AB"),
        tok(TokenType::END_INST, ""),
    ];
    let p = Parser::new(tokens);
    let prog = p.parse().unwrap();
    assert_eq!(prog.parts[0].bytes, vec![20, 0x41, 0x42]);
}

// Linking is all-or-nothing: when any label is missing, no placeholder
// byte of any region is patched.
#[test]
fn failed_link_changes_nothing() {
    let tokens = vec![
        tok(TokenType::JMPA, ""),
        tok(TokenType::IDENT, "known"),
        tok(TokenType::END_INST, ""),
        tok(TokenType::JMPA, ""),
        tok(TokenType::IDENT, "missing"),
        tok(TokenType::END_INST, ""),
        tok(TokenType::LABEL, "known"),
    ];
    let p = Parser::new(tokens);
    let mut prog = p.parse().unwrap();
    let before = prog.parts[0].bytes.clone();
    match asml::linker::link(&mut prog) {
        Err(asml::linker::LinkError::UndefinedLabel(l)) => assert_eq!(l, b"missing".to_vec()),
        other => panic!("expected an undefined label, got {:?}", other),
    }
    assert_eq!(prog.parts[0].bytes, before);
}

// A register literal that does not parse is reported with the line it
// stands on.
#[test]
fn bad_register_literal_carries_its_line() {
    let tokens = vec![
        Token::with_literal(TokenType::PUSH, Vec::new(), 7, 0),
        Token::with_literal(TokenType::REGISTER, b"ZZ".to_vec(), 7, 5),
        Token::with_literal(TokenType::END_INST, Vec::new(), 7, 8),
    ];
    let p = Parser::new(tokens);
    match p.parse() {
        Err(ParserError::InvalidCode(ParseFault::InvalidRegister, 7)) => {},
        other => panic!("expected an invalid register on line 7, got {:?}", other),
    }
}
