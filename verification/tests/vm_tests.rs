use asml::opcode::OpCode;
use asml::vm::CodeSection;
use asml::vm::RunError;
use asml::vm::VM;

#[test]
fn test_opcode_convert() {
    let i: u8 = 2;
    let op = OpCode::from_u8(i);

    assert_eq!(op, Some(OpCode::ADDI));
}

#[test]
fn test_invalid_opcode_value() {
    let i: u8 = 255;
    let op = OpCode::from_u8(i);

    assert_eq!(op, None);
}

#[test]
fn every_opcode_round_trips() {
    for b in 0u8..=255 {
        if let Some(op) = OpCode::from_u8(b) {
            assert_eq!(op.to_u8(), b);
        }
    }
}

fn run_image(sections: Vec<CodeSection>, fuel: u64) -> (Result<(), RunError>, Vec<u8>) {
    let mut vm = VM::new();
    vm.install_code(&sections);
    let r = vm.run(fuel);
    (r, vm.output())
}

// A program that writes 0x41 to the printer port and halts prints "A".
#[test]
fn printer_port_prints() {
    // LOADI %1 #0x41; STRA %1 0xFFFD; HALT
    let code = vec![25, 1, 0x00, 0x41, 27, 1, 0xFF, 0xFD, 18];
    let (r, out) = run_image(vec![CodeSection { org: 0, code }], 100);
    assert!(r.is_ok());
    assert_eq!(out, b"A".to_vec());
}

// A byte with no defined opcode mapping faults and withholds all output.
#[test]
fn unknown_opcode_faults_without_output() {
    // print 0x41 first, then hit an undefined byte
    let code = vec![25, 1, 0x00, 0x41, 27, 1, 0xFF, 0xFD, 255];
    let (r, out) = run_image(vec![CodeSection { org: 0, code }], 100);
    assert_eq!(r, Err(RunError::UnknownOpcode));
    assert_eq!(out, Vec::<u8>::new());
}

// Pushing a paired register's 16-bit value and popping it into another
// paired register round-trips the value.
#[test]
fn push_pop_round_trip() {
    // LDSPI 0x8000; LOADI %A #0x1234; PUSH %A; POP %B;
    // STRA %B 0xFFFC (low byte lands in the printer cell);
    // LOADA %1 0xFFFC; STRA %1 0xFFFD; HALT
    let code = vec![
        22, 0x80, 0x00, // LDSPI
        25, 10, 0x12, 0x34, // LOADI A
        31, 10, // PUSH A
        30, 11, // POP B
        27, 11, 0xFF, 0xFC, // STRA B
        24, 1, 0xFF, 0xFC, // LOADA %1
        27, 1, 0xFF, 0xFD, // STRA %1
        18, // HALT
    ];
    let (r, out) = run_image(vec![CodeSection { org: 0, code }], 100);
    assert!(r.is_ok());
    assert_eq!(out, vec![0x34, 0x12]);
}

// CALL followed by RTN returns the program counter to the instruction
// after the call.
#[test]
fn call_rtn_round_trip() {
    let src = b"LDSP #0x8000\nCALL sub\nHALT\n:sub\nLOAD %1 #0x41\nSTR %1 0xFFFD\nRTN\n".to_vec();
    let code = asml::compiler::compile(src).unwrap();
    let (r, out) = run_image(code, 100);
    assert!(r.is_ok());
    assert_eq!(out, b"A".to_vec());
}

// Rotating a paired register holding 0x8001 left by one gives 0x0003.
// The register is complemented before printing so that both result
// bytes are non-zero and reach the printer: !0x0003 is 0xFFFC.
#[test]
fn rotate_left_wraps_the_high_bit() {
    // LOADI %A #0x8001; ROTL %A 1; XORI %A #0xFFFF;
    // STRA %A 0xFFFC (low byte lands in the printer);
    // LOADA %1 0xFFFC; STRA %1 0xFFFD; HALT
    let code = vec![
        25, 10, 0x80, 0x01, 14, 10, 1, 11, 10, 0xFF, 0xFF, 27, 10, 0xFF, 0xFC, 24, 1, 0xFF, 0xFC,
        27, 1, 0xFF, 0xFD, 18,
    ];
    let (r, out) = run_image(vec![CodeSection { org: 0, code }], 100);
    assert!(r.is_ok());
    assert_eq!(out, vec![0xFC, 0xFF]);
}

// Rotating a paired register holding 0x8001 right by one gives 0xC000:
// complemented, 0x3FFF.
#[test]
fn rotate_right_wraps_the_low_bit() {
    let code = vec![
        25, 10, 0x80, 0x01, 13, 10, 1, 11, 10, 0xFF, 0xFF, 27, 10, 0xFF, 0xFC, 24, 1, 0xFF, 0xFC,
        27, 1, 0xFF, 0xFD, 18,
    ];
    let (r, out) = run_image(vec![CodeSection { org: 0, code }], 100);
    assert!(r.is_ok());
    assert_eq!(out, vec![0xFF, 0x3F]);
}

#[test]
fn arithmetic_wraps_silently() {
    // LOADI %A #0xFFFF; ADDI %A #0x0002; STRA %A 0xFFFC; HALT
    // wrapped sum 0x0001: high byte 0, low byte 1 printed
    let code = vec![25, 10, 0xFF, 0xFF, 2, 10, 0x00, 0x02, 27, 10, 0xFF, 0xFC, 18];
    let (r, out) = run_image(vec![CodeSection { org: 0, code }], 100);
    assert!(r.is_ok());
    assert_eq!(out, vec![0x01]);
}

#[test]
fn conditional_jump_compares_against_register_zero() {
    // LOADI %1 #0; JMP %1 over; (print 0x58); :over print 0x59; HALT
    // %1 equals register 0 (both zero), so the jump is taken.
    let src =
        b"LOAD %1 #0\nJMP %1 over\nLOAD %2 #0x58\nSTR %2 0xFFFD\n:over\nLOAD %2 #0x59\nSTR %2 0xFFFD\nHALT\n"
            .to_vec();
    let code = asml::compiler::compile(src).unwrap();
    let (r, out) = run_image(code, 100);
    assert!(r.is_ok());
    assert_eq!(out, b"Y".to_vec());
}

#[test]
fn reset_vector_sets_the_entry_point() {
    // program at 0x0100 prints and halts; reset vector points at it
    let prog = vec![25, 1, 0x00, 0x5A, 27, 1, 0xFF, 0xFD, 18];
    let sections = vec![
        CodeSection { org: 0x0100, code: prog },
        CodeSection { org: 0xFFFE, code: vec![0x01, 0x00] },
    ];
    let (r, out) = run_image(sections, 100);
    assert!(r.is_ok());
    assert_eq!(out, b"Z".to_vec());
}

#[test]
fn an_endless_loop_runs_out_of_steps() {
    // JMPA 0: jumps to itself forever
    let code = vec![20, 0x00, 0x00];
    let (r, out) = run_image(vec![CodeSection { org: 0, code }], 50);
    assert_eq!(r, Err(RunError::OutOfSteps));
    assert_eq!(out, Vec::<u8>::new());
}

#[test]
fn transfer_copies_between_widths() {
    // LOADI %A #0x1234; XFER %3 %A (single takes low byte);
    // STRA %3 0xFFFD; HALT
    let code = vec![25, 10, 0x12, 0x34, 29, 3, 10, 27, 3, 0xFF, 0xFD, 18];
    let (r, out) = run_image(vec![CodeSection { org: 0, code }], 100);
    assert!(r.is_ok());
    assert_eq!(out, vec![0x34]);
}
