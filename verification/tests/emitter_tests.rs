use socute::emitter::{InstrType, Program};
use socute::errors::AsmError;

#[test]
fn test_begin_emit_flush() {
    let mut prog = Program::default();
    prog.begin();
    prog.emit(0x0C00_0000);
    prog.register_emitted(InstrType::Alu);
    prog.flush().unwrap();
    assert_eq!(prog.prog, vec![0x0C00_0000]);
    assert_eq!(prog.pc, 4);
}

#[test]
fn test_emit_bits_or_together() {
    let mut prog = Program::default();
    prog.begin();
    prog.emit_bits(vec![26, 27]);
    prog.register_emitted(InstrType::Alu);
    prog.flush().unwrap();
    assert_eq!(prog.prog, vec![0x0C00_0000]);
}

#[test]
fn test_emit_bit() {
    let mut prog = Program::default();
    prog.begin();
    prog.emit_bit(17);
    prog.register_emitted(InstrType::Alu);
    prog.flush().unwrap();
    assert_eq!(prog.prog, vec![0x0002_0000]);
}

#[test]
fn test_begin_if_not_begun_is_idempotent() {
    let mut prog = Program::default();
    prog.begin_if_not_begun();
    prog.emit(0x1);
    // beginning again must not reset the work in progress
    prog.begin_if_not_begun();
    prog.emit(0x2);
    prog.register_emitted(InstrType::Alu);
    prog.flush().unwrap();
    assert_eq!(prog.prog, vec![0x3]);
}

#[test]
fn test_empty_bundle_discarded() {
    let mut prog = Program::default();
    prog.begin();
    prog.flush().unwrap();
    assert_eq!(prog.prog, Vec::<u32>::new());
    assert_eq!(prog.pc, 0);
}

#[test]
fn test_flush_without_begin_is_harmless() {
    let mut prog = Program::default();
    prog.flush().unwrap();
    assert_eq!(prog.prog, Vec::<u32>::new());
    assert_eq!(prog.pc, 0);
}

#[test]
fn test_validator_flow_control_limit() {
    let mut prog = Program::default();
    prog.begin();
    prog.emit(0xE000_0000);
    prog.register_emitted(InstrType::FlowControl);
    prog.emit(0xF000_0000);
    prog.register_emitted(InstrType::FlowControl);
    assert_eq!(prog.flush(), Err(AsmError::TooManyFlowControl));
    // the failed bundle committed nothing
    assert_eq!(prog.prog, Vec::<u32>::new());
    assert_eq!(prog.pc, 0);
}

#[test]
fn test_validator_alu_limit() {
    let mut prog = Program::default();
    prog.begin();
    prog.emit(0);
    prog.register_emitted(InstrType::Alu);
    prog.emit(0);
    prog.register_emitted(InstrType::Alu);
    assert_eq!(prog.flush(), Err(AsmError::TooManyAlu));
}

#[test]
fn test_validator_first_violation_wins() {
    let mut prog = Program::default();
    prog.begin();
    for _ in 0..2 {
        prog.emit(0);
        prog.register_emitted(InstrType::FlowControl);
    }
    for _ in 0..3 {
        prog.emit(0);
        prog.register_emitted(InstrType::XBus);
    }
    // both the flow-control and the X-Bus rule are violated; the
    // flow-control rule is checked first
    assert_eq!(prog.flush(), Err(AsmError::TooManyFlowControl));
}

#[test]
fn test_validator_total_limit() {
    let mut prog = Program::default();
    prog.begin();
    for _ in 0..7 {
        prog.emit(0);
        prog.register_emitted(InstrType::D1Bus);
    }
    assert_eq!(prog.flush(), Err(AsmError::TooManyInstructions));
}

#[test]
fn test_validator_six_in_a_bundle() {
    let mut prog = Program::default();
    prog.begin();
    for _ in 0..6 {
        prog.emit(0);
        prog.register_emitted(InstrType::D1Bus);
    }
    prog.flush().unwrap();
    assert_eq!(prog.prog.len(), 1);
}

#[test]
fn test_flush_clears_state_after_error() {
    let mut prog = Program::default();
    prog.begin();
    prog.emit(0xF000_0000);
    prog.register_emitted(InstrType::Alu);
    prog.emit(0xE000_0000);
    prog.register_emitted(InstrType::Alu);
    assert!(prog.flush().is_err());
    // accumulation state is cleared either way: the next bundle is clean
    prog.begin();
    prog.emit(0x1);
    prog.register_emitted(InstrType::Alu);
    prog.flush().unwrap();
    assert_eq!(prog.prog, vec![0x1]);
}

#[test]
fn test_add_label_and_lookup() {
    let mut prog = Program::default();
    prog.add_label("start".to_string());
    prog.set_pc(8);
    prog.add_label("later".to_string());
    assert_eq!(prog.lookup_label("start"), Some(0));
    assert_eq!(prog.lookup_label("later"), Some(8));
    assert_eq!(prog.lookup_label("nope"), None);
    // a redefinition overwrites the prior value
    prog.set_pc(12);
    prog.add_label("start".to_string());
    assert_eq!(prog.lookup_label("start"), Some(12));
}

#[test]
fn test_set_pc() {
    let mut prog = Program::default();
    prog.set_pc(0x100);
    prog.begin();
    prog.emit(0x1);
    prog.register_emitted(InstrType::Alu);
    prog.flush().unwrap();
    assert_eq!(prog.pc, 0x104);
    prog.add_label("after".to_string());
    assert_eq!(prog.lookup_label("after"), Some(0x104));
}

#[test]
fn test_to_bytes_big_endian() {
    let mut prog = Program::default();
    prog.begin();
    prog.emit(0x0C00_0000);
    prog.register_emitted(InstrType::Alu);
    prog.flush().unwrap();
    prog.begin();
    prog.emit(0x0102_0304);
    prog.register_emitted(InstrType::Alu);
    prog.flush().unwrap();
    assert_eq!(
        prog.to_bytes(),
        vec![0x0C, 0x00, 0x00, 0x00, 0x01, 0x02, 0x03, 0x04]
    );
}

#[test]
fn test_debug_dump_format() {
    let mut prog = Program::default();
    prog.begin();
    prog.emit(0x0C00_0000);
    prog.register_emitted(InstrType::Alu);
    prog.flush().unwrap();
    let dump = prog.debug_dump();
    assert_eq!(dump.len(), 1);
    assert_eq!(dump[0], "0b00001100000000000000000000000000 0x0c000000");
}

#[test]
fn test_default_is_empty() {
    let prog = Program::default();
    assert_eq!(prog.prog, Vec::<u32>::new());
    assert_eq!(prog.pc, 0);
    assert_eq!(prog.line, 0);
    assert!(!prog.is_emitting);
}
