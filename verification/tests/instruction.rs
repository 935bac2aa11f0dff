use bochscpu_ffi::{
    bochscpu_instr_bx_opcode, bochscpu_instr_dst, bochscpu_instr_imm16, bochscpu_instr_imm32,
    bochscpu_instr_imm64, bochscpu_instr_src, bochscpu_instr_t, BOCHSCPU_OPCODE_ERROR,
    BOCHSCPU_OPCODE_INSERTED,
};

#[test]
fn opcode_tags_with_a_fixed_meaning() {
    assert_eq!(BOCHSCPU_OPCODE_ERROR, 0);
    assert_eq!(BOCHSCPU_OPCODE_INSERTED, 1);
}

#[test]
fn an_instruction_shows_its_fields() {
    let i = bochscpu_instr_t {
        opcode: 0x2a7,
        imm16: 0x1234,
        imm32: 0x89ab_cdef,
        imm64: 0x0123_4567_89ab_cdef,
        src: 3,
        dst: 5,
    };
    assert_eq!(bochscpu_instr_bx_opcode(&i), 0x2a7);
    assert_eq!(bochscpu_instr_imm16(&i), 0x1234);
    assert_eq!(bochscpu_instr_imm32(&i), 0x89ab_cdef);
    assert_eq!(bochscpu_instr_imm64(&i), 0x0123_4567_89ab_cdef);
    assert_eq!(bochscpu_instr_src(&i), 3);
    assert_eq!(bochscpu_instr_dst(&i), 5);
}

#[test]
fn a_failed_decode_shows_the_error_tag() {
    let i = bochscpu_instr_t { opcode: 0, imm16: 0, imm32: 0, imm64: 0, src: 0, dst: 0 };
    assert_eq!(bochscpu_instr_bx_opcode(&i), BOCHSCPU_OPCODE_ERROR);
    let j = bochscpu_instr_t { opcode: 1, ..i };
    assert_eq!(bochscpu_instr_bx_opcode(&j), BOCHSCPU_OPCODE_INSERTED);
}
