use riscv_emu::decode::decode;
use riscv_emu::error::CpuError;
use riscv_emu::isa::{AnyInstruction, CsrInstruction, Instruction};

fn base(raw: u32) -> Instruction {
    match decode(raw) {
        Ok(AnyInstruction::Base(i)) => i,
        other => panic!("unexpected decode of {raw:#x}: {other:?}"),
    }
}

#[test]
fn decodes_each_format() {
    assert_eq!(base(0xffd0_8113), Instruction::Addi { rd: 2, rs1: 1, imm: -3 });
    assert_eq!(base(0x0020_81b3), Instruction::Add { rd: 3, rs1: 1, rs2: 2 });
    assert_eq!(base(0x4020_81b3), Instruction::Sub { rd: 3, rs1: 1, rs2: 2 });
    assert_eq!(base(0xfe20_ae23), Instruction::Sw { rs1: 1, rs2: 2, imm: -4 });
    assert_eq!(base(0xfe20_8ee3), Instruction::Beq { rs1: 1, rs2: 2, imm: -4 });
    assert_eq!(base(0x8000_00b7), Instruction::Lui { rd: 1, imm: -0x8000_0000 });
    assert_eq!(base(0xffdf_f0ef), Instruction::Jal { rd: 1, imm: -4 });
    assert_eq!(base(0x0000_8067), Instruction::Jalr { rd: 0, rs1: 1, imm: 0 });
    assert_eq!(base(0x0ff0_000f), Instruction::Fence { pred: 15, succ: 15 });
    assert_eq!(base(0x0000_100f), Instruction::FenceI);
    assert_eq!(base(0x0000_0073), Instruction::Ecall);
    assert_eq!(base(0x0010_0073), Instruction::Ebreak);
    assert_eq!(base(0x4050_d093), Instruction::Srai { rd: 1, rs1: 1, shamt: 5 });
    assert_eq!(base(0x01f0_9093), Instruction::Slli { rd: 1, rs1: 1, shamt: 31 });
    assert_eq!(base(0x0020_80bb), Instruction::Addw { rd: 1, rs1: 1, rs2: 2 });
    assert_eq!(base(0x0080_b083), Instruction::Ld { rd: 1, rs1: 1, imm: 8 });
}

#[test]
fn decodes_csr_instructions() {
    assert_eq!(
        decode(0x3000_90f3).unwrap(),
        AnyInstruction::Csr(CsrInstruction::Csrrw { rd: 1, rs1_or_uimm: 1, csr: 0x300 })
    );
    assert_eq!(
        decode(0x3052_e173).unwrap(),
        AnyInstruction::Csr(CsrInstruction::Csrrsi { rd: 2, rs1_or_uimm: 5, csr: 0x305 })
    );
}

#[test]
fn refuses_what_it_does_not_know() {
    for raw in [0xffff_ffffu32, 0x0000_0000, 0x0000_1067, 0x0000_2063, 0x0000_7003, 0x0000_4023, 0x0200_0033, 0x0020_0073, 0x0000_4073] {
        assert!(matches!(decode(raw), Err(CpuError::IllegalInstruction(w)) if w == raw), "{raw:#x}");
    }
}

#[test]
fn shift_immediates_carry_six_bit_amounts() {
    assert_eq!(base(0x0200_9093), Instruction::Slli { rd: 1, rs1: 1, shamt: 32 });
    assert_eq!(base(0x43f0_d093), Instruction::Srai { rd: 1, rs1: 1, shamt: 63 });
    assert_eq!(base(0x03f0_d093), Instruction::Srli { rd: 1, rs1: 1, shamt: 63 });
    assert!(matches!(decode(0x0600_9093), Err(CpuError::IllegalInstruction(0x0600_9093))));
    assert!(matches!(decode(0x2200_d093), Err(CpuError::IllegalInstruction(0x2200_d093))));
    // The word forms keep a 5-bit amount: bit 25 set is refused there.
    assert!(matches!(decode(0x0200_909b), Err(CpuError::IllegalInstruction(0x0200_909b))));
}

fn encode_i(imm: i32, rs1: u8, funct3: u32, rd: u8, opcode: u32) -> u32 {
    let imm = (imm as u32) & 0x0fff;
    (imm << 20) | ((rs1 as u32) << 15) | (funct3 << 12) | ((rd as u32) << 7) | opcode
}

fn encode_s(imm: i32, rs2: u8, rs1: u8, funct3: u32, opcode: u32) -> u32 {
    let imm = (imm as u32) & 0x0fff;
    ((imm >> 5) << 25) | ((rs2 as u32) << 20) | ((rs1 as u32) << 15) | (funct3 << 12) | ((imm & 0x1f) << 7) | opcode
}

fn encode_b(imm: i32, rs2: u8, rs1: u8, funct3: u32, opcode: u32) -> u32 {
    let imm = (imm as u32) & 0x1fff;
    (((imm >> 12) & 1) << 31)
        | (((imm >> 5) & 0x3f) << 25)
        | ((rs2 as u32) << 20)
        | ((rs1 as u32) << 15)
        | (funct3 << 12)
        | (((imm >> 1) & 0xf) << 8)
        | (((imm >> 11) & 1) << 7)
        | opcode
}

fn encode_j(imm: i32, rd: u8, opcode: u32) -> u32 {
    let imm = (imm as u32) & 0x1f_ffff;
    (((imm >> 20) & 1) << 31)
        | (((imm >> 1) & 0x3ff) << 21)
        | (((imm >> 11) & 1) << 20)
        | (((imm >> 12) & 0xff) << 12)
        | ((rd as u32) << 7)
        | opcode
}

#[test]
fn built_words_decode_to_what_they_were_built_from() {
    for imm in [-2048, -1, 0, 1, 5, 2047] {
        for (rs1, rs2, rd) in [(0u8, 0u8, 0u8), (1, 2, 3), (31, 30, 29)] {
            let i64imm = imm as i64;
            assert_eq!(base(encode_i(imm, rs1, 0, rd, 0x13)), Instruction::Addi { rd, rs1, imm: i64imm });
            assert_eq!(base(encode_i(imm, rs1, 3, rd, 0x03)), Instruction::Ld { rd, rs1, imm: i64imm });
            assert_eq!(base(encode_i(imm, rs1, 0, rd, 0x67)), Instruction::Jalr { rd, rs1, imm: i64imm });
            assert_eq!(base(encode_s(imm, rs2, rs1, 3, 0x23)), Instruction::Sd { rs1, rs2, imm: i64imm });
            assert_eq!(base(encode_s(imm, rs2, rs1, 0, 0x23)), Instruction::Sb { rs1, rs2, imm: i64imm });
            let even = 2 * imm;
            assert_eq!(base(encode_b(even, rs2, rs1, 0, 0x63)), Instruction::Beq { rs1, rs2, imm: even as i64 });
            assert_eq!(base(encode_b(even, rs2, rs1, 7, 0x63)), Instruction::Bgeu { rs1, rs2, imm: even as i64 });
            let far = 512 * imm;
            assert_eq!(base(encode_j(far, rd, 0x6f)), Instruction::Jal { rd, imm: far as i64 });
        }
    }
    assert_eq!(base(encode_b(-4096, 1, 2, 1, 0x63)), Instruction::Bne { rs1: 2, rs2: 1, imm: -4096 });
    assert_eq!(base(encode_j(-0x10_0000, 1, 0x6f)), Instruction::Jal { rd: 1, imm: -0x10_0000 });
    assert_eq!(base(encode_j(0xf_fffe, 1, 0x6f)), Instruction::Jal { rd: 1, imm: 0xf_fffe });
}

#[test]
fn every_shift_amount_decodes() {
    for shamt in 0..64u8 {
        assert_eq!(base(encode_i(shamt as i32, 2, 1, 3, 0x13)), Instruction::Slli { rd: 3, rs1: 2, shamt });
        assert_eq!(base(encode_i(shamt as i32, 2, 5, 3, 0x13)), Instruction::Srli { rd: 3, rs1: 2, shamt });
        assert_eq!(
            base(encode_i(0x400 | shamt as i32, 2, 5, 3, 0x13)),
            Instruction::Srai { rd: 3, rs1: 2, shamt }
        );
    }
}
