//! Instruction decoding: from a 32-bit instruction word to an `AnyInstruction`.
use vstd::arithmetic::power2::{lemma2_to64, lemma_pow2_pos, lemma_pow2_unfold, pow2};
use vstd::bits::{
    lemma_u32_low_bits_mask_is_mod, lemma_u32_pow2_no_overflow, lemma_u32_shl_is_mul,
    lemma_u32_shr_is_div, lemma_u64_pow2_no_overflow, lemma_u64_shl_is_mul, low_bits_mask,
};
use vstd::prelude::*;

use crate::error::CpuError;
use crate::isa::{AnyInstruction, CsrInstruction, Instruction};
use crate::word::sext;

verus! {

pub const OPCODE_LUI: u32 = 0b0110111;
pub const OPCODE_AUIPC: u32 = 0b0010111;
pub const OPCODE_JAL: u32 = 0b1101111;
pub const OPCODE_JALR: u32 = 0b1100111;
pub const OPCODE_BRANCH: u32 = 0b1100011;
pub const OPCODE_LOAD: u32 = 0b0000011;
pub const OPCODE_STORE: u32 = 0b0100011;
pub const OPCODE_OP_IMM: u32 = 0b0010011;
pub const OPCODE_OP: u32 = 0b0110011;
pub const OPCODE_OP_IMM_32: u32 = 0b0011011;
pub const OPCODE_OP_32: u32 = 0b0111011;
pub const OPCODE_MISC_MEM: u32 = 0b0001111;
pub const OPCODE_SYSTEM: u32 = 0b1110011;

/// The `width` bits of `raw` that start at bit `lo`, as a number.
pub open spec fn field(raw: u32, lo: nat, width: nat) -> nat {
    (raw as nat / pow2(lo)) % pow2(width)
}

pub open spec fn opcode_of(raw: u32) -> u32 {
    field(raw, 0, 7) as u32
}

pub open spec fn rd_of(raw: u32) -> u8 {
    field(raw, 7, 5) as u8
}

pub open spec fn funct3_of(raw: u32) -> u8 {
    field(raw, 12, 3) as u8
}

pub open spec fn rs1_of(raw: u32) -> u8 {
    field(raw, 15, 5) as u8
}

pub open spec fn rs2_of(raw: u32) -> u8 {
    field(raw, 20, 5) as u8
}

pub open spec fn funct7_of(raw: u32) -> u8 {
    field(raw, 25, 7) as u8
}

/// The immediate of the I format: bits 31..20, sign-extended.
pub open spec fn imm_i_of(raw: u32) -> i64 {
    sext(field(raw, 20, 12), 12) as i64
}

/// The immediate of the S format: bits 31..25 above bits 11..7, sign-extended.
pub open spec fn imm_s_of(raw: u32) -> i64 {
    sext(field(raw, 25, 7) * 32 + field(raw, 7, 5), 12) as i64
}

/// The immediate of the B format: an even offset whose bit 12 is bit 31, bit 11 is bit 7,
/// bits 10..5 are bits 30..25 and bits 4..1 are bits 11..8; sign-extended.
pub open spec fn imm_b_of(raw: u32) -> i64 {
    sext(
        field(raw, 31, 1) * 4096 + field(raw, 7, 1) * 2048 + field(raw, 25, 6) * 32 + field(raw, 8, 4)
            * 2,
        13,
    ) as i64
}

/// The immediate of the U format: bits 31..12 in place, the low 12 bits zero, sign-extended.
pub open spec fn imm_u_of(raw: u32) -> i64 {
    sext(field(raw, 12, 20) * 4096, 32) as i64
}

/// The immediate of the J format: an even offset whose bit 20 is bit 31, bits 19..12 are
/// bits 19..12, bit 11 is bit 20 and bits 10..1 are bits 30..21; sign-extended.
pub open spec fn imm_j_of(raw: u32) -> i64 {
    sext(
        field(raw, 31, 1) * 0x10_0000 + field(raw, 12, 8) * 4096 + field(raw, 20, 1) * 2048 + field(
            raw,
            21,
            10,
        ) * 2,
        21,
    ) as i64
}

pub open spec fn branch_spec(raw: u32) -> Option<Instruction> {
    let (rs1, rs2, imm) = (rs1_of(raw), rs2_of(raw), imm_b_of(raw));
    match funct3_of(raw) {
        0 => Some(Instruction::Beq { rs1, rs2, imm }),
        1 => Some(Instruction::Bne { rs1, rs2, imm }),
        4 => Some(Instruction::Blt { rs1, rs2, imm }),
        5 => Some(Instruction::Bge { rs1, rs2, imm }),
        6 => Some(Instruction::Bltu { rs1, rs2, imm }),
        7 => Some(Instruction::Bgeu { rs1, rs2, imm }),
        _ => None,
    }
}

pub open spec fn load_kind_spec(raw: u32) -> Option<Instruction> {
    let (rd, rs1, imm) = (rd_of(raw), rs1_of(raw), imm_i_of(raw));
    match funct3_of(raw) {
        0 => Some(Instruction::Lb { rd, rs1, imm }),
        1 => Some(Instruction::Lh { rd, rs1, imm }),
        2 => Some(Instruction::Lw { rd, rs1, imm }),
        3 => Some(Instruction::Ld { rd, rs1, imm }),
        4 => Some(Instruction::Lbu { rd, rs1, imm }),
        5 => Some(Instruction::Lhu { rd, rs1, imm }),
        6 => Some(Instruction::Lwu { rd, rs1, imm }),
        _ => None,
    }
}

pub open spec fn store_kind_spec(raw: u32) -> Option<Instruction> {
    let (rs1, rs2, imm) = (rs1_of(raw), rs2_of(raw), imm_s_of(raw));
    match funct3_of(raw) {
        0 => Some(Instruction::Sb { rs1, rs2, imm }),
        1 => Some(Instruction::Sh { rs1, rs2, imm }),
        2 => Some(Instruction::Sw { rs1, rs2, imm }),
        3 => Some(Instruction::Sd { rs1, rs2, imm }),
        _ => None,
    }
}

/// Register-immediate operations; the shifts take a 6-bit amount (bits 25..20) and a
/// funct6 (bits 31..26) that selects the kind.
pub open spec fn op_imm_spec(raw: u32) -> Option<Instruction> {
    let (rd, rs1, imm) = (rd_of(raw), rs1_of(raw), imm_i_of(raw));
    let shamt = field(raw, 20, 6) as u8;
    let funct6 = field(raw, 26, 6);
    match funct3_of(raw) {
        0 => Some(Instruction::Addi { rd, rs1, imm }),
        2 => Some(Instruction::Slti { rd, rs1, imm }),
        3 => Some(Instruction::Sltiu { rd, rs1, imm }),
        4 => Some(Instruction::Xori { rd, rs1, imm }),
        6 => Some(Instruction::Ori { rd, rs1, imm }),
        7 => Some(Instruction::Andi { rd, rs1, imm }),
        1 => if funct6 == 0 {
            Some(Instruction::Slli { rd, rs1, shamt })
        } else {
            None
        },
        5 => if funct6 == 0 {
            Some(Instruction::Srli { rd, rs1, shamt })
        } else if funct6 == 0b010000 {
            Some(Instruction::Srai { rd, rs1, shamt })
        } else {
            None
        },
        _ => None,
    }
}

pub open spec fn op_spec(raw: u32) -> Option<Instruction> {
    let (rd, rs1, rs2) = (rd_of(raw), rs1_of(raw), rs2_of(raw));
    let (f3, f7) = (funct3_of(raw), funct7_of(raw));
    if f7 == 0 {
        match f3 {
            0 => Some(Instruction::Add { rd, rs1, rs2 }),
            1 => Some(Instruction::Sll { rd, rs1, rs2 }),
            2 => Some(Instruction::Slt { rd, rs1, rs2 }),
            3 => Some(Instruction::Sltu { rd, rs1, rs2 }),
            4 => Some(Instruction::Xor { rd, rs1, rs2 }),
            5 => Some(Instruction::Srl { rd, rs1, rs2 }),
            6 => Some(Instruction::Or { rd, rs1, rs2 }),
            _ => Some(Instruction::And { rd, rs1, rs2 }),
        }
    } else if f7 == 0b0100000 && f3 == 0 {
        Some(Instruction::Sub { rd, rs1, rs2 })
    } else if f7 == 0b0100000 && f3 == 5 {
        Some(Instruction::Sra { rd, rs1, rs2 })
    } else {
        None
    }
}

pub open spec fn op_imm_32_spec(raw: u32) -> Option<Instruction> {
    let (rd, rs1) = (rd_of(raw), rs1_of(raw));
    let shamt = field(raw, 20, 5) as u8;
    match funct3_of(raw) {
        0 => Some(Instruction::Addiw { rd, rs1, imm: imm_i_of(raw) }),
        1 => if funct7_of(raw) == 0 {
            Some(Instruction::Slliw { rd, rs1, shamt })
        } else {
            None
        },
        5 => if funct7_of(raw) == 0 {
            Some(Instruction::Srliw { rd, rs1, shamt })
        } else if funct7_of(raw) == 0b0100000 {
            Some(Instruction::Sraiw { rd, rs1, shamt })
        } else {
            None
        },
        _ => None,
    }
}

pub open spec fn op_32_spec(raw: u32) -> Option<Instruction> {
    let (rd, rs1, rs2) = (rd_of(raw), rs1_of(raw), rs2_of(raw));
    let (f3, f7) = (funct3_of(raw), funct7_of(raw));
    if f3 == 0 && f7 == 0 {
        Some(Instruction::Addw { rd, rs1, rs2 })
    } else if f3 == 0 && f7 == 0b0100000 {
        Some(Instruction::Subw { rd, rs1, rs2 })
    } else if f3 == 1 && f7 == 0 {
        Some(Instruction::Sllw { rd, rs1, rs2 })
    } else if f3 == 5 && f7 == 0 {
        Some(Instruction::Srlw { rd, rs1, rs2 })
    } else if f3 == 5 && f7 == 0b0100000 {
        Some(Instruction::Sraw { rd, rs1, rs2 })
    } else {
        None
    }
}

pub open spec fn misc_mem_spec(raw: u32) -> Option<Instruction> {
    match funct3_of(raw) {
        0 => Some(Instruction::Fence { pred: field(raw, 24, 4) as u8, succ: field(raw, 20, 4) as u8 }),
        1 => Some(Instruction::FenceI),
        _ => None,
    }
}

/// `ecall` and `ebreak` when funct3 is zero, the CSR instructions otherwise.
pub open spec fn system_spec(raw: u32) -> Option<AnyInstruction> {
    let (rd, rs1_or_uimm, csr) = (rd_of(raw), rs1_of(raw), field(raw, 20, 12) as u16);
    match funct3_of(raw) {
        0 => if imm_i_of(raw) == 0 {
            Some(AnyInstruction::Base(Instruction::Ecall))
        } else if imm_i_of(raw) == 1 {
            Some(AnyInstruction::Base(Instruction::Ebreak))
        } else {
            None
        },
        1 => Some(AnyInstruction::Csr(CsrInstruction::Csrrw { rd, rs1_or_uimm, csr })),
        2 => Some(AnyInstruction::Csr(CsrInstruction::Csrrs { rd, rs1_or_uimm, csr })),
        3 => Some(AnyInstruction::Csr(CsrInstruction::Csrrc { rd, rs1_or_uimm, csr })),
        5 => Some(AnyInstruction::Csr(CsrInstruction::Csrrwi { rd, rs1_or_uimm, csr })),
        6 => Some(AnyInstruction::Csr(CsrInstruction::Csrrsi { rd, rs1_or_uimm, csr })),
        7 => Some(AnyInstruction::Csr(CsrInstruction::Csrrci { rd, rs1_or_uimm, csr })),
        _ => None,
    }
}

pub open spec fn base(i: Option<Instruction>) -> Option<AnyInstruction> {
    match i {
        Some(i) => Some(AnyInstruction::Base(i)),
        None => None,
    }
}

/// The instruction that the word `raw` encodes, if it encodes one.
pub open spec fn decode_spec(raw: u32) -> Option<AnyInstruction> {
    let op = opcode_of(raw);
    if op == OPCODE_LUI {
        Some(AnyInstruction::Base(Instruction::Lui { rd: rd_of(raw), imm: imm_u_of(raw) }))
    } else if op == OPCODE_AUIPC {
        Some(AnyInstruction::Base(Instruction::Auipc { rd: rd_of(raw), imm: imm_u_of(raw) }))
    } else if op == OPCODE_JAL {
        Some(AnyInstruction::Base(Instruction::Jal { rd: rd_of(raw), imm: imm_j_of(raw) }))
    } else if op == OPCODE_JALR {
        if funct3_of(raw) == 0 {
            Some(
                AnyInstruction::Base(
                    Instruction::Jalr { rd: rd_of(raw), rs1: rs1_of(raw), imm: imm_i_of(raw) },
                ),
            )
        } else {
            None
        }
    } else if op == OPCODE_BRANCH {
        base(branch_spec(raw))
    } else if op == OPCODE_LOAD {
        base(load_kind_spec(raw))
    } else if op == OPCODE_STORE {
        base(store_kind_spec(raw))
    } else if op == OPCODE_OP_IMM {
        base(op_imm_spec(raw))
    } else if op == OPCODE_OP {
        base(op_spec(raw))
    } else if op == OPCODE_OP_IMM_32 {
        base(op_imm_32_spec(raw))
    } else if op == OPCODE_OP_32 {
        base(op_32_spec(raw))
    } else if op == OPCODE_MISC_MEM {
        base(misc_mem_spec(raw))
    } else if op == OPCODE_SYSTEM {
        system_spec(raw)
    } else {
        None
    }
}

/// The register numbers of an instruction name registers that exist.
pub open spec fn registers_valid(instr: AnyInstruction) -> bool {
    match instr {
        AnyInstruction::Base(i) => match i {
            Instruction::Add { rd, rs1, rs2 }
            | Instruction::Sub { rd, rs1, rs2 }
            | Instruction::Sll { rd, rs1, rs2 }
            | Instruction::Slt { rd, rs1, rs2 }
            | Instruction::Sltu { rd, rs1, rs2 }
            | Instruction::Xor { rd, rs1, rs2 }
            | Instruction::Srl { rd, rs1, rs2 }
            | Instruction::Sra { rd, rs1, rs2 }
            | Instruction::Or { rd, rs1, rs2 }
            | Instruction::And { rd, rs1, rs2 }
            | Instruction::Addw { rd, rs1, rs2 }
            | Instruction::Subw { rd, rs1, rs2 }
            | Instruction::Sllw { rd, rs1, rs2 }
            | Instruction::Srlw { rd, rs1, rs2 }
            | Instruction::Sraw { rd, rs1, rs2 } => rd < 32 && rs1 < 32 && rs2 < 32,
            Instruction::Addi { rd, rs1, .. }
            | Instruction::Slti { rd, rs1, .. }
            | Instruction::Sltiu { rd, rs1, .. }
            | Instruction::Xori { rd, rs1, .. }
            | Instruction::Ori { rd, rs1, .. }
            | Instruction::Andi { rd, rs1, .. }
            | Instruction::Slli { rd, rs1, .. }
            | Instruction::Srli { rd, rs1, .. }
            | Instruction::Srai { rd, rs1, .. }
            | Instruction::Addiw { rd, rs1, .. }
            | Instruction::Slliw { rd, rs1, .. }
            | Instruction::Srliw { rd, rs1, .. }
            | Instruction::Sraiw { rd, rs1, .. }
            | Instruction::Lb { rd, rs1, .. }
            | Instruction::Lh { rd, rs1, .. }
            | Instruction::Lw { rd, rs1, .. }
            | Instruction::Ld { rd, rs1, .. }
            | Instruction::Lbu { rd, rs1, .. }
            | Instruction::Lhu { rd, rs1, .. }
            | Instruction::Lwu { rd, rs1, .. }
            | Instruction::Jalr { rd, rs1, .. } => rd < 32 && rs1 < 32,
            Instruction::Sb { rs1, rs2, .. }
            | Instruction::Sh { rs1, rs2, .. }
            | Instruction::Sw { rs1, rs2, .. }
            | Instruction::Sd { rs1, rs2, .. }
            | Instruction::Beq { rs1, rs2, .. }
            | Instruction::Bne { rs1, rs2, .. }
            | Instruction::Blt { rs1, rs2, .. }
            | Instruction::Bge { rs1, rs2, .. }
            | Instruction::Bltu { rs1, rs2, .. }
            | Instruction::Bgeu { rs1, rs2, .. } => rs1 < 32 && rs2 < 32,
            Instruction::Lui { rd, .. } | Instruction::Auipc { rd, .. } | Instruction::Jal {
                rd,
                ..
            } => rd < 32,
            Instruction::Fence { .. } | Instruction::FenceI | Instruction::Ecall
            | Instruction::Ebreak => true,
        },
        AnyInstruction::Csr(c) => match c {
            CsrInstruction::Csrrw { rd, rs1_or_uimm, .. }
            | CsrInstruction::Csrrs { rd, rs1_or_uimm, .. }
            | CsrInstruction::Csrrc { rd, rs1_or_uimm, .. } => rd < 32 && rs1_or_uimm < 32,
            CsrInstruction::Csrrwi { rd, .. }
            | CsrInstruction::Csrrsi { rd, .. }
            | CsrInstruction::Csrrci { rd, .. } => rd < 32,
        },
    }
}

/// A field is below 2 to the power of its width.
pub proof fn lemma_field_bound(raw: u32, lo: nat, width: nat)
    ensures
        field(raw, lo, width) < pow2(width),
{
    lemma_pow2_pos(width);
}

/// Bits `hi` down to `lo` of `raw`.
fn bits(raw: u32, hi: u8, lo: u8) -> (r: u32)
    requires
        lo <= hi < 32,
        hi - lo < 31,
    ensures
        r == field(raw, lo as nat, (hi - lo + 1) as nat),
{
    let n = hi - lo + 1;
    proof {
        lemma_u32_shr_is_div(raw, lo as u32);
        lemma_u32_pow2_no_overflow(n as nat);
        lemma_u32_shl_is_mul(1, n as u32);
        lemma_u32_low_bits_mask_is_mod(raw >> lo as u32, n as nat);
        lemma_pow2_pos(lo as nat);
    }
    let mask = (1u32 << n as u32) - 1;
    assert(mask == low_bits_mask(n as nat) as u32);
    (raw >> lo as u32) & mask
}

fn rd(raw: u32) -> (r: u8)
    ensures
        r == rd_of(raw),
        r < 32,
{
    proof {
        lemma_field_bound(raw, 7, 5);
        lemma2_to64();
    }
    bits(raw, 11, 7) as u8
}

fn rs1(raw: u32) -> (r: u8)
    ensures
        r == rs1_of(raw),
        r < 32,
{
    proof {
        lemma_field_bound(raw, 15, 5);
        lemma2_to64();
    }
    bits(raw, 19, 15) as u8
}

fn rs2(raw: u32) -> (r: u8)
    ensures
        r == rs2_of(raw),
        r < 32,
{
    proof {
        lemma_field_bound(raw, 20, 5);
        lemma2_to64();
    }
    bits(raw, 24, 20) as u8
}

fn funct3(raw: u32) -> (r: u8)
    ensures
        r == funct3_of(raw),
{
    proof {
        lemma_field_bound(raw, 12, 3);
        lemma2_to64();
    }
    bits(raw, 14, 12) as u8
}

fn funct7(raw: u32) -> (r: u8)
    ensures
        r == funct7_of(raw),
{
    proof {
        lemma_field_bound(raw, 25, 7);
        lemma2_to64();
    }
    bits(raw, 31, 25) as u8
}

/// The `bits`-bit pattern `value` read as a two's-complement number.
fn sign_extend(value: u32, bits: u8) -> (r: i64)
    requires
        1 <= bits <= 32,
        value < pow2(bits as nat),
    ensures
        r == sext(value as nat, bits as nat),
{
    proof {
        lemma_u64_pow2_no_overflow(bits as nat);
        lemma_u64_shl_is_mul(1, bits as u64);
        lemma_pow2_unfold(bits as nat);
        lemma2_to64();
        if bits < 32 {
            vstd::arithmetic::power2::lemma_pow2_strictly_increases(bits as nat, 32);
        }
    }
    let full: u64 = 1u64 << bits as u64;
    let half: u64 = full / 2;
    if value as u64 >= half {
        value as i64 - full as i64
    } else {
        value as i64
    }
}

fn imm_i(raw: u32) -> (r: i64)
    ensures
        r == imm_i_of(raw),
{
    proof {
        lemma_field_bound(raw, 20, 12);
        lemma2_to64();
    }
    sign_extend(bits(raw, 31, 20), 12)
}

fn imm_s(raw: u32) -> (r: i64)
    ensures
        r == imm_s_of(raw),
{
    proof {
        lemma_field_bound(raw, 25, 7);
        lemma_field_bound(raw, 7, 5);
        lemma2_to64();
    }
    let high = bits(raw, 31, 25) * 32;
    let low = bits(raw, 11, 7);
    sign_extend(high + low, 12)
}

fn imm_b(raw: u32) -> (r: i64)
    ensures
        r == imm_b_of(raw),
{
    proof {
        lemma_field_bound(raw, 31, 1);
        lemma_field_bound(raw, 7, 1);
        lemma_field_bound(raw, 25, 6);
        lemma_field_bound(raw, 8, 4);
        lemma2_to64();
    }
    let bit12 = bits(raw, 31, 31) * 4096;
    let bit11 = bits(raw, 7, 7) * 2048;
    let bits10_5 = bits(raw, 30, 25) * 32;
    let bits4_1 = bits(raw, 11, 8) * 2;
    sign_extend(bit12 + bit11 + bits10_5 + bits4_1, 13)
}

fn imm_u(raw: u32) -> (r: i64)
    ensures
        r == imm_u_of(raw),
{
    proof {
        lemma_field_bound(raw, 12, 20);
        lemma2_to64();
    }
    let imm = bits(raw, 31, 12) * 4096;
    sign_extend(imm, 32)
}

fn imm_j(raw: u32) -> (r: i64)
    ensures
        r == imm_j_of(raw),
{
    proof {
        lemma_field_bound(raw, 31, 1);
        lemma_field_bound(raw, 12, 8);
        lemma_field_bound(raw, 20, 1);
        lemma_field_bound(raw, 21, 10);
        lemma2_to64();
    }
    let bit20 = bits(raw, 31, 31) * 0x10_0000;
    let bits19_12 = bits(raw, 19, 12) * 4096;
    let bit11 = bits(raw, 20, 20) * 2048;
    let bits10_1 = bits(raw, 30, 21) * 2;
    sign_extend(bit20 + bits19_12 + bit11 + bits10_1, 21)
}

} // verus!

verus! {

fn decode_branch(raw: u32) -> (r: Option<Instruction>)
    ensures
        r == branch_spec(raw),
{
    let (rs1, rs2, imm) = (rs1(raw), rs2(raw), imm_b(raw));
    match funct3(raw) {
        0b000 => Some(Instruction::Beq { rs1, rs2, imm }),
        0b001 => Some(Instruction::Bne { rs1, rs2, imm }),
        0b100 => Some(Instruction::Blt { rs1, rs2, imm }),
        0b101 => Some(Instruction::Bge { rs1, rs2, imm }),
        0b110 => Some(Instruction::Bltu { rs1, rs2, imm }),
        0b111 => Some(Instruction::Bgeu { rs1, rs2, imm }),
        _ => None,
    }
}

fn decode_load(raw: u32) -> (r: Option<Instruction>)
    ensures
        r == load_kind_spec(raw),
{
    let (rd, rs1, imm) = (rd(raw), rs1(raw), imm_i(raw));
    match funct3(raw) {
        0b000 => Some(Instruction::Lb { rd, rs1, imm }),
        0b001 => Some(Instruction::Lh { rd, rs1, imm }),
        0b010 => Some(Instruction::Lw { rd, rs1, imm }),
        0b011 => Some(Instruction::Ld { rd, rs1, imm }),
        0b100 => Some(Instruction::Lbu { rd, rs1, imm }),
        0b101 => Some(Instruction::Lhu { rd, rs1, imm }),
        0b110 => Some(Instruction::Lwu { rd, rs1, imm }),
        _ => None,
    }
}

fn decode_store(raw: u32) -> (r: Option<Instruction>)
    ensures
        r == store_kind_spec(raw),
{
    let (rs1, rs2, imm) = (rs1(raw), rs2(raw), imm_s(raw));
    match funct3(raw) {
        0b000 => Some(Instruction::Sb { rs1, rs2, imm }),
        0b001 => Some(Instruction::Sh { rs1, rs2, imm }),
        0b010 => Some(Instruction::Sw { rs1, rs2, imm }),
        0b011 => Some(Instruction::Sd { rs1, rs2, imm }),
        _ => None,
    }
}

fn decode_op_imm(raw: u32) -> (r: Option<Instruction>)
    ensures
        r == op_imm_spec(raw),
{
    let (rd, rs1, imm) = (rd(raw), rs1(raw), imm_i(raw));
    proof {
        lemma_field_bound(raw, 20, 6);
        lemma2_to64();
    }
    match funct3(raw) {
        0b000 => Some(Instruction::Addi { rd, rs1, imm }),
        0b010 => Some(Instruction::Slti { rd, rs1, imm }),
        0b011 => Some(Instruction::Sltiu { rd, rs1, imm }),
        0b100 => Some(Instruction::Xori { rd, rs1, imm }),
        0b110 => Some(Instruction::Ori { rd, rs1, imm }),
        0b111 => Some(Instruction::Andi { rd, rs1, imm }),
        0b001 => {
            let shamt = bits(raw, 25, 20) as u8;
            if bits(raw, 31, 26) != 0b000000 {
                return None;
            }
            Some(Instruction::Slli { rd, rs1, shamt })
        },
        0b101 => {
            let shamt = bits(raw, 25, 20) as u8;
            match bits(raw, 31, 26) {
                0b000000 => Some(Instruction::Srli { rd, rs1, shamt }),
                0b010000 => Some(Instruction::Srai { rd, rs1, shamt }),
                _ => None,
            }
        },
        _ => None,
    }
}

fn decode_op(raw: u32) -> (r: Option<Instruction>)
    ensures
        r == op_spec(raw),
{
    let (rd, rs1, rs2) = (rd(raw), rs1(raw), rs2(raw));
    proof {
        lemma_field_bound(raw, 12, 3);
        lemma2_to64();
    }
    match (funct3(raw), funct7(raw)) {
        (0b000, 0b0000000) => Some(Instruction::Add { rd, rs1, rs2 }),
        (0b000, 0b0100000) => Some(Instruction::Sub { rd, rs1, rs2 }),
        (0b001, 0b0000000) => Some(Instruction::Sll { rd, rs1, rs2 }),
        (0b010, 0b0000000) => Some(Instruction::Slt { rd, rs1, rs2 }),
        (0b011, 0b0000000) => Some(Instruction::Sltu { rd, rs1, rs2 }),
        (0b100, 0b0000000) => Some(Instruction::Xor { rd, rs1, rs2 }),
        (0b101, 0b0000000) => Some(Instruction::Srl { rd, rs1, rs2 }),
        (0b101, 0b0100000) => Some(Instruction::Sra { rd, rs1, rs2 }),
        (0b110, 0b0000000) => Some(Instruction::Or { rd, rs1, rs2 }),
        (0b111, 0b0000000) => Some(Instruction::And { rd, rs1, rs2 }),
        _ => None,
    }
}

fn decode_op_imm_32(raw: u32) -> (r: Option<Instruction>)
    ensures
        r == op_imm_32_spec(raw),
{
    let (rd, rs1) = (rd(raw), rs1(raw));
    proof {
        lemma_field_bound(raw, 20, 5);
        lemma2_to64();
    }
    match funct3(raw) {
        0b000 => Some(Instruction::Addiw { rd, rs1, imm: imm_i(raw) }),
        0b001 => {
            if funct7(raw) != 0b0000000 {
                return None;
            }
            Some(Instruction::Slliw { rd, rs1, shamt: bits(raw, 24, 20) as u8 })
        },
        0b101 => match funct7(raw) {
            0b0000000 => Some(Instruction::Srliw { rd, rs1, shamt: bits(raw, 24, 20) as u8 }),
            0b0100000 => Some(Instruction::Sraiw { rd, rs1, shamt: bits(raw, 24, 20) as u8 }),
            _ => None,
        },
        _ => None,
    }
}

fn decode_op_32(raw: u32) -> (r: Option<Instruction>)
    ensures
        r == op_32_spec(raw),
{
    let (rd, rs1, rs2) = (rd(raw), rs1(raw), rs2(raw));
    match (funct3(raw), funct7(raw)) {
        (0b000, 0b0000000) => Some(Instruction::Addw { rd, rs1, rs2 }),
        (0b000, 0b0100000) => Some(Instruction::Subw { rd, rs1, rs2 }),
        (0b001, 0b0000000) => Some(Instruction::Sllw { rd, rs1, rs2 }),
        (0b101, 0b0000000) => Some(Instruction::Srlw { rd, rs1, rs2 }),
        (0b101, 0b0100000) => Some(Instruction::Sraw { rd, rs1, rs2 }),
        _ => None,
    }
}

fn decode_misc_mem(raw: u32) -> (r: Option<Instruction>)
    ensures
        r == misc_mem_spec(raw),
{
    proof {
        lemma_field_bound(raw, 24, 4);
        lemma_field_bound(raw, 20, 4);
        lemma2_to64();
    }
    match funct3(raw) {
        0b000 => Some(
            Instruction::Fence { pred: bits(raw, 27, 24) as u8, succ: bits(raw, 23, 20) as u8 },
        ),
        0b001 => Some(Instruction::FenceI),
        _ => None,
    }
}

fn decode_system(raw: u32) -> (r: Option<AnyInstruction>)
    ensures
        r == system_spec(raw),
{
    let f3 = funct3(raw);
    if f3 == 0b000 {
        match imm_i(raw) {
            0 => Some(AnyInstruction::Base(Instruction::Ecall)),
            1 => Some(AnyInstruction::Base(Instruction::Ebreak)),
            _ => None,
        }
    } else {
        proof {
            lemma_field_bound(raw, 20, 12);
            lemma2_to64();
        }
        let csr = bits(raw, 31, 20) as u16;
        let (rd, rs1_or_uimm) = (rd(raw), rs1(raw));
        let inst = match f3 {
            0b001 => CsrInstruction::Csrrw { rd, rs1_or_uimm, csr },
            0b010 => CsrInstruction::Csrrs { rd, rs1_or_uimm, csr },
            0b011 => CsrInstruction::Csrrc { rd, rs1_or_uimm, csr },
            0b101 => CsrInstruction::Csrrwi { rd, rs1_or_uimm, csr },
            0b110 => CsrInstruction::Csrrsi { rd, rs1_or_uimm, csr },
            0b111 => CsrInstruction::Csrrci { rd, rs1_or_uimm, csr },
            _ => return None,
        };
        Some(AnyInstruction::Csr(inst))
    }
}

fn lift(i: Option<Instruction>) -> (r: Option<AnyInstruction>)
    ensures
        r == base(i),
{
    match i {
        Some(i) => Some(AnyInstruction::Base(i)),
        None => None,
    }
}

/// Decodes the instruction word `raw`.
pub fn decode(raw: u32) -> (r: Result<AnyInstruction, CpuError>)
    ensures
        r == match decode_spec(raw) {
            Some(i) => Ok::<AnyInstruction, CpuError>(i),
            None => Err(CpuError::IllegalInstruction(raw)),
        },
        r is Ok ==> registers_valid(r->Ok_0),
{
    proof {
        lemma_field_bound(raw, 0, 7);
        lemma_field_bound(raw, 7, 5);
        lemma_field_bound(raw, 15, 5);
        lemma_field_bound(raw, 20, 5);
        lemma2_to64();
    }
    let opcode = bits(raw, 6, 0);
    let decoded = if opcode == OPCODE_LUI {
        Some(AnyInstruction::Base(Instruction::Lui { rd: rd(raw), imm: imm_u(raw) }))
    } else if opcode == OPCODE_AUIPC {
        Some(AnyInstruction::Base(Instruction::Auipc { rd: rd(raw), imm: imm_u(raw) }))
    } else if opcode == OPCODE_JAL {
        Some(AnyInstruction::Base(Instruction::Jal { rd: rd(raw), imm: imm_j(raw) }))
    } else if opcode == OPCODE_JALR {
        if funct3(raw) != 0b000 {
            None
        } else {
            Some(
                AnyInstruction::Base(
                    Instruction::Jalr { rd: rd(raw), rs1: rs1(raw), imm: imm_i(raw) },
                ),
            )
        }
    } else if opcode == OPCODE_BRANCH {
        lift(decode_branch(raw))
    } else if opcode == OPCODE_LOAD {
        lift(decode_load(raw))
    } else if opcode == OPCODE_STORE {
        lift(decode_store(raw))
    } else if opcode == OPCODE_OP_IMM {
        lift(decode_op_imm(raw))
    } else if opcode == OPCODE_OP {
        lift(decode_op(raw))
    } else if opcode == OPCODE_OP_IMM_32 {
        lift(decode_op_imm_32(raw))
    } else if opcode == OPCODE_OP_32 {
        lift(decode_op_32(raw))
    } else if opcode == OPCODE_MISC_MEM {
        lift(decode_misc_mem(raw))
    } else if opcode == OPCODE_SYSTEM {
        decode_system(raw)
    } else {
        None
    };
    match decoded {
        Some(i) => Ok(i),
        None => Err(CpuError::IllegalInstruction(raw)),
    }
}

} // verus!

verus! {

/// The word of the I format: a 12-bit immediate, `rs1`, `funct3`, `rd` and the opcode.
pub open spec fn i_type_word(imm: int, rs1: u8, funct3: nat, rd: u8, opcode: nat) -> u32 {
    ((imm % 4096) * 0x10_0000 + rs1 * 0x8000 + funct3 * 0x1000 + rd * 0x80 + opcode) as u32
}

/// The word of the S format: the immediate split into bits 11..5 and 4..0 around `rs2`,
/// `rs1` and `funct3`.
pub open spec fn s_type_word(imm: int, rs2: u8, rs1: u8, funct3: nat, opcode: nat) -> u32 {
    let u = imm % 4096;
    ((u / 32) * 0x200_0000 + rs2 * 0x10_0000 + rs1 * 0x8000 + funct3 * 0x1000 + (u % 32) * 0x80
        + opcode) as u32
}

/// The word of the B format: bit 12 of the offset in bit 31, bits 10..5 in bits 30..25,
/// bits 4..1 in bits 11..8 and bit 11 in bit 7.
pub open spec fn b_type_word(imm: int, rs2: u8, rs1: u8, funct3: nat, opcode: nat) -> u32 {
    let u = imm % 8192;
    ((u / 4096) * 0x8000_0000 + ((u / 32) % 64) * 0x200_0000 + rs2 * 0x10_0000 + rs1 * 0x8000
        + funct3 * 0x1000 + ((u / 2) % 16) * 0x100 + ((u / 2048) % 2) * 0x80 + opcode) as u32
}

/// The word of the J format: bit 20 of the offset in bit 31, bits 10..1 in bits 30..21,
/// bit 11 in bit 20 and bits 19..12 in place.
pub open spec fn j_type_word(imm: int, rd: u8, opcode: nat) -> u32 {
    let u = imm % 0x20_0000;
    ((u / 0x10_0000) * 0x8000_0000 + ((u / 2) % 1024) * 0x20_0000 + ((u / 2048) % 2) * 0x10_0000
        + ((u / 4096) % 256) * 0x1000 + rd * 0x80 + opcode) as u32
}

/// The field of `w` bits at `lo` of a word made of `high` above it, `f` in it and `low`
/// below it is `f`.
proof fn lemma_field_of(raw: u32, lo: nat, w: nat, high: nat, f: nat, low: nat)
    requires
        f < pow2(w),
        low < pow2(lo),
        raw == (high * pow2(w) + f) * pow2(lo) + low,
    ensures
        field(raw, lo, w) == f,
{
    lemma_pow2_pos(lo);
    lemma_pow2_pos(w);
    vstd::arithmetic::div_mod::lemma_fundamental_div_mod_converse(
        raw as int,
        pow2(lo) as int,
        (high * pow2(w) + f) as int,
        low as int,
    );
    vstd::arithmetic::div_mod::lemma_fundamental_div_mod_converse(
        (high * pow2(w) + f) as int,
        pow2(w) as int,
        high as int,
        f as int,
    );
}

/// The fields of an I-format word give back its parts.
#[verifier::spinoff_prover]
pub proof fn lemma_i_type_fields(imm: int, rs1: u8, funct3: nat, rd: u8, opcode: nat)
    requires
        -2048 <= imm <= 2047,
        rs1 < 32,
        funct3 < 8,
        rd < 32,
        opcode < 128,
    ensures
        opcode_of(i_type_word(imm, rs1, funct3, rd, opcode)) == opcode,
        rd_of(i_type_word(imm, rs1, funct3, rd, opcode)) == rd,
        funct3_of(i_type_word(imm, rs1, funct3, rd, opcode)) == funct3,
        rs1_of(i_type_word(imm, rs1, funct3, rd, opcode)) == rs1,
        imm_i_of(i_type_word(imm, rs1, funct3, rd, opcode)) == imm,
{
    lemma2_to64();
    let u = imm % 4096;
    let raw = i_type_word(imm, rs1, funct3, rd, opcode);
    assert(raw == u * 0x10_0000 + rs1 * 0x8000 + funct3 * 0x1000 + rd * 0x80 + opcode);
    lemma_field_of(raw, 0, 7, (u * 0x2000 + rs1 * 0x100 + funct3 * 0x20 + rd) as nat, opcode, 0);
    lemma_field_of(raw, 7, 5, (u * 0x100 + rs1 * 8 + funct3) as nat, rd as nat, opcode);
    lemma_field_of(raw, 12, 3, (u * 32 + rs1) as nat, funct3, (rd * 0x80 + opcode) as nat);
    lemma_field_of(raw, 15, 5, u as nat, rs1 as nat, (funct3 * 0x1000 + rd * 0x80 + opcode) as nat);
    lemma_field_of(raw, 20, 12, 0, u as nat, (rs1 * 0x8000 + funct3 * 0x1000 + rd * 0x80 + opcode) as nat);
}

/// The fields of an S-format word give back its parts.
#[verifier::spinoff_prover]
pub proof fn lemma_s_type_fields(imm: int, rs2: u8, rs1: u8, funct3: nat, opcode: nat)
    requires
        -2048 <= imm <= 2047,
        rs2 < 32,
        rs1 < 32,
        funct3 < 8,
        opcode < 128,
    ensures
        opcode_of(s_type_word(imm, rs2, rs1, funct3, opcode)) == opcode,
        funct3_of(s_type_word(imm, rs2, rs1, funct3, opcode)) == funct3,
        rs1_of(s_type_word(imm, rs2, rs1, funct3, opcode)) == rs1,
        rs2_of(s_type_word(imm, rs2, rs1, funct3, opcode)) == rs2,
        imm_s_of(s_type_word(imm, rs2, rs1, funct3, opcode)) == imm,
{
    lemma2_to64();
    let u = imm % 4096;
    let (hi, lo) = (u / 32, u % 32);
    let raw = s_type_word(imm, rs2, rs1, funct3, opcode);
    assert(raw == hi * 0x200_0000 + rs2 * 0x10_0000 + rs1 * 0x8000 + funct3 * 0x1000 + lo * 0x80
        + opcode);
    lemma_field_of(
        raw,
        0,
        7,
        (hi * 0x4_0000 + rs2 * 0x2000 + rs1 * 0x100 + funct3 * 0x20 + lo) as nat,
        opcode,
        0,
    );
    lemma_field_of(raw, 7, 5, (hi * 0x2000 + rs2 * 0x100 + rs1 * 8 + funct3) as nat, lo as nat, opcode);
    lemma_field_of(raw, 12, 3, (hi * 0x400 + rs2 * 32 + rs1) as nat, funct3, (lo * 0x80 + opcode) as nat);
    lemma_field_of(
        raw,
        15,
        5,
        (hi * 32 + rs2) as nat,
        rs1 as nat,
        (funct3 * 0x1000 + lo * 0x80 + opcode) as nat,
    );
    lemma_field_of(
        raw,
        20,
        5,
        hi as nat,
        rs2 as nat,
        (rs1 * 0x8000 + funct3 * 0x1000 + lo * 0x80 + opcode) as nat,
    );
    lemma_field_of(
        raw,
        25,
        7,
        0,
        hi as nat,
        (rs2 * 0x10_0000 + rs1 * 0x8000 + funct3 * 0x1000 + lo * 0x80 + opcode) as nat,
    );
    assert(hi * 32 + lo == u);
}

/// The bits of an even 13-bit offset, as the B format scatters them, add back up to it.
proof fn lemma_b_offset_bits(u: int)
    requires
        0 <= u < 8192,
        u % 2 == 0,
    ensures
        u / 4096 < 2,
        (u / 32) % 64 < 64,
        (u / 2) % 16 < 16,
        (u / 2048) % 2 < 2,
        (u / 4096) * 4096 + ((u / 2048) % 2) * 2048 + ((u / 32) % 64) * 32 + ((u / 2) % 16) * 2 == u,
{
}

/// The bits of an even 21-bit offset, as the J format scatters them, add back up to it.
proof fn lemma_j_offset_bits(u: int)
    requires
        0 <= u < 0x20_0000,
        u % 2 == 0,
    ensures
        u / 0x10_0000 < 2,
        (u / 2) % 1024 < 1024,
        (u / 2048) % 2 < 2,
        (u / 4096) % 256 < 256,
        (u / 0x10_0000) * 0x10_0000 + ((u / 4096) % 256) * 4096 + ((u / 2048) % 2) * 2048 + ((u / 2)
            % 1024) * 2 == u,
{
}

/// The fields of a B-format word give back its parts.
#[verifier::spinoff_prover]
#[verifier::rlimit(40)]
pub proof fn lemma_b_type_fields(imm: int, rs2: u8, rs1: u8, funct3: nat, opcode: nat)
    requires
        -4096 <= imm <= 4094,
        imm % 2 == 0,
        rs2 < 32,
        rs1 < 32,
        funct3 < 8,
        opcode < 128,
    ensures
        opcode_of(b_type_word(imm, rs2, rs1, funct3, opcode)) == opcode,
        funct3_of(b_type_word(imm, rs2, rs1, funct3, opcode)) == funct3,
        rs1_of(b_type_word(imm, rs2, rs1, funct3, opcode)) == rs1,
        rs2_of(b_type_word(imm, rs2, rs1, funct3, opcode)) == rs2,
        imm_b_of(b_type_word(imm, rs2, rs1, funct3, opcode)) == imm,
{
    lemma2_to64();
    let u = imm % 8192;
    assert(0 <= u < 8192 && u % 2 == 0);
    lemma_b_offset_bits(u);
    let (b12, b10_5, b4_1, b11) = (u / 4096, (u / 32) % 64, (u / 2) % 16, (u / 2048) % 2);
    let raw = b_type_word(imm, rs2, rs1, funct3, opcode);
    assert(raw == b12 * 0x8000_0000 + b10_5 * 0x200_0000 + rs2 * 0x10_0000 + rs1 * 0x8000 + funct3
        * 0x1000 + b4_1 * 0x100 + b11 * 0x80 + opcode);
    let below7 = opcode as int;
    let below8 = b11 * 0x80 + below7;
    let below12 = b4_1 * 0x100 + below8;
    let below15 = funct3 * 0x1000 + below12;
    let below20 = rs1 * 0x8000 + below15;
    let below25 = rs2 * 0x10_0000 + below20;
    let below31 = b10_5 * 0x200_0000 + below25;
    lemma_field_of(
        raw,
        0,
        7,
        (b12 * 0x100_0000 + b10_5 * 0x4_0000 + rs2 * 0x2000 + rs1 * 0x100 + funct3 * 0x20 + b4_1 * 2
            + b11) as nat,
        opcode,
        0,
    );
    lemma_field_of(
        raw,
        7,
        1,
        (b12 * 0x80_0000 + b10_5 * 0x2_0000 + rs2 * 0x1000 + rs1 * 0x80 + funct3 * 0x10 + b4_1) as nat,
        b11 as nat,
        below7 as nat,
    );
    lemma_field_of(
        raw,
        8,
        4,
        (b12 * 0x8_0000 + b10_5 * 0x2000 + rs2 * 0x100 + rs1 * 8 + funct3) as nat,
        b4_1 as nat,
        below8 as nat,
    );
    lemma_field_of(raw, 12, 3, (b12 * 0x1_0000 + b10_5 * 0x400 + rs2 * 32 + rs1) as nat, funct3, below12 as nat);
    lemma_field_of(raw, 15, 5, (b12 * 0x800 + b10_5 * 32 + rs2) as nat, rs1 as nat, below15 as nat);
    lemma_field_of(raw, 20, 5, (b12 * 64 + b10_5) as nat, rs2 as nat, below20 as nat);
    lemma_field_of(raw, 25, 6, b12 as nat, b10_5 as nat, below25 as nat);
    lemma_field_of(raw, 31, 1, 0, b12 as nat, below31 as nat);
}

/// The fields of a J-format word give back its parts.
#[verifier::spinoff_prover]
#[verifier::rlimit(40)]
pub proof fn lemma_j_type_fields(imm: int, rd: u8, opcode: nat)
    requires
        -0x10_0000 <= imm <= 0xf_fffe,
        imm % 2 == 0,
        rd < 32,
        opcode < 128,
    ensures
        opcode_of(j_type_word(imm, rd, opcode)) == opcode,
        rd_of(j_type_word(imm, rd, opcode)) == rd,
        imm_j_of(j_type_word(imm, rd, opcode)) == imm,
{
    lemma2_to64();
    let u = imm % 0x20_0000;
    assert(0 <= u < 0x20_0000 && u % 2 == 0);
    lemma_j_offset_bits(u);
    let (b20, b10_1, b11, b19_12) = (u / 0x10_0000, (u / 2) % 1024, (u / 2048) % 2, (u / 4096) % 256);
    let raw = j_type_word(imm, rd, opcode);
    assert(raw == b20 * 0x8000_0000 + b10_1 * 0x20_0000 + b11 * 0x10_0000 + b19_12 * 0x1000 + rd
        * 0x80 + opcode);
    let below12 = rd * 0x80 + opcode;
    let below20 = b19_12 * 0x1000 + below12;
    let below21 = b11 * 0x10_0000 + below20;
    let below31 = b10_1 * 0x20_0000 + below21;
    lemma_field_of(
        raw,
        0,
        7,
        (b20 * 0x100_0000 + b10_1 * 0x4000 + b11 * 0x2000 + b19_12 * 0x20 + rd) as nat,
        opcode,
        0,
    );
    lemma_field_of(
        raw,
        7,
        5,
        (b20 * 0x8_0000 + b10_1 * 0x200 + b11 * 0x100 + b19_12) as nat,
        rd as nat,
        opcode,
    );
    lemma_field_of(raw, 12, 8, (b20 * 0x800 + b10_1 * 2 + b11) as nat, b19_12 as nat, below12 as nat);
    lemma_field_of(raw, 20, 1, (b20 * 0x400 + b10_1) as nat, b11 as nat, below20 as nat);
    lemma_field_of(raw, 21, 10, b20 as nat, b10_1 as nat, below21 as nat);
    lemma_field_of(raw, 31, 1, 0, b20 as nat, below31 as nat);
}

/// Decoding a word built in the I format gives back what it was built from: `addi`,
/// `lw`, `ld` and `jalr` with any registers and any 12-bit immediate.
pub proof fn lemma_decode_i_type(imm: int, rs1: u8, rd: u8)
    requires
        -2048 <= imm <= 2047,
        rs1 < 32,
        rd < 32,
    ensures
        decode_spec(i_type_word(imm, rs1, 0, rd, OPCODE_OP_IMM as nat)) == Some(
            AnyInstruction::Base(Instruction::Addi { rd, rs1, imm: imm as i64 }),
        ),
        decode_spec(i_type_word(imm, rs1, 2, rd, OPCODE_LOAD as nat)) == Some(
            AnyInstruction::Base(Instruction::Lw { rd, rs1, imm: imm as i64 }),
        ),
        decode_spec(i_type_word(imm, rs1, 3, rd, OPCODE_LOAD as nat)) == Some(
            AnyInstruction::Base(Instruction::Ld { rd, rs1, imm: imm as i64 }),
        ),
        decode_spec(i_type_word(imm, rs1, 0, rd, OPCODE_JALR as nat)) == Some(
            AnyInstruction::Base(Instruction::Jalr { rd, rs1, imm: imm as i64 }),
        ),
{
    lemma_i_type_fields(imm, rs1, 0, rd, OPCODE_OP_IMM as nat);
    lemma_i_type_fields(imm, rs1, 2, rd, OPCODE_LOAD as nat);
    lemma_i_type_fields(imm, rs1, 3, rd, OPCODE_LOAD as nat);
    lemma_i_type_fields(imm, rs1, 0, rd, OPCODE_JALR as nat);
}

/// Decoding a word built in the S format gives back the store it was built from, with
/// any registers and any 12-bit immediate.
pub proof fn lemma_decode_s_type(imm: int, rs2: u8, rs1: u8)
    requires
        -2048 <= imm <= 2047,
        rs2 < 32,
        rs1 < 32,
    ensures
        decode_spec(s_type_word(imm, rs2, rs1, 0, OPCODE_STORE as nat)) == Some(
            AnyInstruction::Base(Instruction::Sb { rs1, rs2, imm: imm as i64 }),
        ),
        decode_spec(s_type_word(imm, rs2, rs1, 1, OPCODE_STORE as nat)) == Some(
            AnyInstruction::Base(Instruction::Sh { rs1, rs2, imm: imm as i64 }),
        ),
        decode_spec(s_type_word(imm, rs2, rs1, 2, OPCODE_STORE as nat)) == Some(
            AnyInstruction::Base(Instruction::Sw { rs1, rs2, imm: imm as i64 }),
        ),
        decode_spec(s_type_word(imm, rs2, rs1, 3, OPCODE_STORE as nat)) == Some(
            AnyInstruction::Base(Instruction::Sd { rs1, rs2, imm: imm as i64 }),
        ),
{
    lemma_s_type_fields(imm, rs2, rs1, 0, OPCODE_STORE as nat);
    lemma_s_type_fields(imm, rs2, rs1, 1, OPCODE_STORE as nat);
    lemma_s_type_fields(imm, rs2, rs1, 2, OPCODE_STORE as nat);
    lemma_s_type_fields(imm, rs2, rs1, 3, OPCODE_STORE as nat);
}

/// Decoding a word built in the B format gives back the branch it was built from, with
/// any registers and any even offset of 13 bits.
pub proof fn lemma_decode_b_type(imm: int, rs2: u8, rs1: u8)
    requires
        -4096 <= imm <= 4094,
        imm % 2 == 0,
        rs2 < 32,
        rs1 < 32,
    ensures
        decode_spec(b_type_word(imm, rs2, rs1, 0, OPCODE_BRANCH as nat)) == Some(
            AnyInstruction::Base(Instruction::Beq { rs1, rs2, imm: imm as i64 }),
        ),
        decode_spec(b_type_word(imm, rs2, rs1, 1, OPCODE_BRANCH as nat)) == Some(
            AnyInstruction::Base(Instruction::Bne { rs1, rs2, imm: imm as i64 }),
        ),
        decode_spec(b_type_word(imm, rs2, rs1, 4, OPCODE_BRANCH as nat)) == Some(
            AnyInstruction::Base(Instruction::Blt { rs1, rs2, imm: imm as i64 }),
        ),
        decode_spec(b_type_word(imm, rs2, rs1, 5, OPCODE_BRANCH as nat)) == Some(
            AnyInstruction::Base(Instruction::Bge { rs1, rs2, imm: imm as i64 }),
        ),
        decode_spec(b_type_word(imm, rs2, rs1, 6, OPCODE_BRANCH as nat)) == Some(
            AnyInstruction::Base(Instruction::Bltu { rs1, rs2, imm: imm as i64 }),
        ),
        decode_spec(b_type_word(imm, rs2, rs1, 7, OPCODE_BRANCH as nat)) == Some(
            AnyInstruction::Base(Instruction::Bgeu { rs1, rs2, imm: imm as i64 }),
        ),
{
    lemma_b_type_fields(imm, rs2, rs1, 0, OPCODE_BRANCH as nat);
    lemma_b_type_fields(imm, rs2, rs1, 1, OPCODE_BRANCH as nat);
    lemma_b_type_fields(imm, rs2, rs1, 4, OPCODE_BRANCH as nat);
    lemma_b_type_fields(imm, rs2, rs1, 5, OPCODE_BRANCH as nat);
    lemma_b_type_fields(imm, rs2, rs1, 6, OPCODE_BRANCH as nat);
    lemma_b_type_fields(imm, rs2, rs1, 7, OPCODE_BRANCH as nat);
}

/// Decoding a word built in the J format gives back the `jal` it was built from, with any
/// register and any even offset of 21 bits.
pub proof fn lemma_decode_j_type(imm: int, rd: u8)
    requires
        -0x10_0000 <= imm <= 0xf_fffe,
        imm % 2 == 0,
        rd < 32,
    ensures
        decode_spec(j_type_word(imm, rd, OPCODE_JAL as nat)) == Some(
            AnyInstruction::Base(Instruction::Jal { rd, imm: imm as i64 }),
        ),
{
    lemma_j_type_fields(imm, rd, OPCODE_JAL as nat);
}

/// The fields of a shift-immediate word: the amount in bits 25..20 and the kind in
/// bits 31..26.
proof fn lemma_shift_word_fields(shamt: u8, funct6: nat, rs1: u8, funct3: nat, rd: u8)
    requires
        shamt < 64,
        funct6 < 64,
        rs1 < 32,
        funct3 < 8,
        rd < 32,
    ensures
        ({
            let w = i_type_word(funct6 * 64 + shamt, rs1, funct3, rd, OPCODE_OP_IMM as nat);
            &&& opcode_of(w) == OPCODE_OP_IMM
            &&& funct3_of(w) == funct3
            &&& rd_of(w) == rd
            &&& rs1_of(w) == rs1
            &&& field(w, 20, 6) == shamt
            &&& field(w, 26, 6) == funct6
        }),
{
    lemma2_to64();
    let op = OPCODE_OP_IMM as nat;
    let w = i_type_word(funct6 * 64 + shamt, rs1, funct3, rd, op);
    let low = (rs1 * 0x8000 + funct3 * 0x1000 + rd * 0x80 + op) as nat;
    let imm = funct6 * 64 + shamt;
    let signed = if imm < 2048 { imm } else { imm - 4096 };
    assert(i_type_word(signed, rs1, funct3, rd, op) == w);
    lemma_i_type_fields(signed, rs1, funct3, rd, op);
    assert(w == (funct6 * 64 + shamt) * 0x10_0000 + low);
    lemma_field_of(w, 20, 6, funct6, shamt as nat, low);
    lemma_field_of(w, 26, 6, 0, funct6, (shamt * 0x10_0000 + low) as nat);
}

/// A word of the register-immediate opcode decodes as its funct3 and fields select.
proof fn lemma_decode_op_imm_word(raw: u32)
    requires
        opcode_of(raw) == OPCODE_OP_IMM,
    ensures
        decode_spec(raw) == base(op_imm_spec(raw)),
{
}

/// The RV64I shifts by an immediate take a 6-bit amount: `slli`, `srli` and `srai` by
/// any amount from 0 to 63 decode as built, with any registers.
pub proof fn lemma_decode_shift_immediates(shamt: u8, rs1: u8, rd: u8)
    requires
        shamt < 64,
        rs1 < 32,
        rd < 32,
    ensures
        decode_spec(i_type_word(shamt as int, rs1, 1, rd, OPCODE_OP_IMM as nat)) == Some(
            AnyInstruction::Base(Instruction::Slli { rd, rs1, shamt }),
        ),
        decode_spec(i_type_word(shamt as int, rs1, 5, rd, OPCODE_OP_IMM as nat)) == Some(
            AnyInstruction::Base(Instruction::Srli { rd, rs1, shamt }),
        ),
        decode_spec(i_type_word(0x400 + shamt, rs1, 5, rd, OPCODE_OP_IMM as nat)) == Some(
            AnyInstruction::Base(Instruction::Srai { rd, rs1, shamt }),
        ),
{
    let op = OPCODE_OP_IMM as nat;
    lemma_shift_word_fields(shamt, 0, rs1, 1, rd);
    lemma_shift_word_fields(shamt, 0, rs1, 5, rd);
    lemma_shift_word_fields(shamt, 16, rs1, 5, rd);
    assert(0 * 64 + shamt == shamt as int && 16 * 64 + shamt == 0x400 + shamt);
    lemma_decode_op_imm_word(i_type_word(shamt as int, rs1, 1, rd, op));
    lemma_decode_op_imm_word(i_type_word(shamt as int, rs1, 5, rd, op));
    lemma_decode_op_imm_word(i_type_word(0x400 + shamt, rs1, 5, rd, op));
}

} // verus!

verus! {

/// Decoding a word built in the I format gives back what it was built from for the other
/// computations with an immediate (`slti`, `sltiu`, `xori`, `ori`, `andi`, and `addiw`
/// with its immediate sign-extended) and the other loads, with any registers and any
/// 12-bit immediate.
pub proof fn lemma_decode_immediate_words(imm: int, rs1: u8, rd: u8)
    requires
        -2048 <= imm <= 2047,
        rs1 < 32,
        rd < 32,
    ensures
        decode_spec(i_type_word(imm, rs1, 2, rd, OPCODE_OP_IMM as nat)) == Some(AnyInstruction::Base(Instruction::Slti { rd, rs1, imm: imm as i64 })),
        decode_spec(i_type_word(imm, rs1, 3, rd, OPCODE_OP_IMM as nat)) == Some(AnyInstruction::Base(Instruction::Sltiu { rd, rs1, imm: imm as i64 })),
        decode_spec(i_type_word(imm, rs1, 4, rd, OPCODE_OP_IMM as nat)) == Some(AnyInstruction::Base(Instruction::Xori { rd, rs1, imm: imm as i64 })),
        decode_spec(i_type_word(imm, rs1, 6, rd, OPCODE_OP_IMM as nat)) == Some(AnyInstruction::Base(Instruction::Ori { rd, rs1, imm: imm as i64 })),
        decode_spec(i_type_word(imm, rs1, 7, rd, OPCODE_OP_IMM as nat)) == Some(AnyInstruction::Base(Instruction::Andi { rd, rs1, imm: imm as i64 })),
        decode_spec(i_type_word(imm, rs1, 0, rd, OPCODE_LOAD as nat)) == Some(AnyInstruction::Base(Instruction::Lb { rd, rs1, imm: imm as i64 })),
        decode_spec(i_type_word(imm, rs1, 1, rd, OPCODE_LOAD as nat)) == Some(AnyInstruction::Base(Instruction::Lh { rd, rs1, imm: imm as i64 })),
        decode_spec(i_type_word(imm, rs1, 4, rd, OPCODE_LOAD as nat)) == Some(AnyInstruction::Base(Instruction::Lbu { rd, rs1, imm: imm as i64 })),
        decode_spec(i_type_word(imm, rs1, 5, rd, OPCODE_LOAD as nat)) == Some(AnyInstruction::Base(Instruction::Lhu { rd, rs1, imm: imm as i64 })),
        decode_spec(i_type_word(imm, rs1, 6, rd, OPCODE_LOAD as nat)) == Some(AnyInstruction::Base(Instruction::Lwu { rd, rs1, imm: imm as i64 })),
        decode_spec(i_type_word(imm, rs1, 0, rd, OPCODE_OP_IMM_32 as nat)) == Some(AnyInstruction::Base(Instruction::Addiw { rd, rs1, imm: imm as i64 })),
{
    assert(decode_spec(i_type_word(imm, rs1, 2, rd, OPCODE_OP_IMM as nat)) == Some(AnyInstruction::Base(Instruction::Slti { rd, rs1, imm: imm as i64 }))) by {
        lemma_i_type_fields(imm, rs1, 2, rd, OPCODE_OP_IMM as nat);
    }
    assert(decode_spec(i_type_word(imm, rs1, 3, rd, OPCODE_OP_IMM as nat)) == Some(AnyInstruction::Base(Instruction::Sltiu { rd, rs1, imm: imm as i64 }))) by {
        lemma_i_type_fields(imm, rs1, 3, rd, OPCODE_OP_IMM as nat);
    }
    assert(decode_spec(i_type_word(imm, rs1, 4, rd, OPCODE_OP_IMM as nat)) == Some(AnyInstruction::Base(Instruction::Xori { rd, rs1, imm: imm as i64 }))) by {
        lemma_i_type_fields(imm, rs1, 4, rd, OPCODE_OP_IMM as nat);
    }
    assert(decode_spec(i_type_word(imm, rs1, 6, rd, OPCODE_OP_IMM as nat)) == Some(AnyInstruction::Base(Instruction::Ori { rd, rs1, imm: imm as i64 }))) by {
        lemma_i_type_fields(imm, rs1, 6, rd, OPCODE_OP_IMM as nat);
    }
    assert(decode_spec(i_type_word(imm, rs1, 7, rd, OPCODE_OP_IMM as nat)) == Some(AnyInstruction::Base(Instruction::Andi { rd, rs1, imm: imm as i64 }))) by {
        lemma_i_type_fields(imm, rs1, 7, rd, OPCODE_OP_IMM as nat);
    }
    assert(decode_spec(i_type_word(imm, rs1, 0, rd, OPCODE_LOAD as nat)) == Some(AnyInstruction::Base(Instruction::Lb { rd, rs1, imm: imm as i64 }))) by {
        lemma_i_type_fields(imm, rs1, 0, rd, OPCODE_LOAD as nat);
    }
    assert(decode_spec(i_type_word(imm, rs1, 1, rd, OPCODE_LOAD as nat)) == Some(AnyInstruction::Base(Instruction::Lh { rd, rs1, imm: imm as i64 }))) by {
        lemma_i_type_fields(imm, rs1, 1, rd, OPCODE_LOAD as nat);
    }
    assert(decode_spec(i_type_word(imm, rs1, 4, rd, OPCODE_LOAD as nat)) == Some(AnyInstruction::Base(Instruction::Lbu { rd, rs1, imm: imm as i64 }))) by {
        lemma_i_type_fields(imm, rs1, 4, rd, OPCODE_LOAD as nat);
    }
    assert(decode_spec(i_type_word(imm, rs1, 5, rd, OPCODE_LOAD as nat)) == Some(AnyInstruction::Base(Instruction::Lhu { rd, rs1, imm: imm as i64 }))) by {
        lemma_i_type_fields(imm, rs1, 5, rd, OPCODE_LOAD as nat);
    }
    assert(decode_spec(i_type_word(imm, rs1, 6, rd, OPCODE_LOAD as nat)) == Some(AnyInstruction::Base(Instruction::Lwu { rd, rs1, imm: imm as i64 }))) by {
        lemma_i_type_fields(imm, rs1, 6, rd, OPCODE_LOAD as nat);
    }
    assert(decode_spec(i_type_word(imm, rs1, 0, rd, OPCODE_OP_IMM_32 as nat)) == Some(AnyInstruction::Base(Instruction::Addiw { rd, rs1, imm: imm as i64 }))) by {
        lemma_i_type_fields(imm, rs1, 0, rd, OPCODE_OP_IMM_32 as nat);
    }
}

/// The fields of a 32-bit shift-immediate word: the amount in bits 24..20 and the kind in
/// bits 31..25.
proof fn lemma_word_shift_fields(shamt: u8, funct7: nat, rs1: u8, funct3: nat, rd: u8)
    requires
        shamt < 32,
        funct7 < 64,
        rs1 < 32,
        funct3 < 8,
        rd < 32,
    ensures
        ({
            let w = i_type_word(funct7 * 32 + shamt, rs1, funct3, rd, OPCODE_OP_IMM_32 as nat);
            &&& opcode_of(w) == OPCODE_OP_IMM_32
            &&& funct3_of(w) == funct3
            &&& rd_of(w) == rd
            &&& rs1_of(w) == rs1
            &&& field(w, 20, 5) == shamt
            &&& funct7_of(w) == funct7
        }),
{
    lemma2_to64();
    let op = OPCODE_OP_IMM_32 as nat;
    let w = i_type_word(funct7 * 32 + shamt, rs1, funct3, rd, op);
    let low = (rs1 * 0x8000 + funct3 * 0x1000 + rd * 0x80 + op) as nat;
    lemma_i_type_fields(funct7 * 32 + shamt, rs1, funct3, rd, op);
    assert(w == (funct7 * 32 + shamt) * 0x10_0000 + low);
    lemma_field_of(w, 20, 5, funct7, shamt as nat, low);
    lemma_field_of(w, 25, 7, 0, funct7, (shamt * 0x10_0000 + low) as nat);
}

/// A word of the 32-bit register-immediate opcode decodes as its fields select.
proof fn lemma_decode_op_imm_32_word(raw: u32)
    requires
        opcode_of(raw) == OPCODE_OP_IMM_32,
    ensures
        decode_spec(raw) == base(op_imm_32_spec(raw)),
{
}

/// The 32-bit shifts by an immediate take a 5-bit amount: `slliw`, `srliw` and `sraiw` by
/// any amount from 0 to 31 decode as built, with any registers.
pub proof fn lemma_decode_word_shift_immediates(shamt: u8, rs1: u8, rd: u8)
    requires
        shamt < 32,
        rs1 < 32,
        rd < 32,
    ensures
        decode_spec(i_type_word(shamt as int, rs1, 1, rd, OPCODE_OP_IMM_32 as nat)) == Some(AnyInstruction::Base(Instruction::Slliw { rd, rs1, shamt })),
        decode_spec(i_type_word(shamt as int, rs1, 5, rd, OPCODE_OP_IMM_32 as nat)) == Some(AnyInstruction::Base(Instruction::Srliw { rd, rs1, shamt })),
        decode_spec(i_type_word(0x400 + shamt, rs1, 5, rd, OPCODE_OP_IMM_32 as nat)) == Some(AnyInstruction::Base(Instruction::Sraiw { rd, rs1, shamt })),
{
    assert(decode_spec(i_type_word(shamt as int, rs1, 1, rd, OPCODE_OP_IMM_32 as nat)) == Some(AnyInstruction::Base(Instruction::Slliw { rd, rs1, shamt }))) by {
        lemma_word_shift_fields(shamt, 0, rs1, 1, rd);
        assert(0 * 32 + shamt == shamt as int);
        lemma_decode_op_imm_32_word(i_type_word(shamt as int, rs1, 1, rd, OPCODE_OP_IMM_32 as nat));
    }
    assert(decode_spec(i_type_word(shamt as int, rs1, 5, rd, OPCODE_OP_IMM_32 as nat)) == Some(AnyInstruction::Base(Instruction::Srliw { rd, rs1, shamt }))) by {
        lemma_word_shift_fields(shamt, 0, rs1, 5, rd);
        assert(0 * 32 + shamt == shamt as int);
        lemma_decode_op_imm_32_word(i_type_word(shamt as int, rs1, 5, rd, OPCODE_OP_IMM_32 as nat));
    }
    assert(decode_spec(i_type_word(0x400 + shamt, rs1, 5, rd, OPCODE_OP_IMM_32 as nat)) == Some(AnyInstruction::Base(Instruction::Sraiw { rd, rs1, shamt }))) by {
        lemma_word_shift_fields(shamt, 32, rs1, 5, rd);
        assert(32 * 32 + shamt == 0x400 + shamt);
        lemma_decode_op_imm_32_word(i_type_word(0x400 + shamt, rs1, 5, rd, OPCODE_OP_IMM_32 as nat));
    }
}

/// The word of the R format: `funct7`, `rs2`, `rs1`, `funct3`, `rd` and the opcode.
pub open spec fn r_type_word(funct7: nat, rs2: u8, rs1: u8, funct3: nat, rd: u8, opcode: nat) -> u32 {
    (funct7 * 0x200_0000 + rs2 * 0x10_0000 + rs1 * 0x8000 + funct3 * 0x1000 + rd * 0x80 + opcode) as u32
}

/// The fields of an R-format word give back its parts.
#[verifier::spinoff_prover]
pub proof fn lemma_r_type_fields(funct7: nat, rs2: u8, rs1: u8, funct3: nat, rd: u8, opcode: nat)
    requires
        funct7 < 128,
        rs2 < 32,
        rs1 < 32,
        funct3 < 8,
        rd < 32,
        opcode < 128,
    ensures
        ({
            let w = r_type_word(funct7, rs2, rs1, funct3, rd, opcode);
            &&& opcode_of(w) == opcode
            &&& rd_of(w) == rd
            &&& funct3_of(w) == funct3
            &&& rs1_of(w) == rs1
            &&& rs2_of(w) == rs2
            &&& funct7_of(w) == funct7
        }),
{
    lemma2_to64();
    let w = r_type_word(funct7, rs2, rs1, funct3, rd, opcode);
    assert(w == funct7 * 0x200_0000 + rs2 * 0x10_0000 + rs1 * 0x8000 + funct3 * 0x1000 + rd * 0x80
        + opcode);
    lemma_field_of(w, 0, 7, (funct7 * 0x4_0000 + rs2 * 0x2000 + rs1 * 0x100 + funct3 * 0x20 + rd) as nat, opcode, 0);
    lemma_field_of(w, 7, 5, (funct7 * 0x2000 + rs2 * 0x100 + rs1 * 8 + funct3) as nat, rd as nat, opcode);
    lemma_field_of(w, 12, 3, (funct7 * 0x400 + rs2 * 32 + rs1) as nat, funct3, (rd * 0x80 + opcode) as nat);
    lemma_field_of(w, 15, 5, (funct7 * 32 + rs2) as nat, rs1 as nat, (funct3 * 0x1000 + rd * 0x80 + opcode) as nat);
    lemma_field_of(w, 20, 5, funct7, rs2 as nat, (rs1 * 0x8000 + funct3 * 0x1000 + rd * 0x80 + opcode) as nat);
    lemma_field_of(
        w,
        25,
        7,
        0,
        funct7,
        (rs2 * 0x10_0000 + rs1 * 0x8000 + funct3 * 0x1000 + rd * 0x80 + opcode) as nat,
    );
}

/// Decoding a word built in the R format gives back the computation on two registers it
/// was built from, 64-bit or 32-bit, with any registers.
pub proof fn lemma_decode_r_type(rs2: u8, rs1: u8, rd: u8)
    requires
        rs2 < 32,
        rs1 < 32,
        rd < 32,
    ensures
        decode_spec(r_type_word(0, rs2, rs1, 0, rd, OPCODE_OP as nat)) == Some(AnyInstruction::Base(Instruction::Add { rd, rs1, rs2 })),
        decode_spec(r_type_word(32, rs2, rs1, 0, rd, OPCODE_OP as nat)) == Some(AnyInstruction::Base(Instruction::Sub { rd, rs1, rs2 })),
        decode_spec(r_type_word(0, rs2, rs1, 1, rd, OPCODE_OP as nat)) == Some(AnyInstruction::Base(Instruction::Sll { rd, rs1, rs2 })),
        decode_spec(r_type_word(0, rs2, rs1, 2, rd, OPCODE_OP as nat)) == Some(AnyInstruction::Base(Instruction::Slt { rd, rs1, rs2 })),
        decode_spec(r_type_word(0, rs2, rs1, 3, rd, OPCODE_OP as nat)) == Some(AnyInstruction::Base(Instruction::Sltu { rd, rs1, rs2 })),
        decode_spec(r_type_word(0, rs2, rs1, 4, rd, OPCODE_OP as nat)) == Some(AnyInstruction::Base(Instruction::Xor { rd, rs1, rs2 })),
        decode_spec(r_type_word(0, rs2, rs1, 5, rd, OPCODE_OP as nat)) == Some(AnyInstruction::Base(Instruction::Srl { rd, rs1, rs2 })),
        decode_spec(r_type_word(32, rs2, rs1, 5, rd, OPCODE_OP as nat)) == Some(AnyInstruction::Base(Instruction::Sra { rd, rs1, rs2 })),
        decode_spec(r_type_word(0, rs2, rs1, 6, rd, OPCODE_OP as nat)) == Some(AnyInstruction::Base(Instruction::Or { rd, rs1, rs2 })),
        decode_spec(r_type_word(0, rs2, rs1, 7, rd, OPCODE_OP as nat)) == Some(AnyInstruction::Base(Instruction::And { rd, rs1, rs2 })),
        decode_spec(r_type_word(0, rs2, rs1, 0, rd, OPCODE_OP_32 as nat)) == Some(AnyInstruction::Base(Instruction::Addw { rd, rs1, rs2 })),
        decode_spec(r_type_word(32, rs2, rs1, 0, rd, OPCODE_OP_32 as nat)) == Some(AnyInstruction::Base(Instruction::Subw { rd, rs1, rs2 })),
        decode_spec(r_type_word(0, rs2, rs1, 1, rd, OPCODE_OP_32 as nat)) == Some(AnyInstruction::Base(Instruction::Sllw { rd, rs1, rs2 })),
        decode_spec(r_type_word(0, rs2, rs1, 5, rd, OPCODE_OP_32 as nat)) == Some(AnyInstruction::Base(Instruction::Srlw { rd, rs1, rs2 })),
        decode_spec(r_type_word(32, rs2, rs1, 5, rd, OPCODE_OP_32 as nat)) == Some(AnyInstruction::Base(Instruction::Sraw { rd, rs1, rs2 })),
{
    assert(decode_spec(r_type_word(0, rs2, rs1, 0, rd, OPCODE_OP as nat)) == Some(AnyInstruction::Base(Instruction::Add { rd, rs1, rs2 }))) by {
        lemma_r_type_fields(0, rs2, rs1, 0, rd, OPCODE_OP as nat);
    }
    assert(decode_spec(r_type_word(32, rs2, rs1, 0, rd, OPCODE_OP as nat)) == Some(AnyInstruction::Base(Instruction::Sub { rd, rs1, rs2 }))) by {
        lemma_r_type_fields(32, rs2, rs1, 0, rd, OPCODE_OP as nat);
    }
    assert(decode_spec(r_type_word(0, rs2, rs1, 1, rd, OPCODE_OP as nat)) == Some(AnyInstruction::Base(Instruction::Sll { rd, rs1, rs2 }))) by {
        lemma_r_type_fields(0, rs2, rs1, 1, rd, OPCODE_OP as nat);
    }
    assert(decode_spec(r_type_word(0, rs2, rs1, 2, rd, OPCODE_OP as nat)) == Some(AnyInstruction::Base(Instruction::Slt { rd, rs1, rs2 }))) by {
        lemma_r_type_fields(0, rs2, rs1, 2, rd, OPCODE_OP as nat);
    }
    assert(decode_spec(r_type_word(0, rs2, rs1, 3, rd, OPCODE_OP as nat)) == Some(AnyInstruction::Base(Instruction::Sltu { rd, rs1, rs2 }))) by {
        lemma_r_type_fields(0, rs2, rs1, 3, rd, OPCODE_OP as nat);
    }
    assert(decode_spec(r_type_word(0, rs2, rs1, 4, rd, OPCODE_OP as nat)) == Some(AnyInstruction::Base(Instruction::Xor { rd, rs1, rs2 }))) by {
        lemma_r_type_fields(0, rs2, rs1, 4, rd, OPCODE_OP as nat);
    }
    assert(decode_spec(r_type_word(0, rs2, rs1, 5, rd, OPCODE_OP as nat)) == Some(AnyInstruction::Base(Instruction::Srl { rd, rs1, rs2 }))) by {
        lemma_r_type_fields(0, rs2, rs1, 5, rd, OPCODE_OP as nat);
    }
    assert(decode_spec(r_type_word(32, rs2, rs1, 5, rd, OPCODE_OP as nat)) == Some(AnyInstruction::Base(Instruction::Sra { rd, rs1, rs2 }))) by {
        lemma_r_type_fields(32, rs2, rs1, 5, rd, OPCODE_OP as nat);
    }
    assert(decode_spec(r_type_word(0, rs2, rs1, 6, rd, OPCODE_OP as nat)) == Some(AnyInstruction::Base(Instruction::Or { rd, rs1, rs2 }))) by {
        lemma_r_type_fields(0, rs2, rs1, 6, rd, OPCODE_OP as nat);
    }
    assert(decode_spec(r_type_word(0, rs2, rs1, 7, rd, OPCODE_OP as nat)) == Some(AnyInstruction::Base(Instruction::And { rd, rs1, rs2 }))) by {
        lemma_r_type_fields(0, rs2, rs1, 7, rd, OPCODE_OP as nat);
    }
    assert(decode_spec(r_type_word(0, rs2, rs1, 0, rd, OPCODE_OP_32 as nat)) == Some(AnyInstruction::Base(Instruction::Addw { rd, rs1, rs2 }))) by {
        lemma_r_type_fields(0, rs2, rs1, 0, rd, OPCODE_OP_32 as nat);
    }
    assert(decode_spec(r_type_word(32, rs2, rs1, 0, rd, OPCODE_OP_32 as nat)) == Some(AnyInstruction::Base(Instruction::Subw { rd, rs1, rs2 }))) by {
        lemma_r_type_fields(32, rs2, rs1, 0, rd, OPCODE_OP_32 as nat);
    }
    assert(decode_spec(r_type_word(0, rs2, rs1, 1, rd, OPCODE_OP_32 as nat)) == Some(AnyInstruction::Base(Instruction::Sllw { rd, rs1, rs2 }))) by {
        lemma_r_type_fields(0, rs2, rs1, 1, rd, OPCODE_OP_32 as nat);
    }
    assert(decode_spec(r_type_word(0, rs2, rs1, 5, rd, OPCODE_OP_32 as nat)) == Some(AnyInstruction::Base(Instruction::Srlw { rd, rs1, rs2 }))) by {
        lemma_r_type_fields(0, rs2, rs1, 5, rd, OPCODE_OP_32 as nat);
    }
    assert(decode_spec(r_type_word(32, rs2, rs1, 5, rd, OPCODE_OP_32 as nat)) == Some(AnyInstruction::Base(Instruction::Sraw { rd, rs1, rs2 }))) by {
        lemma_r_type_fields(32, rs2, rs1, 5, rd, OPCODE_OP_32 as nat);
    }
}

} // verus!

verus! {

/// The word of the U format: the upper 20 bits of `imm` (whose low 12 bits are zero),
/// `rd` and the opcode.
pub open spec fn u_type_word(imm: int, rd: u8, opcode: nat) -> u32 {
    ((imm % 0x1_0000_0000) + rd * 0x80 + opcode) as u32
}

/// The fields of a U-format word give back its parts.
#[verifier::spinoff_prover]
proof fn lemma_u_type_fields(imm: int, rd: u8, opcode: nat)
    requires
        -0x8000_0000 <= imm < 0x8000_0000,
        imm % 4096 == 0,
        rd < 32,
        opcode < 128,
    ensures
        opcode_of(u_type_word(imm, rd, opcode)) == opcode,
        rd_of(u_type_word(imm, rd, opcode)) == rd,
        imm_u_of(u_type_word(imm, rd, opcode)) == imm,
{
    lemma2_to64();
    let u = imm % 0x1_0000_0000;
    let upper = u / 4096;
    assert(u == if imm >= 0 { imm } else { imm + 0x1_0000_0000 });
    assert(u == upper * 4096);
    let w = u_type_word(imm, rd, opcode);
    assert(w == upper * 4096 + rd * 0x80 + opcode);
    lemma_field_of(w, 0, 7, (upper * 32 + rd) as nat, opcode, 0);
    lemma_field_of(w, 7, 5, upper as nat, rd as nat, opcode);
    lemma_field_of(w, 12, 20, 0, upper as nat, (rd * 0x80 + opcode) as nat);
}

/// Decoding a word built in the U format gives back `lui` or `auipc` with the register and
/// the immediate it was built from: any multiple of 4096 that fits in 32 signed bits.
pub proof fn lemma_decode_u_type(imm: int, rd: u8)
    requires
        -0x8000_0000 <= imm < 0x8000_0000,
        imm % 4096 == 0,
        rd < 32,
    ensures
        decode_spec(u_type_word(imm, rd, OPCODE_LUI as nat)) == Some(
            AnyInstruction::Base(Instruction::Lui { rd, imm: imm as i64 }),
        ),
        decode_spec(u_type_word(imm, rd, OPCODE_AUIPC as nat)) == Some(
            AnyInstruction::Base(Instruction::Auipc { rd, imm: imm as i64 }),
        ),
{
    lemma_u_type_fields(imm, rd, OPCODE_LUI as nat);
    lemma_u_type_fields(imm, rd, OPCODE_AUIPC as nat);
}

/// A word of the system opcode decodes as its fields select.
proof fn lemma_decode_system_word(raw: u32)
    requires
        opcode_of(raw) == OPCODE_SYSTEM,
    ensures
        decode_spec(raw) == system_spec(raw),
{
}

/// The fields of a CSR word: the CSR's address in bits 31..20 and the operand in bits
/// 19..15.
proof fn lemma_csr_word_fields(csr: u16, rs1: u8, funct3: nat, rd: u8)
    requires
        csr < 4096,
        rs1 < 32,
        funct3 < 8,
        rd < 32,
    ensures
        ({
            let w = i_type_word(csr as int, rs1, funct3, rd, OPCODE_SYSTEM as nat);
            &&& opcode_of(w) == OPCODE_SYSTEM
            &&& funct3_of(w) == funct3
            &&& rd_of(w) == rd
            &&& rs1_of(w) == rs1
            &&& field(w, 20, 12) == csr
        }),
{
    lemma2_to64();
    let op = OPCODE_SYSTEM as nat;
    let w = i_type_word(csr as int, rs1, funct3, rd, op);
    let imm = if csr < 2048 { csr as int } else { csr - 4096 };
    assert(i_type_word(imm, rs1, funct3, rd, op) == w);
    lemma_i_type_fields(imm, rs1, funct3, rd, op);
    let low = (rs1 * 0x8000 + funct3 * 0x1000 + rd * 0x80 + op) as nat;
    assert(w == csr * 0x10_0000 + low);
    lemma_field_of(w, 20, 12, 0, csr as nat, low);
}

/// Decoding a word of the system opcode gives back the CSR instruction it was built
/// from, with any registers (or 5-bit immediate) and any 12-bit CSR address; with funct3
/// zero, immediate 0 is `ecall` and 1 is `ebreak`.
pub proof fn lemma_decode_system(csr: u16, rs1: u8, rd: u8)
    requires
        csr < 4096,
        rs1 < 32,
        rd < 32,
    ensures
        decode_spec(i_type_word(csr as int, rs1, 1, rd, OPCODE_SYSTEM as nat)) == Some(AnyInstruction::Csr(CsrInstruction::Csrrw { rd, rs1_or_uimm: rs1, csr })),
        decode_spec(i_type_word(csr as int, rs1, 2, rd, OPCODE_SYSTEM as nat)) == Some(AnyInstruction::Csr(CsrInstruction::Csrrs { rd, rs1_or_uimm: rs1, csr })),
        decode_spec(i_type_word(csr as int, rs1, 3, rd, OPCODE_SYSTEM as nat)) == Some(AnyInstruction::Csr(CsrInstruction::Csrrc { rd, rs1_or_uimm: rs1, csr })),
        decode_spec(i_type_word(csr as int, rs1, 5, rd, OPCODE_SYSTEM as nat)) == Some(AnyInstruction::Csr(CsrInstruction::Csrrwi { rd, rs1_or_uimm: rs1, csr })),
        decode_spec(i_type_word(csr as int, rs1, 6, rd, OPCODE_SYSTEM as nat)) == Some(AnyInstruction::Csr(CsrInstruction::Csrrsi { rd, rs1_or_uimm: rs1, csr })),
        decode_spec(i_type_word(csr as int, rs1, 7, rd, OPCODE_SYSTEM as nat)) == Some(AnyInstruction::Csr(CsrInstruction::Csrrci { rd, rs1_or_uimm: rs1, csr })),
        decode_spec(i_type_word(0, rs1, 0, rd, OPCODE_SYSTEM as nat)) == Some(AnyInstruction::Base(Instruction::Ecall)),
        decode_spec(i_type_word(1, rs1, 0, rd, OPCODE_SYSTEM as nat)) == Some(AnyInstruction::Base(Instruction::Ebreak)),
{
    assert(decode_spec(i_type_word(csr as int, rs1, 1, rd, OPCODE_SYSTEM as nat)) == Some(AnyInstruction::Csr(CsrInstruction::Csrrw { rd, rs1_or_uimm: rs1, csr }))) by {
        lemma_csr_word_fields(csr, rs1, 1, rd);
        lemma_decode_system_word(i_type_word(csr as int, rs1, 1, rd, OPCODE_SYSTEM as nat));
    }
    assert(decode_spec(i_type_word(csr as int, rs1, 2, rd, OPCODE_SYSTEM as nat)) == Some(AnyInstruction::Csr(CsrInstruction::Csrrs { rd, rs1_or_uimm: rs1, csr }))) by {
        lemma_csr_word_fields(csr, rs1, 2, rd);
        lemma_decode_system_word(i_type_word(csr as int, rs1, 2, rd, OPCODE_SYSTEM as nat));
    }
    assert(decode_spec(i_type_word(csr as int, rs1, 3, rd, OPCODE_SYSTEM as nat)) == Some(AnyInstruction::Csr(CsrInstruction::Csrrc { rd, rs1_or_uimm: rs1, csr }))) by {
        lemma_csr_word_fields(csr, rs1, 3, rd);
        lemma_decode_system_word(i_type_word(csr as int, rs1, 3, rd, OPCODE_SYSTEM as nat));
    }
    assert(decode_spec(i_type_word(csr as int, rs1, 5, rd, OPCODE_SYSTEM as nat)) == Some(AnyInstruction::Csr(CsrInstruction::Csrrwi { rd, rs1_or_uimm: rs1, csr }))) by {
        lemma_csr_word_fields(csr, rs1, 5, rd);
        lemma_decode_system_word(i_type_word(csr as int, rs1, 5, rd, OPCODE_SYSTEM as nat));
    }
    assert(decode_spec(i_type_word(csr as int, rs1, 6, rd, OPCODE_SYSTEM as nat)) == Some(AnyInstruction::Csr(CsrInstruction::Csrrsi { rd, rs1_or_uimm: rs1, csr }))) by {
        lemma_csr_word_fields(csr, rs1, 6, rd);
        lemma_decode_system_word(i_type_word(csr as int, rs1, 6, rd, OPCODE_SYSTEM as nat));
    }
    assert(decode_spec(i_type_word(csr as int, rs1, 7, rd, OPCODE_SYSTEM as nat)) == Some(AnyInstruction::Csr(CsrInstruction::Csrrci { rd, rs1_or_uimm: rs1, csr }))) by {
        lemma_csr_word_fields(csr, rs1, 7, rd);
        lemma_decode_system_word(i_type_word(csr as int, rs1, 7, rd, OPCODE_SYSTEM as nat));
    }
    assert(decode_spec(i_type_word(0, rs1, 0, rd, OPCODE_SYSTEM as nat)) == Some(AnyInstruction::Base(Instruction::Ecall))) by {
        lemma_i_type_fields(0, rs1, 0, rd, OPCODE_SYSTEM as nat);
        lemma_decode_system_word(i_type_word(0, rs1, 0, rd, OPCODE_SYSTEM as nat));
    }
    assert(decode_spec(i_type_word(1, rs1, 0, rd, OPCODE_SYSTEM as nat)) == Some(AnyInstruction::Base(Instruction::Ebreak))) by {
        lemma_i_type_fields(1, rs1, 0, rd, OPCODE_SYSTEM as nat);
        lemma_decode_system_word(i_type_word(1, rs1, 0, rd, OPCODE_SYSTEM as nat));
    }
}

/// Decoding a fence word gives back the fence it was built from: `fence` with any
/// predecessor and successor sets (bits 27..24 and 23..20), and `fence.i`.
pub proof fn lemma_decode_fences(pred: u8, succ: u8, rs1: u8, rd: u8)
    requires
        pred < 16,
        succ < 16,
        rs1 < 32,
        rd < 32,
    ensures
        decode_spec(i_type_word(pred * 16 + succ, rs1, 0, rd, OPCODE_MISC_MEM as nat)) == Some(
            AnyInstruction::Base(Instruction::Fence { pred, succ }),
        ),
        decode_spec(i_type_word(0, rs1, 1, rd, OPCODE_MISC_MEM as nat)) == Some(
            AnyInstruction::Base(Instruction::FenceI),
        ),
{
    lemma2_to64();
    let op = OPCODE_MISC_MEM as nat;
    let imm = pred * 16 + succ;
    let w = i_type_word(imm, rs1, 0, rd, op);
    lemma_i_type_fields(imm, rs1, 0, rd, op);
    lemma_i_type_fields(0, rs1, 1, rd, op);
    let low = (rs1 * 0x8000 + rd * 0x80 + op) as nat;
    assert(w == imm * 0x10_0000 + low);
    lemma_field_of(w, 20, 4, pred as nat, succ as nat, low);
    lemma_field_of(w, 24, 4, 0, pred as nat, (succ * 0x10_0000 + low) as nat);
}

/// A word of the R format is refused unless its funct7 selects an operation: 0 for all of
/// them, 32 only for `sub`, `sra`, `subw` and `sraw`; the 32-bit forms exist only for
/// add, subtract and the shifts.
pub proof fn lemma_decode_r_type_refusals(funct7: nat, funct3: nat, rs2: u8, rs1: u8, rd: u8)
    requires
        funct7 < 128,
        funct3 < 8,
        rs2 < 32,
        rs1 < 32,
        rd < 32,
    ensures
        !(funct7 == 0 || (funct7 == 32 && (funct3 == 0 || funct3 == 5))) ==> decode_spec(
            r_type_word(funct7, rs2, rs1, funct3, rd, OPCODE_OP as nat),
        ) is None,
        !((funct7 == 0 && (funct3 == 0 || funct3 == 1 || funct3 == 5)) || (funct7 == 32 && (funct3
            == 0 || funct3 == 5))) ==> decode_spec(
            r_type_word(funct7, rs2, rs1, funct3, rd, OPCODE_OP_32 as nat),
        ) is None,
{
    lemma_r_type_fields(funct7, rs2, rs1, funct3, rd, OPCODE_OP as nat);
    lemma_r_type_fields(funct7, rs2, rs1, funct3, rd, OPCODE_OP_32 as nat);
}

/// A shift by an immediate is refused unless bits 31..26 are 0 (`slli`, `srli`) or 16
/// (`srai`); for the 32-bit forms bits 31..25 must be 0 or 32.
pub proof fn lemma_decode_shift_refusals(shamt: u8, funct6: nat, rs1: u8, rd: u8)
    requires
        shamt < 64,
        funct6 < 64,
        rs1 < 32,
        rd < 32,
    ensures
        funct6 != 0 ==> decode_spec(
            i_type_word(funct6 * 64 + shamt, rs1, 1, rd, OPCODE_OP_IMM as nat),
        ) is None,
        funct6 != 0 && funct6 != 16 ==> decode_spec(
            i_type_word(funct6 * 64 + shamt, rs1, 5, rd, OPCODE_OP_IMM as nat),
        ) is None,
{
    lemma_shift_word_fields(shamt, funct6, rs1, 1, rd);
    lemma_shift_word_fields(shamt, funct6, rs1, 5, rd);
    lemma_decode_op_imm_word(i_type_word(funct6 * 64 + shamt, rs1, 1, rd, OPCODE_OP_IMM as nat));
    lemma_decode_op_imm_word(i_type_word(funct6 * 64 + shamt, rs1, 5, rd, OPCODE_OP_IMM as nat));
}

} // verus!
