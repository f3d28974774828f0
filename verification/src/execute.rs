//! What each instruction does to the processor state.
use vstd::arithmetic::power2::{lemma2_to64, pow2};
use vstd::bits::{lemma_u64_pow2_no_overflow, lemma_u64_shl_is_mul};
use vstd::prelude::*;

use crate::alu::{
    add_signed, add_word32, flag, shift_left, shift_left_word32, shift_right, shift_right_arith,
    shift_right_arith_word32, shift_right_word32, shl64, shr64, sra64, sub_word32, to_signed,
    to_word, word32,
};
use crate::bus::{bus_load_spec, bus_store_spec, lemma_bus_load_bound};
use crate::cpu::{
    csr_value, next_pc, reg, with_bus, with_csr, with_pc, with_reg, Cpu, CpuState,
};
use crate::decode::registers_valid;
use crate::error::CpuError;
use crate::isa::{AnyInstruction, CsrInstruction, Instruction};
use crate::word::{low32, sext, sext64, signed64, wrap64};

verus! {

/// An instruction that writes `v` to `rd` and moves on to the next instruction.
pub open spec fn retire(s: CpuState, rd: u8, v: u64) -> (CpuState, Result<(), CpuError>) {
    (with_pc(with_reg(s, rd, v), next_pc(s)), Ok(()))
}

/// A load of `width` bytes at `addr` into `rd`, sign-extended when `signed`.
pub open spec fn load_into(s: CpuState, rd: u8, addr: u64, width: u8, signed: bool) -> (
    CpuState,
    Result<(), CpuError>,
) {
    match bus_load_spec(s.bus, addr, width) {
        Ok(v) => retire(s, rd, if signed { sext64(v as nat, 8 * width as nat) } else { v }),
        Err(e) => (s, Err(e)),
    }
}

/// A store of the `width` low bytes of `v` at `addr`.
pub open spec fn store_from(s: CpuState, addr: u64, width: u8, v: u64) -> (
    CpuState,
    Result<(), CpuError>,
) {
    let (bus, r) = bus_store_spec(s.bus, addr, width, v);
    match r {
        Ok(()) => (with_pc(with_bus(s, bus), next_pc(s)), Ok(())),
        Err(e) => (s, Err(e)),
    }
}

/// A conditional branch by `imm` bytes.
pub open spec fn branch_to(s: CpuState, imm: i64, taken: bool) -> (CpuState, Result<(), CpuError>) {
    (with_pc(s, if taken { wrap64(s.pc + imm) } else { next_pc(s) }), Ok(()))
}

/// The state after the base instruction `i`, and its outcome.
#[verifier::opaque]
pub open spec fn base_spec(s: CpuState, i: Instruction) -> (CpuState, Result<(), CpuError>) {
    match i {
        Instruction::Add { rd, rs1, rs2 } => retire(s, rd, wrap64(reg(s, rs1) + reg(s, rs2))),
        Instruction::Sub { rd, rs1, rs2 } => retire(s, rd, wrap64(reg(s, rs1) - reg(s, rs2))),
        Instruction::Sll { rd, rs1, rs2 } => retire(s, rd, shl64(reg(s, rs1), reg(s, rs2) as nat % 64)),
        Instruction::Slt { rd, rs1, rs2 } => retire(
            s,
            rd,
            flag(signed64(reg(s, rs1)) < signed64(reg(s, rs2))),
        ),
        Instruction::Sltu { rd, rs1, rs2 } => retire(s, rd, flag(reg(s, rs1) < reg(s, rs2))),
        Instruction::Xor { rd, rs1, rs2 } => retire(s, rd, reg(s, rs1) ^ reg(s, rs2)),
        Instruction::Srl { rd, rs1, rs2 } => retire(s, rd, shr64(reg(s, rs1), reg(s, rs2) as nat % 64)),
        Instruction::Sra { rd, rs1, rs2 } => retire(s, rd, sra64(reg(s, rs1), reg(s, rs2) as nat % 64)),
        Instruction::Or { rd, rs1, rs2 } => retire(s, rd, reg(s, rs1) | reg(s, rs2)),
        Instruction::And { rd, rs1, rs2 } => retire(s, rd, reg(s, rs1) & reg(s, rs2)),
        Instruction::Addw { rd, rs1, rs2 } => retire(s, rd, word32(reg(s, rs1) + reg(s, rs2))),
        Instruction::Subw { rd, rs1, rs2 } => retire(s, rd, word32(reg(s, rs1) - reg(s, rs2))),
        Instruction::Sllw { rd, rs1, rs2 } => retire(
            s,
            rd,
            word32((low32(reg(s, rs1)) * pow2(reg(s, rs2) as nat % 32)) as int),
        ),
        Instruction::Srlw { rd, rs1, rs2 } => retire(
            s,
            rd,
            word32(low32(reg(s, rs1)) as int / pow2(reg(s, rs2) as nat % 32) as int),
        ),
        Instruction::Sraw { rd, rs1, rs2 } => retire(
            s,
            rd,
            wrap64(sext(low32(reg(s, rs1)), 32) / pow2(reg(s, rs2) as nat % 32) as int),
        ),
        Instruction::Addi { rd, rs1, imm } => retire(s, rd, wrap64(reg(s, rs1) + imm)),
        Instruction::Slti { rd, rs1, imm } => retire(s, rd, flag(signed64(reg(s, rs1)) < imm)),
        Instruction::Sltiu { rd, rs1, imm } => retire(s, rd, flag(reg(s, rs1) < wrap64(imm as int))),
        Instruction::Xori { rd, rs1, imm } => retire(s, rd, reg(s, rs1) ^ wrap64(imm as int)),
        Instruction::Ori { rd, rs1, imm } => retire(s, rd, reg(s, rs1) | wrap64(imm as int)),
        Instruction::Andi { rd, rs1, imm } => retire(s, rd, reg(s, rs1) & wrap64(imm as int)),
        Instruction::Slli { rd, rs1, shamt } => retire(s, rd, shl64(reg(s, rs1), shamt as nat % 64)),
        Instruction::Srli { rd, rs1, shamt } => retire(s, rd, shr64(reg(s, rs1), shamt as nat % 64)),
        Instruction::Srai { rd, rs1, shamt } => retire(s, rd, sra64(reg(s, rs1), shamt as nat % 64)),
        Instruction::Addiw { rd, rs1, imm } => retire(s, rd, word32(reg(s, rs1) + imm)),
        Instruction::Slliw { rd, rs1, shamt } => retire(
            s,
            rd,
            word32((low32(reg(s, rs1)) * pow2(shamt as nat % 32)) as int),
        ),
        Instruction::Srliw { rd, rs1, shamt } => retire(
            s,
            rd,
            word32(low32(reg(s, rs1)) as int / pow2(shamt as nat % 32) as int),
        ),
        Instruction::Sraiw { rd, rs1, shamt } => retire(
            s,
            rd,
            wrap64(sext(low32(reg(s, rs1)), 32) / pow2(shamt as nat % 32) as int),
        ),
        Instruction::Lb { rd, rs1, imm } => load_into(s, rd, wrap64(reg(s, rs1) + imm), 1, true),
        Instruction::Lh { rd, rs1, imm } => load_into(s, rd, wrap64(reg(s, rs1) + imm), 2, true),
        Instruction::Lw { rd, rs1, imm } => load_into(s, rd, wrap64(reg(s, rs1) + imm), 4, true),
        Instruction::Ld { rd, rs1, imm } => load_into(s, rd, wrap64(reg(s, rs1) + imm), 8, false),
        Instruction::Lbu { rd, rs1, imm } => load_into(s, rd, wrap64(reg(s, rs1) + imm), 1, false),
        Instruction::Lhu { rd, rs1, imm } => load_into(s, rd, wrap64(reg(s, rs1) + imm), 2, false),
        Instruction::Lwu { rd, rs1, imm } => load_into(s, rd, wrap64(reg(s, rs1) + imm), 4, false),
        Instruction::Jalr { rd, rs1, imm } => {
            let target = wrap64(reg(s, rs1) + imm);
            (with_pc(with_reg(s, rd, next_pc(s)), (target - target % 2) as u64), Ok(()))
        },
        Instruction::Fence { .. } | Instruction::FenceI => (with_pc(s, next_pc(s)), Ok(())),
        Instruction::Ecall => (s, Err(CpuError::Ecall)),
        Instruction::Ebreak => (s, Err(CpuError::Ebreak)),
        Instruction::Sb { rs1, rs2, imm } => store_from(s, wrap64(reg(s, rs1) + imm), 1, reg(s, rs2)),
        Instruction::Sh { rs1, rs2, imm } => store_from(s, wrap64(reg(s, rs1) + imm), 2, reg(s, rs2)),
        Instruction::Sw { rs1, rs2, imm } => store_from(s, wrap64(reg(s, rs1) + imm), 4, reg(s, rs2)),
        Instruction::Sd { rs1, rs2, imm } => store_from(s, wrap64(reg(s, rs1) + imm), 8, reg(s, rs2)),
        Instruction::Beq { rs1, rs2, imm } => branch_to(s, imm, reg(s, rs1) == reg(s, rs2)),
        Instruction::Bne { rs1, rs2, imm } => branch_to(s, imm, reg(s, rs1) != reg(s, rs2)),
        Instruction::Blt { rs1, rs2, imm } => branch_to(
            s,
            imm,
            signed64(reg(s, rs1)) < signed64(reg(s, rs2)),
        ),
        Instruction::Bge { rs1, rs2, imm } => branch_to(
            s,
            imm,
            signed64(reg(s, rs1)) >= signed64(reg(s, rs2)),
        ),
        Instruction::Bltu { rs1, rs2, imm } => branch_to(s, imm, reg(s, rs1) < reg(s, rs2)),
        Instruction::Bgeu { rs1, rs2, imm } => branch_to(s, imm, reg(s, rs1) >= reg(s, rs2)),
        Instruction::Lui { rd, imm } => retire(s, rd, wrap64(imm as int)),
        Instruction::Auipc { rd, imm } => retire(s, rd, wrap64(s.pc + imm)),
        Instruction::Jal { rd, imm } => (
            with_pc(with_reg(s, rd, next_pc(s)), wrap64(s.pc + imm)),
            Ok(()),
        ),
    }
}

/// A CSR instruction: `rd` receives the old value of the CSR, which is replaced by
/// `value` when `write` holds.
pub open spec fn csr_access(s: CpuState, rd: u8, csr: u16, write: bool, value: u64) -> (
    CpuState,
    Result<(), CpuError>,
) {
    let t = if write {
        with_csr(s, csr, value)
    } else {
        s
    };
    (with_pc(with_reg(t, rd, csr_value(s, csr)), next_pc(s)), Ok(()))
}

/// The state after the CSR instruction `c`, and its outcome. The set and clear forms
/// leave the CSR unwritten when their operand is zero.
pub open spec fn csr_spec(s: CpuState, c: CsrInstruction) -> (CpuState, Result<(), CpuError>) {
    match c {
        CsrInstruction::Csrrw { rd, rs1_or_uimm, csr } => csr_access(
            s,
            rd,
            csr,
            true,
            reg(s, rs1_or_uimm),
        ),
        CsrInstruction::Csrrs { rd, rs1_or_uimm, csr } => csr_access(
            s,
            rd,
            csr,
            reg(s, rs1_or_uimm) != 0,
            csr_value(s, csr) | reg(s, rs1_or_uimm),
        ),
        CsrInstruction::Csrrc { rd, rs1_or_uimm, csr } => csr_access(
            s,
            rd,
            csr,
            reg(s, rs1_or_uimm) != 0,
            csr_value(s, csr) & !reg(s, rs1_or_uimm),
        ),
        CsrInstruction::Csrrwi { rd, rs1_or_uimm, csr } => csr_access(
            s,
            rd,
            csr,
            true,
            rs1_or_uimm as u64,
        ),
        CsrInstruction::Csrrsi { rd, rs1_or_uimm, csr } => csr_access(
            s,
            rd,
            csr,
            rs1_or_uimm != 0,
            csr_value(s, csr) | rs1_or_uimm as u64,
        ),
        CsrInstruction::Csrrci { rd, rs1_or_uimm, csr } => csr_access(
            s,
            rd,
            csr,
            rs1_or_uimm != 0,
            csr_value(s, csr) & !(rs1_or_uimm as u64),
        ),
    }
}

/// The computations on two registers.
pub open spec fn is_register_op(i: Instruction) -> bool {
    matches!(i, Instruction::Add { .. } | Instruction::Sub { .. } | Instruction::Sll { .. } | Instruction::Slt { .. } | Instruction::Sltu { .. } | Instruction::Xor { .. } | Instruction::Srl { .. } | Instruction::Sra { .. } | Instruction::Or { .. } | Instruction::And { .. } | Instruction::Addw { .. } | Instruction::Subw { .. } | Instruction::Sllw { .. } | Instruction::Srlw { .. } | Instruction::Sraw { .. })
}

/// The computations with an immediate operand.
pub open spec fn is_immediate_op(i: Instruction) -> bool {
    matches!(i, Instruction::Addi { .. } | Instruction::Slti { .. } | Instruction::Sltiu { .. } | Instruction::Xori { .. } | Instruction::Ori { .. } | Instruction::Andi { .. } | Instruction::Slli { .. } | Instruction::Srli { .. } | Instruction::Srai { .. } | Instruction::Addiw { .. } | Instruction::Slliw { .. } | Instruction::Srliw { .. } | Instruction::Sraiw { .. } | Instruction::Lui { .. } | Instruction::Auipc { .. })
}

/// The loads and stores.
pub open spec fn is_memory_access(i: Instruction) -> bool {
    matches!(i, Instruction::Lb { .. } | Instruction::Lh { .. } | Instruction::Lw { .. } | Instruction::Ld { .. } | Instruction::Lbu { .. } | Instruction::Lhu { .. } | Instruction::Lwu { .. } | Instruction::Sb { .. } | Instruction::Sh { .. } | Instruction::Sw { .. } | Instruction::Sd { .. })
}

/// The state after executing `instr` in `s`, and the outcome. A failing instruction
/// leaves the state as it was.
pub open spec fn execute_spec(s: CpuState, instr: AnyInstruction) -> (CpuState, Result<(), CpuError>) {
    match instr {
        AnyInstruction::Base(i) => base_spec(s, i),
        AnyInstruction::Csr(c) => csr_spec(s, c),
    }
}

} // verus!

verus! {

/// The stores, the only instructions that write to the bus.
pub open spec fn is_store(i: Instruction) -> bool {
    matches!(i, Instruction::Sb { .. } | Instruction::Sh { .. } | Instruction::Sw { .. } | Instruction::Sd { .. })
}

/// Every instruction but a jump or a branch that completes moves the pc to the next
/// instruction; a CSR instruction that completes does too.
pub proof fn lemma_sequential_pc(s: CpuState, instr: AnyInstruction)
    requires
        match instr {
            AnyInstruction::Base(i) => is_register_op(i) || is_immediate_op(i) || is_memory_access(i)
                || i is Fence || i is FenceI,
            AnyInstruction::Csr(_) => true,
        },
        execute_spec(s, instr).1 is Ok,
    ensures
        execute_spec(s, instr).0.pc == next_pc(s),
{
    reveal(base_spec);
}

/// Only a store changes the bus; every other instruction leaves RAM and the UART as they
/// were.
pub proof fn lemma_only_stores_write_the_bus(s: CpuState, instr: AnyInstruction)
    requires
        !(instr matches AnyInstruction::Base(i) && is_store(i)),
    ensures
        execute_spec(s, instr).0.bus == s.bus,
{
    reveal(base_spec);
}

/// Only `ebreak` stops the processor with `CpuError::Ebreak`.
pub proof fn lemma_only_ebreak_breaks(s: CpuState, instr: AnyInstruction)
    ensures
        execute_spec(s, instr).1 == Err::<(), CpuError>(CpuError::Ebreak) ==> instr
            == AnyInstruction::Base(Instruction::Ebreak),
{
    reveal(base_spec);
}

/// The register that `instr` writes, if it writes one.
pub open spec fn written_reg(instr: AnyInstruction) -> Option<u8> {
    match instr {
        AnyInstruction::Base(i) => match i {
            Instruction::Add { rd, .. } => Some(rd),
            Instruction::Sub { rd, .. } => Some(rd),
            Instruction::Sll { rd, .. } => Some(rd),
            Instruction::Slt { rd, .. } => Some(rd),
            Instruction::Sltu { rd, .. } => Some(rd),
            Instruction::Xor { rd, .. } => Some(rd),
            Instruction::Srl { rd, .. } => Some(rd),
            Instruction::Sra { rd, .. } => Some(rd),
            Instruction::Or { rd, .. } => Some(rd),
            Instruction::And { rd, .. } => Some(rd),
            Instruction::Addw { rd, .. } => Some(rd),
            Instruction::Subw { rd, .. } => Some(rd),
            Instruction::Sllw { rd, .. } => Some(rd),
            Instruction::Srlw { rd, .. } => Some(rd),
            Instruction::Sraw { rd, .. } => Some(rd),
            Instruction::Addi { rd, .. } => Some(rd),
            Instruction::Slti { rd, .. } => Some(rd),
            Instruction::Sltiu { rd, .. } => Some(rd),
            Instruction::Xori { rd, .. } => Some(rd),
            Instruction::Ori { rd, .. } => Some(rd),
            Instruction::Andi { rd, .. } => Some(rd),
            Instruction::Slli { rd, .. } => Some(rd),
            Instruction::Srli { rd, .. } => Some(rd),
            Instruction::Srai { rd, .. } => Some(rd),
            Instruction::Addiw { rd, .. } => Some(rd),
            Instruction::Slliw { rd, .. } => Some(rd),
            Instruction::Srliw { rd, .. } => Some(rd),
            Instruction::Sraiw { rd, .. } => Some(rd),
            Instruction::Lb { rd, .. } => Some(rd),
            Instruction::Lh { rd, .. } => Some(rd),
            Instruction::Lw { rd, .. } => Some(rd),
            Instruction::Ld { rd, .. } => Some(rd),
            Instruction::Lbu { rd, .. } => Some(rd),
            Instruction::Lhu { rd, .. } => Some(rd),
            Instruction::Lwu { rd, .. } => Some(rd),
            Instruction::Jalr { rd, .. } => Some(rd),
            Instruction::Lui { rd, .. } => Some(rd),
            Instruction::Auipc { rd, .. } => Some(rd),
            Instruction::Jal { rd, .. } => Some(rd),
            _ => None,
        },
        AnyInstruction::Csr(c) => match c {
            CsrInstruction::Csrrw { rd, .. } => Some(rd),
            CsrInstruction::Csrrs { rd, .. } => Some(rd),
            CsrInstruction::Csrrc { rd, .. } => Some(rd),
            CsrInstruction::Csrrwi { rd, .. } => Some(rd),
            CsrInstruction::Csrrsi { rd, .. } => Some(rd),
            CsrInstruction::Csrrci { rd, .. } => Some(rd),
        },
    }
}

/// What an instruction may change, whether it completes or fails: of the registers only
/// the one it writes (and never `x0`), the CSRs only for a CSR instruction, and the bus
/// only for a store.
pub proof fn lemma_execute_frame(s: CpuState, instr: AnyInstruction)
    requires
        s.regs.len() == 32,
        registers_valid(instr),
    ensures
        execute_spec(s, instr).0.regs.len() == s.regs.len(),
        forall|k: int|
            0 <= k < s.regs.len() && (k == 0 || written_reg(instr) != Some(k as u8))
                ==> #[trigger] execute_spec(s, instr).0.regs[k] == s.regs[k],
        !(instr is Csr) ==> execute_spec(s, instr).0.csrs == s.csrs,
        !(instr matches AnyInstruction::Base(i) && is_store(i)) ==> execute_spec(s, instr).0.bus
            == s.bus,
{
    reveal(base_spec);
    match instr {
        AnyInstruction::Base(i) => {
            if !is_store(i) {
                lemma_only_stores_write_the_bus(s, instr);
            }
        },
        AnyInstruction::Csr(c) => {
            lemma_only_stores_write_the_bus(s, instr);
        },
    }
}

/// Executes `instr` on `cpu`.
pub fn execute(instr: AnyInstruction, cpu: &mut Cpu) -> (r: Result<(), CpuError>)
    requires
        old(cpu).wf(),
        registers_valid(instr),
    ensures
        final(cpu).wf(),
        (final(cpu)@, r) == execute_spec(old(cpu)@, instr),
{
    match instr {
        AnyInstruction::Base(inst) => execute_base(inst, cpu)?,
        AnyInstruction::Csr(inst) => execute_csr(inst, cpu)?,
    }
    Ok(())
}

fn execute_base(inst: Instruction, cpu: &mut Cpu) -> (r: Result<(), CpuError>)
    requires
        old(cpu).wf(),
        registers_valid(AnyInstruction::Base(inst)),
    ensures
        final(cpu).wf(),
        (final(cpu)@, r) == base_spec(old(cpu)@, inst),
{
    match inst {
        Instruction::Add { .. } | Instruction::Sub { .. } | Instruction::Sll { .. } | Instruction::Slt { .. } | Instruction::Sltu { .. } | Instruction::Xor { .. } | Instruction::Srl { .. } | Instruction::Sra { .. } | Instruction::Or { .. } | Instruction::And { .. } | Instruction::Addw { .. } | Instruction::Subw { .. } | Instruction::Sllw { .. } | Instruction::Srlw { .. } | Instruction::Sraw { .. } => execute_register_op(inst, cpu),
        Instruction::Addi { .. } | Instruction::Slti { .. } | Instruction::Sltiu { .. } | Instruction::Xori { .. } | Instruction::Ori { .. } | Instruction::Andi { .. } | Instruction::Slli { .. } | Instruction::Srli { .. } | Instruction::Srai { .. } | Instruction::Addiw { .. } | Instruction::Slliw { .. } | Instruction::Srliw { .. } | Instruction::Sraiw { .. } | Instruction::Lui { .. } | Instruction::Auipc { .. } => execute_immediate_op(inst, cpu),
        Instruction::Lb { .. } | Instruction::Lh { .. } | Instruction::Lw { .. } | Instruction::Ld { .. } | Instruction::Lbu { .. } | Instruction::Lhu { .. } | Instruction::Lwu { .. } | Instruction::Sb { .. } | Instruction::Sh { .. } | Instruction::Sw { .. } | Instruction::Sd { .. } => execute_memory_access(inst, cpu),
        _ => execute_control(inst, cpu),
    }
}

/// A computation on two registers.
fn execute_register_op(inst: Instruction, cpu: &mut Cpu) -> (r: Result<(), CpuError>)
    requires
        old(cpu).wf(),
        registers_valid(AnyInstruction::Base(inst)),
        is_register_op(inst),
    ensures
        final(cpu).wf(),
        (final(cpu)@, r) == base_spec(old(cpu)@, inst),
{
    reveal(base_spec);
    match inst {
        Instruction::Add { rd, rs1, rs2 } => {
            let value = read_reg(cpu, rs1).wrapping_add(read_reg(cpu, rs2));
            write_reg(cpu, rd, value);
            advance_pc(cpu);
        },
        Instruction::Sub { rd, rs1, rs2 } => {
            let value = read_reg(cpu, rs1).wrapping_sub(read_reg(cpu, rs2));
            write_reg(cpu, rd, value);
            advance_pc(cpu);
        },
        Instruction::Sll { rd, rs1, rs2 } => {
            let shamt = read_reg(cpu, rs2) % 64;
            let value = shift_left(read_reg(cpu, rs1), shamt);
            write_reg(cpu, rd, value);
            advance_pc(cpu);
        },
        Instruction::Slt { rd, rs1, rs2 } => {
            let value = to_signed(read_reg(cpu, rs1)) < to_signed(read_reg(cpu, rs2));
            write_reg(cpu, rd, if value { 1 } else { 0 });
            advance_pc(cpu);
        },
        Instruction::Sltu { rd, rs1, rs2 } => {
            let value = read_reg(cpu, rs1) < read_reg(cpu, rs2);
            write_reg(cpu, rd, if value { 1 } else { 0 });
            advance_pc(cpu);
        },
        Instruction::Xor { rd, rs1, rs2 } => {
            let value = read_reg(cpu, rs1) ^ read_reg(cpu, rs2);
            write_reg(cpu, rd, value);
            advance_pc(cpu);
        },
        Instruction::Srl { rd, rs1, rs2 } => {
            let shamt = read_reg(cpu, rs2) % 64;
            let value = shift_right(read_reg(cpu, rs1), shamt);
            write_reg(cpu, rd, value);
            advance_pc(cpu);
        },
        Instruction::Sra { rd, rs1, rs2 } => {
            let shamt = read_reg(cpu, rs2) % 64;
            let value = shift_right_arith(read_reg(cpu, rs1), shamt);
            write_reg(cpu, rd, value);
            advance_pc(cpu);
        },
        Instruction::Or { rd, rs1, rs2 } => {
            let value = read_reg(cpu, rs1) | read_reg(cpu, rs2);
            write_reg(cpu, rd, value);
            advance_pc(cpu);
        },
        Instruction::And { rd, rs1, rs2 } => {
            let value = read_reg(cpu, rs1) & read_reg(cpu, rs2);
            write_reg(cpu, rd, value);
            advance_pc(cpu);
        },
        Instruction::Addw { rd, rs1, rs2 } => {
            let value = add_word32(read_reg(cpu, rs1), read_reg(cpu, rs2));
            write_reg(cpu, rd, value);
            advance_pc(cpu);
        },
        Instruction::Subw { rd, rs1, rs2 } => {
            let value = sub_word32(read_reg(cpu, rs1), read_reg(cpu, rs2));
            write_reg(cpu, rd, value);
            advance_pc(cpu);
        },
        Instruction::Sllw { rd, rs1, rs2 } => {
            let shamt = read_reg(cpu, rs2) % 32;
            let value = shift_left_word32(read_reg(cpu, rs1), shamt);
            write_reg(cpu, rd, value);
            advance_pc(cpu);
        },
        Instruction::Srlw { rd, rs1, rs2 } => {
            let shamt = read_reg(cpu, rs2) % 32;
            let value = shift_right_word32(read_reg(cpu, rs1), shamt);
            write_reg(cpu, rd, value);
            advance_pc(cpu);
        },
        Instruction::Sraw { rd, rs1, rs2 } => {
            let shamt = read_reg(cpu, rs2) % 32;
            let value = shift_right_arith_word32(read_reg(cpu, rs1), shamt);
            write_reg(cpu, rd, value);
            advance_pc(cpu);
        },
        _ => {},
    }
    Ok(())
}

/// A computation on a register, or the pc, and an immediate.
fn execute_immediate_op(inst: Instruction, cpu: &mut Cpu) -> (r: Result<(), CpuError>)
    requires
        old(cpu).wf(),
        registers_valid(AnyInstruction::Base(inst)),
        is_immediate_op(inst),
    ensures
        final(cpu).wf(),
        (final(cpu)@, r) == base_spec(old(cpu)@, inst),
{
    reveal(base_spec);
    match inst {
        Instruction::Addi { rd, rs1, imm } => {
            let value = add_signed(read_reg(cpu, rs1), imm);
            write_reg(cpu, rd, value);
            advance_pc(cpu);
        },
        Instruction::Slti { rd, rs1, imm } => {
            let value = to_signed(read_reg(cpu, rs1)) < imm;
            write_reg(cpu, rd, if value { 1 } else { 0 });
            advance_pc(cpu);
        },
        Instruction::Sltiu { rd, rs1, imm } => {
            let value = read_reg(cpu, rs1) < to_word(imm);
            write_reg(cpu, rd, if value { 1 } else { 0 });
            advance_pc(cpu);
        },
        Instruction::Xori { rd, rs1, imm } => {
            let value = read_reg(cpu, rs1) ^ to_word(imm);
            write_reg(cpu, rd, value);
            advance_pc(cpu);
        },
        Instruction::Ori { rd, rs1, imm } => {
            let value = read_reg(cpu, rs1) | to_word(imm);
            write_reg(cpu, rd, value);
            advance_pc(cpu);
        },
        Instruction::Andi { rd, rs1, imm } => {
            let value = read_reg(cpu, rs1) & to_word(imm);
            write_reg(cpu, rd, value);
            advance_pc(cpu);
        },
        Instruction::Slli { rd, rs1, shamt } => {
            let value = shift_left(read_reg(cpu, rs1), (shamt % 64) as u64);
            write_reg(cpu, rd, value);
            advance_pc(cpu);
        },
        Instruction::Srli { rd, rs1, shamt } => {
            let value = shift_right(read_reg(cpu, rs1), (shamt % 64) as u64);
            write_reg(cpu, rd, value);
            advance_pc(cpu);
        },
        Instruction::Srai { rd, rs1, shamt } => {
            let value = shift_right_arith(read_reg(cpu, rs1), (shamt % 64) as u64);
            write_reg(cpu, rd, value);
            advance_pc(cpu);
        },
        Instruction::Addiw { rd, rs1, imm } => {
            let value = add_word32(read_reg(cpu, rs1), to_word(imm));
            proof {
                vstd::arithmetic::div_mod::lemma_add_mod_noop(
                    reg(old(cpu)@, rs1) as int,
                    imm as int,
                    0x1_0000_0000,
                );
                vstd::arithmetic::div_mod::lemma_add_mod_noop(
                    reg(old(cpu)@, rs1) as int,
                    wrap64(imm as int) as int,
                    0x1_0000_0000,
                );
                vstd::arithmetic::div_mod::lemma_mod_mod(imm as int, 0x1_0000_0000, 0x1_0000_0000);
                assert((imm as int % 0x1_0000_0000_0000_0000) % 0x1_0000_0000 == imm as int
                    % 0x1_0000_0000) by {
                    vstd::arithmetic::div_mod::lemma_mod_mod(imm as int, 0x1_0000_0000, 0x1_0000_0000);
                }
            }
            write_reg(cpu, rd, value);
            advance_pc(cpu);
        },
        Instruction::Slliw { rd, rs1, shamt } => {
            let value = shift_left_word32(read_reg(cpu, rs1), (shamt % 32) as u64);
            write_reg(cpu, rd, value);
            advance_pc(cpu);
        },
        Instruction::Srliw { rd, rs1, shamt } => {
            let value = shift_right_word32(read_reg(cpu, rs1), (shamt % 32) as u64);
            write_reg(cpu, rd, value);
            advance_pc(cpu);
        },
        Instruction::Sraiw { rd, rs1, shamt } => {
            let value = shift_right_arith_word32(read_reg(cpu, rs1), (shamt % 32) as u64);
            write_reg(cpu, rd, value);
            advance_pc(cpu);
        },
        Instruction::Lui { rd, imm } => {
            write_reg(cpu, rd, to_word(imm));
            advance_pc(cpu);
        },
        Instruction::Auipc { rd, imm } => {
            let value = add_signed(cpu.pc, imm);
            write_reg(cpu, rd, value);
            advance_pc(cpu);
        },
        _ => {},
    }
    Ok(())
}

/// A load or a store.
fn execute_memory_access(inst: Instruction, cpu: &mut Cpu) -> (r: Result<(), CpuError>)
    requires
        old(cpu).wf(),
        registers_valid(AnyInstruction::Base(inst)),
        is_memory_access(inst),
    ensures
        final(cpu).wf(),
        (final(cpu)@, r) == base_spec(old(cpu)@, inst),
{
    reveal(base_spec);
    match inst {
        Instruction::Lb { rd, rs1, imm } => {
            let addr = add_signed(read_reg(cpu, rs1), imm);
            let raw = cpu.bus.load(addr, 1)?;
            proof {
                lemma_bus_load_bound(old(cpu)@.bus, addr, 1);
            }
            let value = sign_extend(raw, 8);
            write_reg(cpu, rd, value);
            advance_pc(cpu);
        },
        Instruction::Lh { rd, rs1, imm } => {
            let addr = add_signed(read_reg(cpu, rs1), imm);
            let raw = cpu.bus.load(addr, 2)?;
            proof {
                lemma_bus_load_bound(old(cpu)@.bus, addr, 2);
            }
            let value = sign_extend(raw, 16);
            write_reg(cpu, rd, value);
            advance_pc(cpu);
        },
        Instruction::Lw { rd, rs1, imm } => {
            let addr = add_signed(read_reg(cpu, rs1), imm);
            let raw = cpu.bus.load(addr, 4)?;
            proof {
                lemma_bus_load_bound(old(cpu)@.bus, addr, 4);
            }
            let value = sign_extend(raw, 32);
            write_reg(cpu, rd, value);
            advance_pc(cpu);
        },
        Instruction::Ld { rd, rs1, imm } => {
            let addr = add_signed(read_reg(cpu, rs1), imm);
            let value = cpu.bus.load(addr, 8)?;
            write_reg(cpu, rd, value);
            advance_pc(cpu);
        },
        Instruction::Lbu { rd, rs1, imm } => {
            let addr = add_signed(read_reg(cpu, rs1), imm);
            let value = cpu.bus.load(addr, 1)?;
            write_reg(cpu, rd, value);
            advance_pc(cpu);
        },
        Instruction::Lhu { rd, rs1, imm } => {
            let addr = add_signed(read_reg(cpu, rs1), imm);
            let value = cpu.bus.load(addr, 2)?;
            write_reg(cpu, rd, value);
            advance_pc(cpu);
        },
        Instruction::Lwu { rd, rs1, imm } => {
            let addr = add_signed(read_reg(cpu, rs1), imm);
            let value = cpu.bus.load(addr, 4)?;
            write_reg(cpu, rd, value);
            advance_pc(cpu);
        },
        Instruction::Sb { rs1, rs2, imm } => {
            let addr = add_signed(read_reg(cpu, rs1), imm);
            let value = read_reg(cpu, rs2);
            cpu.bus.store(addr, 1, value)?;
            advance_pc(cpu);
        },
        Instruction::Sh { rs1, rs2, imm } => {
            let addr = add_signed(read_reg(cpu, rs1), imm);
            let value = read_reg(cpu, rs2);
            cpu.bus.store(addr, 2, value)?;
            advance_pc(cpu);
        },
        Instruction::Sw { rs1, rs2, imm } => {
            let addr = add_signed(read_reg(cpu, rs1), imm);
            let value = read_reg(cpu, rs2);
            cpu.bus.store(addr, 4, value)?;
            advance_pc(cpu);
        },
        Instruction::Sd { rs1, rs2, imm } => {
            let addr = add_signed(read_reg(cpu, rs1), imm);
            let value = read_reg(cpu, rs2);
            cpu.bus.store(addr, 8, value)?;
            advance_pc(cpu);
        },
        _ => {},
    }
    Ok(())
}

/// A jump, branch, fence or environment call.
fn execute_control(inst: Instruction, cpu: &mut Cpu) -> (r: Result<(), CpuError>)
    requires
        old(cpu).wf(),
        registers_valid(AnyInstruction::Base(inst)),
        !is_register_op(inst),
        !is_immediate_op(inst),
        !is_memory_access(inst),
    ensures
        final(cpu).wf(),
        (final(cpu)@, r) == base_spec(old(cpu)@, inst),
{
    reveal(base_spec);
    match inst {
        Instruction::Jalr { rd, rs1, imm } => {
            let link = cpu.pc.wrapping_add(4);
            let target = add_signed(read_reg(cpu, rs1), imm);
            let target = target - target % 2;
            write_reg(cpu, rd, link);
            cpu.pc = target;
        },
        Instruction::Fence { .. } => {
            advance_pc(cpu);
        },
        Instruction::FenceI => {
            advance_pc(cpu);
        },
        Instruction::Ecall => return Err(CpuError::Ecall),
        Instruction::Ebreak => return Err(CpuError::Ebreak),
        Instruction::Beq { rs1, rs2, imm } => {
            let taken = read_reg(cpu, rs1) == read_reg(cpu, rs2);
            branch(cpu, imm, taken);
        },
        Instruction::Bne { rs1, rs2, imm } => {
            let taken = read_reg(cpu, rs1) != read_reg(cpu, rs2);
            branch(cpu, imm, taken);
        },
        Instruction::Blt { rs1, rs2, imm } => {
            let taken = to_signed(read_reg(cpu, rs1)) < to_signed(read_reg(cpu, rs2));
            branch(cpu, imm, taken);
        },
        Instruction::Bge { rs1, rs2, imm } => {
            let taken = to_signed(read_reg(cpu, rs1)) >= to_signed(read_reg(cpu, rs2));
            branch(cpu, imm, taken);
        },
        Instruction::Bltu { rs1, rs2, imm } => {
            let taken = read_reg(cpu, rs1) < read_reg(cpu, rs2);
            branch(cpu, imm, taken);
        },
        Instruction::Bgeu { rs1, rs2, imm } => {
            let taken = read_reg(cpu, rs1) >= read_reg(cpu, rs2);
            branch(cpu, imm, taken);
        },
        Instruction::Jal { rd, imm } => {
            let link = cpu.pc.wrapping_add(4);
            let target = add_signed(cpu.pc, imm);
            write_reg(cpu, rd, link);
            cpu.pc = target;
        },
        _ => {},
    }
    Ok(())
}

fn execute_csr(inst: CsrInstruction, cpu: &mut Cpu) -> (r: Result<(), CpuError>)
    requires
        old(cpu).wf(),
        registers_valid(AnyInstruction::Csr(inst)),
    ensures
        final(cpu).wf(),
        (final(cpu)@, r) == csr_spec(old(cpu)@, inst),
{
    match inst {
        CsrInstruction::Csrrw { rd, rs1_or_uimm, csr } => {
            let rs1 = read_reg(cpu, rs1_or_uimm);
            let prior = read_csr(cpu, csr)?;
            write_csr(cpu, csr, rs1)?;
            write_reg(cpu, rd, prior);
            advance_pc(cpu);
        },
        CsrInstruction::Csrrs { rd, rs1_or_uimm, csr } => {
            let rs1 = read_reg(cpu, rs1_or_uimm);
            let prior = read_csr(cpu, csr)?;
            if rs1 != 0 {
                write_csr(cpu, csr, prior | rs1)?;
            }
            write_reg(cpu, rd, prior);
            advance_pc(cpu);
        },
        CsrInstruction::Csrrc { rd, rs1_or_uimm, csr } => {
            let rs1 = read_reg(cpu, rs1_or_uimm);
            let prior = read_csr(cpu, csr)?;
            if rs1 != 0 {
                write_csr(cpu, csr, prior & !rs1)?;
            }
            write_reg(cpu, rd, prior);
            advance_pc(cpu);
        },
        CsrInstruction::Csrrwi { rd, rs1_or_uimm, csr } => {
            let zimm = rs1_or_uimm as u64;
            let prior = read_csr(cpu, csr)?;
            write_csr(cpu, csr, zimm)?;
            write_reg(cpu, rd, prior);
            advance_pc(cpu);
        },
        CsrInstruction::Csrrsi { rd, rs1_or_uimm, csr } => {
            let zimm = rs1_or_uimm as u64;
            let prior = read_csr(cpu, csr)?;
            if zimm != 0 {
                write_csr(cpu, csr, prior | zimm)?;
            }
            write_reg(cpu, rd, prior);
            advance_pc(cpu);
        },
        CsrInstruction::Csrrci { rd, rs1_or_uimm, csr } => {
            let zimm = rs1_or_uimm as u64;
            let prior = read_csr(cpu, csr)?;
            if zimm != 0 {
                write_csr(cpu, csr, prior & !zimm)?;
            }
            write_reg(cpu, rd, prior);
            advance_pc(cpu);
        },
    }
    Ok(())
}

fn read_reg(cpu: &Cpu, index: u8) -> (v: u64)
    requires
        index < 32,
    ensures
        v == reg(cpu@, index),
{
    cpu.read_reg(index)
}

fn write_reg(cpu: &mut Cpu, index: u8, value: u64)
    requires
        old(cpu).wf(),
        index < 32,
    ensures
        final(cpu).wf(),
        final(cpu)@ == with_reg(old(cpu)@, index, value),
{
    cpu.write_reg(index, value);
}

fn read_csr(cpu: &Cpu, csr: u16) -> (r: Result<u64, CpuError>)
    requires
        cpu.wf(),
    ensures
        r == Ok::<u64, CpuError>(csr_value(cpu@, csr)),
{
    cpu.read_csr(csr)
}

fn write_csr(cpu: &mut Cpu, csr: u16, value: u64) -> (r: Result<(), CpuError>)
    requires
        old(cpu).wf(),
    ensures
        final(cpu).wf(),
        final(cpu)@ == with_csr(old(cpu)@, csr, value),
        r is Ok,
{
    cpu.write_csr(csr, value)
}

fn advance_pc(cpu: &mut Cpu)
    requires
        old(cpu).wf(),
    ensures
        final(cpu).wf(),
        final(cpu)@ == with_pc(old(cpu)@, next_pc(old(cpu)@)),
{
    cpu.pc = cpu.pc.wrapping_add(4);
}

fn branch(cpu: &mut Cpu, imm: i64, taken: bool)
    requires
        old(cpu).wf(),
    ensures
        final(cpu).wf(),
        (final(cpu)@, Ok::<(), CpuError>(())) == branch_to(old(cpu)@, imm, taken),
{
    if taken {
        cpu.pc = add_signed(cpu.pc, imm);
    } else {
        advance_pc(cpu);
    }
}

/// The `bits`-bit pattern `value` sign-extended to a word.
fn sign_extend(value: u64, bits: u8) -> (r: u64)
    requires
        bits == 8 || bits == 16 || bits == 32,
        value < pow2(bits as nat),
    ensures
        r == sext64(value as nat, bits as nat),
{
    proof {
        lemma_u64_pow2_no_overflow(bits as nat);
        lemma_u64_shl_is_mul(1, bits as u64);
        lemma2_to64();
    }
    let full: u64 = 1u64 << bits as u64;
    if value >= full / 2 {
        value + (u64::MAX - full + 1)
    } else {
        value
    }
}

} // verus!
