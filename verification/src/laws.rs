//! What each instruction does, stated from the arithmetic of the ISA: the value each one
//! writes, where it moves the pc, what it reads and writes in memory and in the CSRs.
use vstd::arithmetic::power2::{lemma2_to64, pow2};
use vstd::prelude::*;

use crate::bus::{
    bus_load_spec, bus_store_spec, in_range_spec, lemma_bus_load_after_store, lemma_bus_load_bound,
    RAM_BASE,
};
use crate::cpu::{reg, CpuState};
use crate::error::CpuError;
use crate::execute::{base_spec, execute_spec};
use crate::isa::{AnyInstruction, CsrInstruction, Instruction};

verus! {

/// 2^64, the number of 64-bit words.
pub open spec fn words() -> int {
    0x1_0000_0000_0000_0000
}

/// The two's-complement value of the 64-bit word `a`.
pub open spec fn as_signed(a: u64) -> int {
    if a < 0x8000_0000_0000_0000 {
        a as int
    } else {
        a - words()
    }
}

/// The low 32 bits of `x` read as a two's-complement number.
pub open spec fn low_word_signed(x: int) -> int {
    let w = x % 0x1_0000_0000;
    if w < 0x8000_0000 {
        w
    } else {
        w - 0x1_0000_0000
    }
}

/// What a 32-bit operation whose exact result is `x` writes: its low 32 bits,
/// sign-extended to 64 bits.
pub open spec fn word_result(x: int) -> int {
    low_word_signed(x) % words()
}

/// The `bits`-bit value `v` sign-extended to 64 bits.
pub open spec fn extended(v: u64, bits: nat) -> int {
    if v < pow2((bits - 1) as nat) {
        v as int
    } else {
        v + words() - pow2(bits)
    }
}

/// 1 when `b` holds, 0 otherwise.
pub open spec fn bit(b: bool) -> int {
    if b {
        1
    } else {
        0
    }
}

/// `t` follows `s` by an instruction that completed and wrote `v` to `rd`: the pc is on
/// the next instruction, `rd` holds `v` unless it is `x0`, and nothing else changed.
pub open spec fn completes_writing(s: CpuState, t: CpuState, rd: u8, v: int) -> bool {
    &&& t.pc == (s.pc + 4) % words()
    &&& t.regs.len() == 32
    &&& forall|k: int|
        0 <= k < 32 ==> #[trigger] t.regs[k] == if k == rd && k != 0 {
            v
        } else {
            s.regs[k] as int
        }
    &&& t.csrs == s.csrs
    &&& t.bus == s.bus
}

/// `t` follows `s` by an instruction that moved the pc to `pc`, wrote `v` to `rd` unless
/// it is `x0`, and changed nothing else.
pub open spec fn jumps_writing(s: CpuState, t: CpuState, rd: u8, v: int, pc: int) -> bool {
    &&& t.pc == pc
    &&& t.regs.len() == 32
    &&& forall|k: int|
        0 <= k < 32 ==> #[trigger] t.regs[k] == if k == rd && k != 0 {
            v
        } else {
            s.regs[k] as int
        }
    &&& t.csrs == s.csrs
    &&& t.bus == s.bus
}

/// `t` follows `s` by an instruction that completed, moved the pc to `pc` and changed
/// nothing else.
pub open spec fn completes_at(s: CpuState, t: CpuState, pc: int) -> bool {
    &&& t.pc == pc
    &&& t.regs == s.regs
    &&& t.csrs == s.csrs
    &&& t.bus == s.bus
}

/// The address `x[rs1] + imm` of a load or store, wrapping around at 2^64.
pub open spec fn address(s: CpuState, rs1: u8, imm: i64) -> u64 {
    ((reg(s, rs1) + imm) % words()) as u64
}

/// What CSR `c` reads in `s`: its value, or zero when it was never written.
pub open spec fn csr_before(s: CpuState, c: u16) -> u64 {
    if s.csrs.contains_key(c) {
        s.csrs[c]
    } else {
        0
    }
}

/// The state and outcome after the CSR instruction `c` in `s`.
pub open spec fn after_csr(s: CpuState, c: CsrInstruction) -> (CpuState, Result<(), CpuError>) {
    execute_spec(s, AnyInstruction::Csr(c))
}

/// `c` completes in `s`, writes the CSR's old value to `rd`, leaves the bus alone, and
/// leaves every CSR but `csr` as it was.
pub open spec fn reads_csr(s: CpuState, c: CsrInstruction, rd: u8, csr: u16) -> bool {
    &&& after_csr(s, c).1 is Ok
    &&& completes_writing(
        s,
        CpuState { csrs: s.csrs, ..after_csr(s, c).0 },
        rd,
        csr_before(s, csr) as int,
    )
    &&& after_csr(s, c).0.csrs.remove(csr) == s.csrs.remove(csr)
}

/// After `c`, CSR `csr` has the bits of `mask` set and its other bits as before.
pub open spec fn sets_bits(s: CpuState, c: CsrInstruction, csr: u16, mask: u64) -> bool {
    let t = after_csr(s, c).0;
    &&& t.csrs.contains_key(csr)
    &&& t.csrs[csr] & mask == mask
    &&& t.csrs[csr] & !mask == csr_before(s, csr) & !mask
}

/// After `c`, CSR `csr` has the bits of `mask` clear and its other bits as before.
pub open spec fn clears_bits(s: CpuState, c: CsrInstruction, csr: u16, mask: u64) -> bool {
    let t = after_csr(s, c).0;
    &&& t.csrs.contains_key(csr)
    &&& t.csrs[csr] & mask == 0
    &&& t.csrs[csr] & !mask == csr_before(s, csr) & !mask
}

/// The state and outcome after the base instruction `i` in `s`.
pub open spec fn after(s: CpuState, i: Instruction) -> (CpuState, Result<(), CpuError>) {
    execute_spec(s, AnyInstruction::Base(i))
}

/// `i` completes in `s`, writes `v` to `rd` and changes nothing else.
pub open spec fn writes(s: CpuState, i: Instruction, rd: u8, v: int) -> bool {
    after(s, i).1 is Ok && completes_writing(s, after(s, i).0, rd, v)
}

/// `i` completes in `s`, moves the pc to `pc` and changes nothing else.
pub open spec fn moves_to(s: CpuState, i: Instruction, pc: int) -> bool {
    after(s, i).1 is Ok && completes_at(s, after(s, i).0, pc)
}

/// What the computations on two registers write to `rd`, with `a` and `b` the values of
/// `rs1` and `rs2`: sums and differences modulo 2^64, comparisons as 1 or 0 (signed or
/// unsigned), bitwise operations, shifts by the low six bits of `b`, and the 32-bit forms
/// on the low words, their result sign-extended. Each completes and changes nothing else.
pub proof fn lemma_register_computations(s: CpuState, rd: u8, rs1: u8, rs2: u8)
    requires
        s.regs.len() == 32,
        rd < 32,
        rs1 < 32,
        rs2 < 32,
    ensures
        writes(s, Instruction::Add { rd, rs1, rs2 }, rd, (reg(s, rs1) + reg(s, rs2)) % words()),
        writes(s, Instruction::Sub { rd, rs1, rs2 }, rd, (reg(s, rs1) - reg(s, rs2)) % words()),
        writes(s, Instruction::Sll { rd, rs1, rs2 }, rd, (reg(s, rs1) * pow2((reg(s, rs2) % 64) as nat)) % words()),
        writes(s, Instruction::Slt { rd, rs1, rs2 }, rd, bit(as_signed(reg(s, rs1)) < as_signed(reg(s, rs2)))),
        writes(s, Instruction::Sltu { rd, rs1, rs2 }, rd, bit(reg(s, rs1) < reg(s, rs2))),
        writes(s, Instruction::Xor { rd, rs1, rs2 }, rd, (reg(s, rs1) ^ reg(s, rs2)) as int),
        writes(s, Instruction::Srl { rd, rs1, rs2 }, rd, reg(s, rs1) as int / pow2((reg(s, rs2) % 64) as nat) as int),
        writes(s, Instruction::Sra { rd, rs1, rs2 }, rd, (as_signed(reg(s, rs1)) / pow2((reg(s, rs2) % 64) as nat) as int) % words()),
        writes(s, Instruction::Or { rd, rs1, rs2 }, rd, (reg(s, rs1) | reg(s, rs2)) as int),
        writes(s, Instruction::And { rd, rs1, rs2 }, rd, (reg(s, rs1) & reg(s, rs2)) as int),
        writes(s, Instruction::Addw { rd, rs1, rs2 }, rd, word_result(reg(s, rs1) + reg(s, rs2))),
        writes(s, Instruction::Subw { rd, rs1, rs2 }, rd, word_result(reg(s, rs1) - reg(s, rs2))),
        writes(s, Instruction::Sllw { rd, rs1, rs2 }, rd, word_result((reg(s, rs1) % 0x1_0000_0000) * pow2((reg(s, rs2) % 32) as nat))),
        writes(s, Instruction::Srlw { rd, rs1, rs2 }, rd, word_result((reg(s, rs1) % 0x1_0000_0000) as int / pow2((reg(s, rs2) % 32) as nat) as int)),
        writes(s, Instruction::Sraw { rd, rs1, rs2 }, rd, (low_word_signed(reg(s, rs1) as int) / pow2((reg(s, rs2) % 32) as nat) as int) % words()),
{
    assert(writes(s, Instruction::Add { rd, rs1, rs2 }, rd, (reg(s, rs1) + reg(s, rs2)) % words())) by {
        reveal(base_spec);
        lemma2_to64();
        vstd::arithmetic::power2::lemma_pow2_pos((reg(s, rs2) % 64) as nat);
        vstd::arithmetic::div_mod::lemma_div_nonincreasing(reg(s, rs1) as int, pow2((reg(s, rs2) % 64) as nat) as int);
    }
    assert(writes(s, Instruction::Sub { rd, rs1, rs2 }, rd, (reg(s, rs1) - reg(s, rs2)) % words())) by {
        reveal(base_spec);
        lemma2_to64();
        vstd::arithmetic::power2::lemma_pow2_pos((reg(s, rs2) % 64) as nat);
        vstd::arithmetic::div_mod::lemma_div_nonincreasing(reg(s, rs1) as int, pow2((reg(s, rs2) % 64) as nat) as int);
    }
    assert(writes(s, Instruction::Sll { rd, rs1, rs2 }, rd, (reg(s, rs1) * pow2((reg(s, rs2) % 64) as nat)) % words())) by {
        reveal(base_spec);
        lemma2_to64();
        vstd::arithmetic::power2::lemma_pow2_pos((reg(s, rs2) % 64) as nat);
        vstd::arithmetic::div_mod::lemma_div_nonincreasing(reg(s, rs1) as int, pow2((reg(s, rs2) % 64) as nat) as int);
    }
    assert(writes(s, Instruction::Slt { rd, rs1, rs2 }, rd, bit(as_signed(reg(s, rs1)) < as_signed(reg(s, rs2))))) by {
        reveal(base_spec);
        lemma2_to64();
        vstd::arithmetic::power2::lemma_pow2_pos((reg(s, rs2) % 64) as nat);
        vstd::arithmetic::div_mod::lemma_div_nonincreasing(reg(s, rs1) as int, pow2((reg(s, rs2) % 64) as nat) as int);
    }
    assert(writes(s, Instruction::Sltu { rd, rs1, rs2 }, rd, bit(reg(s, rs1) < reg(s, rs2)))) by {
        reveal(base_spec);
        lemma2_to64();
        vstd::arithmetic::power2::lemma_pow2_pos((reg(s, rs2) % 64) as nat);
        vstd::arithmetic::div_mod::lemma_div_nonincreasing(reg(s, rs1) as int, pow2((reg(s, rs2) % 64) as nat) as int);
    }
    assert(writes(s, Instruction::Xor { rd, rs1, rs2 }, rd, (reg(s, rs1) ^ reg(s, rs2)) as int)) by {
        reveal(base_spec);
        lemma2_to64();
        vstd::arithmetic::power2::lemma_pow2_pos((reg(s, rs2) % 64) as nat);
        vstd::arithmetic::div_mod::lemma_div_nonincreasing(reg(s, rs1) as int, pow2((reg(s, rs2) % 64) as nat) as int);
    }
    assert(writes(s, Instruction::Srl { rd, rs1, rs2 }, rd, reg(s, rs1) as int / pow2((reg(s, rs2) % 64) as nat) as int)) by {
        reveal(base_spec);
        lemma2_to64();
        vstd::arithmetic::power2::lemma_pow2_pos((reg(s, rs2) % 64) as nat);
        vstd::arithmetic::div_mod::lemma_div_nonincreasing(reg(s, rs1) as int, pow2((reg(s, rs2) % 64) as nat) as int);
    }
    assert(writes(s, Instruction::Sra { rd, rs1, rs2 }, rd, (as_signed(reg(s, rs1)) / pow2((reg(s, rs2) % 64) as nat) as int) % words())) by {
        reveal(base_spec);
        lemma2_to64();
        vstd::arithmetic::power2::lemma_pow2_pos((reg(s, rs2) % 64) as nat);
        vstd::arithmetic::div_mod::lemma_div_nonincreasing(reg(s, rs1) as int, pow2((reg(s, rs2) % 64) as nat) as int);
    }
    assert(writes(s, Instruction::Or { rd, rs1, rs2 }, rd, (reg(s, rs1) | reg(s, rs2)) as int)) by {
        reveal(base_spec);
        lemma2_to64();
        vstd::arithmetic::power2::lemma_pow2_pos((reg(s, rs2) % 64) as nat);
        vstd::arithmetic::div_mod::lemma_div_nonincreasing(reg(s, rs1) as int, pow2((reg(s, rs2) % 64) as nat) as int);
    }
    assert(writes(s, Instruction::And { rd, rs1, rs2 }, rd, (reg(s, rs1) & reg(s, rs2)) as int)) by {
        reveal(base_spec);
        lemma2_to64();
        vstd::arithmetic::power2::lemma_pow2_pos((reg(s, rs2) % 64) as nat);
        vstd::arithmetic::div_mod::lemma_div_nonincreasing(reg(s, rs1) as int, pow2((reg(s, rs2) % 64) as nat) as int);
    }
    assert(writes(s, Instruction::Addw { rd, rs1, rs2 }, rd, word_result(reg(s, rs1) + reg(s, rs2)))) by {
        reveal(base_spec);
        lemma2_to64();
        vstd::arithmetic::power2::lemma_pow2_pos((reg(s, rs2) % 64) as nat);
        vstd::arithmetic::div_mod::lemma_div_nonincreasing(reg(s, rs1) as int, pow2((reg(s, rs2) % 64) as nat) as int);
    }
    assert(writes(s, Instruction::Subw { rd, rs1, rs2 }, rd, word_result(reg(s, rs1) - reg(s, rs2)))) by {
        reveal(base_spec);
        lemma2_to64();
        vstd::arithmetic::power2::lemma_pow2_pos((reg(s, rs2) % 64) as nat);
        vstd::arithmetic::div_mod::lemma_div_nonincreasing(reg(s, rs1) as int, pow2((reg(s, rs2) % 64) as nat) as int);
    }
    assert(writes(s, Instruction::Sllw { rd, rs1, rs2 }, rd, word_result((reg(s, rs1) % 0x1_0000_0000) * pow2((reg(s, rs2) % 32) as nat)))) by {
        reveal(base_spec);
        lemma2_to64();
        vstd::arithmetic::power2::lemma_pow2_pos((reg(s, rs2) % 64) as nat);
        vstd::arithmetic::div_mod::lemma_div_nonincreasing(reg(s, rs1) as int, pow2((reg(s, rs2) % 64) as nat) as int);
    }
    assert(writes(s, Instruction::Srlw { rd, rs1, rs2 }, rd, word_result((reg(s, rs1) % 0x1_0000_0000) as int / pow2((reg(s, rs2) % 32) as nat) as int))) by {
        reveal(base_spec);
        lemma2_to64();
        vstd::arithmetic::power2::lemma_pow2_pos((reg(s, rs2) % 64) as nat);
        vstd::arithmetic::div_mod::lemma_div_nonincreasing(reg(s, rs1) as int, pow2((reg(s, rs2) % 64) as nat) as int);
    }
    assert(writes(s, Instruction::Sraw { rd, rs1, rs2 }, rd, (low_word_signed(reg(s, rs1) as int) / pow2((reg(s, rs2) % 32) as nat) as int) % words())) by {
        reveal(base_spec);
        lemma2_to64();
        vstd::arithmetic::power2::lemma_pow2_pos((reg(s, rs2) % 64) as nat);
        vstd::arithmetic::div_mod::lemma_div_nonincreasing(reg(s, rs1) as int, pow2((reg(s, rs2) % 64) as nat) as int);
    }
}

/// What the computations with an immediate write to `rd`, with `a` the value of `rs1`:
/// the immediate takes part as a signed number (`slti` compares `a` read as a signed
/// number with it; `sltiu` and the bitwise forms use it sign-extended to 64 bits), the
/// shifts use the low six (five for the 32-bit forms) bits of the amount, `lui` writes
/// its immediate and `auipc` adds it to the pc. Each completes and changes nothing else.
pub proof fn lemma_immediate_computations(s: CpuState, rd: u8, rs1: u8, imm: i64, shamt: u8)
    requires
        s.regs.len() == 32,
        rd < 32,
        rs1 < 32,
    ensures
        writes(s, Instruction::Addi { rd, rs1, imm }, rd, (reg(s, rs1) + imm) % words()),
        writes(s, Instruction::Slti { rd, rs1, imm }, rd, bit(as_signed(reg(s, rs1)) < imm)),
        writes(s, Instruction::Sltiu { rd, rs1, imm }, rd, bit(reg(s, rs1) < (imm as int) % words())),
        writes(s, Instruction::Xori { rd, rs1, imm }, rd, (reg(s, rs1) ^ ((imm as int) % words()) as u64) as int),
        writes(s, Instruction::Ori { rd, rs1, imm }, rd, (reg(s, rs1) | ((imm as int) % words()) as u64) as int),
        writes(s, Instruction::Andi { rd, rs1, imm }, rd, (reg(s, rs1) & ((imm as int) % words()) as u64) as int),
        writes(s, Instruction::Slli { rd, rs1, shamt }, rd, (reg(s, rs1) * pow2((shamt % 64) as nat)) % words()),
        writes(s, Instruction::Srli { rd, rs1, shamt }, rd, reg(s, rs1) as int / pow2((shamt % 64) as nat) as int),
        writes(s, Instruction::Srai { rd, rs1, shamt }, rd, (as_signed(reg(s, rs1)) / pow2((shamt % 64) as nat) as int) % words()),
        writes(s, Instruction::Addiw { rd, rs1, imm }, rd, word_result(reg(s, rs1) + imm)),
        writes(s, Instruction::Slliw { rd, rs1, shamt }, rd, word_result((reg(s, rs1) % 0x1_0000_0000) * pow2((shamt % 32) as nat))),
        writes(s, Instruction::Srliw { rd, rs1, shamt }, rd, word_result((reg(s, rs1) % 0x1_0000_0000) as int / pow2((shamt % 32) as nat) as int)),
        writes(s, Instruction::Sraiw { rd, rs1, shamt }, rd, (low_word_signed(reg(s, rs1) as int) / pow2((shamt % 32) as nat) as int) % words()),
        writes(s, Instruction::Lui { rd, imm }, rd, (imm as int) % words()),
        writes(s, Instruction::Auipc { rd, imm }, rd, (s.pc + imm) % words()),
{
    assert(writes(s, Instruction::Addi { rd, rs1, imm }, rd, (reg(s, rs1) + imm) % words())) by {
        reveal(base_spec);
        lemma2_to64();
        vstd::arithmetic::power2::lemma_pow2_pos((shamt % 64) as nat);
        vstd::arithmetic::div_mod::lemma_div_nonincreasing(reg(s, rs1) as int, pow2((shamt % 64) as nat) as int);
    }
    assert(writes(s, Instruction::Slti { rd, rs1, imm }, rd, bit(as_signed(reg(s, rs1)) < imm))) by {
        reveal(base_spec);
        lemma2_to64();
        vstd::arithmetic::power2::lemma_pow2_pos((shamt % 64) as nat);
        vstd::arithmetic::div_mod::lemma_div_nonincreasing(reg(s, rs1) as int, pow2((shamt % 64) as nat) as int);
    }
    assert(writes(s, Instruction::Sltiu { rd, rs1, imm }, rd, bit(reg(s, rs1) < (imm as int) % words()))) by {
        reveal(base_spec);
        lemma2_to64();
        vstd::arithmetic::power2::lemma_pow2_pos((shamt % 64) as nat);
        vstd::arithmetic::div_mod::lemma_div_nonincreasing(reg(s, rs1) as int, pow2((shamt % 64) as nat) as int);
    }
    assert(writes(s, Instruction::Xori { rd, rs1, imm }, rd, (reg(s, rs1) ^ ((imm as int) % words()) as u64) as int)) by {
        reveal(base_spec);
        lemma2_to64();
        vstd::arithmetic::power2::lemma_pow2_pos((shamt % 64) as nat);
        vstd::arithmetic::div_mod::lemma_div_nonincreasing(reg(s, rs1) as int, pow2((shamt % 64) as nat) as int);
    }
    assert(writes(s, Instruction::Ori { rd, rs1, imm }, rd, (reg(s, rs1) | ((imm as int) % words()) as u64) as int)) by {
        reveal(base_spec);
        lemma2_to64();
        vstd::arithmetic::power2::lemma_pow2_pos((shamt % 64) as nat);
        vstd::arithmetic::div_mod::lemma_div_nonincreasing(reg(s, rs1) as int, pow2((shamt % 64) as nat) as int);
    }
    assert(writes(s, Instruction::Andi { rd, rs1, imm }, rd, (reg(s, rs1) & ((imm as int) % words()) as u64) as int)) by {
        reveal(base_spec);
        lemma2_to64();
        vstd::arithmetic::power2::lemma_pow2_pos((shamt % 64) as nat);
        vstd::arithmetic::div_mod::lemma_div_nonincreasing(reg(s, rs1) as int, pow2((shamt % 64) as nat) as int);
    }
    assert(writes(s, Instruction::Slli { rd, rs1, shamt }, rd, (reg(s, rs1) * pow2((shamt % 64) as nat)) % words())) by {
        reveal(base_spec);
        lemma2_to64();
        vstd::arithmetic::power2::lemma_pow2_pos((shamt % 64) as nat);
        vstd::arithmetic::div_mod::lemma_div_nonincreasing(reg(s, rs1) as int, pow2((shamt % 64) as nat) as int);
    }
    assert(writes(s, Instruction::Srli { rd, rs1, shamt }, rd, reg(s, rs1) as int / pow2((shamt % 64) as nat) as int)) by {
        reveal(base_spec);
        lemma2_to64();
        vstd::arithmetic::power2::lemma_pow2_pos((shamt % 64) as nat);
        vstd::arithmetic::div_mod::lemma_div_nonincreasing(reg(s, rs1) as int, pow2((shamt % 64) as nat) as int);
    }
    assert(writes(s, Instruction::Srai { rd, rs1, shamt }, rd, (as_signed(reg(s, rs1)) / pow2((shamt % 64) as nat) as int) % words())) by {
        reveal(base_spec);
        lemma2_to64();
        vstd::arithmetic::power2::lemma_pow2_pos((shamt % 64) as nat);
        vstd::arithmetic::div_mod::lemma_div_nonincreasing(reg(s, rs1) as int, pow2((shamt % 64) as nat) as int);
    }
    assert(writes(s, Instruction::Addiw { rd, rs1, imm }, rd, word_result(reg(s, rs1) + imm))) by {
        reveal(base_spec);
        lemma2_to64();
        vstd::arithmetic::power2::lemma_pow2_pos((shamt % 64) as nat);
        vstd::arithmetic::div_mod::lemma_div_nonincreasing(reg(s, rs1) as int, pow2((shamt % 64) as nat) as int);
    }
    assert(writes(s, Instruction::Slliw { rd, rs1, shamt }, rd, word_result((reg(s, rs1) % 0x1_0000_0000) * pow2((shamt % 32) as nat)))) by {
        reveal(base_spec);
        lemma2_to64();
        vstd::arithmetic::power2::lemma_pow2_pos((shamt % 64) as nat);
        vstd::arithmetic::div_mod::lemma_div_nonincreasing(reg(s, rs1) as int, pow2((shamt % 64) as nat) as int);
    }
    assert(writes(s, Instruction::Srliw { rd, rs1, shamt }, rd, word_result((reg(s, rs1) % 0x1_0000_0000) as int / pow2((shamt % 32) as nat) as int))) by {
        reveal(base_spec);
        lemma2_to64();
        vstd::arithmetic::power2::lemma_pow2_pos((shamt % 64) as nat);
        vstd::arithmetic::div_mod::lemma_div_nonincreasing(reg(s, rs1) as int, pow2((shamt % 64) as nat) as int);
    }
    assert(writes(s, Instruction::Sraiw { rd, rs1, shamt }, rd, (low_word_signed(reg(s, rs1) as int) / pow2((shamt % 32) as nat) as int) % words())) by {
        reveal(base_spec);
        lemma2_to64();
        vstd::arithmetic::power2::lemma_pow2_pos((shamt % 64) as nat);
        vstd::arithmetic::div_mod::lemma_div_nonincreasing(reg(s, rs1) as int, pow2((shamt % 64) as nat) as int);
    }
    assert(writes(s, Instruction::Lui { rd, imm }, rd, (imm as int) % words())) by {
        reveal(base_spec);
        lemma2_to64();
        vstd::arithmetic::power2::lemma_pow2_pos((shamt % 64) as nat);
        vstd::arithmetic::div_mod::lemma_div_nonincreasing(reg(s, rs1) as int, pow2((shamt % 64) as nat) as int);
    }
    assert(writes(s, Instruction::Auipc { rd, imm }, rd, (s.pc + imm) % words())) by {
        reveal(base_spec);
        lemma2_to64();
        vstd::arithmetic::power2::lemma_pow2_pos((shamt % 64) as nat);
        vstd::arithmetic::div_mod::lemma_div_nonincreasing(reg(s, rs1) as int, pow2((shamt % 64) as nat) as int);
    }
}

/// What a load does: it reads the bytes at `x[rs1] + imm` (wrapping), and writes them to
/// `rd` sign-extended (`lb`, `lh`, `lw`) or zero-extended (`lbu`, `lhu`, `lwu`, and `ld`
/// whole); when the bus refuses the access, it fails with the bus's error and changes
/// nothing.
pub proof fn lemma_loads(s: CpuState, rd: u8, rs1: u8, imm: i64)
    requires
        s.regs.len() == 32,
        rd < 32,
        rs1 < 32,
    ensures
        bus_load_spec(s.bus, address(s, rs1, imm), 1) is Ok ==> writes(s, Instruction::Lb { rd, rs1, imm }, rd, extended(bus_load_spec(s.bus, address(s, rs1, imm), 1)->Ok_0, 8)),
        bus_load_spec(s.bus, address(s, rs1, imm), 1) is Err ==> after(s, Instruction::Lb { rd, rs1, imm }) == (s, Err::<(), CpuError>(bus_load_spec(s.bus, address(s, rs1, imm), 1)->Err_0)),
        bus_load_spec(s.bus, address(s, rs1, imm), 2) is Ok ==> writes(s, Instruction::Lh { rd, rs1, imm }, rd, extended(bus_load_spec(s.bus, address(s, rs1, imm), 2)->Ok_0, 16)),
        bus_load_spec(s.bus, address(s, rs1, imm), 2) is Err ==> after(s, Instruction::Lh { rd, rs1, imm }) == (s, Err::<(), CpuError>(bus_load_spec(s.bus, address(s, rs1, imm), 2)->Err_0)),
        bus_load_spec(s.bus, address(s, rs1, imm), 4) is Ok ==> writes(s, Instruction::Lw { rd, rs1, imm }, rd, extended(bus_load_spec(s.bus, address(s, rs1, imm), 4)->Ok_0, 32)),
        bus_load_spec(s.bus, address(s, rs1, imm), 4) is Err ==> after(s, Instruction::Lw { rd, rs1, imm }) == (s, Err::<(), CpuError>(bus_load_spec(s.bus, address(s, rs1, imm), 4)->Err_0)),
        bus_load_spec(s.bus, address(s, rs1, imm), 8) is Ok ==> writes(s, Instruction::Ld { rd, rs1, imm }, rd, bus_load_spec(s.bus, address(s, rs1, imm), 8)->Ok_0 as int),
        bus_load_spec(s.bus, address(s, rs1, imm), 8) is Err ==> after(s, Instruction::Ld { rd, rs1, imm }) == (s, Err::<(), CpuError>(bus_load_spec(s.bus, address(s, rs1, imm), 8)->Err_0)),
        bus_load_spec(s.bus, address(s, rs1, imm), 1) is Ok ==> writes(s, Instruction::Lbu { rd, rs1, imm }, rd, bus_load_spec(s.bus, address(s, rs1, imm), 1)->Ok_0 as int),
        bus_load_spec(s.bus, address(s, rs1, imm), 1) is Err ==> after(s, Instruction::Lbu { rd, rs1, imm }) == (s, Err::<(), CpuError>(bus_load_spec(s.bus, address(s, rs1, imm), 1)->Err_0)),
        bus_load_spec(s.bus, address(s, rs1, imm), 2) is Ok ==> writes(s, Instruction::Lhu { rd, rs1, imm }, rd, bus_load_spec(s.bus, address(s, rs1, imm), 2)->Ok_0 as int),
        bus_load_spec(s.bus, address(s, rs1, imm), 2) is Err ==> after(s, Instruction::Lhu { rd, rs1, imm }) == (s, Err::<(), CpuError>(bus_load_spec(s.bus, address(s, rs1, imm), 2)->Err_0)),
        bus_load_spec(s.bus, address(s, rs1, imm), 4) is Ok ==> writes(s, Instruction::Lwu { rd, rs1, imm }, rd, bus_load_spec(s.bus, address(s, rs1, imm), 4)->Ok_0 as int),
        bus_load_spec(s.bus, address(s, rs1, imm), 4) is Err ==> after(s, Instruction::Lwu { rd, rs1, imm }) == (s, Err::<(), CpuError>(bus_load_spec(s.bus, address(s, rs1, imm), 4)->Err_0)),
{
    assert(bus_load_spec(s.bus, address(s, rs1, imm), 1) is Ok ==> writes(s, Instruction::Lb { rd, rs1, imm }, rd, extended(bus_load_spec(s.bus, address(s, rs1, imm), 1)->Ok_0, 8))) by {
        reveal(base_spec);
        lemma2_to64();
        lemma_bus_load_bound(s.bus, address(s, rs1, imm), 1);
        lemma_bus_load_bound(s.bus, address(s, rs1, imm), 2);
        lemma_bus_load_bound(s.bus, address(s, rs1, imm), 4);
    }
    assert(bus_load_spec(s.bus, address(s, rs1, imm), 1) is Err ==> after(s, Instruction::Lb { rd, rs1, imm }) == (s, Err::<(), CpuError>(bus_load_spec(s.bus, address(s, rs1, imm), 1)->Err_0))) by {
        reveal(base_spec);
        lemma2_to64();
        lemma_bus_load_bound(s.bus, address(s, rs1, imm), 1);
        lemma_bus_load_bound(s.bus, address(s, rs1, imm), 2);
        lemma_bus_load_bound(s.bus, address(s, rs1, imm), 4);
    }
    assert(bus_load_spec(s.bus, address(s, rs1, imm), 2) is Ok ==> writes(s, Instruction::Lh { rd, rs1, imm }, rd, extended(bus_load_spec(s.bus, address(s, rs1, imm), 2)->Ok_0, 16))) by {
        reveal(base_spec);
        lemma2_to64();
        lemma_bus_load_bound(s.bus, address(s, rs1, imm), 1);
        lemma_bus_load_bound(s.bus, address(s, rs1, imm), 2);
        lemma_bus_load_bound(s.bus, address(s, rs1, imm), 4);
    }
    assert(bus_load_spec(s.bus, address(s, rs1, imm), 2) is Err ==> after(s, Instruction::Lh { rd, rs1, imm }) == (s, Err::<(), CpuError>(bus_load_spec(s.bus, address(s, rs1, imm), 2)->Err_0))) by {
        reveal(base_spec);
        lemma2_to64();
        lemma_bus_load_bound(s.bus, address(s, rs1, imm), 1);
        lemma_bus_load_bound(s.bus, address(s, rs1, imm), 2);
        lemma_bus_load_bound(s.bus, address(s, rs1, imm), 4);
    }
    assert(bus_load_spec(s.bus, address(s, rs1, imm), 4) is Ok ==> writes(s, Instruction::Lw { rd, rs1, imm }, rd, extended(bus_load_spec(s.bus, address(s, rs1, imm), 4)->Ok_0, 32))) by {
        reveal(base_spec);
        lemma2_to64();
        lemma_bus_load_bound(s.bus, address(s, rs1, imm), 1);
        lemma_bus_load_bound(s.bus, address(s, rs1, imm), 2);
        lemma_bus_load_bound(s.bus, address(s, rs1, imm), 4);
    }
    assert(bus_load_spec(s.bus, address(s, rs1, imm), 4) is Err ==> after(s, Instruction::Lw { rd, rs1, imm }) == (s, Err::<(), CpuError>(bus_load_spec(s.bus, address(s, rs1, imm), 4)->Err_0))) by {
        reveal(base_spec);
        lemma2_to64();
        lemma_bus_load_bound(s.bus, address(s, rs1, imm), 1);
        lemma_bus_load_bound(s.bus, address(s, rs1, imm), 2);
        lemma_bus_load_bound(s.bus, address(s, rs1, imm), 4);
    }
    assert(bus_load_spec(s.bus, address(s, rs1, imm), 8) is Ok ==> writes(s, Instruction::Ld { rd, rs1, imm }, rd, bus_load_spec(s.bus, address(s, rs1, imm), 8)->Ok_0 as int)) by {
        reveal(base_spec);
        lemma2_to64();
        lemma_bus_load_bound(s.bus, address(s, rs1, imm), 1);
        lemma_bus_load_bound(s.bus, address(s, rs1, imm), 2);
        lemma_bus_load_bound(s.bus, address(s, rs1, imm), 4);
    }
    assert(bus_load_spec(s.bus, address(s, rs1, imm), 8) is Err ==> after(s, Instruction::Ld { rd, rs1, imm }) == (s, Err::<(), CpuError>(bus_load_spec(s.bus, address(s, rs1, imm), 8)->Err_0))) by {
        reveal(base_spec);
        lemma2_to64();
        lemma_bus_load_bound(s.bus, address(s, rs1, imm), 1);
        lemma_bus_load_bound(s.bus, address(s, rs1, imm), 2);
        lemma_bus_load_bound(s.bus, address(s, rs1, imm), 4);
    }
    assert(bus_load_spec(s.bus, address(s, rs1, imm), 1) is Ok ==> writes(s, Instruction::Lbu { rd, rs1, imm }, rd, bus_load_spec(s.bus, address(s, rs1, imm), 1)->Ok_0 as int)) by {
        reveal(base_spec);
        lemma2_to64();
        lemma_bus_load_bound(s.bus, address(s, rs1, imm), 1);
        lemma_bus_load_bound(s.bus, address(s, rs1, imm), 2);
        lemma_bus_load_bound(s.bus, address(s, rs1, imm), 4);
    }
    assert(bus_load_spec(s.bus, address(s, rs1, imm), 1) is Err ==> after(s, Instruction::Lbu { rd, rs1, imm }) == (s, Err::<(), CpuError>(bus_load_spec(s.bus, address(s, rs1, imm), 1)->Err_0))) by {
        reveal(base_spec);
        lemma2_to64();
        lemma_bus_load_bound(s.bus, address(s, rs1, imm), 1);
        lemma_bus_load_bound(s.bus, address(s, rs1, imm), 2);
        lemma_bus_load_bound(s.bus, address(s, rs1, imm), 4);
    }
    assert(bus_load_spec(s.bus, address(s, rs1, imm), 2) is Ok ==> writes(s, Instruction::Lhu { rd, rs1, imm }, rd, bus_load_spec(s.bus, address(s, rs1, imm), 2)->Ok_0 as int)) by {
        reveal(base_spec);
        lemma2_to64();
        lemma_bus_load_bound(s.bus, address(s, rs1, imm), 1);
        lemma_bus_load_bound(s.bus, address(s, rs1, imm), 2);
        lemma_bus_load_bound(s.bus, address(s, rs1, imm), 4);
    }
    assert(bus_load_spec(s.bus, address(s, rs1, imm), 2) is Err ==> after(s, Instruction::Lhu { rd, rs1, imm }) == (s, Err::<(), CpuError>(bus_load_spec(s.bus, address(s, rs1, imm), 2)->Err_0))) by {
        reveal(base_spec);
        lemma2_to64();
        lemma_bus_load_bound(s.bus, address(s, rs1, imm), 1);
        lemma_bus_load_bound(s.bus, address(s, rs1, imm), 2);
        lemma_bus_load_bound(s.bus, address(s, rs1, imm), 4);
    }
    assert(bus_load_spec(s.bus, address(s, rs1, imm), 4) is Ok ==> writes(s, Instruction::Lwu { rd, rs1, imm }, rd, bus_load_spec(s.bus, address(s, rs1, imm), 4)->Ok_0 as int)) by {
        reveal(base_spec);
        lemma2_to64();
        lemma_bus_load_bound(s.bus, address(s, rs1, imm), 1);
        lemma_bus_load_bound(s.bus, address(s, rs1, imm), 2);
        lemma_bus_load_bound(s.bus, address(s, rs1, imm), 4);
    }
    assert(bus_load_spec(s.bus, address(s, rs1, imm), 4) is Err ==> after(s, Instruction::Lwu { rd, rs1, imm }) == (s, Err::<(), CpuError>(bus_load_spec(s.bus, address(s, rs1, imm), 4)->Err_0))) by {
        reveal(base_spec);
        lemma2_to64();
        lemma_bus_load_bound(s.bus, address(s, rs1, imm), 1);
        lemma_bus_load_bound(s.bus, address(s, rs1, imm), 2);
        lemma_bus_load_bound(s.bus, address(s, rs1, imm), 4);
    }
}

/// What a store does: it writes the low bytes of `x[rs2]` at `x[rs1] + imm` (wrapping),
/// so that a load of the same width there in RAM reads them back, moves the pc on and
/// changes nothing else; when the bus refuses the access, it fails with the bus's error
/// and changes nothing.
pub proof fn lemma_stores(s: CpuState, rs1: u8, rs2: u8, imm: i64)
    requires
        s.regs.len() == 32,
        rs1 < 32,
        rs2 < 32,
    ensures
        bus_store_spec(s.bus, address(s, rs1, imm), 1, reg(s, rs2)).1 is Ok ==> after(s, Instruction::Sb { rs1, rs2, imm }).1 is Ok && after(s, Instruction::Sb { rs1, rs2, imm }).0.pc == (s.pc + 4) % words() && after(s, Instruction::Sb { rs1, rs2, imm }).0.regs == s.regs && after(s, Instruction::Sb { rs1, rs2, imm }).0.csrs == s.csrs && after(s, Instruction::Sb { rs1, rs2, imm }).0.bus == bus_store_spec(s.bus, address(s, rs1, imm), 1, reg(s, rs2)).0,
        bus_store_spec(s.bus, address(s, rs1, imm), 1, reg(s, rs2)).1 is Ok && in_range_spec(address(s, rs1, imm), RAM_BASE, s.bus.ram.len()) ==> bus_load_spec(after(s, Instruction::Sb { rs1, rs2, imm }).0.bus, address(s, rs1, imm), 1) == Ok::<u64, CpuError>((reg(s, rs2) as nat % pow2(8 * 1)) as u64),
        bus_store_spec(s.bus, address(s, rs1, imm), 1, reg(s, rs2)).1 is Err ==> after(s, Instruction::Sb { rs1, rs2, imm }) == (s, bus_store_spec(s.bus, address(s, rs1, imm), 1, reg(s, rs2)).1),
        bus_store_spec(s.bus, address(s, rs1, imm), 2, reg(s, rs2)).1 is Ok ==> after(s, Instruction::Sh { rs1, rs2, imm }).1 is Ok && after(s, Instruction::Sh { rs1, rs2, imm }).0.pc == (s.pc + 4) % words() && after(s, Instruction::Sh { rs1, rs2, imm }).0.regs == s.regs && after(s, Instruction::Sh { rs1, rs2, imm }).0.csrs == s.csrs && after(s, Instruction::Sh { rs1, rs2, imm }).0.bus == bus_store_spec(s.bus, address(s, rs1, imm), 2, reg(s, rs2)).0,
        bus_store_spec(s.bus, address(s, rs1, imm), 2, reg(s, rs2)).1 is Ok && in_range_spec(address(s, rs1, imm), RAM_BASE, s.bus.ram.len()) ==> bus_load_spec(after(s, Instruction::Sh { rs1, rs2, imm }).0.bus, address(s, rs1, imm), 2) == Ok::<u64, CpuError>((reg(s, rs2) as nat % pow2(8 * 2)) as u64),
        bus_store_spec(s.bus, address(s, rs1, imm), 2, reg(s, rs2)).1 is Err ==> after(s, Instruction::Sh { rs1, rs2, imm }) == (s, bus_store_spec(s.bus, address(s, rs1, imm), 2, reg(s, rs2)).1),
        bus_store_spec(s.bus, address(s, rs1, imm), 4, reg(s, rs2)).1 is Ok ==> after(s, Instruction::Sw { rs1, rs2, imm }).1 is Ok && after(s, Instruction::Sw { rs1, rs2, imm }).0.pc == (s.pc + 4) % words() && after(s, Instruction::Sw { rs1, rs2, imm }).0.regs == s.regs && after(s, Instruction::Sw { rs1, rs2, imm }).0.csrs == s.csrs && after(s, Instruction::Sw { rs1, rs2, imm }).0.bus == bus_store_spec(s.bus, address(s, rs1, imm), 4, reg(s, rs2)).0,
        bus_store_spec(s.bus, address(s, rs1, imm), 4, reg(s, rs2)).1 is Ok && in_range_spec(address(s, rs1, imm), RAM_BASE, s.bus.ram.len()) ==> bus_load_spec(after(s, Instruction::Sw { rs1, rs2, imm }).0.bus, address(s, rs1, imm), 4) == Ok::<u64, CpuError>((reg(s, rs2) as nat % pow2(8 * 4)) as u64),
        bus_store_spec(s.bus, address(s, rs1, imm), 4, reg(s, rs2)).1 is Err ==> after(s, Instruction::Sw { rs1, rs2, imm }) == (s, bus_store_spec(s.bus, address(s, rs1, imm), 4, reg(s, rs2)).1),
        bus_store_spec(s.bus, address(s, rs1, imm), 8, reg(s, rs2)).1 is Ok ==> after(s, Instruction::Sd { rs1, rs2, imm }).1 is Ok && after(s, Instruction::Sd { rs1, rs2, imm }).0.pc == (s.pc + 4) % words() && after(s, Instruction::Sd { rs1, rs2, imm }).0.regs == s.regs && after(s, Instruction::Sd { rs1, rs2, imm }).0.csrs == s.csrs && after(s, Instruction::Sd { rs1, rs2, imm }).0.bus == bus_store_spec(s.bus, address(s, rs1, imm), 8, reg(s, rs2)).0,
        bus_store_spec(s.bus, address(s, rs1, imm), 8, reg(s, rs2)).1 is Ok && in_range_spec(address(s, rs1, imm), RAM_BASE, s.bus.ram.len()) ==> bus_load_spec(after(s, Instruction::Sd { rs1, rs2, imm }).0.bus, address(s, rs1, imm), 8) == Ok::<u64, CpuError>((reg(s, rs2) as nat % pow2(8 * 8)) as u64),
        bus_store_spec(s.bus, address(s, rs1, imm), 8, reg(s, rs2)).1 is Err ==> after(s, Instruction::Sd { rs1, rs2, imm }) == (s, bus_store_spec(s.bus, address(s, rs1, imm), 8, reg(s, rs2)).1),
{
    assert(bus_store_spec(s.bus, address(s, rs1, imm), 1, reg(s, rs2)).1 is Ok ==> after(s, Instruction::Sb { rs1, rs2, imm }).1 is Ok && after(s, Instruction::Sb { rs1, rs2, imm }).0.pc == (s.pc + 4) % words() && after(s, Instruction::Sb { rs1, rs2, imm }).0.regs == s.regs && after(s, Instruction::Sb { rs1, rs2, imm }).0.csrs == s.csrs && after(s, Instruction::Sb { rs1, rs2, imm }).0.bus == bus_store_spec(s.bus, address(s, rs1, imm), 1, reg(s, rs2)).0) by {
        reveal(base_spec);
        if in_range_spec(address(s, rs1, imm), RAM_BASE, s.bus.ram.len()) && bus_store_spec(s.bus, address(s, rs1, imm), 1, reg(s, rs2)).1 is Ok {
            lemma_bus_load_after_store(s.bus, address(s, rs1, imm), 1, reg(s, rs2));
        }
    }
    assert(bus_store_spec(s.bus, address(s, rs1, imm), 1, reg(s, rs2)).1 is Ok && in_range_spec(address(s, rs1, imm), RAM_BASE, s.bus.ram.len()) ==> bus_load_spec(after(s, Instruction::Sb { rs1, rs2, imm }).0.bus, address(s, rs1, imm), 1) == Ok::<u64, CpuError>((reg(s, rs2) as nat % pow2(8 * 1)) as u64)) by {
        reveal(base_spec);
        if in_range_spec(address(s, rs1, imm), RAM_BASE, s.bus.ram.len()) && bus_store_spec(s.bus, address(s, rs1, imm), 1, reg(s, rs2)).1 is Ok {
            lemma_bus_load_after_store(s.bus, address(s, rs1, imm), 1, reg(s, rs2));
        }
    }
    assert(bus_store_spec(s.bus, address(s, rs1, imm), 1, reg(s, rs2)).1 is Err ==> after(s, Instruction::Sb { rs1, rs2, imm }) == (s, bus_store_spec(s.bus, address(s, rs1, imm), 1, reg(s, rs2)).1)) by {
        reveal(base_spec);
        if in_range_spec(address(s, rs1, imm), RAM_BASE, s.bus.ram.len()) && bus_store_spec(s.bus, address(s, rs1, imm), 1, reg(s, rs2)).1 is Ok {
            lemma_bus_load_after_store(s.bus, address(s, rs1, imm), 1, reg(s, rs2));
        }
    }
    assert(bus_store_spec(s.bus, address(s, rs1, imm), 2, reg(s, rs2)).1 is Ok ==> after(s, Instruction::Sh { rs1, rs2, imm }).1 is Ok && after(s, Instruction::Sh { rs1, rs2, imm }).0.pc == (s.pc + 4) % words() && after(s, Instruction::Sh { rs1, rs2, imm }).0.regs == s.regs && after(s, Instruction::Sh { rs1, rs2, imm }).0.csrs == s.csrs && after(s, Instruction::Sh { rs1, rs2, imm }).0.bus == bus_store_spec(s.bus, address(s, rs1, imm), 2, reg(s, rs2)).0) by {
        reveal(base_spec);
        if in_range_spec(address(s, rs1, imm), RAM_BASE, s.bus.ram.len()) && bus_store_spec(s.bus, address(s, rs1, imm), 2, reg(s, rs2)).1 is Ok {
            lemma_bus_load_after_store(s.bus, address(s, rs1, imm), 2, reg(s, rs2));
        }
    }
    assert(bus_store_spec(s.bus, address(s, rs1, imm), 2, reg(s, rs2)).1 is Ok && in_range_spec(address(s, rs1, imm), RAM_BASE, s.bus.ram.len()) ==> bus_load_spec(after(s, Instruction::Sh { rs1, rs2, imm }).0.bus, address(s, rs1, imm), 2) == Ok::<u64, CpuError>((reg(s, rs2) as nat % pow2(8 * 2)) as u64)) by {
        reveal(base_spec);
        if in_range_spec(address(s, rs1, imm), RAM_BASE, s.bus.ram.len()) && bus_store_spec(s.bus, address(s, rs1, imm), 2, reg(s, rs2)).1 is Ok {
            lemma_bus_load_after_store(s.bus, address(s, rs1, imm), 2, reg(s, rs2));
        }
    }
    assert(bus_store_spec(s.bus, address(s, rs1, imm), 2, reg(s, rs2)).1 is Err ==> after(s, Instruction::Sh { rs1, rs2, imm }) == (s, bus_store_spec(s.bus, address(s, rs1, imm), 2, reg(s, rs2)).1)) by {
        reveal(base_spec);
        if in_range_spec(address(s, rs1, imm), RAM_BASE, s.bus.ram.len()) && bus_store_spec(s.bus, address(s, rs1, imm), 2, reg(s, rs2)).1 is Ok {
            lemma_bus_load_after_store(s.bus, address(s, rs1, imm), 2, reg(s, rs2));
        }
    }
    assert(bus_store_spec(s.bus, address(s, rs1, imm), 4, reg(s, rs2)).1 is Ok ==> after(s, Instruction::Sw { rs1, rs2, imm }).1 is Ok && after(s, Instruction::Sw { rs1, rs2, imm }).0.pc == (s.pc + 4) % words() && after(s, Instruction::Sw { rs1, rs2, imm }).0.regs == s.regs && after(s, Instruction::Sw { rs1, rs2, imm }).0.csrs == s.csrs && after(s, Instruction::Sw { rs1, rs2, imm }).0.bus == bus_store_spec(s.bus, address(s, rs1, imm), 4, reg(s, rs2)).0) by {
        reveal(base_spec);
        if in_range_spec(address(s, rs1, imm), RAM_BASE, s.bus.ram.len()) && bus_store_spec(s.bus, address(s, rs1, imm), 4, reg(s, rs2)).1 is Ok {
            lemma_bus_load_after_store(s.bus, address(s, rs1, imm), 4, reg(s, rs2));
        }
    }
    assert(bus_store_spec(s.bus, address(s, rs1, imm), 4, reg(s, rs2)).1 is Ok && in_range_spec(address(s, rs1, imm), RAM_BASE, s.bus.ram.len()) ==> bus_load_spec(after(s, Instruction::Sw { rs1, rs2, imm }).0.bus, address(s, rs1, imm), 4) == Ok::<u64, CpuError>((reg(s, rs2) as nat % pow2(8 * 4)) as u64)) by {
        reveal(base_spec);
        if in_range_spec(address(s, rs1, imm), RAM_BASE, s.bus.ram.len()) && bus_store_spec(s.bus, address(s, rs1, imm), 4, reg(s, rs2)).1 is Ok {
            lemma_bus_load_after_store(s.bus, address(s, rs1, imm), 4, reg(s, rs2));
        }
    }
    assert(bus_store_spec(s.bus, address(s, rs1, imm), 4, reg(s, rs2)).1 is Err ==> after(s, Instruction::Sw { rs1, rs2, imm }) == (s, bus_store_spec(s.bus, address(s, rs1, imm), 4, reg(s, rs2)).1)) by {
        reveal(base_spec);
        if in_range_spec(address(s, rs1, imm), RAM_BASE, s.bus.ram.len()) && bus_store_spec(s.bus, address(s, rs1, imm), 4, reg(s, rs2)).1 is Ok {
            lemma_bus_load_after_store(s.bus, address(s, rs1, imm), 4, reg(s, rs2));
        }
    }
    assert(bus_store_spec(s.bus, address(s, rs1, imm), 8, reg(s, rs2)).1 is Ok ==> after(s, Instruction::Sd { rs1, rs2, imm }).1 is Ok && after(s, Instruction::Sd { rs1, rs2, imm }).0.pc == (s.pc + 4) % words() && after(s, Instruction::Sd { rs1, rs2, imm }).0.regs == s.regs && after(s, Instruction::Sd { rs1, rs2, imm }).0.csrs == s.csrs && after(s, Instruction::Sd { rs1, rs2, imm }).0.bus == bus_store_spec(s.bus, address(s, rs1, imm), 8, reg(s, rs2)).0) by {
        reveal(base_spec);
        if in_range_spec(address(s, rs1, imm), RAM_BASE, s.bus.ram.len()) && bus_store_spec(s.bus, address(s, rs1, imm), 8, reg(s, rs2)).1 is Ok {
            lemma_bus_load_after_store(s.bus, address(s, rs1, imm), 8, reg(s, rs2));
        }
    }
    assert(bus_store_spec(s.bus, address(s, rs1, imm), 8, reg(s, rs2)).1 is Ok && in_range_spec(address(s, rs1, imm), RAM_BASE, s.bus.ram.len()) ==> bus_load_spec(after(s, Instruction::Sd { rs1, rs2, imm }).0.bus, address(s, rs1, imm), 8) == Ok::<u64, CpuError>((reg(s, rs2) as nat % pow2(8 * 8)) as u64)) by {
        reveal(base_spec);
        if in_range_spec(address(s, rs1, imm), RAM_BASE, s.bus.ram.len()) && bus_store_spec(s.bus, address(s, rs1, imm), 8, reg(s, rs2)).1 is Ok {
            lemma_bus_load_after_store(s.bus, address(s, rs1, imm), 8, reg(s, rs2));
        }
    }
    assert(bus_store_spec(s.bus, address(s, rs1, imm), 8, reg(s, rs2)).1 is Err ==> after(s, Instruction::Sd { rs1, rs2, imm }) == (s, bus_store_spec(s.bus, address(s, rs1, imm), 8, reg(s, rs2)).1)) by {
        reveal(base_spec);
        if in_range_spec(address(s, rs1, imm), RAM_BASE, s.bus.ram.len()) && bus_store_spec(s.bus, address(s, rs1, imm), 8, reg(s, rs2)).1 is Ok {
            lemma_bus_load_after_store(s.bus, address(s, rs1, imm), 8, reg(s, rs2));
        }
    }
}

/// Where a branch goes: to `pc + imm` (wrapping) when its comparison of `x[rs1]` with
/// `x[rs2]` holds (equal, not equal, less or at least, signed or unsigned), to the next
/// instruction otherwise; it changes nothing else.
pub proof fn lemma_branches(s: CpuState, rs1: u8, rs2: u8, imm: i64)
    requires
        s.regs.len() == 32,
        rs1 < 32,
        rs2 < 32,
    ensures
        moves_to(s, Instruction::Beq { rs1, rs2, imm }, if reg(s, rs1) == reg(s, rs2) { (s.pc + imm) % words() } else { (s.pc + 4) % words() }),
        moves_to(s, Instruction::Bne { rs1, rs2, imm }, if reg(s, rs1) != reg(s, rs2) { (s.pc + imm) % words() } else { (s.pc + 4) % words() }),
        moves_to(s, Instruction::Blt { rs1, rs2, imm }, if as_signed(reg(s, rs1)) < as_signed(reg(s, rs2)) { (s.pc + imm) % words() } else { (s.pc + 4) % words() }),
        moves_to(s, Instruction::Bge { rs1, rs2, imm }, if as_signed(reg(s, rs1)) >= as_signed(reg(s, rs2)) { (s.pc + imm) % words() } else { (s.pc + 4) % words() }),
        moves_to(s, Instruction::Bltu { rs1, rs2, imm }, if reg(s, rs1) < reg(s, rs2) { (s.pc + imm) % words() } else { (s.pc + 4) % words() }),
        moves_to(s, Instruction::Bgeu { rs1, rs2, imm }, if reg(s, rs1) >= reg(s, rs2) { (s.pc + imm) % words() } else { (s.pc + 4) % words() }),
{
    assert(moves_to(s, Instruction::Beq { rs1, rs2, imm }, if reg(s, rs1) == reg(s, rs2) { (s.pc + imm) % words() } else { (s.pc + 4) % words() })) by {
        reveal(base_spec);
        lemma2_to64();
    }
    assert(moves_to(s, Instruction::Bne { rs1, rs2, imm }, if reg(s, rs1) != reg(s, rs2) { (s.pc + imm) % words() } else { (s.pc + 4) % words() })) by {
        reveal(base_spec);
        lemma2_to64();
    }
    assert(moves_to(s, Instruction::Blt { rs1, rs2, imm }, if as_signed(reg(s, rs1)) < as_signed(reg(s, rs2)) { (s.pc + imm) % words() } else { (s.pc + 4) % words() })) by {
        reveal(base_spec);
        lemma2_to64();
    }
    assert(moves_to(s, Instruction::Bge { rs1, rs2, imm }, if as_signed(reg(s, rs1)) >= as_signed(reg(s, rs2)) { (s.pc + imm) % words() } else { (s.pc + 4) % words() })) by {
        reveal(base_spec);
        lemma2_to64();
    }
    assert(moves_to(s, Instruction::Bltu { rs1, rs2, imm }, if reg(s, rs1) < reg(s, rs2) { (s.pc + imm) % words() } else { (s.pc + 4) % words() })) by {
        reveal(base_spec);
        lemma2_to64();
    }
    assert(moves_to(s, Instruction::Bgeu { rs1, rs2, imm }, if reg(s, rs1) >= reg(s, rs2) { (s.pc + imm) % words() } else { (s.pc + 4) % words() })) by {
        reveal(base_spec);
        lemma2_to64();
    }
}

/// What the jumps do: `jal` goes to `pc + imm` and `jalr` to `x[rs1] + imm` with bit 0
/// cleared (both wrapping), each writing the address of the next instruction to `rd`
/// (`x[rs1]` read before that write); the fences move on and change nothing; `ecall` and
/// `ebreak` stop with their error and change nothing.
pub proof fn lemma_jumps(s: CpuState, rd: u8, rs1: u8, imm: i64, pred: u8, succ: u8)
    requires
        s.regs.len() == 32,
        rd < 32,
        rs1 < 32,
    ensures
        after(s, Instruction::Jal { rd, imm }).1 is Ok && jumps_writing(s, after(s, Instruction::Jal { rd, imm }).0, rd, (s.pc + 4) % words(), (s.pc + imm) % words()),
        after(s, Instruction::Jalr { rd, rs1, imm }).1 is Ok && jumps_writing(s, after(s, Instruction::Jalr { rd, rs1, imm }).0, rd, (s.pc + 4) % words(), after(s, Instruction::Jalr { rd, rs1, imm }).0.pc as int),
        after(s, Instruction::Jalr { rd, rs1, imm }).0.pc % 2 == 0 && (after(s, Instruction::Jalr { rd, rs1, imm }).0.pc == (reg(s, rs1) + imm) % words() || after(s, Instruction::Jalr { rd, rs1, imm }).0.pc + 1 == (reg(s, rs1) + imm) % words()),
        moves_to(s, Instruction::FenceI, (s.pc + 4) % words()),
        moves_to(s, Instruction::Fence { pred, succ }, (s.pc + 4) % words()),
        after(s, Instruction::Ecall) == (s, Err::<(), CpuError>(CpuError::Ecall)),
        after(s, Instruction::Ebreak) == (s, Err::<(), CpuError>(CpuError::Ebreak)),
{
    assert(after(s, Instruction::Jal { rd, imm }).1 is Ok && jumps_writing(s, after(s, Instruction::Jal { rd, imm }).0, rd, (s.pc + 4) % words(), (s.pc + imm) % words())) by {
        reveal(base_spec);
        lemma2_to64();
    }
    assert(after(s, Instruction::Jalr { rd, rs1, imm }).1 is Ok && jumps_writing(s, after(s, Instruction::Jalr { rd, rs1, imm }).0, rd, (s.pc + 4) % words(), after(s, Instruction::Jalr { rd, rs1, imm }).0.pc as int)) by {
        reveal(base_spec);
        lemma2_to64();
    }
    assert(after(s, Instruction::Jalr { rd, rs1, imm }).0.pc % 2 == 0 && (after(s, Instruction::Jalr { rd, rs1, imm }).0.pc == (reg(s, rs1) + imm) % words() || after(s, Instruction::Jalr { rd, rs1, imm }).0.pc + 1 == (reg(s, rs1) + imm) % words())) by {
        reveal(base_spec);
        lemma2_to64();
    }
    assert(moves_to(s, Instruction::FenceI, (s.pc + 4) % words())) by {
        reveal(base_spec);
        lemma2_to64();
    }
    assert(moves_to(s, Instruction::Fence { pred, succ }, (s.pc + 4) % words())) by {
        reveal(base_spec);
        lemma2_to64();
    }
    assert(after(s, Instruction::Ecall) == (s, Err::<(), CpuError>(CpuError::Ecall))) by {
        reveal(base_spec);
        lemma2_to64();
    }
    assert(after(s, Instruction::Ebreak) == (s, Err::<(), CpuError>(CpuError::Ebreak))) by {
        reveal(base_spec);
        lemma2_to64();
    }
}

/// What the CSR instructions do, with `m` the value of `rs1` (or the 5-bit immediate for
/// the `i` forms): each writes the CSR's old value to `rd` and moves on; `csrrw` replaces
/// the CSR with `m`; `csrrs` sets the bits of `m` and `csrrc` clears them, every other bit
/// keeping its value, and neither writes the CSR when `m` is zero. No other CSR changes.
pub proof fn lemma_csr_instructions(s: CpuState, rd: u8, rs1: u8, csr: u16, uimm: u8)
    requires
        s.regs.len() == 32,
        rd < 32,
        rs1 < 32,
    ensures
        reads_csr(s, CsrInstruction::Csrrw { rd, rs1_or_uimm: rs1, csr }, rd, csr),
        after_csr(s, CsrInstruction::Csrrw { rd, rs1_or_uimm: rs1, csr }).0.csrs == s.csrs.insert(
            csr,
            reg(s, rs1),
        ),
        reads_csr(s, CsrInstruction::Csrrs { rd, rs1_or_uimm: rs1, csr }, rd, csr),
        reg(s, rs1) != 0 ==> sets_bits(s, CsrInstruction::Csrrs { rd, rs1_or_uimm: rs1, csr }, csr, reg(s, rs1)),
        reg(s, rs1) == 0 ==> after_csr(s, CsrInstruction::Csrrs { rd, rs1_or_uimm: rs1, csr }).0.csrs
            == s.csrs,
        reads_csr(s, CsrInstruction::Csrrc { rd, rs1_or_uimm: rs1, csr }, rd, csr),
        reg(s, rs1) != 0 ==> clears_bits(s, CsrInstruction::Csrrc { rd, rs1_or_uimm: rs1, csr }, csr, reg(s, rs1)),
        reg(s, rs1) == 0 ==> after_csr(s, CsrInstruction::Csrrc { rd, rs1_or_uimm: rs1, csr }).0.csrs
            == s.csrs,
        reads_csr(s, CsrInstruction::Csrrwi { rd, rs1_or_uimm: uimm, csr }, rd, csr),
        after_csr(s, CsrInstruction::Csrrwi { rd, rs1_or_uimm: uimm, csr }).0.csrs == s.csrs.insert(
            csr,
            uimm as u64,
        ),
        reads_csr(s, CsrInstruction::Csrrsi { rd, rs1_or_uimm: uimm, csr }, rd, csr),
        uimm != 0 ==> sets_bits(s, CsrInstruction::Csrrsi { rd, rs1_or_uimm: uimm, csr }, csr, uimm as u64),
        uimm == 0 ==> after_csr(s, CsrInstruction::Csrrsi { rd, rs1_or_uimm: uimm, csr }).0.csrs
            == s.csrs,
        reads_csr(s, CsrInstruction::Csrrci { rd, rs1_or_uimm: uimm, csr }, rd, csr),
        uimm != 0 ==> clears_bits(s, CsrInstruction::Csrrci { rd, rs1_or_uimm: uimm, csr }, csr, uimm as u64),
        uimm == 0 ==> after_csr(s, CsrInstruction::Csrrci { rd, rs1_or_uimm: uimm, csr }).0.csrs
            == s.csrs,
{
    let o = csr_before(s, csr);
    let (a, u) = (reg(s, rs1), uimm as u64);
    assert((o | a) & a == a && (o | a) & !a == o & !a) by (bit_vector);
    assert((o & !a) & a == 0 && (o & !a) & !a == o & !a) by (bit_vector);
    assert((o | u) & u == u && (o | u) & !u == o & !u) by (bit_vector);
    assert((o & !u) & u == 0 && (o & !u) & !u == o & !u) by (bit_vector);
    assert forall|v: u64| s.csrs.insert(csr, v).remove(csr) =~= s.csrs.remove(csr) by {}
    assert(s.csrs.remove(csr) == s.csrs.remove(csr));
}

} // verus!
