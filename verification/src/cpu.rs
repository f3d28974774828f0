use vstd::prelude::*;

use crate::bus::{bus_load_spec, lemma_bus_load_bound, Bus, BusState};
use crate::csr::CsrFile;
use crate::decode::{decode, decode_spec};
use crate::error::CpuError;
use crate::execute::{execute, execute_spec};
use crate::isa::{AnyInstruction, Instruction};
use crate::word::wrap64;

verus! {

/// The architectural state of the processor: the 32 integer registers, the program
/// counter, the control and status registers, and the bus behind them.
pub ghost struct CpuState {
    pub regs: Seq<u64>,
    pub pc: u64,
    pub csrs: Map<u16, u64>,
    pub bus: BusState,
}

/// What register `r` reads: `x0` reads zero whatever was stored.
pub open spec fn reg(s: CpuState, r: u8) -> u64 {
    if r == 0 {
        0
    } else {
        s.regs[r as int]
    }
}

/// `s` with `v` written to register `r`; writes to `x0` are dropped.
pub open spec fn with_reg(s: CpuState, r: u8, v: u64) -> CpuState {
    if r == 0 {
        s
    } else {
        CpuState { regs: s.regs.update(r as int, v), ..s }
    }
}

pub open spec fn with_pc(s: CpuState, pc: u64) -> CpuState {
    CpuState { pc, ..s }
}

pub open spec fn with_bus(s: CpuState, bus: BusState) -> CpuState {
    CpuState { bus, ..s }
}

/// The address of the instruction after the current one.
pub open spec fn next_pc(s: CpuState) -> u64 {
    wrap64(s.pc + 4)
}

/// What CSR `addr` reads: zero for one never written.
pub open spec fn csr_value(s: CpuState, addr: u16) -> u64 {
    if s.csrs.contains_key(addr) {
        s.csrs[addr]
    } else {
        0
    }
}

pub open spec fn with_csr(s: CpuState, addr: u16, v: u64) -> CpuState {
    CpuState { csrs: s.csrs.insert(addr, v), ..s }
}

/// One fetch-decode-execute cycle from `s`: the state after it and its outcome.
/// A cycle that fails leaves the state as it was.
#[verifier::opaque]
pub open spec fn step_spec(s: CpuState) -> (CpuState, Result<(), CpuError>) {
    match bus_load_spec(s.bus, s.pc, 4) {
        Err(e) => (s, Err(e)),
        Ok(word) => match decode_spec(word as u32) {
            None => (s, Err(CpuError::IllegalInstruction(word as u32))),
            Some(instr) => execute_spec(s, instr),
        },
    }
}

/// The state after `n` cycles from `s` that all succeed, or `None` when one of them fails.
pub open spec fn steps(s: CpuState, n: nat) -> Option<CpuState>
    decreases n,
{
    if n == 0 {
        Some(s)
    } else {
        match steps(s, (n - 1) as nat) {
            Some(t) => if step_spec(t).1 is Ok {
                Some(step_spec(t).0)
            } else {
                None
            },
            None => None,
        }
    }
}

/// What a run reports for the outcome of the cycle that stopped it: `ebreak` ends a run
/// normally, any other error is passed on.
pub open spec fn run_outcome(r: Result<(), CpuError>) -> Result<(), CpuError> {
    match r {
        Err(CpuError::Ebreak) => Ok(()),
        other => other,
    }
}

/// The outcome and final state of a run from `s` that stopped after `n` successful cycles:
/// the next cycle failed, or the budget of `u64::MAX` cycles ran out.
pub open spec fn run_ends(s: CpuState, n: nat, fin: CpuState, r: Result<(), CpuError>) -> bool {
    &&& steps(s, n) == Some(fin)
    &&& n <= u64::MAX
    &&& if n < u64::MAX {
        step_spec(fin).1 is Err && r == run_outcome(step_spec(fin).1)
    } else {
        r is Ok
    }
}

/// A 64-bit RISC-V hart attached to a bus.
pub struct Cpu {
    pub registers: [u64; 32],
    pub pc: u64,
    pub csrs: CsrFile,
    pub bus: Bus,
}

impl Cpu {
    pub open spec fn view(&self) -> CpuState {
        CpuState { regs: self.registers@, pc: self.pc, csrs: self.csrs@, bus: self.bus@ }
    }

    pub open spec fn wf(&self) -> bool {
        self.bus.wf()
    }

    pub fn new(entry_point: u64, bus: Bus) -> (cpu: Self)
        requires
            bus.wf(),
        ensures
            cpu.wf(),
            cpu@.regs == Seq::new(32, |i: int| 0u64),
            cpu@.pc == entry_point,
            cpu@.csrs == Map::<u16, u64>::empty(),
            cpu@.bus == bus@,
    {
        let cpu = Self { registers: [0; 32], pc: entry_point, csrs: CsrFile::new(), bus };
        assert(cpu@.regs =~= Seq::new(32, |i: int| 0u64));
        cpu
    }

    pub fn read_reg(&self, r: u8) -> (v: u64)
        requires
            r < 32,
        ensures
            v == reg(self@, r),
    {
        if r == 0 {
            0
        } else {
            self.registers[r as usize]
        }
    }

    pub fn write_reg(&mut self, r: u8, val: u64)
        requires
            r < 32,
        ensures
            final(self)@ == with_reg(old(self)@, r, val),
            final(self).csrs == old(self).csrs,
            final(self).bus == old(self).bus,
    {
        if r != 0 {
            self.registers[r as usize] = val;
        }
    }

    pub fn read_csr(&self, addr: u16) -> (r: Result<u64, CpuError>)
        requires
            self.wf(),
        ensures
            r == Ok::<u64, CpuError>(csr_value(self@, addr)),
    {
        match self.csrs.get(addr) {
            Some(v) => Ok(v),
            None => Ok(0),
        }
    }

    pub fn write_csr(&mut self, addr: u16, val: u64) -> (r: Result<(), CpuError>)
        requires
            old(self).wf(),
        ensures
            final(self).wf(),
            final(self)@ == with_csr(old(self)@, addr, val),
            final(self).bus == old(self).bus,
            r is Ok,
    {
        self.csrs.insert(addr, val);
        Ok(())
    }

    /// Fetches the instruction at `pc`, decodes it and executes it.
    pub fn step(&mut self) -> (r: Result<(), CpuError>)
        requires
            old(self).wf(),
        ensures
            final(self).wf(),
            (final(self)@, r) == step_spec(old(self)@),
    {
        proof {
            lemma_bus_load_bound(self.bus@, self.pc, 4);
            vstd::arithmetic::power2::lemma2_to64();
            reveal(step_spec);
        }
        let raw = self.bus.load(self.pc, 4)? as u32;
        let instr = decode(raw)?;
        execute(instr, self)
    }

    /// One cycle of a run: executes an instruction and tells whether the run goes on
    /// (`None`) or how it ended, `ebreak` ending it successfully.
    pub fn run_step(&mut self) -> (r: Option<Result<(), CpuError>>)
        requires
            old(self).wf(),
        ensures
            final(self).wf(),
            final(self)@ == step_spec(old(self)@).0,
            r == if step_spec(old(self)@).1 is Ok {
                None::<Result<(), CpuError>>
            } else {
                Some(run_outcome(step_spec(old(self)@).1))
            },
    {
        match self.step() {
            Ok(()) => None,
            Err(CpuError::Ebreak) => Some(Ok(())),
            Err(other) => Some(Err(other)),
        }
    }

    /// Steps until an instruction fails; `ebreak` ends the run successfully. A run stops
    /// after `u64::MAX` cycles at the latest.
    pub fn run(&mut self) -> (r: Result<(), CpuError>)
        requires
            old(self).wf(),
        ensures
            final(self).wf(),
            exists|n: nat| run_ends(old(self)@, n, final(self)@, r),
    {
        let mut executed: u64 = 0;
        loop
            invariant
                self.wf(),
                steps(old(self)@, executed as nat) == Some(self@),
            decreases u64::MAX - executed,
        {
            if executed == u64::MAX {
                assert(run_ends(old(self)@, executed as nat, self@, Ok(())));
                return Ok(());
            }
            let ghost before = self@;
            if let Some(outcome) = self.run_step() {
                proof {
                    lemma_failed_step_keeps_state(before);
                    assert(run_ends(old(self)@, executed as nat, self@, outcome));
                }
                return outcome;
            }
            executed = executed + 1;
        }
    }
}

/// A cycle that fails leaves the machine as it was.
pub proof fn lemma_failed_step_keeps_state(s: CpuState)
    ensures
        step_spec(s).1 is Err ==> step_spec(s).0 == s,
{
    reveal(step_spec);
    reveal(crate::execute::base_spec);
}

/// Writing register `x0` changes nothing, and `x0` reads zero in every state.
pub proof fn lemma_x0_is_hardwired(s: CpuState, v: u64)
    ensures
        with_reg(s, 0, v) == s,
        reg(s, 0) == 0,
{
}

/// A register reads back the value last written to it, and writing one register leaves
/// the others as they were.
pub proof fn lemma_register_read_after_write(s: CpuState, r: u8, v: u64, other: u8)
    requires
        0 < r < 32,
        other < 32,
        s.regs.len() == 32,
    ensures
        reg(with_reg(s, r, v), r) == v,
        other != r ==> reg(with_reg(s, r, v), other) == reg(s, other),
{
}

/// A CSR reads back the value last written to it; the other CSRs keep their values,
/// and a CSR never written reads zero.
pub proof fn lemma_csr_read_after_write(s: CpuState, addr: u16, v: u64, other: u16)
    ensures
        csr_value(with_csr(s, addr, v), addr) == v,
        other != addr ==> csr_value(with_csr(s, addr, v), other) == csr_value(s, other),
        !s.csrs.contains_key(other) ==> csr_value(s, other) == 0,
{
}

/// A run that ends successfully within its budget stops on an `ebreak`: the word at the
/// final pc is fetched and decodes to `ebreak`.
pub proof fn lemma_successful_run_stops_on_ebreak(s: CpuState, n: nat, fin: CpuState)
    requires
        run_ends(s, n, fin, Ok(())),
        n < u64::MAX,
    ensures
        bus_load_spec(fin.bus, fin.pc, 4) is Ok,
        decode_spec(bus_load_spec(fin.bus, fin.pc, 4)->Ok_0 as u32) == Some(
            AnyInstruction::Base(Instruction::Ebreak),
        ),
{
    reveal(step_spec);
    if let Ok(word) = bus_load_spec(fin.bus, fin.pc, 4) {
        if let Some(instr) = decode_spec(word as u32) {
            crate::execute::lemma_only_ebreak_breaks(fin, instr);
        }
    }
}

/// A cycle fetches the 4-byte word at the pc and executes what it decodes to: a fetch the
/// bus refuses stops with the bus's error, a word that decodes to nothing stops as an
/// illegal instruction carrying that word, and both leave the state as it was.
pub proof fn lemma_cycle_executes_the_word_at_pc(s: CpuState)
    ensures
        bus_load_spec(s.bus, s.pc, 4) is Err ==> step_spec(s) == (
            s,
            Err::<(), CpuError>(bus_load_spec(s.bus, s.pc, 4)->Err_0),
        ),
        bus_load_spec(s.bus, s.pc, 4) is Ok && decode_spec(bus_load_spec(s.bus, s.pc, 4)->Ok_0 as u32)
            is None ==> step_spec(s) == (
            s,
            Err::<(), CpuError>(
                CpuError::IllegalInstruction(bus_load_spec(s.bus, s.pc, 4)->Ok_0 as u32),
            ),
        ),
        bus_load_spec(s.bus, s.pc, 4) is Ok && decode_spec(bus_load_spec(s.bus, s.pc, 4)->Ok_0 as u32)
            is Some ==> step_spec(s) == execute_spec(
            s,
            decode_spec(bus_load_spec(s.bus, s.pc, 4)->Ok_0 as u32)->Some_0,
        ),
{
    reveal(step_spec);
}

} // verus!
