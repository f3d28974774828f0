//! Recording: running the processor while keeping a snapshot of every cycle.
use vstd::prelude::*;

use crate::bus::bus_load_spec;
use crate::cpu::{lemma_successful_run_stops_on_ebreak, lemma_failed_step_keeps_state, run_ends, run_outcome, step_spec, steps, Cpu, CpuState};
use crate::csr::{keys_increasing, pairs_map};
use crate::decode::decode_spec;
use crate::error::CpuError;
use crate::isa::{AnyInstruction, Instruction};
use crate::snapshot::CpuSnapshot;
use crate::replayer::cycles_increasing;
use crate::trace::{TraceFile, TRACE_VERSION};

verus! {

/// `snap` is the state `s` as seen at cycle `cycle`: the cycle number, the pc, the raw
/// register file, and the CSRs in increasing address order.
pub open spec fn captures(snap: CpuSnapshot, s: CpuState, cycle: u64) -> bool {
    &&& snap.cycle == cycle
    &&& snap.pc == s.pc
    &&& snap.registers@ == s.regs
    &&& keys_increasing(snap.csrs@)
    &&& pairs_map(snap.csrs@) == s.csrs
}

/// `t` is the trace of the snapshots `history`: a header with the magic, the current
/// version and the number of snapshots, then copies of the snapshots in order.
pub open spec fn records(t: TraceFile, history: Seq<CpuSnapshot>) -> bool {
    &&& t.header.has_magic()
    &&& t.header.version == TRACE_VERSION
    &&& t.header.cycle_count == history.len()
    &&& t.snapshots@.len() == history.len()
    &&& forall|i: int| 0 <= i < history.len() ==> #[trigger] t.snapshots@[i]@ == history[i]@
}

/// A processor that keeps a snapshot of its state at every cycle, from cycle 0 on.
pub struct SnapshotRecorder {
    cpu: Cpu,
    snapshots: Vec<CpuSnapshot>,
    cycle: u64,
    initial: Ghost<CpuState>,
}

impl SnapshotRecorder {
    /// The state the recording started from.
    pub closed spec fn initial(&self) -> CpuState {
        self.initial@
    }

    /// The processor's current state.
    pub closed spec fn state(&self) -> CpuState {
        self.cpu@
    }

    /// The snapshots taken so far, the one of cycle 0 first.
    pub closed spec fn history(&self) -> Seq<CpuSnapshot> {
        self.snapshots@
    }

    /// The number of cycles executed.
    pub closed spec fn cycles(&self) -> u64 {
        self.cycle
    }

    /// The recording is faithful: snapshot `i` captures the state after `i` cycles from the
    /// initial state, and the processor is in the state after all of them.
    pub closed spec fn wf(&self) -> bool {
        &&& self.cpu.wf()
        &&& self.snapshots.len() == self.cycle + 1
        &&& steps(self.initial@, self.cycle as nat) == Some(self.cpu@)
        &&& forall|i: nat|
            i <= self.cycle ==> #[trigger] steps(self.initial@, i) is Some && captures(
                self.snapshots@[i as int],
                steps(self.initial@, i)->Some_0,
                i as u64,
            )
    }

    pub fn new(cpu: Cpu) -> (r: Self)
        requires
            cpu.wf(),
        ensures
            r.wf(),
            r.initial() == cpu@,
            r.state() == cpu@,
            r.cycles() == 0,
            r.history().len() == 1,
            captures(r.history()[0], cpu@, 0),
    {
        let mut recorder = Self {
            cpu,
            snapshots: Vec::new(),
            cycle: 0,
            initial: Ghost(cpu@),
        };
        let first = recorder.capture_snapshot();
        recorder.snapshots.push(first);
        proof {
            assert(steps(recorder.initial@, 0) == Some(recorder.cpu@));
        }
        recorder
    }

    /// Executes one cycle and, when it succeeds, records the new state.
    pub fn step(&mut self) -> (r: Result<(), CpuError>)
        requires
            old(self).wf(),
        ensures
            final(self).wf(),
            final(self).initial() == old(self).initial(),
            r == step_spec(old(self).state()).1,
            r is Ok ==> final(self).cycles() == old(self).cycles() + 1 && final(self).state()
                == step_spec(old(self).state()).0 && final(self).history().drop_last() == old(
                self,
            ).history() && captures(
                final(self).history().last(),
                final(self).state(),
                final(self).cycles(),
            ),
            r is Err ==> final(self).cycles() == old(self).cycles() && final(self).state() == old(
                self,
            ).state() && final(self).history() == old(self).history(),
    {
        let ghost before = self.cpu@;
        let res = self.cpu.step();
        if res.is_err() {
            proof {
                lemma_failed_step_keeps_state(before);
            }
            return res;
        }
        self.cycle = self.cycle.wrapping_add(1);
        let snap = self.capture_snapshot();
        self.snapshots.push(snap);
        proof {
            assert(steps(self.initial@, self.cycle as nat) == Some(self.cpu@));
            assert(self.snapshots@.drop_last() =~= old(self).snapshots@);
            assert forall|i: nat| i <= self.cycle implies #[trigger] steps(self.initial@, i) is Some
                && captures(self.snapshots@[i as int], steps(self.initial@, i)->Some_0, i as u64) by {
                if i < self.cycle {
                    assert(self.snapshots@[i as int] == old(self).snapshots@[i as int]);
                }
            }
        }
        res
    }

    /// One cycle of a recording run: executes and records a cycle, and tells whether the
    /// run goes on (`None`) or how it ended, `ebreak` ending it successfully.
    pub fn run_step(&mut self) -> (r: Option<Result<(), CpuError>>)
        requires
            old(self).wf(),
        ensures
            final(self).wf(),
            final(self).initial() == old(self).initial(),
            final(self).state() == step_spec(old(self).state()).0,
            r is None <==> step_spec(old(self).state()).1 is Ok,
            r is Some ==> r->Some_0 == run_outcome(step_spec(old(self).state()).1),
            r is None ==> final(self).cycles() == old(self).cycles() + 1
                && final(self).history().drop_last() == old(self).history() && captures(
                final(self).history().last(),
                final(self).state(),
                final(self).cycles(),
            ),
            r is Some ==> final(self).cycles() == old(self).cycles() && final(self).history()
                == old(self).history(),
    {
        let ghost before = self.cpu@;
        match self.step() {
            Ok(()) => None,
            Err(CpuError::Ebreak) => {
                proof {
                    lemma_failed_step_keeps_state(before);
                }
                Some(Ok(()))
            },
            Err(other) => {
                proof {
                    lemma_failed_step_keeps_state(before);
                }
                Some(Err(other))
            },
        }
    }

    /// Steps until a cycle fails; `ebreak` ends the recording successfully.
    pub fn run(&mut self) -> (r: Result<(), CpuError>)
        requires
            old(self).wf(),
        ensures
            final(self).wf(),
            final(self).initial() == old(self).initial(),
            exists|n: nat|
                run_ends(old(self).state(), n, final(self).state(), r) && final(self).cycles()
                    == old(self).cycles() + n,
    {
        let ghost start = self.cpu@;
        let ghost start_cycle = self.cycle;
        loop
            invariant
                self.wf(),
                self.initial() == old(self).initial(),
                start == old(self).state(),
                start_cycle == old(self).cycles(),
                start_cycle <= self.cycle,
                steps(start, (self.cycle - start_cycle) as nat) == Some(self.cpu@),
            decreases u64::MAX - self.cycle,
        {
            let ghost before = self.cpu@;
            let ghost n = (self.cycle - start_cycle) as nat;
            if let Some(outcome) = self.run_step() {
                proof {
                    lemma_failed_step_keeps_state(before);
                    assert(run_ends(start, n, self.cpu@, outcome));
                }
                return outcome;
            }
        }
    }

    /// The snapshot taken at cycle `cycle`, if the recording has reached it.
    pub fn snapshot_at(&self, cycle: u64) -> (r: Option<&CpuSnapshot>)
        requires
            self.wf(),
        ensures
            r == if cycle <= self.cycles() {
                Some(&self.history()[cycle as int])
            } else {
                None::<&CpuSnapshot>
            },
    {
        let mut i: usize = 0;
        while i < self.snapshots.len()
            invariant
                self.wf(),
                i <= self.snapshots@.len(),
                forall|k: int| 0 <= k < i ==> #[trigger] self.snapshots@[k].cycle != cycle,
            decreases self.snapshots@.len() - i,
        {
            proof {
                assert(steps(self.initial@, i as nat) is Some);
            }
            if self.snapshots[i].cycle == cycle {
                return Some(&self.snapshots[i]);
            }
            i = i + 1;
        }
        proof {
            if cycle <= self.cycle {
                assert(steps(self.initial@, cycle as nat) is Some);
                assert(self.snapshots@[cycle as int].cycle == cycle);
            }
        }
        None
    }

    /// All snapshots taken so far, the one of cycle 0 first.
    pub fn snapshots(&self) -> (r: &[CpuSnapshot])
        ensures
            r@ == self.history(),
    {
        self.snapshots.as_slice()
    }

    /// The number of cycles executed since the recording started.
    pub fn cycle_count(&self) -> (r: u64)
        ensures
            r == self.cycles(),
    {
        self.cycle
    }

    /// The bytes that the recorded program has written to the UART, oldest first.
    pub fn uart_output(&self) -> (out: &[u8])
        ensures
            out@ == self.state().bus.uart,
    {
        self.cpu.bus.uart_output()
    }

    /// The trace that saving this recording writes: a header that counts the snapshots,
    /// and the snapshots.
    pub fn save(&self) -> (t: TraceFile)
        requires
            self.wf(),
        ensures
            records(t, self.history()),
    {
        TraceFile::new(self.snapshots.as_slice())
    }

    fn capture_snapshot(&self) -> (snap: CpuSnapshot)
        requires
            self.cpu.wf(),
        ensures
            captures(snap, self.cpu@, self.cycle),
    {
        let csrs = self.cpu.csrs.to_pairs();
        CpuSnapshot { cycle: self.cycle, pc: self.cpu.pc, registers: self.cpu.registers, csrs }
    }
}

/// Snapshot `i` of a recording is the state after `i` cycles from the state the recording
/// started in, taken at cycle `i`.
pub proof fn lemma_history_replays(recorder: &SnapshotRecorder, i: int)
    requires
        recorder.wf(),
        0 <= i <= recorder.cycles(),
    ensures
        recorder.history().len() == recorder.cycles() + 1,
        steps(recorder.initial(), i as nat) is Some,
        captures(recorder.history()[i], steps(recorder.initial(), i as nat)->Some_0, i as u64),
        steps(recorder.initial(), recorder.cycles() as nat) == Some(recorder.state()),
{
    assert(steps(recorder.initial@, i as nat) is Some);
    assert(captures(
        recorder.snapshots@[i],
        steps(recorder.initial@, i as nat)->Some_0,
        i as u64,
    ));
}

/// The trace saved from a recording holds one snapshot per cycle, the one of cycle `i` at
/// index `i`, so that a replay accepts it and can seek to every recorded cycle.
pub proof fn lemma_saved_trace_replayable(recorder: &SnapshotRecorder, t: TraceFile)
    requires
        recorder.wf(),
        records(t, recorder.history()),
    ensures
        t.snapshots@.len() == recorder.cycles() + 1,
        t.header.cycle_count == t.snapshots@.len(),
        forall|i: int| 0 <= i < t.snapshots@.len() ==> #[trigger] t.snapshots@[i].cycle == i,
        cycles_increasing(t.snapshots@),
{
    assert forall|i: int| 0 <= i < t.snapshots@.len() implies #[trigger] t.snapshots@[i].cycle == i by {
        assert(steps(recorder.initial@, i as nat) is Some);
        assert(t.snapshots@[i]@ == recorder.history()[i]@);
    }
}

/// A recording run that ended successfully within its budget ends on an `ebreak`: the
/// last snapshot's pc is the address of a word that decodes to `ebreak`.
pub proof fn lemma_recording_ends_on_ebreak(recorder: &SnapshotRecorder, s: CpuState, n: nat)
    requires
        recorder.wf(),
        run_ends(s, n, recorder.state(), Ok(())),
        n < u64::MAX,
    ensures
        recorder.history().last().pc == recorder.state().pc,
        bus_load_spec(recorder.state().bus, recorder.history().last().pc, 4) is Ok,
        decode_spec(bus_load_spec(recorder.state().bus, recorder.history().last().pc, 4)->Ok_0 as u32)
            == Some(AnyInstruction::Base(Instruction::Ebreak)),
{
    lemma_history_replays(recorder, recorder.cycles() as int);
    lemma_successful_run_stops_on_ebreak(s, n, recorder.state());
}

} // verus!
