//! Replaying a recorded trace: moving a cursor over its snapshots.
use vstd::arithmetic::power2::pow2;
use vstd::prelude::*;

use crate::error::{CpuError, CpuResult};
use crate::snapshot::CpuSnapshot;
use crate::trace::{is_trace_error, TraceFile};

verus! {

/// The decimal digits of `n`, most significant first, without leading zeros.
pub open spec fn decimal(n: nat) -> Seq<char>
    decreases n,
{
    if n < 10 {
        seq![(n + 48) as char]
    } else {
        decimal(n / 10).push(((n % 10) + 48) as char)
    }
}

/// The message of a seek to a cycle that the trace does not hold.
pub open spec fn missing_cycle_message(cycle: u64) -> Seq<char> {
    "cycle "@ + decimal(cycle as nat) + " not in trace"@
}

/// Formats the message for a seek to a cycle that the trace does not hold.
/// Trusted: `format!` writes a `u64` argument in decimal, as its documentation says.
#[verifier::external_body]
fn missing_cycle_error(cycle: u64) -> (msg: String)
    ensures
        msg@ == missing_cycle_message(cycle),
{
    format!("cycle {} not in trace", cycle)
}

/// The ABI names of the integer registers, with their numbers.
pub const REG_NAMES: [&'static str; 32] = [
    "x0/zero",
    "x1/ra",
    "x2/sp",
    "x3/gp",
    "x4/tp",
    "x5/t0",
    "x6/t1",
    "x7/t2",
    "x8/s0",
    "x9/s1",
    "x10/a0",
    "x11/a1",
    "x12/a2",
    "x13/a3",
    "x14/a4",
    "x15/a5",
    "x16/a6",
    "x17/a7",
    "x18/s2",
    "x19/s3",
    "x20/s4",
    "x21/s5",
    "x22/s6",
    "x23/s7",
    "x24/s8",
    "x25/s9",
    "x26/s10",
    "x27/s11",
    "x28/t3",
    "x29/t4",
    "x30/t5",
    "x31/t6",
];

/// The lower-case hexadecimal digit of `d`.
pub open spec fn hex_digit(d: nat) -> char {
    if d < 10 {
        (d + 48) as char
    } else {
        (d + 87) as char
    }
}

/// The 16 hexadecimal digits of `v`, most significant first.
pub open spec fn hex16(v: u64) -> Seq<char> {
    Seq::new(16, |i: int| hex_digit((v as nat / pow2((4 * (15 - i)) as nat)) % 16))
}

/// `s` preceded by as many spaces as make it `width` characters long.
pub open spec fn right_aligned(s: Seq<char>, width: nat) -> Seq<char> {
    if s.len() < width {
        Seq::new((width - s.len()) as nat, |i: int| ' ') + s
    } else {
        s
    }
}

/// The first line of a state display: the cycle and the pc.
pub open spec fn state_heading(cycle: u64, pc: u64) -> Seq<char> {
    "cycle "@ + decimal(cycle as nat) + " pc 0x"@ + hex16(pc)
}

/// The display of one register: its name right-aligned in six columns, then its value.
pub open spec fn register_cell(name: Seq<char>, value: u64) -> Seq<char> {
    right_aligned(name, 6) + " 0x"@ + hex16(value)
}

/// The cells of registers `4 row` to `4 row + n - 1`, separated by two spaces.
pub open spec fn register_row(regs: Seq<u64>, row: nat, n: nat) -> Seq<char>
    decreases n,
{
    if n == 0 {
        Seq::empty()
    } else if n == 1 {
        register_cell(REG_NAMES@[4 * row as int]@, regs[4 * row as int])
    } else {
        register_row(regs, row, (n - 1) as nat) + "  "@ + register_cell(
            REG_NAMES@[(4 * row + n - 1) as int]@,
            regs[(4 * row + n - 1) as int],
        )
    }
}

/// The heading and the first `rows` rows of four registers, one per line.
pub open spec fn state_lines(snap: CpuSnapshot, rows: nat) -> Seq<char>
    decreases rows,
{
    if rows == 0 {
        state_heading(snap.cycle, snap.pc)
    } else {
        state_lines(snap, (rows - 1) as nat) + "\n"@ + register_row(
            snap.registers@,
            (rows - 1) as nat,
            4,
        )
    }
}

/// The display of a snapshot: the heading, then eight rows of four registers.
pub open spec fn state_display(snap: CpuSnapshot) -> Seq<char> {
    state_lines(snap, 8)
}

/// Formats the heading of a state display.
/// Trusted: `format!` writes a `u64` with `{}` in decimal and with `{:016x}` as 16
/// lower-case hexadecimal digits padded with zeros, as its documentation says.
#[verifier::external_body]
fn format_heading(cycle: u64, pc: u64) -> (line: String)
    ensures
        line@ == state_heading(cycle, pc),
{
    format!("cycle {} pc 0x{:016x}", cycle, pc)
}

/// Formats the display of one register.
/// Trusted: `format!` pads a string argument with `{:>6}` on the left with spaces to six
/// characters, and writes a `u64` with `{:016x}` as 16 lower-case hexadecimal digits
/// padded with zeros, as its documentation says.
#[verifier::external_body]
fn format_register(name: &str, value: u64) -> (cell: String)
    ensures
        cell@ == register_cell(name@, value),
{
    format!("{:>6} 0x{:016x}", name, value)
}

/// The text that shows a snapshot: a heading with the cycle and the pc, then the 32
/// registers, four per line.
pub fn state_text(snap: &CpuSnapshot) -> (text: String)
    ensures
        text@ == state_display(*snap),
{
    let mut text = format_heading(snap.cycle, snap.pc);
    let names = REG_NAMES;
    let mut row: usize = 0;
    while row < 8
        invariant
            row <= 8,
            names@ == REG_NAMES@,
            text@ == state_lines(*snap, row as nat),
        decreases 8 - row,
    {
        text.append("\n");
        let mut col: usize = 0;
        while col < 4
            invariant
                row < 8,
                col <= 4,
                names@ == REG_NAMES@,
                text@ == state_lines(*snap, row as nat) + "\n"@ + register_row(
                    snap.registers@,
                    row as nat,
                    col as nat,
                ),
            decreases 4 - col,
        {
            if col > 0 {
                text.append("  ");
            }
            let idx = 4 * row + col;
            let cell = format_register(names[idx], snap.registers[idx]);
            text.append(cell.as_str());
            proof {
                if col == 0 {
                    assert(Seq::<char>::empty() + register_cell(
                        REG_NAMES@[4 * row as int]@,
                        snap.registers@[4 * row as int],
                    ) =~= register_cell(REG_NAMES@[4 * row as int]@, snap.registers@[4 * row as int]));
                }
            }
            col = col + 1;
        }
        row = row + 1;
    }
    text
}

/// The cycles of the snapshots increase from each snapshot to the next, as in a recording.
pub open spec fn cycles_increasing(snaps: Seq<CpuSnapshot>) -> bool {
    forall|i: int, j: int| 0 <= i < j < snaps.len() ==> snaps[i].cycle < snaps[j].cycle
}

/// Where a bisection for `cycle` over the snapshots `low..high` stops: it looks at the
/// middle snapshot, goes on in the upper half when that snapshot's cycle is lower, in the
/// lower half when it is higher, and stops on it when it is `cycle`; `None` once the range
/// is empty. On a trace whose cycles increase this finds the snapshot of `cycle` wherever
/// there is one; on any other trace it is still what a seek finds.
pub open spec fn bisect(snaps: Seq<CpuSnapshot>, cycle: u64, low: int, high: int) -> Option<int>
    decreases high - low,
{
    if 0 <= low < high <= snaps.len() {
        let mid = low + (high - low) / 2;
        if snaps[mid].cycle < cycle {
            bisect(snaps, cycle, mid + 1, high)
        } else if snaps[mid].cycle > cycle {
            bisect(snaps, cycle, low, mid)
        } else {
            Some(mid)
        }
    } else {
        None
    }
}

/// The index of the snapshot that a seek to `cycle` finds, if it finds one.
pub open spec fn seek_index(snaps: Seq<CpuSnapshot>, cycle: u64) -> Option<int> {
    bisect(snaps, cycle, 0, snaps.len() as int)
}

/// A cursor over the snapshots of a trace.
pub struct TraceReplayer {
    trace: TraceFile,
    cursor: u64,
}

impl TraceReplayer {
    /// The snapshots of the trace.
    pub closed spec fn snapshots(&self) -> Seq<CpuSnapshot> {
        self.trace.snapshots@
    }

    /// The cycle count that the trace's header states.
    pub closed spec fn header_cycle_count(&self) -> u64 {
        self.trace.header.cycle_count
    }

    /// The index of the snapshot under the cursor.
    pub closed spec fn position(&self) -> nat {
        self.cursor as nat
    }

    /// The cursor stands on a snapshot. Every replay keeps it so (see the type invariant
    /// below), and each method says so of the replay it leaves.
    pub open spec fn wf(&self) -> bool {
        self.position() < self.snapshots().len()
    }

    /// Every replay keeps its cursor on a snapshot of its trace.
    #[verifier::type_invariant]
    pub(crate) open spec fn cursor_on_snapshot(&self) -> bool {
        self.wf()
    }

    /// Starts a replay of `trace` at its first snapshot. A trace without snapshots, or
    /// whose header counts another number of them, is refused.
    pub fn load(trace: TraceFile) -> (r: CpuResult<Self>)
        ensures
            r is Ok <==> trace.snapshots@.len() > 0 && trace.header.cycle_count
                == trace.snapshots@.len(),
            r is Ok ==> r->Ok_0.wf() && r->Ok_0.position() == 0 && r->Ok_0.snapshots()
                == trace.snapshots@ && r->Ok_0.header_cycle_count() == trace.header.cycle_count,
            r is Err ==> is_trace_error(
                r->Err_0,
                if trace.snapshots@.len() == 0 {
                    "trace contains no snapshots"@
                } else {
                    "trace header cycle count does not match snapshot count"@
                },
            ),
    {
        if trace.snapshots.len() == 0 {
            return Err(CpuError::Serialization("trace contains no snapshots".to_owned()));
        }
        if trace.header.cycle_count != trace.snapshots.len() as u64 {
            return Err(
                CpuError::Serialization(
                    "trace header cycle count does not match snapshot count".to_owned(),
                ),
            );
        }
        Ok(Self { trace, cursor: 0 })
    }

    /// Moves the cursor to the snapshot of cycle `cycle`.
    pub fn goto(&mut self, cycle: u64) -> (r: CpuResult<&CpuSnapshot>)
        ensures
            final(self).wf(),
            final(self).snapshots() == old(self).snapshots(),
            final(self).header_cycle_count() == old(self).header_cycle_count(),
            r is Ok ==> *r->Ok_0 == final(self).snapshots()[final(self).position() as int]
                && final(self).snapshots()[final(self).position() as int].cycle == cycle,
            r is Err ==> final(self).position() == old(self).position() && is_trace_error(
                r->Err_0,
                missing_cycle_message(cycle),
            ),
            r is Ok <==> seek_index(old(self).snapshots(), cycle) is Some,
            r is Ok ==> final(self).position() == seek_index(old(self).snapshots(), cycle)->Some_0,
            cycles_increasing(old(self).snapshots()) ==> (r is Ok <==> exists|i: int|
                0 <= i < old(self).snapshots().len() && #[trigger] old(self).snapshots()[i].cycle
                    == cycle),
    {
        proof {
            use_type_invariant(&*self);
            assert(self.trace.snapshots@.len() == self.trace.snapshots.len());
        }
        let index = self.index_for_cycle(cycle)?;
        self.cursor = index as u64;
        Ok(self.current())
    }

    /// Moves the cursor one snapshot forward, unless it is on the last one.
    pub fn step_forward(&mut self) -> (r: CpuResult<&CpuSnapshot>)
        ensures
            final(self).wf(),
            final(self).snapshots() == old(self).snapshots(),
            final(self).header_cycle_count() == old(self).header_cycle_count(),
            r is Ok <==> old(self).position() + 1 < old(self).snapshots().len(),
            r is Ok ==> final(self).position() == old(self).position() + 1 && *r->Ok_0
                == final(self).snapshots()[final(self).position() as int],
            r is Err ==> final(self).position() == old(self).position() && is_trace_error(
                r->Err_0,
                "trace cursor at end"@,
            ),
    {
        proof {
            use_type_invariant(&*self);
            assert(self.trace.snapshots@.len() == self.trace.snapshots.len());
        }
        let next = self.cursor + 1;
        if next >= self.trace.snapshots.len() as u64 {
            return Err(CpuError::Serialization("trace cursor at end".to_owned()));
        }
        self.cursor = next;
        Ok(self.current())
    }

    /// Moves the cursor one snapshot back, unless it is on the first one.
    pub fn step_back(&mut self) -> (r: CpuResult<&CpuSnapshot>)
        ensures
            final(self).wf(),
            final(self).snapshots() == old(self).snapshots(),
            final(self).header_cycle_count() == old(self).header_cycle_count(),
            r is Ok <==> old(self).position() > 0,
            r is Ok ==> final(self).position() == old(self).position() - 1 && *r->Ok_0
                == final(self).snapshots()[final(self).position() as int],
            r is Err ==> final(self).position() == old(self).position() && is_trace_error(
                r->Err_0,
                "trace cursor at beginning"@,
            ),
    {
        proof {
            use_type_invariant(&*self);
            assert(self.trace.snapshots@.len() == self.trace.snapshots.len());
        }
        if self.cursor == 0 {
            return Err(CpuError::Serialization("trace cursor at beginning".to_owned()));
        }
        self.cursor = self.cursor - 1;
        Ok(self.current())
    }

    /// The snapshot under the cursor.
    pub fn current(&self) -> (s: &CpuSnapshot)
        ensures
            self.wf(),
            *s == self.snapshots()[self.position() as int],
    {
        proof {
            use_type_invariant(&*self);
            assert(self.trace.snapshots@.len() == self.trace.snapshots.len());
        }
        &self.trace.snapshots[self.cursor as usize]
    }

    /// The text that shows the snapshot under the cursor.
    pub fn state_text(&self) -> (text: String)
        ensures
            self.wf(),
            text@ == state_display(self.snapshots()[self.position() as int]),
    {
        proof {
            use_type_invariant(&*self);
            assert(self.trace.snapshots@.len() == self.trace.snapshots.len());
        }
        state_text(self.current())
    }

    /// The cycle count that the trace's header states.
    pub fn total_cycles(&self) -> (n: u64)
        ensures
            n == self.header_cycle_count(),
    {
        self.trace.header.cycle_count
    }

    /// The index of the snapshot of cycle `cycle`, found by bisection.
    fn index_for_cycle(&self, cycle: u64) -> (r: CpuResult<usize>)
        ensures
            r is Ok ==> r->Ok_0 < self.snapshots().len() && self.snapshots()[r->Ok_0 as int].cycle
                == cycle,
            r is Err ==> is_trace_error(
                r->Err_0,
                if self.snapshots().len() == 0 {
                    "trace contains no snapshots"@
                } else {
                    missing_cycle_message(cycle)
                },
            ),
            r is Ok <==> seek_index(self.snapshots(), cycle) is Some,
            r is Ok ==> r->Ok_0 == seek_index(self.snapshots(), cycle)->Some_0,
            cycles_increasing(self.snapshots()) ==> (r is Ok <==> exists|i: int|
                0 <= i < self.snapshots().len() && #[trigger] self.snapshots()[i].cycle == cycle),
    {
        let snapshots = &self.trace.snapshots;
        if snapshots.len() == 0 {
            return Err(CpuError::Serialization("trace contains no snapshots".to_owned()));
        }
        let mut low: usize = 0;
        let mut high: usize = snapshots.len();
        while low < high
            invariant
                low <= high <= snapshots@.len(),
                snapshots@ == self.snapshots(),
                bisect(snapshots@, cycle, low as int, high as int) == seek_index(
                    snapshots@,
                    cycle,
                ),
                cycles_increasing(self.snapshots()) ==> forall|i: int|
                    0 <= i < snapshots@.len() && #[trigger] snapshots@[i].cycle == cycle ==> low <= i
                        < high,
            decreases high - low,
        {
            let mid = low + (high - low) / 2;
            let c = snapshots[mid].cycle;
            if c < cycle {
                low = mid + 1;
            } else if c > cycle {
                high = mid;
            } else {
                return Ok(mid);
            }
        }
        Err(CpuError::Serialization(missing_cycle_error(cycle)))
    }
}

} // verus!
