use riscv_emu::bus::Bus;
use riscv_emu::cpu::Cpu;
use riscv_emu::error::CpuError;
use riscv_emu::recorder::SnapshotRecorder;
use riscv_emu::replayer::TraceReplayer;
use riscv_emu::snapshot::{CpuSnapshot, SnapshotDiff};
use riscv_emu::trace::{TraceFile, TraceHeader, TRACE_MAGIC, TRACE_VERSION};

const RAM_BASE: u64 = 0x8000_0000;
const EBREAK: u32 = 0x0010_0073;

fn encode_i(imm: i32, rs1: u8, funct3: u32, rd: u8, opcode: u32) -> u32 {
    let imm = (imm as u32) & 0x0fff;
    (imm << 20) | ((rs1 as u32) << 15) | (funct3 << 12) | ((rd as u32) << 7) | opcode
}

fn load_recorder(program: &[u32]) -> SnapshotRecorder {
    let mut bus = Bus::new(0x2000);
    let mut bytes = Vec::with_capacity(program.len() * 4);
    for word in program {
        bytes.extend_from_slice(&word.to_le_bytes());
    }
    bus.load_bytes(RAM_BASE, &bytes).unwrap();
    let cpu = Cpu::new(RAM_BASE, bus);
    SnapshotRecorder::new(cpu)
}

fn build_program() -> Vec<u32> {
    let mut program = Vec::new();
    program.push(encode_i(1, 0, 0b000, 1, 0b001_0011));
    for _ in 0..5 {
        program.push(encode_i(1, 1, 0b000, 1, 0b001_0011));
    }
    program.push(EBREAK);
    program
}

fn error_message(e: CpuError) -> String {
    match e {
        CpuError::Serialization(m) => m,
        other => panic!("unexpected error {other:?}"),
    }
}

#[test]
fn test_record_and_seek() {
    let program = build_program();
    let mut recorder = load_recorder(&program);
    recorder.run().unwrap();

    let entry = RAM_BASE;
    assert_eq!(recorder.snapshot_at(0).unwrap().pc, entry);
    assert_eq!(recorder.snapshot_at(3).unwrap().registers[1], 3);
    assert_eq!(recorder.cycle_count(), 6);
}

#[test]
fn every_cycle_is_recorded_in_order() {
    let mut recorder = load_recorder(&build_program());
    recorder.run().unwrap();
    let snaps = recorder.snapshots();
    assert_eq!(snaps.len(), 7);
    for (i, s) in snaps.iter().enumerate() {
        assert_eq!(s.cycle, i as u64);
        assert_eq!(s.pc, RAM_BASE + 4 * i as u64);
        assert_eq!(s.registers[1], i as u64);
    }
    assert!(recorder.snapshot_at(7).is_none());
}

#[test]
fn failed_step_records_nothing() {
    let mut recorder = load_recorder(&[EBREAK]);
    assert!(matches!(recorder.step(), Err(CpuError::Ebreak)));
    assert_eq!(recorder.cycle_count(), 0);
    assert_eq!(recorder.snapshots().len(), 1);
}

#[test]
fn saved_trace_counts_its_snapshots() {
    let mut recorder = load_recorder(&build_program());
    recorder.run().unwrap();
    let trace = recorder.save();
    assert_eq!(trace.header.magic, TRACE_MAGIC);
    assert_eq!(&trace.header.magic, b"RVET");
    assert_eq!(trace.header.version, TRACE_VERSION);
    assert_eq!(trace.header.cycle_count, 7);
    assert_eq!(trace.snapshots.len(), 7);
    assert_eq!(trace.snapshots[3].registers, recorder.snapshots()[3].registers);
    assert!(trace.header.check_magic().is_ok());
    let bad = TraceHeader { magic: *b"RVEX", version: 1, cycle_count: 0 };
    assert_eq!(error_message(bad.check_magic().unwrap_err()), "invalid trace magic");
}

fn recorded_trace() -> TraceFile {
    let mut recorder = load_recorder(&build_program());
    recorder.run().unwrap();
    recorder.save()
}

#[test]
fn replay_moves_over_the_trace() {
    let mut replayer = TraceReplayer::load(recorded_trace()).unwrap();
    assert_eq!(replayer.current().cycle, 0);
    assert_eq!(replayer.total_cycles(), 7);
    assert_eq!(error_message(replayer.step_back().unwrap_err()), "trace cursor at beginning");
    assert_eq!(replayer.step_forward().unwrap().cycle, 1);
    assert_eq!(replayer.goto(6).unwrap().registers[1], 6);
    assert_eq!(error_message(replayer.step_forward().unwrap_err()), "trace cursor at end");
    assert_eq!(replayer.current().cycle, 6);
    assert_eq!(replayer.step_back().unwrap().cycle, 5);
    assert_eq!(error_message(replayer.goto(99).unwrap_err()), "cycle 99 not in trace");
    assert_eq!(replayer.current().cycle, 5);
    assert_eq!(replayer.goto(0).unwrap().pc, RAM_BASE);
}

#[test]
fn replay_refuses_malformed_traces() {
    let empty = TraceFile {
        header: TraceHeader { magic: TRACE_MAGIC, version: TRACE_VERSION, cycle_count: 0 },
        snapshots: Vec::new(),
    };
    assert_eq!(
        error_message(TraceReplayer::load(empty).err().unwrap()),
        "trace contains no snapshots"
    );
    let mut trace = recorded_trace();
    trace.header.cycle_count = 3;
    assert_eq!(
        error_message(TraceReplayer::load(trace).err().unwrap()),
        "trace header cycle count does not match snapshot count"
    );
}

#[test]
fn state_text_shows_cycle_pc_and_registers() {
    let mut replayer = TraceReplayer::load(recorded_trace()).unwrap();
    replayer.goto(3).unwrap();
    let text = replayer.state_text();
    let lines: Vec<&str> = text.split('\n').collect();
    assert_eq!(lines.len(), 9);
    assert_eq!(lines[0], "cycle 3 pc 0x000000008000000c");
    assert_eq!(
        lines[1],
        "x0/zero 0x0000000000000000   x1/ra 0x0000000000000003   x2/sp 0x0000000000000000   x3/gp 0x0000000000000000"
    );
    assert_eq!(
        lines[8],
        "x28/t3 0x0000000000000000  x29/t4 0x0000000000000000  x30/t5 0x0000000000000000  x31/t6 0x0000000000000000"
    );
}

fn snapshot(cycle: u64, pc: u64, regs: &[(usize, u64)], csrs: Vec<(u16, u64)>) -> CpuSnapshot {
    let mut registers = [0u64; 32];
    for (i, v) in regs {
        registers[*i] = *v;
    }
    CpuSnapshot { cycle, pc, registers, csrs }
}

#[test]
fn diff_lists_what_changed() {
    let prev = snapshot(4, 0x100, &[(1, 1), (2, 2)], vec![(0x300, 1), (0x305, 5), (0x340, 9)]);
    let next = snapshot(5, 0x100, &[(1, 1), (2, 7), (31, 4)], vec![(0x300, 2), (0x305, 5), (0x341, 3)]);
    let d = next.diff(&prev);
    assert_eq!(d.cycle, Some(5));
    assert_eq!(d.pc, None);
    assert_eq!(d.registers, vec![(2, 7), (31, 4)]);
    assert_eq!(d.csrs, vec![(0x300, 2), (0x341, 3)]);
    assert_eq!(d.csrs_removed, vec![0x340]);
    let back = d.apply_to(&prev);
    assert_eq!(back.cycle, next.cycle);
    assert_eq!(back.pc, next.pc);
    assert_eq!(back.registers, next.registers);
    assert_eq!(back.csrs, next.csrs);
}

#[test]
fn apply_skips_missing_registers_and_sorts_csrs() {
    let prev = snapshot(0, 0, &[], vec![(0x305, 1), (0x300, 2)]);
    let d = SnapshotDiff {
        cycle: None,
        pc: Some(8),
        registers: vec![(40, 1), (3, 9), (3, 10)],
        csrs: vec![(0x301, 7), (0x300, 4)],
        csrs_removed: vec![0x305],
    };
    let r = d.apply_to(&prev);
    assert_eq!(r.cycle, 0);
    assert_eq!(r.pc, 8);
    assert_eq!(r.registers[3], 10);
    assert_eq!(r.csrs, vec![(0x300, 4), (0x301, 7)]);
}

#[test]
fn diff_of_identical_snapshots_is_empty() {
    let s = snapshot(2, 4, &[(5, 5)], vec![(0x300, 1)]);
    let d = s.diff(&s.copy());
    assert_eq!(d.cycle, None);
    assert_eq!(d.pc, None);
    assert!(d.registers.is_empty());
    assert!(d.csrs.is_empty());
    assert!(d.csrs_removed.is_empty());
}

#[test]
fn run_step_records_until_the_run_ends() {
    let mut recorder = load_recorder(&build_program());
    for cycle in 1..=6 {
        assert!(recorder.run_step().is_none());
        assert_eq!(recorder.cycle_count(), cycle);
        assert_eq!(recorder.snapshots().len() as u64, cycle + 1);
    }
    assert!(matches!(recorder.run_step(), Some(Ok(()))));
    assert_eq!(recorder.cycle_count(), 6);
    assert_eq!(recorder.snapshots().len(), 7);
}

#[test]
fn a_successful_recording_ends_on_its_ebreak() {
    let program = build_program();
    let mut recorder = load_recorder(&program);
    recorder.run().unwrap();
    let last = recorder.snapshots().last().unwrap();
    assert_eq!(last.pc, RAM_BASE + 4 * (program.len() as u64 - 1));
    assert_eq!(program[program.len() - 1], EBREAK);
    for (i, s) in recorder.snapshots().iter().enumerate() {
        assert_eq!(s.cycle, i as u64);
        assert!(s.csrs.windows(2).all(|w| w[0].0 < w[1].0));
    }
}

#[test]
fn seeking_in_a_trace_out_of_order_follows_the_bisection() {
    let snaps = vec![
        snapshot(5, RAM_BASE, &[], vec![]),
        snapshot(1, RAM_BASE + 4, &[], vec![]),
        snapshot(3, RAM_BASE + 8, &[], vec![]),
    ];
    let trace = TraceFile {
        header: TraceHeader { magic: TRACE_MAGIC, version: TRACE_VERSION, cycle_count: 3 },
        snapshots: snaps,
    };
    let mut r = TraceReplayer::load(trace).unwrap();
    assert_eq!(r.goto(1).unwrap().pc, RAM_BASE + 4);
    assert_eq!(r.goto(3).unwrap().pc, RAM_BASE + 8);
    // Cycle 5 is in the trace, but the bisection passes it by.
    assert_eq!(error_message(r.goto(5).unwrap_err()), "cycle 5 not in trace");
    assert_eq!(r.current().cycle, 3);
}
