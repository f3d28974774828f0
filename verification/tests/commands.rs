use riscv_emu::bus::Bus;
use riscv_emu::cpu::Cpu;
use riscv_emu::error::CpuError;
use riscv_emu::loader::{load_cpu, ram_bytes, LoadError};
use riscv_emu::recorder::SnapshotRecorder;
use riscv_emu::repl::{parse_command, ReplCommand, ReplReply};
use riscv_emu::replayer::TraceReplayer;
use riscv_emu::text::{is_whitespace, next_word, parse_hex_u64, trim};

const RAM_BASE: u64 = 0x8000_0000;
const EBREAK: u32 = 0x0010_0073;
const ADDI_X1_X1_1: u32 = 0x0010_8093;

fn replayer() -> TraceReplayer {
    let mut bus = Bus::new(0x100);
    let mut bytes = Vec::new();
    for word in [ADDI_X1_X1_1, ADDI_X1_X1_1, EBREAK] {
        bytes.extend_from_slice(&word.to_le_bytes());
    }
    bus.load_bytes(RAM_BASE, &bytes).unwrap();
    let mut recorder = SnapshotRecorder::new(Cpu::new(RAM_BASE, bus));
    recorder.run().unwrap();
    TraceReplayer::load(recorder.save()).unwrap()
}

fn shown(reply: ReplReply) -> String {
    match reply {
        ReplReply::Show(text) => text,
        other => panic!("expected a state, got {other:?}"),
    }
}

#[test]
fn whitespace_is_unicode_white_space() {
    for code in 0..=0x10ffffu32 {
        if let Some(c) = char::from_u32(code) {
            assert_eq!(is_whitespace(c), c.is_whitespace(), "U+{code:04X}");
        }
    }
}

#[test]
fn trim_takes_whitespace_off_both_ends() {
    assert_eq!(trim("  g 12 \n"), "g 12");
    assert_eq!(trim("\u{3000}x\u{a0}"), "x");
    assert_eq!(trim(" \t\n"), "");
    assert_eq!(trim(""), "");
    for s in ["a", " a b ", "\u{2028}é\u{205f}", "\r\n\r\n"] {
        assert_eq!(trim(s), s.trim());
    }
}

#[test]
fn next_word_finds_word_bounds() {
    assert_eq!(next_word("g  42 x", 0), (0, 1));
    assert_eq!(next_word("g  42 x", 1), (3, 5));
    assert_eq!(next_word("g  42 x", 5), (6, 7));
    assert_eq!(next_word("g  ", 1), (3, 3));
}

#[test]
fn hex_addresses_are_read() {
    assert_eq!(parse_hex_u64("0x80000000"), Ok(0x8000_0000));
    assert_eq!(parse_hex_u64("80000000"), Ok(0x8000_0000));
    assert_eq!(parse_hex_u64("  0x10\n"), Ok(16));
    assert_eq!(parse_hex_u64("+Ff"), Ok(255));
    assert_eq!(parse_hex_u64("ffffffffffffffff"), Ok(u64::MAX));
}

#[test]
fn bad_hex_addresses_are_refused() {
    for input in ["", "0x", "0X10", "0xg", "10000000000000000", "+", "-1", "1_0"] {
        let err = parse_hex_u64(input).unwrap_err();
        let start = format!("invalid hex address '{input}': ");
        assert!(err.starts_with(&start), "{err}");
        assert!(err.len() > start.len(), "{err}");
    }
    assert_eq!(
        parse_hex_u64("0xzz").unwrap_err(),
        "invalid hex address '0xzz': invalid digit found in string"
    );
}

#[test]
fn commands_are_read() {
    assert!(matches!(parse_command(""), ReplCommand::Show));
    assert!(matches!(parse_command(" \n"), ReplCommand::Show));
    assert!(matches!(parse_command("q\n"), ReplCommand::Quit));
    assert!(matches!(parse_command("  n  "), ReplCommand::Next));
    assert!(matches!(parse_command("p extra words"), ReplCommand::Prev));
    assert!(matches!(parse_command("g 5\n"), ReplCommand::Goto(5)));
    assert!(matches!(parse_command("g\t+7 9"), ReplCommand::Goto(7)));
    assert!(matches!(parse_command("g\n"), ReplCommand::MissingCycle));
    match parse_command("g five") {
        ReplCommand::BadCycle(reason) => assert_eq!(reason, "invalid digit found in string"),
        other => panic!("unexpected {other:?}"),
    }
    match parse_command("g 18446744073709551616") {
        ReplCommand::BadCycle(reason) => {
            assert_eq!(reason, "number too large to fit in target type")
        }
        other => panic!("unexpected {other:?}"),
    }
    match parse_command("quit now") {
        ReplCommand::Unknown(word) => assert_eq!(word, "quit"),
        other => panic!("unexpected {other:?}"),
    }
}

#[test]
fn replies_follow_the_cursor() {
    let mut r = replayer();
    let first = shown(r.respond(ReplCommand::Show));
    assert!(first.starts_with("cycle 0 pc 0x0000000080000000\n"));
    assert!(matches!(
        r.respond(ReplCommand::Prev),
        ReplReply::Refused(CpuError::Serialization(m)) if m == "trace cursor at beginning"
    ));
    let next = shown(r.respond(ReplCommand::Next));
    assert!(next.starts_with("cycle 1 pc 0x0000000080000004\n"));
    assert_eq!(next, r.state_text());
    let last = shown(r.respond(ReplCommand::Goto(2)));
    assert!(last.starts_with("cycle 2 pc 0x0000000080000008\n"));
    assert!(matches!(
        r.respond(ReplCommand::Next),
        ReplReply::Refused(CpuError::Serialization(m)) if m == "trace cursor at end"
    ));
    assert!(matches!(
        r.respond(ReplCommand::Goto(9)),
        ReplReply::Refused(CpuError::Serialization(m)) if m == "cycle 9 not in trace"
    ));
    assert_eq!(r.current().cycle, 2);
    assert_eq!(shown(r.respond(ReplCommand::Prev)), next);
}

#[test]
fn replies_to_bad_commands() {
    let mut r = replayer();
    assert!(matches!(
        r.respond(ReplCommand::MissingCycle),
        ReplReply::Warn(m) if m == "missing cycle number"
    ));
    assert!(matches!(
        r.respond(ReplCommand::Unknown("x".to_string())),
        ReplReply::Warn(m) if m == "unknown command 'x': use n, p, g <N>, q, or empty line"
    ));
    assert!(matches!(
        r.respond(ReplCommand::BadCycle("why".to_string())),
        ReplReply::Fail(m) if m == "why"
    ));
    assert!(matches!(r.respond(ReplCommand::Quit), ReplReply::Quit));
    assert_eq!(r.current().cycle, 0);
}

#[test]
fn ram_sizes_are_counted_in_mib() {
    assert!(matches!(ram_bytes(128), Ok(n) if n == 128 << 20));
    assert!(matches!(ram_bytes(0), Ok(0)));
    assert!(matches!(ram_bytes(u64::MAX), Err(LoadError::RamOverflow(m)) if m == u64::MAX));
    assert!(matches!(ram_bytes(1 << 44), Err(LoadError::RamOverflow(_))));
    let too_large = (1u64 << 44) - 1;
    assert!(matches!(ram_bytes(too_large), Err(LoadError::RamTooLarge(m)) if m == too_large));
}

#[test]
fn images_are_copied_to_the_entry_point() {
    let cpu = load_cpu(RAM_BASE + 4, 16, &[1, 2, 3]).unwrap();
    assert_eq!(cpu.pc, RAM_BASE + 4);
    assert_eq!(cpu.bus.load(RAM_BASE + 4, 4).unwrap(), 0x0003_0201);
    assert_eq!(cpu.bus.load(RAM_BASE, 4).unwrap(), 0);
    assert!(cpu.registers.iter().all(|&r| r == 0));
    assert!(matches!(
        load_cpu(RAM_BASE + 14, 16, &[1, 2, 3]),
        Err(LoadError::Image(CpuError::BusError(a))) if a == RAM_BASE + 16
    ));
}
