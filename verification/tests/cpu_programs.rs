use riscv_emu::bus::Bus;
use riscv_emu::cpu::Cpu;
use riscv_emu::error::CpuError;

const RAM_BASE: u64 = 0x8000_0000;
const EBREAK: u32 = 0x0010_0073;

fn load_program(raw: &[u32]) -> Cpu {
    let mut bus = Bus::new(0x2000);
    let mut bytes = Vec::with_capacity(raw.len() * 4);
    for word in raw {
        bytes.extend_from_slice(&word.to_le_bytes());
    }
    bus.load_bytes(RAM_BASE, &bytes).unwrap();
    Cpu::new(RAM_BASE, bus)
}

fn run_program(raw: &[u32]) -> Cpu {
    let mut cpu = load_program(raw);
    cpu.run().unwrap();
    cpu
}

fn encode_r(funct7: u32, rs2: u8, rs1: u8, funct3: u32, rd: u8, opcode: u32) -> u32 {
    (funct7 << 25) | ((rs2 as u32) << 20) | ((rs1 as u32) << 15) | (funct3 << 12) | ((rd as u32) << 7) | opcode
}

fn encode_i(imm: i32, rs1: u8, funct3: u32, rd: u8, opcode: u32) -> u32 {
    let imm = (imm as u32) & 0x0fff;
    (imm << 20) | ((rs1 as u32) << 15) | (funct3 << 12) | ((rd as u32) << 7) | opcode
}

fn encode_s(imm: i32, rs2: u8, rs1: u8, funct3: u32, opcode: u32) -> u32 {
    let imm = (imm as u32) & 0x0fff;
    let imm_11_5 = (imm >> 5) & 0x7f;
    let imm_4_0 = imm & 0x1f;
    (imm_11_5 << 25) | ((rs2 as u32) << 20) | ((rs1 as u32) << 15) | (funct3 << 12) | (imm_4_0 << 7) | opcode
}

fn encode_b(imm: i32, rs2: u8, rs1: u8, funct3: u32, opcode: u32) -> u32 {
    let imm = (imm as u32) & 0x1fff;
    let bit12 = (imm >> 12) & 0x1;
    let bit11 = (imm >> 11) & 0x1;
    let bits10_5 = (imm >> 5) & 0x3f;
    let bits4_1 = (imm >> 1) & 0x0f;
    (bit12 << 31)
        | (bits10_5 << 25)
        | ((rs2 as u32) << 20)
        | ((rs1 as u32) << 15)
        | (funct3 << 12)
        | (bits4_1 << 8)
        | (bit11 << 7)
        | opcode
}

fn encode_u(imm: u32, rd: u8, opcode: u32) -> u32 {
    (imm & 0xffff_f000) | ((rd as u32) << 7) | opcode
}

fn encode_j(imm: i32, rd: u8, opcode: u32) -> u32 {
    let imm = (imm as u32) & 0x1f_ffff;
    let bit20 = (imm >> 20) & 0x1;
    let bits10_1 = (imm >> 1) & 0x3ff;
    let bit11 = (imm >> 11) & 0x1;
    let bits19_12 = (imm >> 12) & 0xff;
    (bit20 << 31) | (bits19_12 << 12) | (bit11 << 20) | (bits10_1 << 21) | ((rd as u32) << 7) | opcode
}

fn addi_case(rs1: i32, imm: i32, expected: i32) {
    let program = [
        encode_i(rs1, 0, 0b000, 1, 0b001_0011),
        encode_i(imm, 1, 0b000, 2, 0b001_0011),
        EBREAK,
    ];
    let cpu = run_program(&program);
    assert_eq!(cpu.read_reg(2), expected as i64 as u64);
}

#[test]
fn test_addi_positive() {
    addi_case(5, 7, 12);
}

#[test]
fn test_addi_negative_immediate() {
    addi_case(10, -3, 7);
}

#[test]
fn test_addi_both_negative() {
    addi_case(-5, -6, -11);
}

fn add_case(a: i32, b: i32, expected: i32) {
    let program = [
        encode_i(a, 0, 0b000, 1, 0b001_0011),
        encode_i(b, 0, 0b000, 2, 0b001_0011),
        encode_r(0b0000000, 2, 1, 0b000, 3, 0b011_0011),
        EBREAK,
    ];
    let cpu = run_program(&program);
    assert_eq!(cpu.read_reg(3), expected as i64 as u64);
}

#[test]
fn test_add_positive() {
    add_case(3, 4, 7);
}

#[test]
fn test_add_negative() {
    add_case(-8, 2, -6);
}

fn sub_case(a: i32, b: i32, expected: i32) {
    let program = [
        encode_i(a, 0, 0b000, 1, 0b001_0011),
        encode_i(b, 0, 0b000, 2, 0b001_0011),
        encode_r(0b0100000, 2, 1, 0b000, 3, 0b011_0011),
        EBREAK,
    ];
    let cpu = run_program(&program);
    assert_eq!(cpu.read_reg(3), expected as i64 as u64);
}

#[test]
fn test_sub_positive() {
    sub_case(10, 4, 6);
}

#[test]
fn test_sub_negative() {
    sub_case(-3, -7, 4);
}

#[test]
fn test_lui() {
    let program = [encode_u(0x1234_5000, 1, 0b011_0111), EBREAK];
    let cpu = run_program(&program);
    assert_eq!(cpu.read_reg(1), 0x1234_5000);
}

#[test]
fn test_auipc() {
    let program = [encode_u(0x0000_1000, 1, 0b001_0111), EBREAK];
    let cpu = run_program(&program);
    assert_eq!(cpu.read_reg(1), RAM_BASE + 0x1000);
}

#[test]
fn test_jal() {
    let program = [
        encode_j(8, 1, 0b110_1111),
        encode_i(1, 0, 0b000, 2, 0b001_0011),
        encode_i(2, 0, 0b000, 2, 0b001_0011),
        EBREAK,
    ];
    let cpu = run_program(&program);
    assert_eq!(cpu.read_reg(1), RAM_BASE + 4);
    assert_eq!(cpu.read_reg(2), 2);
}

#[test]
fn test_jalr() {
    let program = [
        encode_u(0x0000_0000, 3, 0b001_0111),
        encode_i(16, 3, 0b000, 3, 0b001_0011),
        encode_i(0, 3, 0b000, 1, 0b110_0111),
        encode_i(1, 0, 0b000, 2, 0b001_0011),
        encode_i(9, 0, 0b000, 2, 0b001_0011),
        EBREAK,
    ];
    let cpu = run_program(&program);
    assert_eq!(cpu.read_reg(1), RAM_BASE + 12);
    assert_eq!(cpu.read_reg(2), 9);
}

fn beq_case(taken: bool, expected: u64) {
    let rs2_value = if taken { 1 } else { 2 };
    let program = [
        encode_i(1, 0, 0b000, 1, 0b001_0011),
        encode_i(rs2_value, 0, 0b000, 2, 0b001_0011),
        encode_b(12, 2, 1, 0b000, 0b110_0011),
        encode_i(7, 0, 0b000, 3, 0b001_0011),
        EBREAK,
        encode_i(2, 0, 0b000, 3, 0b001_0011),
        EBREAK,
    ];
    let cpu = run_program(&program);
    assert_eq!(cpu.read_reg(3), expected);
}

#[test]
fn test_beq_taken() {
    beq_case(true, 2);
}

#[test]
fn test_beq_not_taken() {
    beq_case(false, 7);
}

#[test]
fn test_lw_sw() {
    let program = [
        encode_u(0x0000_0000, 1, 0b001_0111),
        encode_i(0x100, 1, 0b000, 1, 0b001_0011),
        encode_i(0x7b, 0, 0b000, 2, 0b001_0011),
        encode_s(0, 2, 1, 0b010, 0b010_0011),
        encode_i(0, 1, 0b010, 3, 0b000_0011),
        EBREAK,
    ];
    let cpu = run_program(&program);
    assert_eq!(cpu.read_reg(3), 0x7b);
}

#[test]
fn test_ld_sd() {
    let program = [
        encode_u(0x0000_0000, 1, 0b001_0111),
        encode_i(0x120, 1, 0b000, 1, 0b001_0011),
        encode_u(0x1234_5000, 2, 0b011_0111),
        encode_i(0x678, 2, 0b000, 2, 0b001_0011),
        encode_s(0, 2, 1, 0b011, 0b010_0011),
        encode_i(0, 1, 0b011, 3, 0b000_0011),
        EBREAK,
    ];
    let cpu = run_program(&program);
    assert_eq!(cpu.read_reg(3), 0x1234_5678);
}

#[test]
fn x0_stays_zero() {
    let program = [encode_i(5, 0, 0b000, 0, 0b001_0011), EBREAK];
    let cpu = run_program(&program);
    assert_eq!(cpu.read_reg(0), 0);
    assert_eq!(cpu.registers[0], 0);
}

#[test]
fn write_reg_to_x0_is_dropped() {
    let mut cpu = Cpu::new(RAM_BASE, Bus::new(0x100));
    cpu.write_reg(0, 42);
    cpu.write_reg(5, 42);
    assert_eq!(cpu.read_reg(0), 0);
    assert_eq!(cpu.read_reg(5), 42);
}

#[test]
fn signed_and_unsigned_comparisons() {
    let program = [
        encode_i(-1, 0, 0b000, 1, 0b001_0011),
        encode_i(1, 0, 0b000, 2, 0b001_0011),
        encode_r(0, 2, 1, 0b010, 3, 0b011_0011),
        encode_r(0, 2, 1, 0b011, 4, 0b011_0011),
        encode_i(0, 1, 0b010, 5, 0b001_0011),
        encode_i(-2, 2, 0b011, 6, 0b001_0011),
        EBREAK,
    ];
    let cpu = run_program(&program);
    assert_eq!(cpu.read_reg(3), 1);
    assert_eq!(cpu.read_reg(4), 0);
    assert_eq!(cpu.read_reg(5), 1);
    assert_eq!(cpu.read_reg(6), 1);
}

#[test]
fn shifts_of_a_negative_word() {
    let program = [
        encode_i(-16, 0, 0b000, 1, 0b001_0011),
        encode_i(2, 0, 0b000, 2, 0b001_0011),
        encode_r(0b0100000, 2, 1, 0b101, 3, 0b011_0011),
        encode_r(0, 2, 1, 0b101, 4, 0b011_0011),
        encode_r(0, 2, 1, 0b001, 5, 0b011_0011),
        encode_i(0b0100000 << 5 | 31, 1, 0b101, 6, 0b001_0011),
        encode_i(28, 1, 0b001, 7, 0b001_0011),
        EBREAK,
    ];
    let cpu = run_program(&program);
    assert_eq!(cpu.read_reg(3), (-4i64) as u64);
    assert_eq!(cpu.read_reg(4), 0x3fff_ffff_ffff_fffc);
    assert_eq!(cpu.read_reg(5), (-64i64) as u64);
    assert_eq!(cpu.read_reg(6), u64::MAX);
    assert_eq!(cpu.read_reg(7), 0xffff_ffff_0000_0000);
}

#[test]
fn shift_immediates_take_six_bit_amounts() {
    let program = [
        encode_i(1, 0, 0b000, 1, 0b001_0011),
        encode_i(32, 1, 0b001, 2, 0b001_0011),
        encode_i(63, 1, 0b001, 3, 0b001_0011),
        encode_i(0x400 | 63, 3, 0b101, 4, 0b001_0011),
        encode_i(33, 3, 0b101, 5, 0b001_0011),
        EBREAK,
    ];
    let cpu = run_program(&program);
    assert_eq!(cpu.read_reg(2), 1 << 32);
    assert_eq!(cpu.read_reg(3), 1 << 63);
    assert_eq!(cpu.read_reg(4), u64::MAX);
    assert_eq!(cpu.read_reg(5), 1 << 30);
}

#[test]
fn shift_immediates_with_other_funct6_do_not_decode() {
    let word = encode_i(0x040, 1, 0b001, 2, 0b001_0011);
    let mut cpu = load_program(&[word]);
    assert!(matches!(cpu.step(), Err(CpuError::IllegalInstruction(w)) if w == word));
}

#[test]
fn word_operations_sign_extend() {
    let program = [
        encode_u(0x8000_0000, 1, 0b011_0111),
        encode_i(-1, 1, 0b000, 1, 0b001_0011),
        encode_i(1, 0, 0b000, 2, 0b001_0011),
        encode_r(0, 2, 1, 0b000, 3, 0b011_1011),
        encode_i(1, 1, 0b000, 4, 0b001_1011),
        encode_r(0b0100000, 2, 0, 0b000, 5, 0b011_1011),
        encode_r(0, 2, 2, 0b001, 6, 0b011_1011),
        encode_i(31, 2, 0b001, 7, 0b001_1011),
        encode_i(0b0100000 << 5 | 4, 7, 0b101, 8, 0b001_1011),
        encode_i(4, 7, 0b101, 9, 0b001_1011),
        encode_r(0b0100000, 2, 7, 0b101, 10, 0b011_1011),
        encode_r(0, 2, 7, 0b101, 11, 0b011_1011),
        EBREAK,
    ];
    let cpu = run_program(&program);
    assert_eq!(cpu.read_reg(1), 0xffff_ffff_7fff_ffff);
    assert_eq!(cpu.read_reg(3), 0xffff_ffff_8000_0000);
    assert_eq!(cpu.read_reg(4), 0xffff_ffff_8000_0000);
    assert_eq!(cpu.read_reg(5), u64::MAX);
    assert_eq!(cpu.read_reg(6), 2);
    assert_eq!(cpu.read_reg(7), 0xffff_ffff_8000_0000);
    assert_eq!(cpu.read_reg(8), 0xffff_ffff_f800_0000);
    assert_eq!(cpu.read_reg(9), 0x0800_0000);
    assert_eq!(cpu.read_reg(10), 0xffff_ffff_c000_0000);
    assert_eq!(cpu.read_reg(11), 0x4000_0000);
}

#[test]
fn logical_immediates_use_the_sign_extended_immediate() {
    let program = [
        encode_i(0x0f0, 0, 0b000, 1, 0b001_0011),
        encode_i(-1, 1, 0b100, 2, 0b001_0011),
        encode_i(-256, 1, 0b110, 3, 0b001_0011),
        encode_i(0x0ff, 1, 0b111, 4, 0b001_0011),
        encode_r(0, 1, 2, 0b100, 5, 0b011_0011),
        encode_r(0, 1, 2, 0b110, 6, 0b011_0011),
        encode_r(0, 1, 2, 0b111, 7, 0b011_0011),
        EBREAK,
    ];
    let cpu = run_program(&program);
    assert_eq!(cpu.read_reg(2), !0xf0u64);
    assert_eq!(cpu.read_reg(3), 0xffff_ffff_ffff_fff0);
    assert_eq!(cpu.read_reg(4), 0xf0);
    assert_eq!(cpu.read_reg(5), u64::MAX);
    assert_eq!(cpu.read_reg(6), u64::MAX);
    assert_eq!(cpu.read_reg(7), 0);
}

#[test]
fn loads_extend_by_kind() {
    let program = [
        encode_u(0x0000_0000, 1, 0b001_0111),
        encode_i(0x200, 1, 0b000, 1, 0b001_0011),
        encode_i(-1, 0, 0b000, 2, 0b001_0011),
        encode_s(0, 2, 1, 0b011, 0b010_0011),
        encode_i(0, 1, 0b000, 3, 0b000_0011),
        encode_i(0, 1, 0b100, 4, 0b000_0011),
        encode_i(0, 1, 0b001, 5, 0b000_0011),
        encode_i(0, 1, 0b101, 6, 0b000_0011),
        encode_i(0, 1, 0b010, 7, 0b000_0011),
        encode_i(0, 1, 0b110, 8, 0b000_0011),
        encode_i(0x7f, 0, 0b000, 9, 0b001_0011),
        encode_s(1, 9, 1, 0b000, 0b010_0011),
        encode_i(1, 1, 0b000, 10, 0b000_0011),
        encode_s(8, 2, 1, 0b001, 0b010_0011),
        encode_i(8, 1, 0b011, 11, 0b000_0011),
        EBREAK,
    ];
    let cpu = run_program(&program);
    assert_eq!(cpu.read_reg(3), u64::MAX);
    assert_eq!(cpu.read_reg(4), 0xff);
    assert_eq!(cpu.read_reg(5), u64::MAX);
    assert_eq!(cpu.read_reg(6), 0xffff);
    assert_eq!(cpu.read_reg(7), u64::MAX);
    assert_eq!(cpu.read_reg(8), 0xffff_ffff);
    assert_eq!(cpu.read_reg(10), 0x7f);
    assert_eq!(cpu.read_reg(11), 0xffff);
}

#[test]
fn branches_compare_signed_and_unsigned() {
    let program = [
        encode_i(-1, 0, 0b000, 1, 0b001_0011),
        encode_i(1, 0, 0b000, 2, 0b001_0011),
        encode_b(8, 2, 1, 0b100, 0b110_0011),
        EBREAK,
        encode_i(1, 0, 0b000, 3, 0b001_0011),
        encode_b(8, 2, 1, 0b110, 0b110_0011),
        encode_i(1, 0, 0b000, 4, 0b001_0011),
        encode_b(8, 1, 2, 0b101, 0b110_0011),
        EBREAK,
        encode_b(8, 2, 1, 0b111, 0b110_0011),
        EBREAK,
        encode_b(-8, 2, 2, 0b001, 0b110_0011),
        encode_i(1, 0, 0b000, 5, 0b001_0011),
        EBREAK,
    ];
    let cpu = run_program(&program);
    assert_eq!(cpu.read_reg(3), 1);
    assert_eq!(cpu.read_reg(4), 1);
    assert_eq!(cpu.read_reg(5), 1);
}

#[test]
fn csr_instructions_read_then_update() {
    let program = [
        encode_i(0x0f0, 0, 0b000, 1, 0b001_0011),
        encode_i(0x300, 1, 0b001, 2, 0b111_0011),
        encode_i(0x00f, 0, 0b000, 3, 0b001_0011),
        encode_i(0x300, 3, 0b010, 4, 0b111_0011),
        encode_i(0x300, 1, 0b011, 5, 0b111_0011),
        encode_i(0x300, 0, 0b010, 6, 0b111_0011),
        encode_i(0x305, 7, 0b101, 7, 0b111_0011),
        encode_i(0x305, 8, 0b110, 8, 0b111_0011),
        encode_i(0x305, 1, 0b111, 9, 0b111_0011),
        encode_i(0x305, 0, 0b110, 10, 0b111_0011),
        EBREAK,
    ];
    let cpu = run_program(&program);
    assert_eq!(cpu.read_reg(2), 0);
    assert_eq!(cpu.read_reg(4), 0xf0);
    assert_eq!(cpu.read_reg(5), 0xff);
    assert_eq!(cpu.read_reg(6), 0x0f);
    assert_eq!(cpu.read_reg(7), 0);
    assert_eq!(cpu.read_reg(8), 7);
    assert_eq!(cpu.read_reg(9), 15);
    assert_eq!(cpu.read_reg(10), 14);
    assert_eq!(cpu.read_csr(0x300).unwrap(), 0x0f);
    assert_eq!(cpu.read_csr(0x305).unwrap(), 14);
    assert_eq!(cpu.read_csr(0x340).unwrap(), 0);
}

#[test]
fn write_csr_then_read_csr() {
    let mut cpu = Cpu::new(RAM_BASE, Bus::new(0x100));
    assert_eq!(cpu.read_csr(0x341).unwrap(), 0);
    cpu.write_csr(0x341, 0xdead).unwrap();
    cpu.write_csr(0x300, 1).unwrap();
    cpu.write_csr(0x341, 0xbeef).unwrap();
    assert_eq!(cpu.read_csr(0x341).unwrap(), 0xbeef);
    assert_eq!(cpu.read_csr(0x300).unwrap(), 1);
}

#[test]
fn ecall_stops_a_run_with_an_error() {
    let mut cpu = load_program(&[0x0000_0073]);
    assert!(matches!(cpu.run(), Err(CpuError::Ecall)));
    assert_eq!(cpu.pc, RAM_BASE);
}

#[test]
fn ebreak_leaves_pc_on_the_ebreak() {
    let mut cpu = load_program(&[encode_i(3, 0, 0b000, 1, 0b001_0011), EBREAK]);
    assert!(cpu.run().is_ok());
    assert_eq!(cpu.pc, RAM_BASE + 4);
    assert!(matches!(cpu.step(), Err(CpuError::Ebreak)));
    assert_eq!(cpu.pc, RAM_BASE + 4);
}

#[test]
fn illegal_instruction_is_reported_with_its_word() {
    let mut cpu = load_program(&[0xffff_ffff]);
    assert!(matches!(cpu.run(), Err(CpuError::IllegalInstruction(0xffff_ffff))));
}

#[test]
fn misaligned_load_is_reported() {
    let program = [
        encode_u(0x0000_0000, 1, 0b001_0111),
        encode_i(1, 1, 0b010, 2, 0b000_0011),
    ];
    let mut cpu = load_program(&program);
    cpu.step().unwrap();
    let before = cpu.pc;
    assert!(matches!(cpu.step(), Err(CpuError::Misaligned { addr, width: 4 }) if addr == RAM_BASE + 1));
    assert_eq!(cpu.pc, before);
    assert_eq!(cpu.read_reg(2), 0);
}

#[test]
fn fetch_outside_ram_is_a_bus_error() {
    let mut cpu = Cpu::new(0x1000, Bus::new(0x100));
    assert!(matches!(cpu.step(), Err(CpuError::BusError(0x1000))));
}

#[test]
fn uart_store_is_output() {
    let program = [
        encode_u(0x1000_0000, 1, 0b011_0111),
        encode_i(0x48, 0, 0b000, 2, 0b001_0011),
        encode_s(0, 2, 1, 0b000, 0b010_0011),
        encode_i(0x69, 0, 0b000, 2, 0b001_0011),
        encode_s(0, 2, 1, 0b000, 0b010_0011),
        EBREAK,
    ];
    let mut cpu = run_program(&program);
    assert_eq!(cpu.bus.uart_output(), b"Hi");
    assert_eq!(cpu.bus.take_uart_output(), b"Hi".to_vec());
    assert!(cpu.bus.uart_output().is_empty());
}

#[test]
fn run_step_tells_when_a_run_ends() {
    let mut cpu = load_program(&[encode_i(5, 0, 0b000, 1, 0b001_0011), EBREAK]);
    assert!(cpu.run_step().is_none());
    assert_eq!(cpu.read_reg(1), 5);
    assert_eq!(cpu.pc, RAM_BASE + 4);
    assert!(matches!(cpu.run_step(), Some(Ok(()))));
    assert_eq!(cpu.pc, RAM_BASE + 4);

    let mut cpu = load_program(&[0xffff_ffff]);
    assert!(matches!(cpu.run_step(), Some(Err(CpuError::IllegalInstruction(0xffff_ffff)))));
    assert_eq!(cpu.pc, RAM_BASE);
}

#[test]
fn an_instruction_changes_only_its_destination() {
    let programs = [
        encode_i(7, 1, 0b000, 5, 0b001_0011),
        encode_s(8, 2, 1, 0b011, 0b010_0011),
        encode_b(8, 2, 1, 0b001, 0b110_0011),
        encode_i(0x300, 3, 0b001, 6, 0b111_0011),
        encode_i(-1, 1, 0b000, 0, 0b001_0011),
    ];
    for word in programs {
        let mut cpu = load_program(&[word]);
        for r in 1..32u8 {
            cpu.write_reg(r, 0x1000 * r as u64 + RAM_BASE);
        }
        cpu.write_csr(0x305, 9).unwrap();
        let before = cpu.registers;
        cpu.step().unwrap();
        let rd = ((word >> 7) & 0x1f) as usize;
        let writes_rd = !matches!(word & 0x7f, 0b010_0011 | 0b110_0011);
        for r in 0..32 {
            if !(writes_rd && r == rd) || r == 0 {
                assert_eq!(cpu.registers[r], before[r], "x{r} after {word:#x}");
            }
        }
        assert_eq!(cpu.read_reg(0), 0);
        assert_eq!(cpu.read_csr(0x305).unwrap(), 9);
    }
}
