use riscv_emu::bus::{Bus, RAM_BASE, UART_BASE};
use riscv_emu::error::CpuError;
use riscv_emu::memory::Memory;

#[test]
fn load_after_store_returns_the_value_cut_to_width() {
    let mut mem = Memory::new(0x1000, 64);
    mem.store(0x1008, 8, 0x1122_3344_5566_7788).unwrap();
    assert_eq!(mem.load(0x1008, 8).unwrap(), 0x1122_3344_5566_7788);
    assert_eq!(mem.load(0x1008, 4).unwrap(), 0x5566_7788);
    assert_eq!(mem.load(0x100c, 2).unwrap(), 0x3344);
    assert_eq!(mem.load(0x100f, 1).unwrap(), 0x11);
    mem.store(0x1010, 2, 0xabcd_ef01).unwrap();
    assert_eq!(mem.load(0x1010, 2).unwrap(), 0xef01);
    assert_eq!(mem.load(0x1012, 2).unwrap(), 0);
}

#[test]
fn store_leaves_other_bytes() {
    let mut mem = Memory::new(0, 16);
    mem.store(0, 8, u64::MAX).unwrap();
    mem.store(2, 2, 0).unwrap();
    assert_eq!(mem.load(0, 8).unwrap(), 0xffff_ffff_0000_ffff);
}

#[test]
fn memory_starts_zeroed() {
    let mem = Memory::new(0x40, 8);
    assert_eq!(mem.load(0x40, 8).unwrap(), 0);
}

#[test]
fn access_errors() {
    let mut mem = Memory::new(0x1000, 16);
    assert!(matches!(mem.load(0x1000, 3), Err(CpuError::BusError(0x1000))));
    assert!(matches!(mem.load(0x1002, 4), Err(CpuError::Misaligned { addr: 0x1002, width: 4 })));
    assert!(matches!(mem.load(0x0ff8, 8), Err(CpuError::BusError(0x0ff8))));
    assert!(matches!(mem.load(0x1010, 1), Err(CpuError::BusError(0x1010))));
    assert!(matches!(mem.store(0x100c, 8, 1), Err(CpuError::Misaligned { addr: 0x100c, width: 8 })));
    assert!(matches!(mem.store(0x1010, 8, 1), Err(CpuError::BusError(0x1010))));
    assert!(matches!(mem.load(u64::MAX - 1, 2), Err(CpuError::BusError(_))));
    assert_eq!(mem.load(0x1000, 8).unwrap(), 0);
}

#[test]
fn bus_routes_ram_and_uart() {
    let mut bus = Bus::new(0x100);
    bus.store(RAM_BASE + 8, 4, 0xcafe_babe).unwrap();
    assert_eq!(bus.load(RAM_BASE + 8, 4).unwrap(), 0xcafe_babe);
    assert!(matches!(bus.load(UART_BASE, 1), Err(CpuError::BusError(0x1000_0000))));
    assert!(matches!(bus.store(UART_BASE + 1, 1, 0x41), Err(CpuError::BusError(0x1000_0001))));
    assert!(matches!(bus.store(UART_BASE, 2, 0x41), Err(CpuError::BusError(0x1000_0000))));
    bus.store(UART_BASE, 1, 0x1_41).unwrap();
    assert_eq!(bus.uart_output(), &[0x41]);
    assert!(matches!(bus.load(RAM_BASE + 0x100, 1), Err(CpuError::BusError(_))));
    assert!(matches!(bus.store(0, 1, 0), Err(CpuError::BusError(0))));
}

#[test]
fn load_bytes_stops_at_the_first_failing_byte() {
    let mut bus = Bus::new(4);
    let r = bus.load_bytes(RAM_BASE + 2, &[1, 2, 3, 4]);
    assert!(matches!(r, Err(CpuError::BusError(a)) if a == RAM_BASE + 4));
    assert_eq!(bus.load(RAM_BASE + 2, 1).unwrap(), 1);
    assert_eq!(bus.load(RAM_BASE + 3, 1).unwrap(), 2);
    bus.load_bytes(RAM_BASE, &[9, 8]).unwrap();
    assert_eq!(bus.load(RAM_BASE, 4).unwrap(), 0x0201_0809);
}

#[test]
fn stores_are_little_endian_byte_by_byte() {
    let mut mem = Memory::new(0x2000, 32);
    let value = 0x0102_0304_0506_0708u64;
    for width in [1u8, 2, 4, 8] {
        let addr = 0x2000 + 8;
        mem.store(addr, width, value).unwrap();
        for i in 0..width as u64 {
            assert_eq!(mem.load(addr + i, 1).unwrap(), (value >> (8 * i)) & 0xff);
        }
    }
}

#[test]
fn an_image_in_ram_is_copied_whole() {
    let mut bus = Bus::new(16);
    bus.store(RAM_BASE + 15, 1, 0xee).unwrap();
    let image = [9u8, 8, 7, 6, 5];
    bus.load_bytes(RAM_BASE + 4, &image).unwrap();
    for (i, b) in image.iter().enumerate() {
        assert_eq!(bus.load(RAM_BASE + 4 + i as u64, 1).unwrap(), *b as u64);
    }
    assert_eq!(bus.load(RAM_BASE + 3, 1).unwrap(), 0);
    assert_eq!(bus.load(RAM_BASE + 9, 1).unwrap(), 0);
    assert_eq!(bus.load(RAM_BASE + 15, 1).unwrap(), 0xee);
    bus.load_bytes(RAM_BASE + 16, &[]).unwrap();
    assert!(bus.uart_output().is_empty());
}
