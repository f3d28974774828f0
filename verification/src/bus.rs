use vstd::bits::{lemma_low_bits_mask_values, lemma_u64_low_bits_mask_is_mod};
use vstd::prelude::*;

use crate::error::CpuError;
use crate::memory::{load_spec, store_spec, Memory};

verus! {

/// Address of the first byte of RAM.
pub const RAM_BASE: u64 = 0x8000_0000;

/// Address of the UART's transmit register.
pub const UART_BASE: u64 = 0x1000_0000;

/// Number of addresses that the UART answers to.
pub const UART_SIZE: u64 = 0x100;

/// Whether `addr` lies in the window of `size` bytes that starts at `base`.
pub open spec fn in_range_spec(addr: u64, base: u64, size: nat) -> bool {
    base <= addr && addr < base + size
}

/// What the bus holds: the RAM bytes, and the bytes written to the UART so far
/// that nobody has taken yet.
pub ghost struct BusState {
    pub ram: Seq<u8>,
    pub uart: Seq<u8>,
}

/// What a load of `width` bytes at `addr` returns.
pub open spec fn bus_load_spec(b: BusState, addr: u64, width: u8) -> Result<u64, CpuError> {
    if in_range_spec(addr, RAM_BASE, b.ram.len()) {
        load_spec(RAM_BASE, b.ram, addr, width)
    } else {
        Err(CpuError::BusError(addr))
    }
}

/// The bus after a store of the `width` low bytes of `value` at `addr`, and the outcome.
/// Only single bytes written to the first UART address are accepted by the UART.
pub open spec fn bus_store_spec(b: BusState, addr: u64, width: u8, value: u64) -> (
    BusState,
    Result<(), CpuError>,
) {
    if in_range_spec(addr, RAM_BASE, b.ram.len()) {
        let (ram, r) = store_spec(RAM_BASE, b.ram, addr, width, value);
        (BusState { ram, uart: b.uart }, r)
    } else if in_range_spec(addr, UART_BASE, UART_SIZE as nat) && addr == UART_BASE && width == 1 {
        (BusState { ram: b.ram, uart: b.uart.push((value % 256) as u8) }, Ok(()))
    } else {
        (b, Err(CpuError::BusError(addr)))
    }
}

/// The bus after the bytes `bytes` are stored one by one from `addr` on, and the outcome:
/// the first store that fails ends the copy, and the bytes before it stay written.
pub open spec fn load_bytes_spec(b: BusState, addr: u64, bytes: Seq<u8>) -> (
    BusState,
    Result<(), CpuError>,
)
    decreases bytes.len(),
{
    if bytes.len() == 0 {
        (b, Ok(()))
    } else {
        let (next, r) = bus_store_spec(b, addr, 1, bytes[0] as u64);
        if r is Ok {
            load_bytes_spec(next, (addr + 1) as u64, bytes.drop_first())
        } else {
            (next, r)
        }
    }
}

/// The memory-mapped bus: RAM at `RAM_BASE` and a UART transmit register at `UART_BASE`.
pub struct Bus {
    memory: Memory,
    ram_size: usize,
    uart: Vec<u8>,
}

impl Bus {
    pub closed spec fn view(&self) -> BusState {
        BusState { ram: self.memory.bytes(), uart: self.uart@ }
    }

    /// The RAM starts at `RAM_BASE` and its end is an address.
    pub closed spec fn wf(&self) -> bool {
        &&& self.memory.base() == RAM_BASE
        &&& self.memory.bytes().len() == self.ram_size
        &&& RAM_BASE + self.ram_size <= u64::MAX
    }

    pub fn new(ram_size: usize) -> (b: Self)
        requires
            RAM_BASE + ram_size <= u64::MAX,
        ensures
            b.wf(),
            b@.ram == Seq::new(ram_size as nat, |i: int| 0u8),
            b@.uart == Seq::<u8>::empty(),
    {
        Self { memory: Memory::new(RAM_BASE, ram_size), ram_size, uart: Vec::new() }
    }

    pub fn load(&self, addr: u64, width: u8) -> (r: Result<u64, CpuError>)
        requires
            self.wf(),
        ensures
            r == bus_load_spec(self@, addr, width),
    {
        if in_range(addr, RAM_BASE, self.ram_size as u64) {
            return self.memory.load(addr, width);
        }
        if in_range(addr, UART_BASE, UART_SIZE) {
            return Err(CpuError::BusError(addr));
        }
        Err(CpuError::BusError(addr))
    }

    pub fn store(&mut self, addr: u64, width: u8, value: u64) -> (r: Result<(), CpuError>)
        requires
            old(self).wf(),
        ensures
            final(self).wf(),
            (final(self)@, r) == bus_store_spec(old(self)@, addr, width, value),
    {
        if in_range(addr, RAM_BASE, self.ram_size as u64) {
            return self.memory.store(addr, width, value);
        }
        if in_range(addr, UART_BASE, UART_SIZE) {
            return self.store_uart(addr, width, value);
        }
        Err(CpuError::BusError(addr))
    }

    /// A store to the UART: the byte goes to the transmit buffer.
    fn store_uart(&mut self, addr: u64, width: u8, value: u64) -> (r: Result<(), CpuError>)
        requires
            old(self).wf(),
            in_range_spec(addr, UART_BASE, UART_SIZE as nat),
            !in_range_spec(addr, RAM_BASE, old(self)@.ram.len()),
        ensures
            final(self).wf(),
            (final(self)@, r) == bus_store_spec(old(self)@, addr, width, value),
    {
        let offset = addr - UART_BASE;
        if offset != 0 || width != 1 {
            return Err(CpuError::BusError(addr));
        }
        proof {
            lemma_u64_low_bits_mask_is_mod(value, 8);
            lemma_low_bits_mask_values();
            vstd::arithmetic::power2::lemma2_to64();
        }
        let byte = (value & 0xff) as u8;
        self.uart.push(byte);
        Ok(())
    }

    /// Hands out the bytes written to the UART since the last call, oldest first.
    pub fn take_uart_output(&mut self) -> (out: Vec<u8>)
        requires
            old(self).wf(),
        ensures
            final(self).wf(),
            out@ == old(self)@.uart,
            final(self)@ == (BusState { ram: old(self)@.ram, uart: Seq::empty() }),
    {
        let mut out: Vec<u8> = Vec::new();
        std::mem::swap(&mut out, &mut self.uart);
        out
    }

    /// The bytes written to the UART and not yet taken, oldest first.
    pub fn uart_output(&self) -> (out: &[u8])
        ensures
            out@ == self@.uart,
    {
        self.uart.as_slice()
    }

    pub fn load_bytes(&mut self, addr: u64, bytes: &[u8]) -> (r: Result<(), CpuError>)
        requires
            old(self).wf(),
        ensures
            final(self).wf(),
            (final(self)@, r) == load_bytes_spec(old(self)@, addr, bytes@),
            RAM_BASE <= addr && addr + bytes@.len() <= RAM_BASE + old(self)@.ram.len() ==> r is Ok
                && final(self)@.ram == crate::word::overwrite(old(self)@.ram, addr - RAM_BASE, bytes@)
                && final(self)@.uart == old(self)@.uart,
    {
        proof {
            if RAM_BASE <= addr && addr + bytes@.len() <= RAM_BASE + self@.ram.len() {
                lemma_load_bytes_in_ram(self@, addr, bytes@);
            }
        }
        let mut offset: usize = 0;
        proof {
            assert(bytes@.subrange(0, bytes@.len() as int) =~= bytes@);
        }
        while offset < bytes.len()
            invariant
                self.wf(),
                RAM_BASE <= addr && addr + bytes@.len() <= RAM_BASE + old(self)@.ram.len()
                    ==> load_bytes_spec(old(self)@, addr, bytes@).1 is Ok,
                offset <= bytes.len(),
                offset > 0 ==> addr + offset <= RAM_BASE + self@.ram.len(),
                load_bytes_spec(old(self)@, addr, bytes@) == load_bytes_spec(
                    self@,
                    (addr + offset) as u64,
                    bytes@.subrange(offset as int, bytes@.len() as int),
                ),
            decreases bytes.len() - offset,
        {
            let ghost before = self@;
            let ghost rest = bytes@.subrange(offset as int, bytes@.len() as int);
            let a = addr + offset as u64;
            let r = self.store(a, 1, bytes[offset] as u64);
            proof {
                assert(rest[0] == bytes@[offset as int]);
                assert(rest.drop_first() =~= bytes@.subrange(offset + 1, bytes@.len() as int));
            }
            match r {
                Ok(()) => {},
                Err(e) => {
                    return Err(e);
                },
            }
            offset = offset + 1;
        }
        proof {
            assert(bytes@.subrange(offset as int, bytes@.len() as int) =~= Seq::<u8>::empty());
        }
        Ok(())
    }
}

fn in_range(addr: u64, base: u64, size: u64) -> (r: bool)
    requires
        base + size <= u64::MAX,
    ensures
        r == in_range_spec(addr, base, size as nat),
{
    addr >= base && addr < base + size
}

} // verus!

verus! {

/// A successful load of `width` bytes gives a value below 2^(8 width).
pub proof fn lemma_bus_load_bound(b: BusState, addr: u64, width: u8)
    ensures
        bus_load_spec(b, addr, width) is Ok ==> (bus_load_spec(b, addr, width)->Ok_0 as nat)
            < vstd::arithmetic::power2::pow2(8 * width as nat),
{
    if bus_load_spec(b, addr, width) is Ok {
        let off = crate::memory::access_spec(RAM_BASE, b.ram.len(), addr, width)->Ok_0;
        let s = b.ram.subrange(off as int, off + width);
        crate::word::lemma_le_value_bound(s);
        vstd::arithmetic::power2::lemma2_to64();
        if 8 * width < 64 {
            vstd::arithmetic::power2::lemma_pow2_strictly_increases(8 * width as nat, 64);
        }
    }
}

/// In RAM, a load of the bytes that a store has just written gives back the stored
/// value cut down to the width of the access, and the UART output is left alone.
pub proof fn lemma_bus_load_after_store(b: BusState, addr: u64, width: u8, value: u64)
    requires
        in_range_spec(addr, RAM_BASE, b.ram.len()),
        bus_store_spec(b, addr, width, value).1 is Ok,
    ensures
        bus_load_spec(bus_store_spec(b, addr, width, value).0, addr, width) == Ok::<u64, CpuError>(
            (value as nat % vstd::arithmetic::power2::pow2(8 * width as nat)) as u64,
        ),
        bus_store_spec(b, addr, width, value).0.uart == b.uart,
{
    crate::memory::lemma_load_after_store(RAM_BASE, b.ram, addr, width, value);
}

/// The RAM of every bus ends at an address: its last byte lies below `u64::MAX`.
pub proof fn lemma_ram_ends_at_an_address(b: &Bus)
    requires
        b.wf(),
    ensures
        RAM_BASE + b@.ram.len() <= u64::MAX,
{
}

/// An image that lies in RAM is copied into it whole: the copy succeeds, RAM holds the
/// image from its address on and is unchanged elsewhere, each byte reads back, and the
/// UART output is left alone.
pub proof fn lemma_load_bytes_in_ram(b: BusState, addr: u64, bytes: Seq<u8>)
    requires
        RAM_BASE + b.ram.len() <= u64::MAX,
        RAM_BASE <= addr,
        addr + bytes.len() <= RAM_BASE + b.ram.len(),
    ensures
        load_bytes_spec(b, addr, bytes) == (
            BusState { ram: crate::word::overwrite(b.ram, addr - RAM_BASE, bytes), uart: b.uart },
            Ok::<(), CpuError>(()),
        ),
        forall|i: int|
            0 <= i < bytes.len() ==> #[trigger] bus_load_spec(
                load_bytes_spec(b, addr, bytes).0,
                (addr + i) as u64,
                1,
            ) == Ok::<u64, CpuError>(bytes[i] as u64),
    decreases bytes.len(),
{
    let off = addr - RAM_BASE;
    if bytes.len() == 0 {
        assert(crate::word::overwrite(b.ram, off, bytes) =~= b.ram);
    } else {
        let (next, r) = bus_store_spec(b, addr, 1, bytes[0] as u64);
        assert(crate::memory::access_spec(RAM_BASE, b.ram.len(), addr, 1) == Ok::<nat, CpuError>(
            off as nat,
        ));
        assert(crate::word::le_bytes(bytes[0] as nat, 1) =~= seq![bytes[0]]) by {
            vstd::arithmetic::power2::lemma2_to64();
            let v = bytes[0] as nat;
            assert(vstd::arithmetic::power2::pow2(8 * 0nat) == 1);
            assert(v / 1 == v);
            assert(v % 256 == v);
        }
        assert(r is Ok);
        lemma_load_bytes_in_ram(next, (addr + 1) as u64, bytes.drop_first());
        assert(crate::word::overwrite(next.ram, off + 1, bytes.drop_first()) =~= crate::word::overwrite(
            b.ram,
            off,
            bytes,
        ));
    }
    let after = load_bytes_spec(b, addr, bytes).0;
    assert forall|i: int| 0 <= i < bytes.len() implies #[trigger] bus_load_spec(
        after,
        (addr + i) as u64,
        1,
    ) == Ok::<u64, CpuError>(bytes[i] as u64) by {
        let one = after.ram.subrange(off + i, off + i + 1);
        assert(crate::memory::access_spec(RAM_BASE, after.ram.len(), (addr + i) as u64, 1) == Ok::<
            nat,
            CpuError,
        >((off + i) as nat));
        assert(one =~= seq![bytes[i]]);
        assert(crate::word::le_value(one.drop_first()) == 0);
    }
}

/// What the UART does: a single byte stored at `UART_BASE` is sent (appended to the
/// output) and leaves RAM alone; any other store in the UART's window, and any load there,
/// is a bus error that changes nothing.
pub proof fn lemma_uart(b: BusState, addr: u64, width: u8, value: u64)
    requires
        RAM_BASE + b.ram.len() <= u64::MAX,
    ensures
        bus_store_spec(b, UART_BASE, 1, value) == (
            BusState { ram: b.ram, uart: b.uart.push((value % 256) as u8) },
            Ok::<(), CpuError>(()),
        ),
        UART_BASE <= addr < UART_BASE + UART_SIZE && !(addr == UART_BASE && width == 1)
            ==> bus_store_spec(b, addr, width, value) == (b, Err::<(), CpuError>(CpuError::BusError(addr))),
        UART_BASE <= addr < UART_BASE + UART_SIZE ==> bus_load_spec(b, addr, width) == Err::<
            u64,
            CpuError,
        >(CpuError::BusError(addr)),
{
}

} // verus!
