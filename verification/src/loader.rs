//! Building a machine with a program image in its RAM.
use vstd::prelude::*;

use crate::bus::{load_bytes_spec, Bus, BusState, RAM_BASE};
use crate::cpu::{Cpu, CpuState};
use crate::error::CpuError;

verus! {

/// Why a program could not be put into a fresh machine.
#[derive(Debug)]
pub enum LoadError {
    /// This RAM size in MiB does not fit in a `u64` once counted in bytes.
    RamOverflow(u64),
    /// A RAM of this size in MiB does not fit in the address space from `RAM_BASE` on.
    RamTooLarge(u64),
    /// Copying the image into RAM failed with this error.
    Image(CpuError),
}

/// The number of bytes in `mb` MiB.
pub open spec fn mib(mb: u64) -> int {
    mb * 1048576
}

/// A RAM of `bytes` bytes fits in a `usize` and ends at an address.
pub open spec fn ram_fits(bytes: int) -> bool {
    bytes <= usize::MAX && RAM_BASE + bytes <= u64::MAX
}

/// The size in bytes of a RAM of `ram_size_mb` MiB, refused where it overflows a `u64` or
/// does not fit in the address space.
pub fn ram_bytes(ram_size_mb: u64) -> (r: Result<usize, LoadError>)
    ensures
        mib(ram_size_mb) > u64::MAX ==> (r matches Err(LoadError::RamOverflow(m)) && m
            == ram_size_mb),
        mib(ram_size_mb) <= u64::MAX && !ram_fits(mib(ram_size_mb)) ==> (r matches Err(
            LoadError::RamTooLarge(m),
        ) && m == ram_size_mb),
        ram_fits(mib(ram_size_mb)) ==> r is Ok && r->Ok_0 == mib(ram_size_mb),
{
    let bytes = match ram_size_mb.checked_mul(1024 * 1024) {
        Some(b) => b,
        None => {
            return Err(LoadError::RamOverflow(ram_size_mb));
        },
    };
    if bytes > usize::MAX as u64 || bytes > u64::MAX - RAM_BASE {
        return Err(LoadError::RamTooLarge(ram_size_mb));
    }
    Ok(bytes as usize)
}

/// The bus of a fresh machine with `ram_size` bytes of RAM: all zero, nothing sent.
pub open spec fn fresh_bus(ram_size: nat) -> BusState {
    BusState { ram: Seq::new(ram_size, |i: int| 0u8), uart: Seq::empty() }
}

/// A fresh machine with `ram_size` bytes of RAM into which `image` is copied from `entry`
/// on, with the pc at `entry`. The copy fails, and no machine is made, where a byte of
/// the image falls outside RAM.
pub fn load_cpu(entry: u64, ram_size: usize, image: &[u8]) -> (r: Result<Cpu, LoadError>)
    requires
        RAM_BASE + ram_size <= u64::MAX,
    ensures
        ({
            let (bus, out) = load_bytes_spec(fresh_bus(ram_size as nat), entry, image@);
            &&& r is Ok <==> out is Ok
            &&& r is Ok ==> r->Ok_0.wf() && r->Ok_0@ == CpuState {
                regs: Seq::new(32, |i: int| 0u64),
                pc: entry,
                csrs: Map::empty(),
                bus,
            }
            &&& out is Err ==> (r matches Err(LoadError::Image(e)) && e == out->Err_0)
        }),
{
    let mut bus = Bus::new(ram_size);
    proof {
        assert(bus@ == fresh_bus(ram_size as nat));
    }
    match bus.load_bytes(entry, image) {
        Ok(()) => {},
        Err(e) => {
            return Err(LoadError::Image(e));
        },
    }
    let cpu = Cpu::new(entry, bus);
    Ok(cpu)
}

} // verus!
