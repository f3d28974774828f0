use vstd::prelude::*;

verus! {

/// `std::io::Error` as a type that errors of this library can carry.
/// Verus sees nothing inside such a value: the library only moves it.
#[verifier::external_type_specification]
#[verifier::external_body]
pub struct ExIoError(std::io::Error);

/// Everything that can stop the processor or the trace machinery.
#[derive(Debug)]
pub enum CpuError {
    /// The word could not be decoded as an RV64I or Zicsr instruction.
    IllegalInstruction(u32),
    /// A multi-byte access at an address that is not a multiple of its width.
    Misaligned { addr: u64, width: u8 },
    /// No device answers at this address, or the access does not fit it.
    BusError(u64),
    /// A control and status register that is not implemented.
    UnknownCsr(u16),
    /// The program executed `ebreak`.
    Ebreak,
    /// The program executed `ecall`.
    Ecall,
    /// Reading or writing a trace file failed.
    Io(std::io::Error),
    /// A trace is malformed or a replay request cannot be met.
    Serialization(String),
}

pub type CpuResult<T> = Result<T, CpuError>;

} // verus!
