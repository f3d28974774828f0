pub mod rv64i;
pub mod zicsr;

pub use rv64i::Instruction;
pub use zicsr::CsrInstruction;

use vstd::prelude::*;

verus! {

/// A decoded instruction of either supported extension.
#[derive(Debug, Clone, Copy, PartialEq, Eq, Structural)]
pub enum AnyInstruction {
    Base(Instruction),
    Csr(CsrInstruction),
}

} // verus!
