use vstd::prelude::*;

verus! {

/// The instructions of the Zicsr extension. `rs1_or_uimm` names a register for the
/// first three and is a 5-bit immediate for the three `i` forms.
#[derive(Debug, Clone, Copy, PartialEq, Eq, Structural)]
pub enum CsrInstruction {
    Csrrw { rd: u8, rs1_or_uimm: u8, csr: u16 },
    Csrrs { rd: u8, rs1_or_uimm: u8, csr: u16 },
    Csrrc { rd: u8, rs1_or_uimm: u8, csr: u16 },
    Csrrwi { rd: u8, rs1_or_uimm: u8, csr: u16 },
    Csrrsi { rd: u8, rs1_or_uimm: u8, csr: u16 },
    Csrrci { rd: u8, rs1_or_uimm: u8, csr: u16 },
}

} // verus!
