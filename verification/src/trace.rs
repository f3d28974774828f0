//! The contents of a trace file: a header and the recorded snapshots.
use vstd::prelude::*;

use crate::error::{CpuError, CpuResult};
use crate::snapshot::CpuSnapshot;

verus! {

/// The bytes that open every trace: "RVET".
pub const TRACE_MAGIC: [u8; 4] = [0x52, 0x56, 0x45, 0x54];

/// The format version that this library writes.
pub const TRACE_VERSION: u8 = 1;

#[derive(Clone, Debug)]
pub struct TraceHeader {
    pub magic: [u8; 4],
    pub version: u8,
    pub cycle_count: u64,
}

#[derive(Clone, Debug)]
pub struct TraceFile {
    pub header: TraceHeader,
    pub snapshots: Vec<CpuSnapshot>,
}

/// Whether `e` is a trace error whose message is `msg`.
pub open spec fn is_trace_error(e: CpuError, msg: Seq<char>) -> bool {
    match e {
        CpuError::Serialization(m) => m@ == msg,
        _ => false,
    }
}

impl TraceHeader {
    /// Whether the header opens with the trace magic.
    pub open spec fn has_magic(&self) -> bool {
        self.magic@ == TRACE_MAGIC@
    }

    /// Refuses a header that does not open with the trace magic.
    pub fn check_magic(&self) -> (r: CpuResult<()>)
        ensures
            r is Ok <==> self.has_magic(),
            r is Err ==> is_trace_error(r->Err_0, "invalid trace magic"@),
    {
        let expected = TRACE_MAGIC;
        let mut i: usize = 0;
        while i < 4
            invariant
                i <= 4,
                expected@ == TRACE_MAGIC@,
                forall|k: int| 0 <= k < i ==> self.magic@[k] == expected@[k],
            decreases 4 - i,
        {
            if self.magic[i] != expected[i] {
                return Err(CpuError::Serialization("invalid trace magic".to_owned()));
            }
            i = i + 1;
        }
        assert(self.magic@ =~= TRACE_MAGIC@);
        Ok(())
    }
}

impl TraceFile {
    /// The trace of a recording: the magic, the current version, the number of snapshots,
    /// and copies of the snapshots.
    pub fn new(snapshots: &[CpuSnapshot]) -> (t: TraceFile)
        ensures
            t.header.has_magic(),
            t.header.version == TRACE_VERSION,
            t.header.cycle_count == snapshots@.len(),
            t.snapshots@.len() == snapshots@.len(),
            forall|i: int| 0 <= i < snapshots@.len() ==> #[trigger] t.snapshots@[i]@ == snapshots@[i]@,
    {
        let mut copies: Vec<CpuSnapshot> = Vec::new();
        let mut i: usize = 0;
        while i < snapshots.len()
            invariant
                i <= snapshots@.len(),
                copies@.len() == i,
                forall|k: int| 0 <= k < i ==> #[trigger] copies@[k]@ == snapshots@[k]@,
            decreases snapshots@.len() - i,
        {
            copies.push(snapshots[i].copy());
            i = i + 1;
        }
        let header = TraceHeader {
            magic: TRACE_MAGIC,
            version: TRACE_VERSION,
            cycle_count: snapshots.len() as u64,
        };
        TraceFile { header, snapshots: copies }
    }
}

} // verus!
