//! A 64-bit RISC-V processor (RV64I with Zicsr) on a memory-mapped bus, with recording
//! of every cycle and replay of recorded traces.

pub mod alu;
pub mod bus;
pub mod cpu;
pub mod csr;
pub mod decode;
pub mod error;
pub mod execute;
pub mod isa;
pub mod laws;
pub mod loader;
pub mod memory;
pub mod recorder;
pub mod repl;
pub mod replayer;
pub mod snapshot;
pub mod text;
pub mod trace;
pub mod word;

pub use bus::Bus;
pub use cpu::Cpu;
pub use error::CpuError;
pub use recorder::SnapshotRecorder;
pub use replayer::TraceReplayer;
pub use snapshot::CpuSnapshot;
