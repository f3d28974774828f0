# riscv_emu

A 64-bit RISC-V processor emulator (RV64I and Zicsr) with a memory-mapped bus
(RAM at `0x8000_0000`, a UART transmit register at `0x1000_0000`), and a
time-travel debugger: a recorder that keeps a snapshot of every cycle and a
replayer that moves over a recorded trace.

`src/` is the library, verified with Verus. Its contracts state what each
instruction does to the architectural state (`execute::execute_spec`), what a
load or store does to memory (`memory::load_spec`, `memory::store_spec`), and
how recordings, snapshot differences and replays relate to that state. The
commands of the interactive replay (`repl`), the reading of addresses
(`text::parse_hex_u64`) and the loading of a program image (`loader`) are
verified too.

`app/` is the command line (`run`, `record`, `replay`): argument handling, file
I/O, trace serialisation (bincode inside gzip), logging, and the terminal loop
that reads a command, hands it to the library and prints the reply.
