# riscv_emu

Core pieces of an educational RISC-V emulator, written in Verus: every
function in `src/` carries a contract that Verus proves.

## Layout

- `src/ram.rs`, `src/bytes.rs`: RAM as a byte sequence at physical address
  `0x8000_0000` (512 MiB), little-endian reads and writes.
- `src/isa/riscv32/`: the RV32I/M instruction table (with the RV64 word
  operations), the decoder, whose decoding undoes encoding for tables in
  which no two descriptions share a key, the ALU with RISC-V's results for
  high multiplies, division by zero and word operations, and a core that
  decodes and executes one instruction per step.
- `src/isa/utils.rs`: instruction-table builder and bit-pattern masks.
- `src/vector/`: the vector unit: configuration types, the register file,
  mask and tail policies, integer, widening, narrowing, fixed-point, mask,
  permutation and memory instructions, and the laws of vector transfers.
- `src/load.rs`: symbol tables and ELF loading; `src/elf_layout.rs`: the
  byte layout of an ELF file and the conditions under which `xmas-elf`
  reads each part of it without failing; `src/signature.rs`: the
  test-signature region of a program.
- `src/vclock.rs`: a virtual clock and a timer of scheduled tasks.
- `src/utils.rs`, `src/bits.rs`, `src/address.rs`, `src/device.rs`,
  `src/logging.rs`: bit helpers, address and device-argument parsing, log
  levels.
- `src/rvdb/`: the debugger's output: the kinds of output a command
  produces, their rendering as text (plain or with ANSI colours, with
  instructions shown in assembly), and the `print` command on the RV32 core.
- `app/`: the command-line program (argument parsing, file reading,
  logging setup).
- `tests/`: tests on concrete values.

## Trusted items

ELF parsing is done by the `xmas-elf` crate. The functions of `src/load.rs`
marked `#[verifier::external_body]` call it; their contracts state over the
file's bytes what a few lines can (whether the header parses, the header
counts, section and segment addresses, offsets and sizes) and name the rest
(`elf_section_name`, `elf_symbol`, ...), and
their `requires` leave out, by conditions on the file's bytes, the inputs
on which `xmas-elf` would fail an assertion or an index, and public
checkers (`section_search_safe`, `symbol_table_readable`,
`try_load_to_ram`) test those conditions. Two facts about the machine stand
under those conditions without being stated: `xmas-elf` reads records in
place, so the buffer that holds the file must be 8-byte aligned (the
allocator gives a `Vec<u8>` at least that on the usual targets), and the
host must be little-endian, as the byte-level reading of header fields in
`src/elf_layout.rs` assumes.

Two std functions are trusted too: `core::str::from_utf8`, as vstd's
`valid_utf8` describes it, and the collection of a `Vec<char>` into a
`String` (`src/rvdb/text.rs`), which keeps the characters in order.
