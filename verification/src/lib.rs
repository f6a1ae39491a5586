//! A RISC-V emulator core: instruction decoding and execution for a small
//! RV32 machine, a vector unit with the integer and fixed-point arithmetic of
//! the vector extension, byte-addressed RAM, a virtual clock and timers, and
//! symbol tables read from ELF images.

pub mod address;
pub mod bits;
pub mod bytes;
pub mod device;
pub mod elf_layout;
pub mod isa;
pub mod load;
pub mod logging;
pub mod ram;
pub mod rvdb;
pub mod signature;
pub mod utils;
pub mod vclock;
pub mod vector;
