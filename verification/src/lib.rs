//! A CHIP-8 virtual machine: memory, keypad, monochrome screen, delay timer
//! and the interpreter that runs one instruction at a time over them.

pub mod emulator;
