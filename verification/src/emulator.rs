pub mod bus;
pub mod chip8;
pub mod cpu;
pub mod display;
pub mod keyboard;
pub mod ram;
