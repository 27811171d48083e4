use crate::emulator::bus::{Bus, BusState};
use crate::emulator::cpu::{
    can_step, sets_delay_timer, spec_fetch, steps_to, Cpu, CpuState, PROGRAM_START, REGISTER_COUNT,
};
use crate::emulator::display::SCREEN_SIZE;
use std::time::Instant;
use crate::emulator::ram::RAM_SIZE;
use vstd::prelude::*;

verus! {

/// Memory with `rom` copied to the addresses from `PROGRAM_START` on.
pub open spec fn with_rom(ram: Seq<u8>, rom: Seq<u8>) -> Seq<u8> {
    Seq::new(
        ram.len(),
        |a: int|
            if PROGRAM_START <= a < PROGRAM_START + rom.len() {
                rom[a - PROGRAM_START]
            } else {
                ram[a]
            },
    )
}

/// A whole machine: the processor and everything on its bus.
pub struct Chip8 {
    bus: Bus,
    cpu: Cpu,
}

impl View for Chip8 {
    type V = (CpuState, BusState);

    closed spec fn view(&self) -> (CpuState, BusState) {
        (self.cpu@, self.bus@)
    }
}

impl Chip8 {
    /// The clock reading from which the delay timer counts down.
    pub closed spec fn timer_start(&self) -> Instant {
        self.bus.timer_start()
    }

    /// The machine always has `REGISTER_COUNT` registers and stack slots, `RAM_SIZE` bytes of
    /// memory and `SCREEN_SIZE` pixels.
    pub proof fn lemma_sizes(&self)
        ensures
            self@.0.vx.len() == REGISTER_COUNT,
            self@.0.stack.len() == REGISTER_COUNT,
            self@.1.ram.len() == RAM_SIZE,
            self@.1.screen.len() == SCREEN_SIZE,
    {
        self.cpu.lemma_sizes();
        self.bus.lemma_sizes();
    }

    /// A machine at power-on: registers zero, the program counter at `PROGRAM_START`, the
    /// font in memory, a blank screen, no key pressed and the delay timer at zero.
    pub fn new() -> (m: Chip8)
        ensures
            m@.0.vx == Seq::new(REGISTER_COUNT as nat, |r: int| 0u16),
            m@.0.i == 0,
            m@.0.pc == PROGRAM_START,
            m@.0.stack == Seq::new(REGISTER_COUNT as nat, |r: int| 0u16),
            m@.0.sp == 0,
            m@.1.ram == crate::emulator::ram::initial_memory(),
            m@.1.key == None::<u8>,
            m@.1.screen == crate::emulator::display::blank_screen(),
            m@.1.delay == 0,
    {
        Chip8 { bus: Bus::new(), cpu: Cpu::new() }
    }

    /// Copies the program `data` into memory from `PROGRAM_START` on.
    pub fn load_rom(&mut self, data: Vec<u8>)
        requires
            PROGRAM_START + data.len() <= RAM_SIZE,
        ensures
            final(self)@.0 == old(self)@.0,
            final(self)@.1 == (BusState { ram: with_rom(old(self)@.1.ram, data@), ..old(self)@.1 }),
            final(self).timer_start() == old(self).timer_start(),
    {
        let ghost b0 = self.bus@;
        proof {
            self.bus.lemma_sizes();
            assert(b0.ram =~= with_rom(b0.ram, data@.take(0)));
        }
        let mut i: usize = 0;
        while i < data.len()
            invariant
                PROGRAM_START + data.len() <= RAM_SIZE,
                i <= data.len(),
                b0.ram.len() == RAM_SIZE,
                self.cpu@ == old(self)@.0,
                self.bus.timer_start() == old(self).timer_start(),
                self.bus@ == (BusState { ram: with_rom(b0.ram, data@.take(i as int)), ..b0 }),
            decreases data.len() - i,
        {
            let ghost before = self.bus@.ram;
            self.bus.ram_write_byte(PROGRAM_START + i as u16, data[i]);
            assert(self.bus@.ram =~= with_rom(b0.ram, data@.take(i + 1)));
            i = i + 1;
        }
        assert(data@.take(data.len() as int) =~= data@);
    }

    /// Runs one instruction; see `Cpu::run_instruction`.
    pub fn run_instruction(&mut self)
        requires
            can_step(old(self)@.0, old(self)@.1),
        ensures
            steps_to(old(self)@.0, old(self)@.1, final(self)@.0, final(self)@.1),
            !sets_delay_timer(spec_fetch(old(self)@.1.ram, old(self)@.0.pc))
                ==> final(self).timer_start() == old(self).timer_start(),
    {
        self.cpu.run_instruction(&mut self.bus);
    }

    /// Whether the next instruction runs to completion; see `Cpu::can_run_instruction`.
    pub fn can_run_instruction(&self) -> (ok: bool)
        ensures
            ok == can_step(self@.0, self@.1),
    {
        self.cpu.can_run_instruction(&self.bus)
    }

    /// The screen's pixel buffer, row after row.
    pub fn get_display_buffer(&self) -> (buffer: &[u8])
        ensures
            buffer@ == self@.1.screen,
            buffer@.len() == SCREEN_SIZE,
    {
        self.bus.get_display_buffer()
    }

    /// Records which key, if any, is now held down.
    pub fn set_key_pressed(&mut self, key: Option<u8>)
        ensures
            final(self)@.0 == old(self)@.0,
            final(self)@.1 == (BusState { key: key, ..old(self)@.1 }),
            final(self).timer_start() == old(self).timer_start(),
    {
        self.bus.set_key_screen(key);
    }
}

} // verus!
