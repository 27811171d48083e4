use crate::emulator::bus::{Bus, BusState};
use crate::emulator::display::{blank_screen, in_sprite_row, spec_draw_byte, turns_pixel_off};
use crate::emulator::ram::RAM_SIZE;
use rand::rngs::ThreadRng;
use rand::Rng;
use vstd::prelude::*;

verus! {

/// Address at which programs are loaded and execution starts.
pub const PROGRAM_START: u16 = 0x200;

/// Number of general-purpose registers `V0` to `VF`, and of return-stack slots.
pub const REGISTER_COUNT: usize = 16;

/// The random-number generator of the standard `rand` crate for this thread.
#[verifier::external_type_specification]
#[verifier::external_body]
pub struct ExThreadRng(ThreadRng);

/// Calls `rand::thread_rng`: a handle on the thread's random-number generator. Nothing is
/// stated of it; the crate panics if the operating system's entropy source fails.
#[verifier::external_body]
fn new_thread_rng() -> ThreadRng {
    rand::thread_rng()
}

/// Calls `rand::Rng::gen_range` on `low..high`: a random number in that half-open range,
/// which is all that is stated of it (the crate panics on an empty range, which `requires`
/// rules out).
#[verifier::external_body]
fn random_in_range(rng: &mut ThreadRng, low: u16, high: u16) -> (value: u16)
    requires
        low < high,
    ensures
        low <= value < high,
{
    rng.gen_range(low..high)
}

/// The abstract state of the processor.
pub struct CpuState {
    /// Registers `V0` to `VF`.
    pub vx: Seq<u16>,
    /// The address register `I`.
    pub i: u16,
    /// The program counter.
    pub pc: u16,
    /// Return addresses; slot 0 is never written, the top one is `stack[sp]`.
    pub stack: Seq<u16>,
    /// The stack pointer.
    pub sp: usize,
}

// ----- decoding -----

/// The instruction stored big-endian at `pc` and `pc + 1`.
pub open spec fn spec_fetch(ram: Seq<u8>, pc: u16) -> u16 {
    ((ram[pc as int] as u16) << 8u16) | (ram[pc + 1] as u16)
}

/// The instruction's top nibble, which selects its kind.
pub open spec fn opcode(ins: u16) -> u16 {
    (ins & 0xF000) >> 12u16
}

/// The address operand `nnn` (lowest 12 bits).
pub open spec fn addr_nnn(ins: u16) -> u16 {
    ins & 0x0FFF
}

/// The byte operand `kk` (lowest 8 bits).
pub open spec fn byte_kk(ins: u16) -> u16 {
    ins & 0x00FF
}

/// The nibble operand `n` (lowest 4 bits).
pub open spec fn nibble_n(ins: u16) -> u16 {
    ins & 0x000F
}

/// The first register operand `x` (second nibble).
pub open spec fn reg_x(ins: u16) -> u16 {
    (ins & 0x0F00) >> 8u16
}

/// The second register operand `y` (third nibble).
pub open spec fn reg_y(ins: u16) -> u16 {
    (ins & 0x00F0) >> 4u16
}

proof fn lemma_decode_bounds(ins: u16)
    ensures
        opcode(ins) < 16,
        addr_nnn(ins) < 4096,
        byte_kk(ins) < 256,
        nibble_n(ins) < 16,
        reg_x(ins) < 16,
        reg_y(ins) < 16,
{
    assert((ins & 0xF000) >> 12u16 < 16) by (bit_vector);
    assert(ins & 0x0FFF < 4096) by (bit_vector);
    assert(ins & 0x00FF < 256) by (bit_vector);
    assert(ins & 0x000F < 16) by (bit_vector);
    assert((ins & 0x0F00) >> 8u16 < 16) by (bit_vector);
    assert((ins & 0x00F0) >> 4u16 < 16) by (bit_vector);
}

// ----- effects of instructions -----

/// `c` with the program counter moved on by `by` bytes.
pub open spec fn advance(c: CpuState, by: int) -> CpuState {
    CpuState { pc: (c.pc + by) as u16, ..c }
}

/// `c` with register `r` set to `v`.
pub open spec fn with_reg(c: CpuState, r: int, v: u16) -> CpuState {
    CpuState { vx: c.vx.update(r, v), ..c }
}

/// 1 for true, 0 for false: what the flag register `VF` receives.
pub open spec fn flag(b: bool) -> u16 {
    if b {
        1
    } else {
        0
    }
}

/// `00E0` clears the screen; `00EE` returns from a subroutine; any other `0...` is not an
/// instruction. `None` where execution cannot go on.
pub open spec fn spec_system(c: CpuState, b: BusState, ins: u16) -> Option<(CpuState, BusState)> {
    if byte_kk(ins) == 0xE0 {
        Some((advance(c, 2), BusState { screen: blank_screen(), ..b }))
    } else if byte_kk(ins) == 0xEE {
        if c.sp == 0 || c.sp >= REGISTER_COUNT {
            None
        } else {
            Some((CpuState { pc: c.stack[c.sp as int], sp: (c.sp - 1) as usize, ..c }, b))
        }
    } else {
        None
    }
}

/// `8xyn`: register-to-register arithmetic and logic.
pub open spec fn spec_alu(c: CpuState, ins: u16) -> Option<CpuState> {
    let x = reg_x(ins) as int;
    let y = reg_y(ins) as int;
    let vx = c.vx[x];
    let vy = c.vx[y];
    let n = nibble_n(ins);
    let result = if n == 0x0 {
        Some(with_reg(c, x, vy))
    } else if n == 0x1 {
        Some(with_reg(c, x, vx | vy))
    } else if n == 0x2 {
        Some(with_reg(c, x, vx & vy))
    } else if n == 0x3 {
        Some(with_reg(c, x, vx ^ vy))
    } else if n == 0x4 {
        if vx + vy > 0xFFFF {
            None
        } else if vx + vy > 0xFF {
            Some(with_reg(c, 0xF, 1))
        } else {
            Some(with_reg(c, x, (vx + vy) as u16))
        }
    } else if n == 0x5 {
        let c1 = with_reg(c, 0xF, flag(vx > vy));
        let diff = (c1.vx[y] as i8) - (c1.vx[x] as i8);
        if diff < -128 || diff > 127 {
            None
        } else {
            Some(with_reg(c1, x, (diff as i8) as u16))
        }
    } else if n == 0x6 {
        let c1 = with_reg(c, 0xF, flag(vx & 1 == 1));
        Some(with_reg(c1, x, (c1.vx[x] / 2) as u16))
    } else if n == 0x7 {
        let c1 = with_reg(c, 0xF, flag(vx < vy));
        Some(with_reg(c1, x, 0))
    } else if n == 0xE {
        let c1 = with_reg(c, 0xF, flag((vx & 0x80) >> 7u16 == 1));
        if c1.vx[x] * 2 > 0xFFFF {
            None
        } else {
            Some(with_reg(c1, x, (c1.vx[x] * 2) as u16))
        }
    } else {
        None
    };
    match result {
        Some(c2) => Some(advance(c2, 2)),
        None => None,
    }
}

/// The screen after drawing the first `rows` rows of the sprite stored from address `i` at
/// `(x, y)`, and whether any of those rows turned a pixel off.
pub open spec fn draw_sprite(screen: Seq<u8>, ram: Seq<u8>, i: u16, x: u16, y: u16, rows: nat) -> (
    Seq<u8>,
    bool,
)
    decreases rows,
{
    if rows == 0 {
        (screen, false)
    } else {
        let r = rows - 1;
        let (s, erased) = draw_sprite(screen, ram, i, x, y, r as nat);
        let s2 = spec_draw_byte(s, x as u8, (y + r) as u8, ram[i + r]);
        (s2, erased || turns_pixel_off(s, s2))
    }
}

/// `Dxyn`: draws the `n`-row sprite stored from `I` at `(Vx, Vy)`; `VF` tells whether a pixel
/// was turned off.
pub open spec fn spec_draw(c: CpuState, b: BusState, ins: u16) -> Option<(CpuState, BusState)> {
    let x_coord = c.vx[reg_x(ins) as int];
    let y_coord = c.vx[reg_y(ins) as int];
    let n = nibble_n(ins);
    if n > 0 && (c.i + n - 1 >= RAM_SIZE || y_coord + n - 1 > 0xFFFF) {
        None
    } else {
        let (screen, erased) = draw_sprite(b.screen, b.ram, c.i, x_coord, y_coord, n as nat);
        Some((advance(with_reg(c, 0xF, flag(erased)), 2), BusState { screen: screen, ..b }))
    }
}

/// `Ex9E` skips the next instruction if the key `Vx` is held down, `ExA1` if it is not.
pub open spec fn spec_keys(c: CpuState, b: BusState, ins: u16) -> Option<CpuState> {
    let pressed = b.key == Some(c.vx[reg_x(ins) as int] as u8);
    if byte_kk(ins) == 0x9E {
        Some(advance(c, if pressed { 4 } else { 2 }))
    } else if byte_kk(ins) == 0xA1 {
        Some(advance(c, if !pressed { 4 } else { 2 }))
    } else {
        None
    }
}

/// Memory with the low bytes of registers `V0` to `V(count-1)` stored from address `base`.
pub open spec fn store_registers(ram: Seq<u8>, base: int, regs: Seq<u16>, count: int) -> Seq<u8> {
    Seq::new(
        ram.len(),
        |a: int|
            if base <= a < base + count {
                regs[a - base] as u8
            } else {
                ram[a]
            },
    )
}

/// Registers with `V0` to `V(count-1)` loaded from the bytes stored from address `base`.
pub open spec fn load_registers(regs: Seq<u16>, ram: Seq<u8>, base: int, count: int) -> Seq<u16> {
    Seq::new(
        regs.len(),
        |r: int|
            if r < count {
                ram[base + r] as u16
            } else {
                regs[r]
            },
    )
}

/// Memory with the three decimal digits of `v` (hundreds, tens, ones, each taken modulo 256)
/// stored from address `base`.
pub open spec fn store_bcd(ram: Seq<u8>, base: int, v: u16) -> Seq<u8> {
    ram.update(base, (v / 100) as u8).update(base + 1, ((v / 10) % 10) as u8).update(
        base + 2,
        (v % 10) as u8,
    )
}

/// `Fxkk`: timers, keypad wait, `I` arithmetic, decimal conversion and register transfers.
/// `delay_reading` is what the delay timer reads when `Fx07` runs.
pub open spec fn spec_misc(c: CpuState, b: BusState, ins: u16, delay_reading: u8) -> Option<
    (CpuState, BusState),
> {
    let x = reg_x(ins) as int;
    let vx = c.vx[x];
    let kk = byte_kk(ins);
    if kk == 0x07 {
        Some((advance(with_reg(c, x, delay_reading as u16), 2), b))
    } else if kk == 0x0A {
        match b.key {
            Some(k) => Some((advance(with_reg(c, x, k as u16), 2), b)),
            None => Some((c, b)),
        }
    } else if kk == 0x15 {
        Some((advance(c, 2), BusState { delay: vx as u8, ..b }))
    } else if kk == 0x18 {
        Some((advance(c, 2), b))
    } else if kk == 0x1E {
        if c.i + vx > 0xFFFF {
            None
        } else {
            Some((advance(CpuState { i: (c.i + vx) as u16, ..c }, 2), b))
        }
    } else if kk == 0x29 {
        if vx * 5 > 0xFFFF {
            None
        } else {
            Some((advance(CpuState { i: (vx * 5) as u16, ..c }, 2), b))
        }
    } else if kk == 0x33 {
        if c.i + 2 >= RAM_SIZE {
            None
        } else {
            Some((advance(c, 2), BusState { ram: store_bcd(b.ram, c.i as int, vx), ..b }))
        }
    } else if kk == 0x55 {
        if c.i + x >= RAM_SIZE {
            None
        } else {
            Some(
                (
                    advance(CpuState { i: (c.i + x + 1) as u16, ..c }, 2),
                    BusState { ram: store_registers(b.ram, c.i as int, c.vx, x + 1), ..b },
                ),
            )
        }
    } else if kk == 0x65 {
        if c.i + x >= RAM_SIZE {
            None
        } else {
            Some(
                (
                    advance(
                        CpuState {
                            vx: load_registers(c.vx, b.ram, c.i as int, x + 1),
                            i: (c.i + x + 1) as u16,
                            ..c
                        },
                        2,
                    ),
                    b,
                ),
            )
        }
    } else {
        None
    }
}

/// The effect of instruction `ins` on processor `c` and bus `b`, where `random` is the random
/// byte that `Cxkk` uses and `delay_reading` what `Fx07` reads from the delay timer; `None`
/// where execution cannot go on (no such instruction, stack overflow or underflow, an address
/// outside memory, an arithmetic overflow). It is meant for `c.pc + 1 < RAM_SIZE`.
pub open spec fn spec_execute(c: CpuState, b: BusState, ins: u16, random: u16, delay_reading: u8) -> Option<
    (CpuState, BusState),
> {
    let op = opcode(ins);
    let nnn = addr_nnn(ins);
    let kk = byte_kk(ins);
    let x = reg_x(ins) as int;
    let y = reg_y(ins) as int;
    if op == 0x0 {
        spec_system(c, b, ins)
    } else if op == 0x1 {
        Some((CpuState { pc: nnn, ..c }, b))
    } else if op == 0x2 {
        if c.sp + 1 >= REGISTER_COUNT {
            None
        } else {
            Some(
                (
                    CpuState {
                        sp: (c.sp + 1) as usize,
                        stack: c.stack.update(c.sp + 1, (c.pc + 2) as u16),
                        pc: nnn,
                        ..c
                    },
                    b,
                ),
            )
        }
    } else if op == 0x3 {
        Some((advance(c, if c.vx[x] == kk { 4 } else { 2 }), b))
    } else if op == 0x4 {
        Some((advance(c, if c.vx[x] != kk { 4 } else { 2 }), b))
    } else if op == 0x5 {
        Some((advance(c, if c.vx[x] == c.vx[y] { 4 } else { 2 }), b))
    } else if op == 0x6 {
        Some((advance(with_reg(c, x, kk), 2), b))
    } else if op == 0x7 {
        Some((advance(with_reg(c, x, ((c.vx[x] + kk) % 0x10000) as u16), 2), b))
    } else if op == 0x8 {
        match spec_alu(c, ins) {
            Some(c2) => Some((c2, b)),
            None => None,
        }
    } else if op == 0x9 {
        if nibble_n(ins) == 0 {
            Some((advance(c, if c.vx[x] != c.vx[y] { 4 } else { 2 }), b))
        } else {
            None
        }
    } else if op == 0xA {
        Some((advance(CpuState { i: nnn, ..c }, 2), b))
    } else if op == 0xB {
        if nnn + c.vx[0] > 0xFFFF {
            None
        } else {
            Some((CpuState { pc: (nnn + c.vx[0]) as u16, ..c }, b))
        }
    } else if op == 0xC {
        Some((advance(with_reg(c, x, kk & random), 2), b))
    } else if op == 0xD {
        spec_draw(c, b, ins)
    } else if op == 0xE {
        match spec_keys(c, b, ins) {
            Some(c2) => Some((c2, b)),
            None => None,
        }
    } else {
        spec_misc(c, b, ins, delay_reading)
    }
}

/// Whether `ins` is `Fx15`, the one instruction that restarts the delay timer.
pub open spec fn sets_delay_timer(ins: u16) -> bool {
    opcode(ins) == 0xF && byte_kk(ins) == 0x15
}

/// One fetch-and-execute cycle: the instruction at the program counter, executed; `None`
/// where execution cannot go on (the program counter too close to the end of memory for a
/// two-byte fetch, or as `spec_execute` says).
pub open spec fn spec_step(c: CpuState, b: BusState, random: u16, delay_reading: u8) -> Option<
    (CpuState, BusState),
> {
    if c.pc + 1 >= RAM_SIZE {
        None
    } else {
        spec_execute(c, b, spec_fetch(b.ram, c.pc), random, delay_reading)
    }
}

/// Whether a cycle from `(c, b)` runs to completion; the random byte and the delay timer's
/// reading play no part in it.
pub open spec fn can_step(c: CpuState, b: BusState) -> bool {
    spec_step(c, b, 0, 0) is Some
}

/// `(c2, b2)` is a state that one cycle from `(c, b)` can produce, for some random byte below
/// 256 and some delay timer reading no greater than the timer's set value.
pub open spec fn steps_to(c: CpuState, b: BusState, c2: CpuState, b2: BusState) -> bool {
    exists|random: u16, delay_reading: u8|
        random < 256 && delay_reading <= b.delay && spec_step(c, b, random, delay_reading) == Some(
            (c2, b2),
        )
}

/// Whether a cycle runs to completion depends neither on the random byte nor on the delay
/// timer's reading.
pub proof fn lemma_inputs_do_not_decide_success(c: CpuState, b: BusState, random: u16, delay_reading: u8)
    ensures
        spec_step(c, b, random, delay_reading) is Some <==> can_step(c, b),
{
}

/// The instruction whose high byte is `hi` and low byte is `lo`.
pub fn instruction_from_bytes(hi: u8, lo: u8) -> (ins: u16)
    ensures
        ins == ((hi as u16) << 8u16) | (lo as u16),
        ins == hi * 256 + lo,
{
    let hi = hi as u16;
    let lo = lo as u16;
    assert((hi << 8u16) | lo == hi * 256 + lo) by (bit_vector)
        requires
            hi < 256,
            lo < 256,
    ;
    (hi << 8u16) | lo
}

/// The kind of instruction `ins`: its top nibble.
pub fn instruction_kind(ins: u16) -> (kind: u16)
    ensures
        kind == opcode(ins),
        kind < 16,
{
    proof {
        lemma_decode_bounds(ins);
    }
    (ins & 0xF000) >> 12u16
}

/// The processor: registers, address register, program counter and return stack, with a
/// random-number generator for `Cxkk`.
pub struct Cpu {
    vx: [u16; REGISTER_COUNT],
    i: u16,
    pc: u16,
    stack: [u16; REGISTER_COUNT],
    sp: usize,
    random: ThreadRng,
}

impl View for Cpu {
    type V = CpuState;

    closed spec fn view(&self) -> CpuState {
        CpuState { vx: self.vx@, i: self.i, pc: self.pc, stack: self.stack@, sp: self.sp }
    }
}

impl Cpu {
    /// There are always `REGISTER_COUNT` registers and stack slots.
    pub proof fn lemma_sizes(&self)
        ensures
            self@.vx.len() == REGISTER_COUNT,
            self@.stack.len() == REGISTER_COUNT,
    {
    }

    /// A processor with all registers zero, an empty stack and the program counter at
    /// `PROGRAM_START`.
    pub fn new() -> (cpu: Cpu)
        ensures
            cpu@.vx == Seq::new(REGISTER_COUNT as nat, |r: int| 0u16),
            cpu@.i == 0,
            cpu@.pc == PROGRAM_START,
            cpu@.stack == Seq::new(REGISTER_COUNT as nat, |r: int| 0u16),
            cpu@.sp == 0,
    {
        let cpu = Cpu {
            vx: [0u16; REGISTER_COUNT],
            i: 0,
            pc: PROGRAM_START,
            stack: [0u16; REGISTER_COUNT],
            sp: 0,
            random: new_thread_rng(),
        };
        assert(cpu@.vx =~= Seq::new(REGISTER_COUNT as nat, |r: int| 0u16));
        assert(cpu@.stack =~= Seq::new(REGISTER_COUNT as nat, |r: int| 0u16));
        cpu
    }
}

impl Cpu {
    /// The instruction at the program counter.
    fn fetch(&self, bus: &Bus) -> (ins: u16)
        requires
            self@.pc + 1 < RAM_SIZE,
        ensures
            ins == spec_fetch(bus@.ram, self@.pc),
    {
        let hi = bus.ram_read_byte(self.pc);
        let lo = bus.ram_read_byte(self.pc + 1);
        instruction_from_bytes(hi, lo)
    }

    fn exec_system(&mut self, bus: &mut Bus, ins: u16)
        requires
            old(self)@.pc + 1 < RAM_SIZE,
            spec_system(old(self)@, old(bus)@, ins) is Some,
        ensures
            spec_system(old(self)@, old(bus)@, ins) == Some((final(self)@, final(bus)@)),
            final(bus).timer_start() == old(bus).timer_start(),
    {
        let kk = ins & 0x00FF;
        if kk == 0xE0 {
            bus.clear_screen();
            self.pc = self.pc + 2;
        } else {
            // 00EE: return to the address on top of the stack.
            self.pc = self.stack[self.sp];
            self.sp = self.sp - 1;
        }
    }

    fn exec_alu(&mut self, ins: u16)
        requires
            old(self)@.pc + 1 < RAM_SIZE,
            spec_alu(old(self)@, ins) is Some,
        ensures
            spec_alu(old(self)@, ins) == Some(final(self)@),
    {
        proof {
            lemma_decode_bounds(ins);
        }
        let x = ((ins & 0x0F00) >> 8u16) as usize;
        let y = ((ins & 0x00F0) >> 4u16) as usize;
        let n = ins & 0x000F;
        if n == 0x0 {
            self.vx[x] = self.vx[y];
        } else if n == 0x1 {
            self.vx[x] = self.vx[x] | self.vx[y];
        } else if n == 0x2 {
            self.vx[x] = self.vx[x] & self.vx[y];
        } else if n == 0x3 {
            self.vx[x] = self.vx[x] ^ self.vx[y];
        } else if n == 0x4 {
            let sum: u16 = self.vx[x] + self.vx[y];
            if sum > 0xFF {
                self.vx[0xF] = 1;
            } else {
                self.vx[x] = sum;
            }
        } else if n == 0x5 {
            if self.vx[x] > self.vx[y] {
                self.vx[0xF] = 1;
            } else {
                self.vx[0xF] = 0;
            }
            self.vx[x] = (self.vx[y] as i8 - self.vx[x] as i8) as u16;
        } else if n == 0x6 {
            let lsb = self.vx[x] & 0x1;
            if lsb == 1 {
                self.vx[0xF] = 1;
            } else {
                self.vx[0xF] = 0;
            }
            self.vx[x] = self.vx[x] / 2;
        } else if n == 0x7 {
            if self.vx[x] < self.vx[y] {
                self.vx[0xF] = 1;
            } else {
                self.vx[0xF] = 0;
            }
            self.vx[x] = (self.vx[y] as i8 - self.vx[y] as i8) as u16;
        } else {
            // 8xyE: shift left, VF receives bit 7.
            let msb = (self.vx[x] & 0b1000_0000) >> 7u16;
            if msb == 1 {
                self.vx[0xF] = 1;
            } else {
                self.vx[0xF] = 0;
            }
            self.vx[x] = self.vx[x] * 2;
        }
        self.pc = self.pc + 2;
    }

    fn exec_draw(&mut self, bus: &mut Bus, ins: u16)
        requires
            old(self)@.pc + 1 < RAM_SIZE,
            spec_draw(old(self)@, old(bus)@, ins) is Some,
        ensures
            spec_draw(old(self)@, old(bus)@, ins) == Some((final(self)@, final(bus)@)),
            final(bus).timer_start() == old(bus).timer_start(),
    {
        proof {
            lemma_decode_bounds(ins);
        }
        let x = ((ins & 0x0F00) >> 8u16) as usize;
        let y = ((ins & 0x00F0) >> 4u16) as usize;
        let n = ins & 0x000F;
        let x_coord = self.vx[x];
        let y_coord = self.vx[y];
        let ghost b0 = bus@;
        let mut has_overwritten_pixel = false;
        let mut i: u16 = 0;
        while i < n
            invariant
                i <= n,
                n < 16,
                n > 0 ==> self.i + n - 1 < RAM_SIZE && y_coord + n - 1 <= 0xFFFF,
                bus@ == (BusState {
                    screen: draw_sprite(b0.screen, b0.ram, self.i, x_coord, y_coord, i as nat).0,
                    ..b0
                }),
                bus.timer_start() == old(bus).timer_start(),
                has_overwritten_pixel == draw_sprite(
                    b0.screen,
                    b0.ram,
                    self.i,
                    x_coord,
                    y_coord,
                    i as nat,
                ).1,
            decreases n - i,
        {
            let byte = bus.ram_read_byte(self.i + i);
            let row = y_coord + i;
            assert(((x_coord as usize) as u8) == (x_coord as u8)) by (bit_vector);
            assert(((row as usize) as u8) == (row as u8)) by (bit_vector);
            if bus.draw_byte_at_coord(x_coord as usize, row as usize, byte) {
                has_overwritten_pixel = true;
            }
            i = i + 1;
        }
        if has_overwritten_pixel {
            self.vx[0xF] = 1;
        } else {
            self.vx[0xF] = 0;
        }
        self.pc = self.pc + 2;
    }

    fn exec_keys(&mut self, bus: &Bus, ins: u16)
        requires
            old(self)@.pc + 1 < RAM_SIZE,
            spec_keys(old(self)@, bus@, ins) is Some,
        ensures
            spec_keys(old(self)@, bus@, ins) == Some(final(self)@),
    {
        proof {
            lemma_decode_bounds(ins);
        }
        let x = ((ins & 0x0F00) >> 8u16) as usize;
        let kk = ins & 0x00FF;
        if kk == 0x9E {
            if bus.is_key_pressed(self.vx[x] as u8) {
                self.pc = self.pc + 2;
            }
            self.pc = self.pc + 2;
        } else {
            // ExA1: skip if the key is not held down.
            if !bus.is_key_pressed(self.vx[x] as u8) {
                self.pc = self.pc + 2;
            }
            self.pc = self.pc + 2;
        }
    }

    fn exec_misc(&mut self, bus: &mut Bus, ins: u16, delay_reading: u8)
        requires
            old(self)@.pc + 1 < RAM_SIZE,
            spec_misc(old(self)@, old(bus)@, ins, delay_reading) is Some,
        ensures
            spec_misc(old(self)@, old(bus)@, ins, delay_reading) == Some(
                (final(self)@, final(bus)@),
            ),
            byte_kk(ins) != 0x15 ==> final(bus).timer_start() == old(bus).timer_start(),
    {
        proof {
            lemma_decode_bounds(ins);
        }
        let x = ((ins & 0x0F00) >> 8u16) as usize;
        let kk = ins & 0x00FF;
        if kk == 0x07 {
            self.vx[x] = delay_reading as u16;
            self.pc = self.pc + 2;
        } else if kk == 0x0A {
            if let Some(val) = bus.get_key_pressed() {
                self.vx[x] = val as u16;
                self.pc = self.pc + 2;
            }
        } else if kk == 0x15 {
            bus.set_delay_timer(self.vx[x] as u8);
            self.pc = self.pc + 2;
        } else if kk == 0x18 {
            self.pc = self.pc + 2;
        } else if kk == 0x1E {
            self.i = self.i + self.vx[x];
            self.pc = self.pc + 2;
        } else if kk == 0x29 {
            self.i = self.vx[x] * 5;
            self.pc = self.pc + 2;
        } else if kk == 0x33 {
            let ghost r0 = bus@.ram;
            bus.ram_write_byte(self.i, (self.vx[x] / 100) as u8);
            bus.ram_write_byte(self.i + 1, ((self.vx[x] / 10) % 10) as u8);
            bus.ram_write_byte(self.i + 2, (self.vx[x] % 10) as u8);
            assert(bus@.ram =~= store_bcd(r0, self.i as int, self.vx[x as int]));
            self.pc = self.pc + 2;
        } else if kk == 0x55 {
            let ghost b0 = bus@;
            let mut r: usize = 0;
            assert(b0.ram =~= store_registers(b0.ram, self.i as int, self@.vx, 0));
            while r < x + 1
                invariant
                    x < 16,
                    r <= x + 1,
                    self.i + x < RAM_SIZE,
                    self@ == old(self)@,
                    bus.timer_start() == old(bus).timer_start(),
                    bus@ == (BusState {
                        ram: store_registers(b0.ram, self.i as int, self@.vx, r as int),
                        ..b0
                    }),
                decreases x + 1 - r,
            {
                proof {
                    bus.lemma_sizes();
                }
                bus.ram_write_byte((r + self.i as usize) as u16, self.vx[r] as u8);
                assert(bus@.ram =~= store_registers(b0.ram, self.i as int, self@.vx, r + 1));
                r = r + 1;
            }
            self.i = self.i + x as u16 + 1;
            self.pc = self.pc + 2;
        } else {
            // Fx65: load V0..=Vx from memory at I.
            let ghost v0 = self@.vx;
            let mut r: usize = 0;
            assert(v0 =~= load_registers(v0, bus@.ram, self.i as int, 0));
            while r < x + 1
                invariant
                    x < 16,
                    r <= x + 1,
                    self.i + x < RAM_SIZE,
                    self@ == (CpuState {
                        vx: load_registers(v0, bus@.ram, self.i as int, r as int),
                        ..old(self)@
                    }),
                decreases x + 1 - r,
            {
                self.vx[r] = bus.ram_read_byte((r + self.i as usize) as u16) as u16;
                assert(self@.vx =~= load_registers(v0, bus@.ram, self.i as int, r + 1));
                r = r + 1;
            }
            self.i = self.i + (x + 1) as u16;
            self.pc = self.pc + 2;
        }
    }

    /// Executes `ins` as the instruction at the program counter.
    fn execute(&mut self, bus: &mut Bus, ins: u16, random: u16, delay_reading: u8)
        requires
            old(self)@.pc + 1 < RAM_SIZE,
            spec_execute(old(self)@, old(bus)@, ins, random, delay_reading) is Some,
        ensures
            spec_execute(old(self)@, old(bus)@, ins, random, delay_reading) == Some(
                (final(self)@, final(bus)@),
            ),
            !sets_delay_timer(ins) ==> final(bus).timer_start() == old(bus).timer_start(),
    {
        proof {
            lemma_decode_bounds(ins);
        }
        let nnn = ins & 0x0FFF;
        let kk = ins & 0x00FF;
        let n = ins & 0x000F;
        let x = ((ins & 0x0F00) >> 8u16) as usize;
        let y = ((ins & 0x00F0) >> 4u16) as usize;
        let op = instruction_kind(ins);
        if op == 0x0 {
            self.exec_system(bus, ins);
        } else if op == 0x1 {
            self.pc = nnn;
        } else if op == 0x2 {
            // Call: push the address of the next instruction, then jump.
            self.sp = self.sp + 1;
            self.stack[self.sp] = self.pc + 2;
            self.pc = nnn;
        } else if op == 0x3 {
            if self.vx[x] == kk {
                self.pc = self.pc + 4;
            } else {
                self.pc = self.pc + 2;
            }
        } else if op == 0x4 {
            if self.vx[x] != kk {
                self.pc = self.pc + 4;
            } else {
                self.pc = self.pc + 2;
            }
        } else if op == 0x5 {
            if self.vx[x] == self.vx[y] {
                self.pc = self.pc + 4;
            } else {
                self.pc = self.pc + 2;
            }
        } else if op == 0x6 {
            self.vx[x] = kk;
            self.pc = self.pc + 2;
        } else if op == 0x7 {
            self.vx[x] = self.vx[x].wrapping_add(kk);
            self.pc = self.pc + 2;
        } else if op == 0x8 {
            self.exec_alu(ins);
        } else if op == 0x9 {
            if self.vx[x] != self.vx[y] {
                self.pc = self.pc + 2;
            }
            self.pc = self.pc + 2;
        } else if op == 0xA {
            self.i = nnn;
            self.pc = self.pc + 2;
        } else if op == 0xB {
            self.pc = nnn + self.vx[0];
        } else if op == 0xC {
            self.vx[x] = kk & random;
            self.pc = self.pc + 2;
        } else if op == 0xD {
            self.exec_draw(bus, ins);
        } else if op == 0xE {
            self.exec_keys(bus, ins);
        } else {
            self.exec_misc(bus, ins, delay_reading);
        }
    }
}

impl Cpu {
    /// Runs one instruction: fetches the two bytes at the program counter and executes them.
    /// `Cxkk` draws its random byte below 256 from the thread's generator and `Fx07` reads
    /// the delay timer, so the contract says that the new state is one that a cycle can
    /// produce for some such random byte and timer reading.
    pub fn run_instruction(&mut self, bus: &mut Bus)
        requires
            can_step(old(self)@, old(bus)@),
        ensures
            steps_to(old(self)@, old(bus)@, final(self)@, final(bus)@),
            !sets_delay_timer(spec_fetch(old(bus)@.ram, old(self)@.pc)) ==> final(bus).timer_start()
                == old(bus).timer_start(),
    {
        let ins = self.fetch(bus);
        let op = instruction_kind(ins);
        let kk = ins & 0x00FF;
        let random = if op == 0xC {
            random_in_range(&mut self.random, 0, 256)
        } else {
            0
        };
        let delay_reading = if op == 0xF && kk == 0x07 {
            bus.get_delay_timer()
        } else {
            0
        };
        proof {
            lemma_inputs_do_not_decide_success(old(self)@, old(bus)@, random, delay_reading);
        }
        self.execute(bus, ins, random, delay_reading);
        assert(random < 256 && delay_reading <= old(bus)@.delay && spec_step(
            old(self)@,
            old(bus)@,
            random,
            delay_reading,
        ) == Some((self@, bus@)));
    }

    /// Runs one instruction as `run_instruction` does, with `random` as the random byte of
    /// `Cxkk` and `delay_reading` as what `Fx07` reads from the delay timer.
    pub fn run_instruction_with(&mut self, bus: &mut Bus, random: u16, delay_reading: u8)
        requires
            can_step(old(self)@, old(bus)@),
        ensures
            spec_step(old(self)@, old(bus)@, random, delay_reading) == Some(
                (final(self)@, final(bus)@),
            ),
            !sets_delay_timer(spec_fetch(old(bus)@.ram, old(self)@.pc)) ==> final(bus).timer_start()
                == old(bus).timer_start(),
    {
        let ins = self.fetch(bus);
        proof {
            lemma_inputs_do_not_decide_success(old(self)@, old(bus)@, random, delay_reading);
        }
        self.execute(bus, ins, random, delay_reading);
    }

    /// Whether the instruction at the program counter runs to completion; where it does not,
    /// `run_instruction` must not be called (executing it would stop the machine).
    pub fn can_run_instruction(&self, bus: &Bus) -> (ok: bool)
        ensures
            ok == can_step(self@, bus@),
    {
        if self.pc as usize + 1 >= RAM_SIZE {
            return false;
        }
        let ins = self.fetch(bus);
        proof {
            lemma_decode_bounds(ins);
        }
        let nnn = ins & 0x0FFF;
        let kk = ins & 0x00FF;
        let n = ins & 0x000F;
        let x = ((ins & 0x0F00) >> 8u16) as usize;
        let y = ((ins & 0x00F0) >> 4u16) as usize;
        let op = instruction_kind(ins);
        if op == 0x0 {
            kk == 0xE0 || (kk == 0xEE && self.sp != 0 && self.sp < REGISTER_COUNT)
        } else if op == 0x2 {
            self.sp < REGISTER_COUNT - 1
        } else if op == 0x8 {
            let vx = self.vx[x];
            let vy = self.vx[y];
            if n == 0x0 || n == 0x1 || n == 0x2 || n == 0x3 || n == 0x6 || n == 0x7 {
                true
            } else if n == 0x4 {
                vx as u32 + vy as u32 <= 0xFFFF
            } else if n == 0x5 {
                let f: u16 = if vx > vy {
                    1
                } else {
                    0
                };
                let a = if y == 0xF {
                    f
                } else {
                    vy
                };
                let b = if x == 0xF {
                    f
                } else {
                    vx
                };
                let diff = a as i8 as i16 - b as i8 as i16;
                -128 <= diff && diff <= 127
            } else if n == 0xE {
                let f: u16 = if (vx & 0x80) >> 7u16 == 1 {
                    1
                } else {
                    0
                };
                let v = if x == 0xF {
                    f
                } else {
                    vx
                };
                v as u32 * 2 <= 0xFFFF
            } else {
                false
            }
        } else if op == 0x9 {
            n == 0
        } else if op == 0xB {
            nnn as u32 + self.vx[0] as u32 <= 0xFFFF
        } else if op == 0xD {
            n == 0 || (self.i as usize + n as usize - 1 < RAM_SIZE && self.vx[y] as u32 + n as u32
                - 1 <= 0xFFFF)
        } else if op == 0xE {
            kk == 0x9E || kk == 0xA1
        } else if op == 0xF {
            let vx = self.vx[x];
            if kk == 0x07 || kk == 0x0A || kk == 0x15 || kk == 0x18 {
                true
            } else if kk == 0x1E {
                self.i as u32 + vx as u32 <= 0xFFFF
            } else if kk == 0x29 {
                vx as u32 * 5 <= 0xFFFF
            } else if kk == 0x33 {
                self.i as usize + 2 < RAM_SIZE
            } else if kk == 0x55 || kk == 0x65 {
                self.i as usize + x < RAM_SIZE
            } else {
                false
            }
        } else {
            true
        }
    }
}


/// Instructions are stored big-endian: the byte at `pc` is the high half.
pub proof fn law_fetch_is_big_endian(ram: Seq<u8>, pc: u16)
    requires
        0 <= pc,
        pc + 1 < ram.len(),
    ensures
        spec_fetch(ram, pc) == ram[pc as int] * 256 + ram[pc + 1],
{
    let hi = ram[pc as int];
    let lo = ram[pc + 1];
    assert(((hi as u16) << 8u16) | (lo as u16) == (hi as u16) * 256 + (lo as u16)) by (bit_vector);
}

/// A call (`2nnn`) followed by a return (`00EE`) at the called address resumes at the
/// instruction after the call, with the stack pointer, registers, `I` and the bus as they
/// were before the call.
pub proof fn law_call_then_return(
    c: CpuState,
    b: BusState,
    random: u16,
    delay_reading: u8,
    random2: u16,
    delay_reading2: u8,
)
    requires
        c.stack.len() == REGISTER_COUNT,
        c.pc + 1 < RAM_SIZE,
        opcode(spec_fetch(b.ram, c.pc)) == 0x2,
        spec_step(c, b, random, delay_reading) is Some,
        ({
            let (c1, b1) = spec_step(c, b, random, delay_reading).unwrap();
            spec_fetch(b1.ram, c1.pc) == 0x00EE && spec_step(c1, b1, random2, delay_reading2) is Some
        }),
    ensures
        ({
            let (c1, b1) = spec_step(c, b, random, delay_reading).unwrap();
            let (c2, b2) = spec_step(c1, b1, random2, delay_reading2).unwrap();
            &&& c2.pc == c.pc + 2
            &&& c2.sp == c.sp
            &&& c2.vx == c.vx
            &&& c2.i == c.i
            &&& b2 == b
        }),
{
    let ins = spec_fetch(b.ram, c.pc);
    lemma_decode_bounds(ins);
    assert(byte_kk(0x00EEu16) == 0xEE && opcode(0x00EEu16) == 0) by (bit_vector);
}

/// A cycle that starts with the stack pointer inside the stack leaves it inside the stack.
pub proof fn law_stack_pointer_stays_in_range(
    c: CpuState,
    b: BusState,
    random: u16,
    delay_reading: u8,
)
    requires
        c.sp < REGISTER_COUNT,
        spec_step(c, b, random, delay_reading) is Some,
    ensures
        spec_step(c, b, random, delay_reading).unwrap().0.sp < REGISTER_COUNT,
{
}

/// Only `Fx33` and `Fx55` write to memory, only `0nE0` (for any middle nibble `n`) and `Dxyn`
/// change the screen, only `Fx15` sets the delay timer, and no instruction changes which key
/// is held down.
pub proof fn law_what_instructions_touch(c: CpuState, b: BusState, random: u16, delay_reading: u8)
    requires
        spec_step(c, b, random, delay_reading) is Some,
    ensures
        ({
            let ins = spec_fetch(b.ram, c.pc);
            let b2 = spec_step(c, b, random, delay_reading).unwrap().1;
            &&& b2.key == b.key
            &&& (b2.ram != b.ram ==> opcode(ins) == 0xF && (byte_kk(ins) == 0x33 || byte_kk(ins)
                == 0x55))
            &&& (b2.screen != b.screen ==> (opcode(ins) == 0x0 && byte_kk(ins) == 0xE0) || opcode(ins)
                == 0xD)
            &&& (b2.delay != b.delay ==> opcode(ins) == 0xF && byte_kk(ins) == 0x15)
        }),
{
    let ins = spec_fetch(b.ram, c.pc);
    lemma_decode_bounds(ins);
}

/// `Fx33` stores the decimal digits of `Vx`, most significant first, when `Vx` has at most
/// three of them.
pub proof fn law_bcd_digits(ram: Seq<u8>, base: int, v: u16)
    requires
        0 <= base,
        base + 2 < ram.len(),
        v < 1000,
    ensures
        ({
            let m = store_bcd(ram, base, v);
            &&& m[base] < 10 && m[base + 1] < 10 && m[base + 2] < 10
            &&& m[base] * 100 + m[base + 1] * 10 + m[base + 2] == v
        }),
{
}

/// Loading registers (`Fx65`) from where they were stored (`Fx55`) gives back the low byte
/// of each stored register and leaves the others as they were.
pub proof fn law_store_then_load_registers(ram: Seq<u8>, regs: Seq<u16>, base: int, count: int)
    requires
        0 <= base,
        0 <= count <= regs.len(),
        base + count <= ram.len(),
    ensures
        load_registers(regs, store_registers(ram, base, regs, count), base, count) == Seq::new(
            regs.len(),
            |r: int|
                if r < count {
                    (regs[r] as u8) as u16
                } else {
                    regs[r]
                },
        ),
{
    let loaded = load_registers(regs, store_registers(ram, base, regs, count), base, count);
    assert(loaded =~= Seq::new(
        regs.len(),
        |r: int|
            if r < count {
                (regs[r] as u8) as u16
            } else {
                regs[r]
            },
    ));
}

proof fn lemma_sprite_keeps_pixels_bits(
    screen: Seq<u8>,
    ram: Seq<u8>,
    i: u16,
    x: u16,
    y: u16,
    rows: nat,
)
    requires
        crate::emulator::display::pixels_are_bits(screen),
    ensures
        crate::emulator::display::pixels_are_bits(draw_sprite(screen, ram, i, x, y, rows).0),
    decreases rows,
{
    if rows > 0 {
        let r = (rows - 1) as nat;
        lemma_sprite_keeps_pixels_bits(screen, ram, i, x, y, r);
        let s = draw_sprite(screen, ram, i, x, y, r).0;
        crate::emulator::display::law_draw_keeps_pixels_bits(s, x as u8, (y + r) as u8, ram[i + r]);
    }
}

/// Every cycle keeps each pixel of the screen 0 or 1.
pub proof fn law_step_keeps_pixels_bits(c: CpuState, b: BusState, random: u16, delay_reading: u8)
    requires
        crate::emulator::display::pixels_are_bits(b.screen),
        spec_step(c, b, random, delay_reading) is Some,
    ensures
        crate::emulator::display::pixels_are_bits(
            spec_step(c, b, random, delay_reading).unwrap().1.screen,
        ),
{
    let ins = spec_fetch(b.ram, c.pc);
    lemma_decode_bounds(ins);
    if opcode(ins) == 0xD {
        lemma_sprite_keeps_pixels_bits(
            b.screen,
            b.ram,
            c.i,
            c.vx[reg_x(ins) as int],
            c.vx[reg_y(ins) as int],
            nibble_n(ins) as nat,
        );
    }
}

// ----- what each instruction is for -----

/// The screen row on which row `r` of a sprite drawn at row `y` lands.
spec fn sprite_screen_row(y: u16, r: int) -> int {
    (((y + r) as u8) as int) % 32
}

/// Pixel `p` lies on a screen row that one of the first `rows` rows of a sprite drawn at row
/// `y` lands on.
spec fn row_touched(p: int, y: u16, rows: int) -> bool {
    exists|r: int| 0 <= r < rows && p / 64 == #[trigger] sprite_screen_row(y, r)
}

proof fn lemma_u16_rows_distinct(a: u16, b: u16)
    by (bit_vector)
    requires
        a < b,
        b - a < 16,
    ensures
        (a as u8) % 32 != (b as u8) % 32,
{
}

/// Up to 16 consecutive sprite rows land on distinct screen rows.
proof fn lemma_sprite_rows_distinct(y: u16, r1: int, r2: int)
    requires
        0 <= r1 < r2 < 16,
        y + r2 <= 0xFFFF,
    ensures
        sprite_screen_row(y, r1) != sprite_screen_row(y, r2),
{
    let a = (y + r1) as u16;
    let b = (y + r2) as u16;
    lemma_u16_rows_distinct(a, b);
    assert((y + r1) as u8 == a as u8);
    assert((y + r2) as u8 == b as u8);
}

/// Drawing a sprite of at most 16 rows changes only the screen rows it lands on, and reports
/// a collision exactly when some pixel that was on before is off after.
proof fn lemma_sprite_collision(screen: Seq<u8>, ram: Seq<u8>, i: u16, x: u16, y: u16, rows: nat)
    requires
        rows <= 16,
        y + rows <= 0x10000,
    ensures
        draw_sprite(screen, ram, i, x, y, rows).0.len() == screen.len(),
        draw_sprite(screen, ram, i, x, y, rows).1 <==> turns_pixel_off(
            screen,
            draw_sprite(screen, ram, i, x, y, rows).0,
        ),
        forall|p: int|
            0 <= p < screen.len() && !row_touched(p, y, rows as int) ==> #[trigger] draw_sprite(
                screen,
                ram,
                i,
                x,
                y,
                rows,
            ).0[p] == screen[p],
    decreases rows,
{
    if rows > 0 {
        let r = (rows - 1) as nat;
        lemma_sprite_collision(screen, ram, i, x, y, r);
        let (s, e) = draw_sprite(screen, ram, i, x, y, r);
        let y8 = (y + r) as u8;
        let s2 = spec_draw_byte(s, x as u8, y8, ram[i + r]);
        // A pixel of the new row was untouched by the earlier rows, and the other way round.
        assert forall|p: int| 0 <= p < screen.len() && in_sprite_row(p, x as u8, y8) implies !row_touched(
            p,
            y,
            r as int,
        ) by {
            assert(p / 64 == sprite_screen_row(y, r as int));
            if row_touched(p, y, r as int) {
                let r1 = choose|r1: int| 0 <= r1 < r && p / 64 == #[trigger] sprite_screen_row(y, r1);
                lemma_sprite_rows_distinct(y, r1, r as int);
            }
        }
        assert forall|p: int|
            0 <= p < screen.len() && !row_touched(p, y, rows as int) implies #[trigger] s2[p]
            == screen[p] by {
            if in_sprite_row(p, x as u8, y8) {
                assert(p / 64 == sprite_screen_row(y, r as int));
                assert(row_touched(p, y, rows as int));
            }
            if row_touched(p, y, r as int) {
                let r1 = choose|r1: int| 0 <= r1 < r && p / 64 == #[trigger] sprite_screen_row(y, r1);
                assert(0 <= r1 < rows && p / 64 == sprite_screen_row(y, r1));
            }
        }
        if e || turns_pixel_off(s, s2) {
            if e {
                let p = choose|p: int| 0 <= p < screen.len() && #[trigger] screen[p] == 1 && s[p] == 0;
                assert(row_touched(p, y, r as int));
                assert(!in_sprite_row(p, x as u8, y8));
                assert(screen[p] == 1 && s2[p] == 0);
            } else {
                let p = choose|p: int| 0 <= p < s.len() && #[trigger] s[p] == 1 && s2[p] == 0;
                assert(in_sprite_row(p, x as u8, y8));
                assert(screen[p] == 1 && s2[p] == 0);
            }
        }
        if turns_pixel_off(screen, s2) {
            let p = choose|p: int| 0 <= p < screen.len() && #[trigger] screen[p] == 1 && s2[p] == 0;
            if in_sprite_row(p, x as u8, y8) {
                assert(s[p] == 1 && s2[p] == 0);
            } else {
                assert(screen[p] == 1 && s[p] == 0);
            }
        }
    }
}

/// `Dxyn`: afterwards `VF` is 1 exactly when some pixel that was on before the instruction is
/// off after it (a collision in any row of the sprite, not only in the last one), and 0
/// otherwise.
pub proof fn law_draw_flags_any_collision(c: CpuState, b: BusState, random: u16, delay_reading: u8)
    requires
        c.vx.len() == REGISTER_COUNT,
        opcode(spec_fetch(b.ram, c.pc)) == 0xD,
        spec_step(c, b, random, delay_reading) is Some,
    ensures
        ({
            let (c2, b2) = spec_step(c, b, random, delay_reading).unwrap();
            &&& c2.vx[0xF] <= 1
            &&& (c2.vx[0xF] == 1 <==> exists|p: int|
                0 <= p < b.screen.len() && #[trigger] b.screen[p] == 1 && b2.screen[p] == 0)
            &&& c2.pc == c.pc + 2
        }),
{
    let ins = spec_fetch(b.ram, c.pc);
    lemma_decode_bounds(ins);
    let n = nibble_n(ins);
    let y = c.vx[reg_y(ins) as int];
    lemma_sprite_collision(b.screen, b.ram, c.i, c.vx[reg_x(ins) as int], y, n as nat);
}

/// `8xy6` (shift right), for `x != F`: `VF` receives the bit shifted out, `Vx % 2`, and `Vx`
/// becomes `Vx / 2`; the other registers, `I`, the stack and the bus stay, and the program
/// counter moves on by 2.
pub proof fn law_shift_right(c: CpuState, b: BusState, random: u16, delay_reading: u8)
    requires
        c.vx.len() == REGISTER_COUNT,
        opcode(spec_fetch(b.ram, c.pc)) == 0x8,
        nibble_n(spec_fetch(b.ram, c.pc)) == 0x6,
        reg_x(spec_fetch(b.ram, c.pc)) != 0xF,
        spec_step(c, b, random, delay_reading) is Some,
    ensures
        ({
            let x = reg_x(spec_fetch(b.ram, c.pc)) as int;
            let (c2, b2) = spec_step(c, b, random, delay_reading).unwrap();
            &&& c2.vx[0xF] == c.vx[x] % 2
            &&& c2.vx[x] == c.vx[x] / 2
            &&& forall|r: int| 0 <= r < REGISTER_COUNT && r != x && r != 0xF ==> c2.vx[r] == c.vx[r]
            &&& c2.pc == c.pc + 2 && c2.i == c.i && c2.sp == c.sp && c2.stack == c.stack
            &&& b2 == b
        }),
{
    let ins = spec_fetch(b.ram, c.pc);
    lemma_decode_bounds(ins);
    let v = c.vx[reg_x(ins) as int];
    assert((v & 1u16 == 1u16) == (v % 2 == 1)) by (bit_vector);
}

/// `8xyE` (shift left), for `x != F`: `VF` receives the bit shifted out of the low byte, bit
/// 7 of `Vx`, and `Vx` is doubled.
pub proof fn law_shift_left(c: CpuState, b: BusState, random: u16, delay_reading: u8)
    requires
        c.vx.len() == REGISTER_COUNT,
        opcode(spec_fetch(b.ram, c.pc)) == 0x8,
        nibble_n(spec_fetch(b.ram, c.pc)) == 0xE,
        reg_x(spec_fetch(b.ram, c.pc)) != 0xF,
        spec_step(c, b, random, delay_reading) is Some,
    ensures
        ({
            let x = reg_x(spec_fetch(b.ram, c.pc)) as int;
            let (c2, b2) = spec_step(c, b, random, delay_reading).unwrap();
            &&& c2.vx[0xF] == (c.vx[x] / 128) % 2
            &&& c2.vx[x] == c.vx[x] * 2
            &&& forall|r: int| 0 <= r < REGISTER_COUNT && r != x && r != 0xF ==> c2.vx[r] == c.vx[r]
            &&& c2.pc == c.pc + 2 && c2.i == c.i && c2.sp == c.sp && c2.stack == c.stack
            &&& b2 == b
        }),
{
    let ins = spec_fetch(b.ram, c.pc);
    lemma_decode_bounds(ins);
    let v = c.vx[reg_x(ins) as int];
    assert(((v & 0x80u16) >> 7u16 == 1u16) == ((v / 128) % 2 == 1)) by (bit_vector);
}

/// `8xy4` (add), for `x != F`: a sum up to 255 is stored in `Vx` and `VF` is left as it was;
/// a larger sum sets `VF` to 1 and leaves `Vx` as it was.
pub proof fn law_add_registers(c: CpuState, b: BusState, random: u16, delay_reading: u8)
    requires
        c.vx.len() == REGISTER_COUNT,
        opcode(spec_fetch(b.ram, c.pc)) == 0x8,
        nibble_n(spec_fetch(b.ram, c.pc)) == 0x4,
        reg_x(spec_fetch(b.ram, c.pc)) != 0xF,
        spec_step(c, b, random, delay_reading) is Some,
    ensures
        ({
            let x = reg_x(spec_fetch(b.ram, c.pc)) as int;
            let y = reg_y(spec_fetch(b.ram, c.pc)) as int;
            let (c2, b2) = spec_step(c, b, random, delay_reading).unwrap();
            &&& c.vx[x] + c.vx[y] <= 0xFF ==> c2.vx[x] == c.vx[x] + c.vx[y] && c2.vx[0xF] == c.vx[0xF]
            &&& c.vx[x] + c.vx[y] > 0xFF ==> c2.vx[x] == c.vx[x] && c2.vx[0xF] == 1
            &&& forall|r: int| 0 <= r < REGISTER_COUNT && r != x && r != 0xF ==> c2.vx[r] == c.vx[r]
            &&& c2.pc == c.pc + 2 && b2 == b
        }),
{
    lemma_decode_bounds(spec_fetch(b.ram, c.pc));
}

/// `8xy5` (subtract), for `x`, `y` other than `F` and both registers below 128: `VF` is 1
/// exactly when `Vx > Vy`, and `Vx` becomes `Vy - Vx`, taken modulo 2^16 when negative.
pub proof fn law_subtract_registers(c: CpuState, b: BusState, random: u16, delay_reading: u8)
    requires
        c.vx.len() == REGISTER_COUNT,
        opcode(spec_fetch(b.ram, c.pc)) == 0x8,
        nibble_n(spec_fetch(b.ram, c.pc)) == 0x5,
        reg_x(spec_fetch(b.ram, c.pc)) != 0xF,
        reg_y(spec_fetch(b.ram, c.pc)) != 0xF,
        c.vx[reg_x(spec_fetch(b.ram, c.pc)) as int] < 128,
        c.vx[reg_y(spec_fetch(b.ram, c.pc)) as int] < 128,
        spec_step(c, b, random, delay_reading) is Some,
    ensures
        ({
            let x = reg_x(spec_fetch(b.ram, c.pc)) as int;
            let y = reg_y(spec_fetch(b.ram, c.pc)) as int;
            let (c2, b2) = spec_step(c, b, random, delay_reading).unwrap();
            &&& c2.vx[0xF] == (if c.vx[x] > c.vx[y] { 1int } else { 0int })
            &&& c.vx[x] <= c.vx[y] ==> c2.vx[x] == c.vx[y] - c.vx[x]
            &&& c.vx[x] > c.vx[y] ==> c2.vx[x] == 0x10000 + c.vx[y] - c.vx[x]
            &&& c2.pc == c.pc + 2 && b2 == b
        }),
{
    let ins = spec_fetch(b.ram, c.pc);
    lemma_decode_bounds(ins);
    let vx = c.vx[reg_x(ins) as int];
    let vy = c.vx[reg_y(ins) as int];
    assert(vx < 128 && vy < 128 && vx <= vy ==> (((vy as i8) - (vx as i8)) as i8) as u16 == vy - vx)
        by (bit_vector);
    assert(vx < 128 && vy < 128 && vx > vy ==> (((vy as i8) - (vx as i8)) as i8) as u16 == 0x10000
        + vy - vx) by (bit_vector);
}

/// `2nnn` (call): the return address `pc + 2` goes into the slot above the top of the stack,
/// which becomes the new top; every other slot, the registers, `I` and the bus stay, and
/// execution continues at `nnn`.
pub proof fn law_call_pushes(c: CpuState, b: BusState, random: u16, delay_reading: u8)
    requires
        c.stack.len() == REGISTER_COUNT,
        opcode(spec_fetch(b.ram, c.pc)) == 0x2,
        spec_step(c, b, random, delay_reading) is Some,
    ensures
        ({
            let (c2, b2) = spec_step(c, b, random, delay_reading).unwrap();
            &&& c2.sp == c.sp + 1
            &&& c2.stack[c.sp + 1] == c.pc + 2
            &&& forall|j: int| 0 <= j < REGISTER_COUNT && j != c.sp + 1 ==> c2.stack[j] == c.stack[j]
            &&& c2.pc == addr_nnn(spec_fetch(b.ram, c.pc))
            &&& c2.vx == c.vx && c2.i == c.i && b2 == b
        }),
{
}

/// `00EE` (return): execution continues at the address on top of the stack, the slot below
/// it becomes the top, and the stack's contents, the registers, `I` and the bus stay.
pub proof fn law_return_pops(c: CpuState, b: BusState, random: u16, delay_reading: u8)
    requires
        opcode(spec_fetch(b.ram, c.pc)) == 0x0,
        byte_kk(spec_fetch(b.ram, c.pc)) == 0xEE,
        spec_step(c, b, random, delay_reading) is Some,
    ensures
        ({
            let (c2, b2) = spec_step(c, b, random, delay_reading).unwrap();
            &&& c2.pc == c.stack[c.sp as int]
            &&& c2.sp == c.sp - 1
            &&& c2.stack == c.stack && c2.vx == c.vx && c2.i == c.i && b2 == b
        }),
{
}

/// No cycle changes a stack slot at or below both the old and the new top of the stack, and
/// only calls and returns move the stack pointer. Together with `law_call_pushes` and
/// `law_return_pops`, a return always resumes after the matching call, however deeply calls
/// are nested in between.
pub proof fn law_stack_frames_are_kept(c: CpuState, b: BusState, random: u16, delay_reading: u8)
    requires
        c.stack.len() == REGISTER_COUNT,
        spec_step(c, b, random, delay_reading) is Some,
    ensures
        ({
            let ins = spec_fetch(b.ram, c.pc);
            let (c2, b2) = spec_step(c, b, random, delay_reading).unwrap();
            &&& forall|j: int| 0 <= j <= c.sp && j <= c2.sp ==> c2.stack[j] == c.stack[j]
            &&& c2.sp != c.sp ==> opcode(ins) == 0x2 || (opcode(ins) == 0x0 && byte_kk(ins) == 0xEE)
        }),
{
    lemma_decode_bounds(spec_fetch(b.ram, c.pc));
}

/// Two nested calls and their two returns: the inner return resumes after the inner call,
/// the outer one after the outer call, with the stack pointer back where it started.
pub proof fn law_nested_calls_return_in_order(
    c: CpuState,
    b: BusState,
    r1: u16,
    d1: u8,
    r2: u16,
    d2: u8,
    r3: u16,
    d3: u8,
    r4: u16,
    d4: u8,
)
    requires
        c.stack.len() == REGISTER_COUNT,
        opcode(spec_fetch(b.ram, c.pc)) == 0x2,
        spec_step(c, b, r1, d1) is Some,
        ({
            let (c1, b1) = spec_step(c, b, r1, d1).unwrap();
            &&& opcode(spec_fetch(b1.ram, c1.pc)) == 0x2
            &&& spec_step(c1, b1, r2, d2) is Some
            &&& {
                let (c2, b2) = spec_step(c1, b1, r2, d2).unwrap();
                &&& spec_fetch(b2.ram, c2.pc) == 0x00EE
                &&& spec_step(c2, b2, r3, d3) is Some
                &&& {
                    let (c3, b3) = spec_step(c2, b2, r3, d3).unwrap();
                    &&& spec_fetch(b3.ram, c3.pc) == 0x00EE
                    &&& spec_step(c3, b3, r4, d4) is Some
                }
            }
        }),
    ensures
        ({
            let (c1, b1) = spec_step(c, b, r1, d1).unwrap();
            let (c2, b2) = spec_step(c1, b1, r2, d2).unwrap();
            let (c3, b3) = spec_step(c2, b2, r3, d3).unwrap();
            let (c4, b4) = spec_step(c3, b3, r4, d4).unwrap();
            &&& c3.pc == c1.pc + 2 && c3.sp == c1.sp
            &&& c4.pc == c.pc + 2 && c4.sp == c.sp
        }),
{
    let (c1, b1) = spec_step(c, b, r1, d1).unwrap();
    let (c2, b2) = spec_step(c1, b1, r2, d2).unwrap();
    let (c3, b3) = spec_step(c2, b2, r3, d3).unwrap();
    law_call_pushes(c, b, r1, d1);
    law_call_pushes(c1, b1, r2, d2);
    assert(byte_kk(0x00EEu16) == 0xEE && opcode(0x00EEu16) == 0) by (bit_vector);
    law_return_pops(c2, b2, r3, d3);
    law_return_pops(c3, b3, r4, d4);
}

/// The conditional skips move the program counter on by 4 (skipping the next instruction)
/// exactly when their condition holds and by 2 otherwise, and change nothing else: `3xkk` when
/// `Vx == kk`, `4xkk` when `Vx != kk`, `5xy0` when `Vx == Vy`, `9xy0` when `Vx != Vy`, `Ex9E`
/// when the key held down is `Vx`, `ExA1` when it is not (no key held down included).
pub proof fn law_skips(c: CpuState, b: BusState, random: u16, delay_reading: u8)
    requires
        spec_step(c, b, random, delay_reading) is Some,
        ({
            let op = opcode(spec_fetch(b.ram, c.pc));
            op == 0x3 || op == 0x4 || op == 0x5 || op == 0x9 || op == 0xE
        }),
    ensures
        ({
            let ins = spec_fetch(b.ram, c.pc);
            let op = opcode(ins);
            let vx = c.vx[reg_x(ins) as int];
            let vy = c.vx[reg_y(ins) as int];
            let (c2, b2) = spec_step(c, b, random, delay_reading).unwrap();
            let skip = if op == 0x3 {
                vx == byte_kk(ins)
            } else if op == 0x4 {
                vx != byte_kk(ins)
            } else if op == 0x5 {
                vx == vy
            } else if op == 0x9 {
                vx != vy
            } else if byte_kk(ins) == 0x9E {
                b.key == Some(vx as u8)
            } else {
                b.key != Some(vx as u8)
            };
            &&& op == 0xE ==> byte_kk(ins) == 0x9E || byte_kk(ins) == 0xA1
            &&& c2.pc == c.pc + (if skip { 4int } else { 2int })
            &&& c2.vx == c.vx && c2.i == c.i && c2.sp == c.sp && c2.stack == c.stack
            &&& b2 == b
        }),
{
}

/// `Fx0A` (wait for a key): with no key held down nothing changes, so the same instruction
/// runs again; otherwise `Vx` receives the key's code and execution moves on by 2.
pub proof fn law_wait_for_key(c: CpuState, b: BusState, random: u16, delay_reading: u8)
    requires
        c.vx.len() == REGISTER_COUNT,
        opcode(spec_fetch(b.ram, c.pc)) == 0xF,
        byte_kk(spec_fetch(b.ram, c.pc)) == 0x0A,
        spec_step(c, b, random, delay_reading) is Some,
    ensures
        ({
            let x = reg_x(spec_fetch(b.ram, c.pc)) as int;
            let (c2, b2) = spec_step(c, b, random, delay_reading).unwrap();
            &&& b2 == b
            &&& b.key is None ==> c2 == c
            &&& b.key is Some ==> c2.vx[x] == b.key.unwrap() && c2.pc == c.pc + 2
        }),
{
    lemma_decode_bounds(spec_fetch(b.ram, c.pc));
}

/// Jumps: `1nnn` continues at `nnn`, `Bnnn` at `nnn + V0`; nothing else changes.
pub proof fn law_jumps(c: CpuState, b: BusState, random: u16, delay_reading: u8)
    requires
        spec_step(c, b, random, delay_reading) is Some,
        opcode(spec_fetch(b.ram, c.pc)) == 0x1 || opcode(spec_fetch(b.ram, c.pc)) == 0xB,
    ensures
        ({
            let ins = spec_fetch(b.ram, c.pc);
            let (c2, b2) = spec_step(c, b, random, delay_reading).unwrap();
            &&& c2.pc == addr_nnn(ins) + (if opcode(ins) == 0xB { c.vx[0] as int } else { 0int })
            &&& c2.vx == c.vx && c2.i == c.i && c2.sp == c.sp && c2.stack == c.stack
            &&& b2 == b
        }),
{
}

/// Immediates: `6xkk` sets `Vx` to `kk`; `7xkk` adds `kk` to `Vx`, wrapping past 0xFFFF;
/// `Annn` sets `I` to `nnn`; `Cxkk` sets `Vx` to a value that has no bit outside `kk`. Each
/// moves on by 2 and changes nothing else.
pub proof fn law_immediates(c: CpuState, b: BusState, random: u16, delay_reading: u8)
    requires
        c.vx.len() == REGISTER_COUNT,
        spec_step(c, b, random, delay_reading) is Some,
        ({
            let op = opcode(spec_fetch(b.ram, c.pc));
            op == 0x6 || op == 0x7 || op == 0xA || op == 0xC
        }),
    ensures
        ({
            let ins = spec_fetch(b.ram, c.pc);
            let op = opcode(ins);
            let x = reg_x(ins) as int;
            let kk = byte_kk(ins);
            let (c2, b2) = spec_step(c, b, random, delay_reading).unwrap();
            &&& op == 0x6 ==> c2.vx[x] == kk
            &&& op == 0x7 && c.vx[x] + kk <= 0xFFFF ==> c2.vx[x] == c.vx[x] + kk
            &&& op == 0x7 && c.vx[x] + kk > 0xFFFF ==> c2.vx[x] == c.vx[x] + kk - 0x10000
            &&& op == 0xC ==> c2.vx[x] & !kk == 0 && c2.vx[x] <= kk
            &&& op == 0xA ==> c2.i == addr_nnn(ins) && c2.vx == c.vx
            &&& op != 0xA ==> c2.i == c.i
            &&& forall|r: int| 0 <= r < REGISTER_COUNT && r != x ==> c2.vx[r] == c.vx[r]
            &&& c2.pc == c.pc + 2 && c2.sp == c.sp && c2.stack == c.stack && b2 == b
        }),
{
    let ins = spec_fetch(b.ram, c.pc);
    lemma_decode_bounds(ins);
    let kk = byte_kk(ins);
    assert((kk & random) & !kk == 0 && (kk & random) <= kk) by (bit_vector);
}

/// `8xy0` copies `Vy` into `Vx`; `8xy1`, `8xy2` and `8xy3` set each bit of `Vx` to the OR,
/// AND and XOR of that bit of `Vx` and of `Vy`; `8xy7` sets `VF` to 1 exactly when `Vx < Vy`
/// and clears `Vx` (for `x`, `y` other than `F`).
pub proof fn law_register_logic(c: CpuState, b: BusState, random: u16, delay_reading: u8, k: u16)
    requires
        c.vx.len() == REGISTER_COUNT,
        k < 16,
        opcode(spec_fetch(b.ram, c.pc)) == 0x8,
        ({
            let n = nibble_n(spec_fetch(b.ram, c.pc));
            n == 0x0 || n == 0x1 || n == 0x2 || n == 0x3 || n == 0x7
        }),
        spec_step(c, b, random, delay_reading) is Some,
    ensures
        ({
            let ins = spec_fetch(b.ram, c.pc);
            let n = nibble_n(ins);
            let x = reg_x(ins) as int;
            let y = reg_y(ins) as int;
            let bit_x = (c.vx[x] >> k) & 1;
            let bit_y = (c.vx[y] >> k) & 1;
            let (c2, b2) = spec_step(c, b, random, delay_reading).unwrap();
            let bit = (c2.vx[x] >> k) & 1;
            &&& n == 0x0 ==> c2.vx[x] == c.vx[y]
            &&& n == 0x1 ==> (bit == 1 <==> bit_x == 1 || bit_y == 1)
            &&& n == 0x2 ==> (bit == 1 <==> bit_x == 1 && bit_y == 1)
            &&& n == 0x3 ==> (bit == 1 <==> bit_x != bit_y)
            &&& n == 0x7 && x != 0xF && y != 0xF ==> c2.vx[x] == 0 && c2.vx[0xF] == (if c.vx[x]
                < c.vx[y] { 1int } else { 0int })
            &&& n != 0x7 ==> forall|r: int| 0 <= r < REGISTER_COUNT && r != x ==> c2.vx[r] == c.vx[r]
            &&& c2.pc == c.pc + 2 && c2.i == c.i && b2 == b
        }),
{
    let ins = spec_fetch(b.ram, c.pc);
    lemma_decode_bounds(ins);
    let vx = c.vx[reg_x(ins) as int];
    let vy = c.vx[reg_y(ins) as int];
    assert(k < 16 ==> ((((vx | vy) >> k) & 1 == 1) <==> ((vx >> k) & 1 == 1 || (vy >> k) & 1 == 1)))
        by (bit_vector);
    assert(k < 16 ==> ((((vx & vy) >> k) & 1 == 1) <==> ((vx >> k) & 1 == 1 && (vy >> k) & 1 == 1)))
        by (bit_vector);
    assert(k < 16 ==> ((((vx ^ vy) >> k) & 1 == 1) <==> ((vx >> k) & 1 != (vy >> k) & 1)))
        by (bit_vector);
}

/// The timer and `I` instructions: `Fx07` sets `Vx` to the delay timer's reading, `Fx15`
/// sets the delay timer to the low byte of `Vx`, `Fx18` only moves on, `Fx1E` adds `Vx` to
/// `I`, `Fx29` points `I` at the font sprite of digit `Vx` (address `5 * Vx`). Each moves on
/// by 2; memory, screen and keypad stay.
pub proof fn law_timer_and_index(c: CpuState, b: BusState, random: u16, delay_reading: u8)
    requires
        c.vx.len() == REGISTER_COUNT,
        opcode(spec_fetch(b.ram, c.pc)) == 0xF,
        ({
            let kk = byte_kk(spec_fetch(b.ram, c.pc));
            kk == 0x07 || kk == 0x15 || kk == 0x18 || kk == 0x1E || kk == 0x29
        }),
        spec_step(c, b, random, delay_reading) is Some,
    ensures
        ({
            let ins = spec_fetch(b.ram, c.pc);
            let kk = byte_kk(ins);
            let x = reg_x(ins) as int;
            let (c2, b2) = spec_step(c, b, random, delay_reading).unwrap();
            &&& kk == 0x07 ==> c2.vx[x] == delay_reading
            &&& kk != 0x07 ==> c2.vx == c.vx
            &&& kk == 0x15 ==> b2.delay == c.vx[x] % 256
            &&& kk != 0x15 ==> b2.delay == b.delay
            &&& kk == 0x1E ==> c2.i == c.i + c.vx[x]
            &&& kk == 0x29 ==> c2.i == 5 * c.vx[x]
            &&& kk != 0x1E && kk != 0x29 ==> c2.i == c.i
            &&& c2.pc == c.pc + 2 && c2.sp == c.sp && c2.stack == c.stack
            &&& b2.ram == b.ram && b2.screen == b.screen && b2.key == b.key
        }),
{
    let ins = spec_fetch(b.ram, c.pc);
    lemma_decode_bounds(ins);
    let v = c.vx[reg_x(ins) as int];
    assert((v as u8) as u16 == v % 256) by (bit_vector);
}

/// Memory transfers from `I`: `Fx33` writes the hundreds, tens and ones digits of `Vx` (each
/// modulo 256) to `I`, `I + 1`, `I + 2`; `Fx55` writes the low bytes of `V0..=Vx` to
/// `I..=I + x`; `Fx65` loads `V0..=Vx` from `I..=I + x`. Nothing else in memory changes, and
/// `Fx55`/`Fx65` leave `I` just past the bytes they moved.
pub proof fn law_memory_transfers(c: CpuState, b: BusState, random: u16, delay_reading: u8)
    requires
        c.vx.len() == REGISTER_COUNT,
        b.ram.len() == RAM_SIZE,
        opcode(spec_fetch(b.ram, c.pc)) == 0xF,
        ({
            let kk = byte_kk(spec_fetch(b.ram, c.pc));
            kk == 0x33 || kk == 0x55 || kk == 0x65
        }),
        spec_step(c, b, random, delay_reading) is Some,
    ensures
        ({
            let ins = spec_fetch(b.ram, c.pc);
            let kk = byte_kk(ins);
            let x = reg_x(ins) as int;
            let v = c.vx[x];
            let base = c.i as int;
            let (c2, b2) = spec_step(c, b, random, delay_reading).unwrap();
            &&& b2.ram.len() == b.ram.len()
            &&& kk == 0x33 ==> b2.ram[base] == (v / 100) % 256 && b2.ram[base + 1] == (v / 10)
                % 10 && b2.ram[base + 2] == v % 10 && c2.i == c.i && c2.vx == c.vx
            &&& kk == 0x33 ==> forall|a: int|
                0 <= a < b.ram.len() && !(base <= a <= base + 2) ==> b2.ram[a] == b.ram[a]
            &&& kk == 0x55 ==> (forall|j: int| 0 <= j <= x ==> b2.ram[base + j] == c.vx[j] % 256)
                && (forall|a: int| 0 <= a < b.ram.len() && !(base <= a <= base + x) ==> b2.ram[a]
                == b.ram[a]) && c2.vx == c.vx
            &&& kk == 0x65 ==> (forall|j: int| 0 <= j <= x ==> c2.vx[j] == b.ram[base + j]) && (forall|
                j: int,
            |
                x < j < REGISTER_COUNT ==> c2.vx[j] == c.vx[j]) && b2.ram == b.ram
            &&& kk != 0x33 ==> c2.i == c.i + x + 1
            &&& c2.pc == c.pc + 2 && b2.screen == b.screen && b2.key == b.key && b2.delay == b.delay
        }),
{
    let ins = spec_fetch(b.ram, c.pc);
    lemma_decode_bounds(ins);
    let v = c.vx[reg_x(ins) as int];
    lemma_low_byte((v / 100) as u16);
    lemma_low_byte(((v / 10) % 10) as u16);
    lemma_low_byte((v % 10) as u16);
    assert forall|j: int| 0 <= j < REGISTER_COUNT implies (#[trigger] c.vx[j] as u8) == c.vx[j] % 256 by {
        lemma_low_byte(c.vx[j]);
    }
}

proof fn lemma_low_byte(w: u16)
    by (bit_vector)
    ensures
        (w as u8) == w % 256,
{
}

/// `00E0` turns every pixel off and changes nothing else but the program counter (+2).
pub proof fn law_clear_screen(c: CpuState, b: BusState, random: u16, delay_reading: u8)
    requires
        opcode(spec_fetch(b.ram, c.pc)) == 0x0,
        byte_kk(spec_fetch(b.ram, c.pc)) == 0xE0,
        spec_step(c, b, random, delay_reading) is Some,
    ensures
        ({
            let (c2, b2) = spec_step(c, b, random, delay_reading).unwrap();
            &&& forall|p: int| 0 <= p < b2.screen.len() ==> b2.screen[p] == 0
            &&& b2.screen.len() == crate::emulator::display::SCREEN_SIZE
            &&& b2.ram == b.ram && b2.key == b.key && b2.delay == b.delay
            &&& c2 == advance(c, 2)
        }),
{
}
} // verus!
