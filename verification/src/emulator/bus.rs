use crate::emulator::display::{spec_draw_byte, turns_pixel_off, Display};
use crate::emulator::keyboard::Keyboard;
use crate::emulator::ram::{Ram, RAM_SIZE};
use std::time::{Duration, Instant};
use vstd::prelude::*;

verus! {

/// The standard library's monotonic clock reading, carried as an opaque value.
#[verifier::external_type_specification]
#[verifier::external_body]
pub struct ExInstant(Instant);

/// Calls `std::time::Instant::now`: the clock's current reading. Nothing is stated of it: it
/// depends on the time of the call.
#[verifier::external_body]
fn instant_now() -> Instant {
    Instant::now()
}

/// Calls `std::time::Instant::elapsed`: the time from `start` to now (zero if `start` lies in
/// the future). Nothing is stated of it: it depends on the time of the call.
#[verifier::external_body]
fn elapsed_since(start: &Instant) -> Duration {
    start.elapsed()
}

/// Calls `std::time::Duration::as_millis`: the whole milliseconds in `d`. `Duration` is
/// opaque to the verifier, so nothing is stated of the result.
#[verifier::external_body]
fn duration_millis(d: &Duration) -> u128 {
    d.as_millis()
}

/// Milliseconds per tick of the delay timer (a tick rate of about 60 Hz).
pub const MILLIS_PER_TICK: u64 = 16;

/// What the delay timer reads `elapsed_ms` milliseconds after it was set to `set_value`: it
/// counts down by one every `MILLIS_PER_TICK` milliseconds and stops at zero.
pub open spec fn delay_timer_value(set_value: u8, elapsed_ms: u64) -> u8 {
    let ticks = elapsed_ms / MILLIS_PER_TICK;
    if ticks >= set_value {
        0
    } else {
        (set_value - ticks) as u8
    }
}

/// What the delay timer reads `elapsed_ms` milliseconds after it was set to `set_value`.
pub fn delay_timer_after(set_value: u8, elapsed_ms: u64) -> (value: u8)
    ensures
        value == delay_timer_value(set_value, elapsed_ms),
{
    let ticks = elapsed_ms / MILLIS_PER_TICK;
    if ticks >= set_value as u64 {
        0
    } else {
        set_value - ticks as u8
    }
}

/// The abstract state of the bus: memory, the key held down, the screen and the value the
/// delay timer was last set to.
pub struct BusState {
    pub ram: Seq<u8>,
    pub key: Option<u8>,
    pub screen: Seq<u8>,
    pub delay: u8,
}

/// Everything the processor reaches: memory, keypad, screen and delay timer.
pub struct Bus {
    ram: Ram,
    keyboard: Keyboard,
    display: Display,
    delay_timer: u8,
    delay_timer_set_time: Instant,
}

impl View for Bus {
    type V = BusState;

    closed spec fn view(&self) -> BusState {
        BusState {
            ram: self.ram@,
            key: self.keyboard@,
            screen: self.display@,
            delay: self.delay_timer,
        }
    }
}

impl Bus {
    /// Memory always holds `RAM_SIZE` bytes and the screen `SCREEN_SIZE` pixels.
    pub proof fn lemma_sizes(&self)
        ensures
            self@.ram.len() == RAM_SIZE,
            self@.screen.len() == crate::emulator::display::SCREEN_SIZE,
    {
        self.ram.lemma_size();
        self.display.lemma_size();
    }

    /// The clock reading from which the delay timer counts down: when it was last set.
    pub closed spec fn timer_start(&self) -> Instant {
        self.delay_timer_set_time
    }

    /// Memory holding the font, no key pressed, a blank screen and the delay timer at zero,
    /// counting from the clock reading taken now (`new_started_at` with that reading).
    pub fn new() -> (bus: Bus)
        ensures
            bus@.ram == crate::emulator::ram::initial_memory(),
            bus@.key == None::<u8>,
            bus@.screen == crate::emulator::display::blank_screen(),
            bus@.delay == 0,
    {
        Bus::new_started_at(instant_now())
    }

    /// The bus as `new` makes it, with the delay timer counting from the clock reading `now`.
    pub fn new_started_at(now: Instant) -> (bus: Bus)
        ensures
            bus@.ram == crate::emulator::ram::initial_memory(),
            bus@.key == None::<u8>,
            bus@.screen == crate::emulator::display::blank_screen(),
            bus@.delay == 0,
            bus.timer_start() == now,
    {
        Bus {
            ram: Ram::new(),
            keyboard: Keyboard::new(),
            display: Display::new(),
            delay_timer: 0,
            delay_timer_set_time: now,
        }
    }

    /// The byte at `address`.
    pub fn ram_read_byte(&self, address: u16) -> (value: u8)
        requires
            address < RAM_SIZE,
        ensures
            value == self@.ram[address as int],
    {
        self.ram.read_byte(address)
    }

    /// Stores `value` at `address`.
    pub fn ram_write_byte(&mut self, address: u16, value: u8)
        requires
            address < RAM_SIZE,
        ensures
            final(self)@ == (BusState { ram: old(self)@.ram.update(address as int, value), ..old(self)@ }),
            final(self).timer_start() == old(self).timer_start(),
    {
        self.ram.write_byte(address, value)
    }

    /// Turns every pixel off.
    pub fn clear_screen(&mut self)
        ensures
            final(self)@ == (BusState { screen: crate::emulator::display::blank_screen(), ..old(self)@ }),
            final(self).timer_start() == old(self).timer_start(),
    {
        self.display.clear();
    }

    /// Records which key, if any, is now held down.
    pub fn set_key_screen(&mut self, key: Option<u8>)
        ensures
            final(self)@ == (BusState { key: key, ..old(self)@ }),
            final(self).timer_start() == old(self).timer_start(),
    {
        self.keyboard.set_key_pressed(key);
    }

    /// Whether the key with code `key_code` is held down.
    pub fn is_key_pressed(&self, key_code: u8) -> (pressed: bool)
        ensures
            pressed == (self@.key == Some(key_code)),
    {
        self.keyboard.is_key_pressed(key_code)
    }

    /// The key held down, if any.
    pub fn get_key_pressed(&self) -> (key: Option<u8>)
        ensures
            key == self@.key,
    {
        self.keyboard.get_key_pressed()
    }

    /// Sets the delay timer to `value`; it counts down from the clock reading taken now, which
    /// becomes the timer's start (`set_delay_timer_at` with that reading).
    pub fn set_delay_timer(&mut self, value: u8)
        ensures
            final(self)@ == (BusState { delay: value, ..old(self)@ }),
    {
        let now = instant_now();
        self.set_delay_timer_at(value, now);
    }

    /// Sets the delay timer to `value`, counting down from the clock reading `now`.
    pub fn set_delay_timer_at(&mut self, value: u8, now: Instant)
        ensures
            final(self)@ == (BusState { delay: value, ..old(self)@ }),
            final(self).timer_start() == now,
    {
        self.delay_timer_set_time = now;
        self.delay_timer = value;
    }

    /// What the delay timer reads now: its last set value, counted down by the time elapsed
    /// since `timer_start()`. How much time has elapsed is the clock's, so the contract says that
    /// the reading is the countdown after some elapsed time.
    pub fn get_delay_timer(&self) -> (value: u8)
        ensures
            exists|elapsed_ms: u64| value == delay_timer_value(self@.delay, elapsed_ms),
            value <= self@.delay,
    {
        let diff = elapsed_since(&self.delay_timer_set_time);
        let ms = duration_millis(&diff) as u64;
        let value = delay_timer_after(self.delay_timer, ms);
        assert(value == delay_timer_value(self@.delay, ms));
        value
    }

    /// XOR-draws the 8 bits of `byte` as a row of pixels at column `x`, row `y` (each taken
    /// modulo 256 and then wrapped around the screen). Returns whether a pixel that was on has
    /// been turned off.
    pub fn draw_byte_at_coord(&mut self, x: usize, y: usize, byte: u8) -> (erased: bool)
        ensures
            final(self)@ == (BusState {
                screen: spec_draw_byte(old(self)@.screen, x as u8, y as u8, byte),
                ..old(self)@
            }),
            erased == turns_pixel_off(old(self)@.screen, final(self)@.screen),
            final(self).timer_start() == old(self).timer_start(),
    {
        self.display.draw_byte_at_coord(x as u8, y as u8, byte)
    }

    /// The screen's pixel buffer, row after row.
    pub fn get_display_buffer(&self) -> (buffer: &[u8])
        ensures
            buffer@ == self@.screen,
            buffer@.len() == crate::emulator::display::SCREEN_SIZE,
    {
        self.display.get_display_buffer()
    }
}


/// Right after it is set, the delay timer reads the value it was set to.
pub proof fn law_delay_starts_at_set_value(set_value: u8)
    ensures
        delay_timer_value(set_value, 0) == set_value,
{
}

/// The delay timer never reads more than it was set to, and never goes up as time passes.
pub proof fn law_delay_counts_down(set_value: u8, earlier_ms: u64, later_ms: u64)
    requires
        earlier_ms <= later_ms,
    ensures
        delay_timer_value(set_value, later_ms) <= delay_timer_value(set_value, earlier_ms),
        delay_timer_value(set_value, earlier_ms) <= set_value,
{
    assert(earlier_ms / MILLIS_PER_TICK <= later_ms / MILLIS_PER_TICK) by (nonlinear_arith)
        requires
            earlier_ms <= later_ms,
    ;
}

/// Once `MILLIS_PER_TICK` milliseconds per unit of its set value have passed, the delay timer
/// reads zero.
pub proof fn law_delay_reaches_zero(set_value: u8, elapsed_ms: u64)
    requires
        elapsed_ms >= MILLIS_PER_TICK * set_value,
    ensures
        delay_timer_value(set_value, elapsed_ms) == 0,
{
    assert(elapsed_ms / 16 >= set_value) by (nonlinear_arith)
        requires
            elapsed_ms >= 16 * set_value,
    ;
}
} // verus!
