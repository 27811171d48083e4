use vstd::prelude::*;

verus! {

/// Number of addressable bytes.
pub const RAM_SIZE: usize = 4096;

/// Number of bytes of the built-in hexadecimal font: 16 sprites of 5 rows each.
pub const FONT_SIZE: usize = 80;

/// The built-in font: the sprite of hexadecimal digit `d` is the 5 bytes from address `5 * d`.
pub open spec fn font_sprites() -> Seq<u8> {
    seq![
        0xF0u8, 0x90, 0x90, 0x90, 0xF0, // 0
        0x20, 0x60, 0x20, 0x20, 0x70, // 1
        0xF0, 0x10, 0xF0, 0x80, 0xF0, // 2
        0xF0, 0x10, 0xF0, 0x10, 0xF0, // 3
        0x90, 0x90, 0xF0, 0x10, 0x10, // 4
        0xF0, 0x80, 0xF0, 0x10, 0xF0, // 5
        0xF0, 0x80, 0xF0, 0x90, 0xF0, // 6
        0xF0, 0x10, 0x20, 0x40, 0x40, // 7
        0xF0, 0x90, 0xF0, 0x90, 0xF0, // 8
        0xF0, 0x90, 0xF0, 0x10, 0xF0, // 9
        0xF0, 0x90, 0xF0, 0x90, 0x90, // A
        0xE0, 0x90, 0xE0, 0x90, 0xE0, // B
        0xF0, 0x80, 0x80, 0x80, 0xF0, // C
        0xE0, 0x90, 0x90, 0x90, 0xE0, // D
        0xF0, 0x80, 0xF0, 0x80, 0xF0, // E
        0xF0, 0x80, 0xF0, 0x80, 0x80, // F
    ]
}

/// Memory as it is at power-on: the font at the lowest addresses, zero everywhere else.
pub open spec fn initial_memory() -> Seq<u8> {
    Seq::new(
        RAM_SIZE as nat,
        |a: int|
            if a < FONT_SIZE {
                font_sprites()[a]
            } else {
                0u8
            },
    )
}

fn font_table() -> (font: [u8; FONT_SIZE])
    ensures
        font@ == font_sprites(),
{
    let font: [u8; FONT_SIZE] = [
        0xF0, 0x90, 0x90, 0x90, 0xF0, 0x20, 0x60, 0x20, 0x20, 0x70, 0xF0, 0x10, 0xF0, 0x80, 0xF0,
        0xF0, 0x10, 0xF0, 0x10, 0xF0, 0x90, 0x90, 0xF0, 0x10, 0x10, 0xF0, 0x80, 0xF0, 0x10, 0xF0,
        0xF0, 0x80, 0xF0, 0x90, 0xF0, 0xF0, 0x10, 0x20, 0x40, 0x40, 0xF0, 0x90, 0xF0, 0x90, 0xF0,
        0xF0, 0x90, 0xF0, 0x10, 0xF0, 0xF0, 0x90, 0xF0, 0x90, 0x90, 0xE0, 0x90, 0xE0, 0x90, 0xE0,
        0xF0, 0x80, 0x80, 0x80, 0xF0, 0xE0, 0x90, 0x90, 0x90, 0xE0, 0xF0, 0x80, 0xF0, 0x80, 0xF0,
        0xF0, 0x80, 0xF0, 0x80, 0x80,
    ];
    assert(font@ =~= font_sprites());
    font
}

/// The byte-addressed main memory.
pub struct Ram {
    memory: [u8; RAM_SIZE],
}

impl View for Ram {
    type V = Seq<u8>;

    closed spec fn view(&self) -> Seq<u8> {
        self.memory@
    }
}

impl Ram {
    /// Memory always holds `RAM_SIZE` bytes.
    pub proof fn lemma_size(&self)
        ensures
            self@.len() == RAM_SIZE,
    {
    }

    /// Memory holding the font at its lowest addresses and zero elsewhere.
    pub fn new() -> (ram: Ram)
        ensures
            ram@ == initial_memory(),
    {
        let font = font_table();
        let mut memory = [0u8; RAM_SIZE];
        let mut a: usize = 0;
        while a < FONT_SIZE
            invariant
                a <= FONT_SIZE,
                font@ == font_sprites(),
                memory@.len() == RAM_SIZE,
                forall|b: int| 0 <= b < a ==> #[trigger] memory@[b] == font_sprites()[b],
                forall|b: int| a <= b < RAM_SIZE ==> #[trigger] memory@[b] == 0,
            decreases FONT_SIZE - a,
        {
            memory[a] = font[a];
            a = a + 1;
        }
        let ram = Ram { memory };
        assert(ram@ =~= initial_memory());
        ram
    }

    /// The byte at `address`.
    pub fn read_byte(&self, address: u16) -> (value: u8)
        requires
            address < RAM_SIZE,
        ensures
            value == self@[address as int],
    {
        self.memory[address as usize]
    }

    /// Stores `value` at `address`; every other byte stays as it was.
    pub fn write_byte(&mut self, address: u16, value: u8)
        requires
            address < RAM_SIZE,
        ensures
            final(self)@ == old(self)@.update(address as int, value),
    {
        self.memory[address as usize] = value;
    }
}


/// A read gives back what the last write to that address stored, and a write leaves every
/// other address as it was.
pub proof fn law_read_after_write(memory: Seq<u8>, address: int, value: u8, other: int)
    requires
        0 <= address < memory.len(),
        0 <= other < memory.len(),
        other != address,
    ensures
        memory.update(address, value)[address] == value,
        memory.update(address, value)[other] == memory[other],
{
}

/// The sprite of hexadecimal digit `d` occupies the five bytes from address `5 * d`, which is
/// where `Fx29` points `I`.
pub proof fn law_font_layout(d: int, row: int)
    requires
        0 <= d < 16,
        0 <= row < 5,
    ensures
        0 <= 5 * d + row < FONT_SIZE,
        initial_memory()[5 * d + row] == font_sprites()[5 * d + row],
{
}
} // verus!
