use vstd::prelude::*;

verus! {

/// Width of the screen, in pixels.
pub const WIDTH: usize = 64;

/// Height of the screen, in pixels.
pub const HEIGHT: usize = 32;

/// Number of pixels on the screen (`WIDTH * HEIGHT`).
pub const SCREEN_SIZE: usize = 2048;

/// The monochrome screen: one byte per pixel, row after row, each 0 (off) or 1 (on).
pub struct Display {
    pub(crate) screen: [u8; SCREEN_SIZE],
}

/// Every pixel of `screen` is 0 or 1.
pub open spec fn pixels_are_bits(screen: Seq<u8>) -> bool {
    forall|p: int| 0 <= p < screen.len() ==> #[trigger] screen[p] <= 1
}

/// The bit of `byte` drawn at the `k`-th column of a sprite row (the most significant bit first).
pub open spec fn sprite_bit(byte: u8, k: int) -> u8 {
    (byte >> ((7 - k) as u8)) & 1u8
}

/// How many columns to the right of column `x` pixel `p` lies, wrapping around the screen's width.
pub open spec fn column_offset(p: int, x: u8) -> int {
    (p % (WIDTH as int) - x as int) % (WIDTH as int)
}

/// Whether pixel `p` is covered by the 8-pixel sprite row drawn at `(x, y)`; the row wraps
/// around both edges of the screen.
pub open spec fn in_sprite_row(p: int, x: u8, y: u8) -> bool {
    &&& p / (WIDTH as int) == (y as int) % (HEIGHT as int)
    &&& column_offset(p, x) < 8
}

/// The value of pixel `p` after `byte` has been XOR-drawn at `(x, y)`.
pub open spec fn drawn_pixel(screen: Seq<u8>, x: u8, y: u8, byte: u8, p: int) -> u8 {
    if in_sprite_row(p, x, y) {
        screen[p] ^ sprite_bit(byte, column_offset(p, x))
    } else {
        screen[p]
    }
}

/// The screen after `byte` has been XOR-drawn at `(x, y)`.
pub open spec fn spec_draw_byte(screen: Seq<u8>, x: u8, y: u8, byte: u8) -> Seq<u8> {
    Seq::new(screen.len(), |p: int| drawn_pixel(screen, x, y, byte, p))
}

/// Some pixel that was on in `before` is off in `after`.
pub open spec fn turns_pixel_off(before: Seq<u8>, after: Seq<u8>) -> bool {
    exists|p: int| 0 <= p < before.len() && #[trigger] before[p] == 1 && after[p] == 0
}

/// The screen with every pixel off.
pub open spec fn blank_screen() -> Seq<u8> {
    Seq::new(SCREEN_SIZE as nat, |p: int| 0u8)
}

/// Pixel `p` is the one at row `cy`, column `(x + k) % WIDTH` exactly when it lies on row `cy`
/// and `k` columns to the right of `x`.
proof fn lemma_pixel_position(p: int, x: u8, k: int, cy: int)
    requires
        0 <= p < SCREEN_SIZE,
        0 <= k < 8,
        0 <= cy < HEIGHT,
    ensures
        (p == cy * 64 + (x as int + k) % 64) <==> (p / 64 == cy && column_offset(p, x) == k),
{
    let c = (x as int + k) % 64;
    assert(0 <= c < 64);
    assert((cy * 64 + c) / 64 == cy && (cy * 64 + c) % 64 == c) by (nonlinear_arith)
        requires
            0 <= c < 64,
            0 <= cy,
    ;
    assert(p == 64 * (p / 64) + p % 64) by (nonlinear_arith);
    assert((c - x as int) % 64 == k) by (nonlinear_arith)
        requires
            c == (x as int + k) % 64,
            0 <= k < 8,
            0 <= x,
    ;
    if column_offset(p, x) == k {
        assert(p % 64 == c) by (nonlinear_arith)
            requires
                (p % 64 - x as int) % 64 == k,
                c == (x as int + k) % 64,
                0 <= p,
                0 <= x,
        ;
    }
}

impl View for Display {
    type V = Seq<u8>;

    closed spec fn view(&self) -> Seq<u8> {
        self.screen@
    }
}

impl Display {
    /// The screen always holds `SCREEN_SIZE` pixels.
    pub proof fn lemma_size(&self)
        ensures
            self@.len() == SCREEN_SIZE,
    {
    }

    /// A blank screen.
    pub fn new() -> (d: Display)
        ensures
            d@ == blank_screen(),
            pixels_are_bits(d@),
    {
        let d = Display { screen: [0u8; SCREEN_SIZE] };
        assert(d@ =~= blank_screen());
        d
    }

    /// The position in the pixel buffer of the pixel at column `x`, row `y`.
    pub fn calc_index_from_coord(x: usize, y: usize) -> (index: usize)
        requires
            y * WIDTH + x <= usize::MAX,
        ensures
            index == y * WIDTH + x,
    {
        y * WIDTH + x
    }

    /// Turns every pixel off.
    pub fn clear(&mut self)
        ensures
            final(self)@ == blank_screen(),
            pixels_are_bits(final(self)@),
    {
        let mut p: usize = 0;
        while p < SCREEN_SIZE
            invariant
                p <= SCREEN_SIZE,
                self@.len() == SCREEN_SIZE,
                forall|q: int| 0 <= q < p ==> #[trigger] self@[q] == 0,
            decreases SCREEN_SIZE - p,
        {
            self.screen[p] = 0;
            p = p + 1;
        }
        assert(self@ =~= blank_screen());
    }

    /// The pixel buffer, row after row.
    pub fn get_display_buffer(&self) -> (buffer: &[u8])
        ensures
            buffer@ == self@,
            buffer@.len() == SCREEN_SIZE,
    {
        self.screen.as_slice()
    }

    /// XOR-draws the 8 bits of `byte`, most significant first, as a row of pixels starting at
    /// `(x, y)`, wrapping around the edges of the screen. Returns whether a pixel that was on
    /// has been turned off.
    pub fn draw_byte_at_coord(&mut self, x: u8, y: u8, byte: u8) -> (erased: bool)
        ensures
            final(self)@ == spec_draw_byte(old(self)@, x, y, byte),
            erased == turns_pixel_off(old(self)@, final(self)@),
            pixels_are_bits(old(self)@) ==> pixels_are_bits(final(self)@),
    {
        let ghost before = self@;
        let mut erased = false;
        let mut coord_x = x as usize;
        let mut coord_y = y as usize;
        let mut b = byte;
        let mut k: usize = 0;
        assert(b == byte << 0u8) by (bit_vector)
            requires
                b == byte,
        ;
        while k < 8
            invariant
                k <= 8,
                self@.len() == SCREEN_SIZE,
                before.len() == SCREEN_SIZE,
                coord_x < 256,
                coord_x % WIDTH == (x as int + k) % (WIDTH as int),
                coord_y < 256,
                coord_y % HEIGHT == (y as int) % (HEIGHT as int),
                b == byte << (k as u8),
                forall|p: int|
                    0 <= p < SCREEN_SIZE ==> #[trigger] self@[p] == (if in_sprite_row(p, x, y)
                        && column_offset(p, x) < k {
                        before[p] ^ sprite_bit(byte, column_offset(p, x))
                    } else {
                        before[p]
                    }),
                erased == turns_pixel_off(before, self@),
            decreases 8 - k,
        {
            coord_x = coord_x % WIDTH;
            coord_y = coord_y % HEIGHT;
            let index = Display::calc_index_from_coord(coord_x, coord_y);
            let bit = (b & 0b1000_0000) >> 7;
            let ghost kk = k as u8;
            assert(bit == sprite_bit(byte, k as int)) by {
                assert(kk < 8 ==> (((byte << kk) & 0x80u8) >> 7u8) == (byte >> ((7 - kk) as u8)) & 1u8)
                    by (bit_vector);
            }
            let prev = self.screen[index];
            let ghost mid = self@;
            self.screen[index] = prev ^ bit;
            proof {
                assert forall|p: int| 0 <= p < SCREEN_SIZE implies (p == index) <==> (p / 64
                    == (y as int) % 32 && column_offset(p, x) == k) by {
                    lemma_pixel_position(p, x, k as int, coord_y as int);
                }
                assert(prev == before[index as int]);
            }
            if prev == 1 && self.screen[index] == 0 {
                erased = true;
            }
            proof {
                let now = self@;
                if erased {
                    if turns_pixel_off(before, mid) {
                        let q = choose|q: int| 0 <= q < before.len() && #[trigger] before[q] == 1 && mid[q] == 0;
                        assert(before[q] == 1 && now[q] == 0);
                    } else {
                        assert(before[index as int] == 1 && now[index as int] == 0);
                    }
                } else {
                    assert forall|q: int| 0 <= q < before.len() && #[trigger] before[q] == 1 implies now[q] != 0 by {
                        if q != index {
                            assert(mid[q] != 0);
                        }
                    }
                }
            }
            coord_x = coord_x + 1;
            assert((b << 1u8) == byte << ((kk + 1) as u8)) by (bit_vector)
                requires
                    b == byte << kk,
                    kk < 8,
            ;
            b = b << 1;
            k = k + 1;
        }
        proof {
            assert(self@ =~= spec_draw_byte(before, x, y, byte));
            if pixels_are_bits(before) {
                law_draw_keeps_pixels_bits(before, x, y, byte);
            }
        }
        erased
    }
}


/// Drawing the same byte twice at the same place leaves the screen as it was.
pub proof fn law_draw_twice_restores(screen: Seq<u8>, x: u8, y: u8, byte: u8)
    ensures
        spec_draw_byte(spec_draw_byte(screen, x, y, byte), x, y, byte) == screen,
{
    let once = spec_draw_byte(screen, x, y, byte);
    let twice = spec_draw_byte(once, x, y, byte);
    assert forall|p: int| 0 <= p < screen.len() implies #[trigger] twice[p] == screen[p] by {
        if in_sprite_row(p, x, y) {
            let v = screen[p];
            let s = sprite_bit(byte, column_offset(p, x));
            assert((v ^ s) ^ s == v) by (bit_vector);
        }
    }
    assert(twice =~= screen);
}

/// Drawing on a blank screen never reports that a pixel was turned off.
pub proof fn law_blank_screen_no_collision(x: u8, y: u8, byte: u8)
    ensures
        !turns_pixel_off(blank_screen(), spec_draw_byte(blank_screen(), x, y, byte)),
{
}

/// Drawing changes no pixel outside the 8-pixel row at `(x, y)`.
pub proof fn law_draw_is_local(screen: Seq<u8>, x: u8, y: u8, byte: u8, p: int)
    requires
        0 <= p < screen.len(),
        !in_sprite_row(p, x, y),
    ensures
        spec_draw_byte(screen, x, y, byte)[p] == screen[p],
{
}

/// Drawing keeps every pixel 0 or 1.
pub proof fn law_draw_keeps_pixels_bits(screen: Seq<u8>, x: u8, y: u8, byte: u8)
    requires
        pixels_are_bits(screen),
    ensures
        pixels_are_bits(spec_draw_byte(screen, x, y, byte)),
{
    let drawn = spec_draw_byte(screen, x, y, byte);
    assert forall|p: int| 0 <= p < drawn.len() implies #[trigger] drawn[p] <= 1 by {
        if in_sprite_row(p, x, y) {
            let v = screen[p];
            let n = (7 - column_offset(p, x)) as u8;
            assert((byte >> n) & 1u8 <= 1u8) by (bit_vector);
            let s = (byte >> n) & 1u8;
            assert(v <= 1);
            assert(v <= 1 && s <= 1 ==> v ^ s <= 1) by (bit_vector);
        }
    }
}

/// Bit `7 - k` of `byte` (so the most significant bit first) is XOR-ed onto the pixel `k`
/// columns right of `x` on row `y`, both wrapped around the screen: the pixel at index
/// `(y % 32) * 64 + (x + k) % 64`.
pub proof fn law_draw_places_bits(screen: Seq<u8>, x: u8, y: u8, byte: u8, k: int)
    requires
        screen.len() == SCREEN_SIZE,
        0 <= k < 8,
    ensures
        ({
            let p = (y as int % 32) * 64 + (x as int + k) % 64;
            &&& 0 <= p < SCREEN_SIZE
            &&& spec_draw_byte(screen, x, y, byte)[p] == screen[p] ^ ((byte >> ((7 - k) as u8)) & 1u8)
        }),
{
    let cy = y as int % 32;
    let p = cy * 64 + (x as int + k) % 64;
    assert(0 <= p < SCREEN_SIZE) by (nonlinear_arith)
        requires
            0 <= cy < 32,
            p == cy * 64 + (x as int + k) % 64,
    ;
    lemma_pixel_position(p, x, k, cy);
}
} // verus!
