//! The 64x32 monochrome framebuffer. Sprites are composed onto it byte by
//! byte with XOR; each byte covers eight horizontally adjacent pixels, the
//! column wrapping at 64 for every bit and the row wrapping at 32. A draw
//! reports whether it erased a lit pixel (the collision flag of `Dxyn`).

use vstd::prelude::*;

verus! {

/// Width of the framebuffer in pixels.
pub const SCREEN_WIDTH: usize = 64;

/// Height of the framebuffer in pixels.
pub const SCREEN_HEIGHT: usize = 32;

/// Number of pixels in the framebuffer.
pub const SCREEN_SIZE: usize = 2048;

/// A pixel cell holds 0 (background) or 1 (foreground) and nothing else.
pub open spec fn pixel_ok(p: u8) -> bool {
    p == 0 || p == 1
}

/// A well-formed framebuffer: 2048 cells, each 0 or 1.
pub open spec fn screen_wf(s: Seq<u8>) -> bool {
    &&& s.len() == 2048
    &&& forall|k: int| 0 <= k < 2048 ==> pixel_ok(#[trigger] s[k])
}

/// The all-background framebuffer.
pub open spec fn blank_screen() -> Seq<u8> {
    Seq::new(2048, |k: int| 0u8)
}

/// Bit `i` of a sprite byte, counting from the most significant bit
/// (bit 0 is drawn leftmost).
pub open spec fn sprite_bit(b: u8, i: int) -> bool {
    (b >> ((7 - i) as u8)) & 1 == 1
}

/// The framebuffer cell written by bit `i` of a byte drawn at (`x`, `y`):
/// row-major index with the column wrapped at 64 and the row at 32.
pub open spec fn target_index(x: int, y: int, i: int) -> int {
    (y % 32) * 64 + (x + i) % 64
}

/// A pixel after XOR with a set sprite bit.
pub open spec fn flip(p: u8) -> u8 {
    if p == 0 { 1u8 } else { 0u8 }
}

/// The framebuffer after XOR-drawing byte `b` at (`x`, `y`): exactly the
/// cells targeted by a set bit of `b` are flipped.
pub open spec fn draw_byte_spec(s: Seq<u8>, b: u8, x: int, y: int) -> Seq<u8> {
    Seq::new(s.len(), |idx: int|
        if exists|i: int| 0 <= i < 8 && sprite_bit(b, i) && target_index(x, y, i) == idx {
            flip(s[idx])
        } else {
            s[idx]
        })
}

/// Whether XOR-drawing byte `b` at (`x`, `y`) erases some lit pixel
/// (a set bit lands on a cell that already holds 1).
pub open spec fn draw_byte_erases(s: Seq<u8>, b: u8, x: int, y: int) -> bool {
    exists|i: int| 0 <= i < 8 && sprite_bit(b, i) && s[target_index(x, y, i)] == 1
}

/// The eight cells targeted by one drawn byte are pairwise distinct: the
/// columns `(x + i) % 64` differ because the offsets differ by less than 64.
pub proof fn lemma_target_index_injective(x: int, y: int, i: int, j: int)
    requires
        x >= 0,
        y >= 0,
        0 <= i < j < 8,
    ensures
        target_index(x, y, i) != target_index(x, y, j),
{
    let a = x + i;
    let d = j - i;
    assert((a + d) % 64 != a % 64) by {
        vstd::arithmetic::div_mod::lemma_add_mod_noop(a, d, 64);
        vstd::arithmetic::div_mod::lemma_mod_bound(a, 64);
        vstd::arithmetic::div_mod::lemma_small_mod(d as nat, 64);
        let r = a % 64;
        if r + d < 64 {
            vstd::arithmetic::div_mod::lemma_small_mod((r + d) as nat, 64);
        } else {
            vstd::arithmetic::div_mod::lemma_mod_sub_multiples_vanish(r + d, 64);
            vstd::arithmetic::div_mod::lemma_small_mod((r + d - 64) as nat, 64);
        }
    }
}

/// Every targeted cell is a valid framebuffer index.
pub proof fn lemma_target_index_bounds(x: int, y: int, i: int)
    requires
        x >= 0,
        y >= 0,
        0 <= i < 8,
    ensures
        0 <= target_index(x, y, i) < 2048,
{
    vstd::arithmetic::div_mod::lemma_mod_bound(y, 32);
    vstd::arithmetic::div_mod::lemma_mod_bound(x + i, 64);
}

/// Drawing a byte only reads the row modulo 32, so a row wrapped at 256
/// (as an 8-bit register sum is) draws the same as the unwrapped row.
pub proof fn lemma_draw_byte_row_mod(s: Seq<u8>, b: u8, x: int, y: int)
    requires
        x >= 0,
        y >= 0,
    ensures
        draw_byte_spec(s, b, x, y % 256) == draw_byte_spec(s, b, x, y),
        draw_byte_erases(s, b, x, y % 256) == draw_byte_erases(s, b, x, y),
{
    assert forall|i: int| 0 <= i < 8 implies
        target_index(x, y % 256, i) == target_index(x, y, i) by {
        vstd::arithmetic::div_mod::lemma_mod_mod(y, 32, 8);
    }
    assert forall|idx: int| 0 <= idx < s.len() implies
        draw_byte_spec(s, b, x, y % 256)[idx] == draw_byte_spec(s, b, x, y)[idx] by {
        if exists|i: int| 0 <= i < 8 && sprite_bit(b, i) && target_index(x, y % 256, i) == idx {
            let i = choose|i: int| 0 <= i < 8 && sprite_bit(b, i)
                && target_index(x, y % 256, i) == idx;
            assert(sprite_bit(b, i) && target_index(x, y, i) == idx);
        }
        if exists|i: int| 0 <= i < 8 && sprite_bit(b, i) && target_index(x, y, i) == idx {
            let i = choose|i: int| 0 <= i < 8 && sprite_bit(b, i)
                && target_index(x, y, i) == idx;
            assert(sprite_bit(b, i) && target_index(x, y % 256, i) == idx);
        }
    }
    assert(draw_byte_spec(s, b, x, y % 256) =~= draw_byte_spec(s, b, x, y));
    if draw_byte_erases(s, b, x, y % 256) {
        let i = choose|i: int| 0 <= i < 8 && sprite_bit(b, i)
            && s[target_index(x, y % 256, i)] == 1;
        assert(sprite_bit(b, i) && s[target_index(x, y, i)] == 1);
    }
    if draw_byte_erases(s, b, x, y) {
        let i = choose|i: int| 0 <= i < 8 && sprite_bit(b, i)
            && s[target_index(x, y, i)] == 1;
        assert(sprite_bit(b, i) && s[target_index(x, y % 256, i)] == 1);
    }
}

/// The framebuffer.
pub struct Display {
    buf: Vec<u8>,
}

impl View for Display {
    type V = Seq<u8>;

    closed spec fn view(&self) -> Seq<u8> {
        self.buf@
    }
}

impl Display {
    /// Whether the framebuffer is well formed.
    pub open spec fn wf(&self) -> bool {
        screen_wf(self@)
    }

    /// A blank framebuffer.
    pub fn new() -> (d: Display)
        ensures
            d.wf(),
            d@ == blank_screen(),
    {
        let mut buf: Vec<u8> = Vec::new();
        while buf.len() < SCREEN_SIZE
            invariant
                buf@.len() <= 2048,
                forall|k: int| 0 <= k < buf@.len() ==> buf@[k] == 0u8,
            decreases 2048 - buf@.len(),
        {
            buf.push(0);
        }
        proof {
            assert(buf@ =~= blank_screen());
        }
        Display { buf }
    }

    /// Row-major position of pixel (`x`, `y`).
    pub fn get_ind_from_pos(x: usize, y: usize) -> (r: usize)
        requires
            x < SCREEN_WIDTH,
            y < SCREEN_HEIGHT,
        ensures
            r == y * 64 + x,
            r < SCREEN_SIZE,
    {
        y * 64 + x
    }

    /// Reset every pixel to background.
    pub fn clear(&mut self)
        ensures
            final(self).wf(),
            final(self)@ == blank_screen(),
    {
        let mut k: usize = 0;
        while k < self.buf.len()
            invariant
                self.buf@.len() == old(self).buf@.len(),
                k <= self.buf@.len(),
                forall|j: int| 0 <= j < k ==> self.buf@[j] == 0u8,
            decreases self.buf@.len() - k,
        {
            self.buf[k] = 0;
            k += 1;
        }
        if self.buf.len() != SCREEN_SIZE {
            self.buf = Display::new().buf;
        }
        proof {
            assert(self@ =~= blank_screen());
        }
    }

    /// XOR-draw one sprite byte at (`x`, `y`), most significant bit leftmost,
    /// the column wrapping at 64 per bit and the row at 32; report whether
    /// some lit pixel was erased.
    pub fn draw_byte(&mut self, byte: u8, x: u8, y: u8) -> (erased: bool)
        requires
            old(self).wf(),
        ensures
            final(self).wf(),
            final(self)@ == draw_byte_spec(old(self)@, byte, x as int, y as int),
            erased == draw_byte_erases(old(self)@, byte, x as int, y as int),
    {
        let ghost orig = self@;
        let ghost xi = x as int;
        let ghost yi = y as int;
        let mut erased = false;
        let mut i: usize = 0;
        while i < 8
            invariant
                old(self).wf(),
                orig == old(self)@,
                xi == x as int,
                yi == y as int,
                i <= 8,
                self@.len() == 2048,
                forall|k: int| 0 <= k < 2048 ==> pixel_ok(#[trigger] self@[k]),
                forall|idx: int| 0 <= idx < 2048 ==> #[trigger] self@[idx] == (
                    if exists|b: int| 0 <= b < i && sprite_bit(byte, b)
                        && target_index(xi, yi, b) == idx {
                        flip(orig[idx])
                    } else {
                        orig[idx]
                    }),
                erased == exists|b: int| 0 <= b < i && sprite_bit(byte, b)
                    && orig[target_index(xi, yi, b)] == 1,
            decreases 8 - i,
        {
            let sh: u8 = (7 - i) as u8;
            let bit_set: bool = ((byte >> sh) & 1) == 1;
            proof {
                assert(bit_set == sprite_bit(byte, i as int));
            }
            let col: usize = (x as usize + i) % 64;
            let row: usize = (y as usize) % 32;
            let index: usize = row * 64 + col;
            proof {
                assert(index == target_index(xi, yi, i as int));
                lemma_target_index_bounds(xi, yi, i as int);
                assert forall|b: int| 0 <= b < i implies
                    target_index(xi, yi, b) != index by {
                    lemma_target_index_injective(xi, yi, b, i as int);
                }
                assert(self@[index as int] == orig[index as int]);
            }
            if bit_set {
                let prev = self.buf[index];
                if prev == 0 {
                    self.buf[index] = 1;
                } else {
                    self.buf[index] = 0;
                    erased = true;
                }
                proof {
                    assert(self@[index as int] == flip(orig[index as int]));
                }
            }
            i += 1;
            proof {
                assert forall|idx: int| 0 <= idx < 2048 implies #[trigger] self@[idx] == (
                    if exists|b: int| 0 <= b < i && sprite_bit(byte, b)
                        && target_index(xi, yi, b) == idx {
                        flip(orig[idx])
                    } else {
                        orig[idx]
                    }) by {
                    if exists|b: int| 0 <= b < i && sprite_bit(byte, b)
                        && target_index(xi, yi, b) == idx {
                        let b = choose|b: int| 0 <= b < i && sprite_bit(byte, b)
                            && target_index(xi, yi, b) == idx;
                        if b == i - 1 {
                            assert(idx == index);
                        }
                    }
                }
            }
        }
        proof {
            assert(self@ =~= draw_byte_spec(orig, byte, xi, yi));
        }
        erased
    }

    /// Read-only snapshot of the framebuffer for rendering.
    pub fn get_dis_buf(&self) -> (r: &[u8])
        ensures
            r@ == self@,
    {
        self.buf.as_slice()
    }
}

} // verus!
