//! Laws of the machine, proved once and for all against `spec_step` and the
//! sprite-drawing specification: loading then adding accumulates modulo 256,
//! XOR drawing is self-inverse and the second draw reports an erasure exactly
//! where the first draw lit a pixel, a return on an empty stack is fatal, and
//! a call followed by a return lands on the instruction after the call.

use vstd::prelude::*;

use crate::chip::{
    draw_sprite_spec, halt, spec_fetch, spec_step, sprite_erases, wf_view, Chip8View, Mode,
};
use crate::display::{
    draw_byte_erases, draw_byte_spec, flip, lemma_target_index_bounds, pixel_ok, screen_wf,
    sprite_bit, target_index,
};

verus! {

/// Splitting the instruction word `hi * 256 + lo` into the decoding fields
/// recovers the nibbles of its two bytes.
pub proof fn lemma_split_word(hi: u8, lo: u8)
    ensures
        (hi * 256 + lo) / 0x1000 == hi as int / 16,
        ((hi * 256 + lo) / 0x100) % 16 == hi as int % 16,
        ((hi * 256 + lo) / 16) % 16 == lo as int / 16,
        (hi * 256 + lo) % 16 == lo as int % 16,
        (hi * 256 + lo) % 256 == lo as int,
        (hi * 256 + lo) % 0x1000 == (hi as int % 16) * 256 + lo,
{
    let h = hi as int;
    let l = lo as int;
    let raw = h * 256 + l;
    vstd::arithmetic::div_mod::lemma_fundamental_div_mod(h, 16);
    vstd::arithmetic::div_mod::lemma_mod_bound(h, 16);
    vstd::arithmetic::div_mod::lemma_fundamental_div_mod(l, 16);
    vstd::arithmetic::div_mod::lemma_mod_bound(l, 16);
    vstd::arithmetic::div_mod::lemma_fundamental_div_mod_converse(raw, 256, h, l);
    vstd::arithmetic::div_mod::lemma_fundamental_div_mod_converse(
        raw,
        0x1000,
        h / 16,
        (h % 16) * 256 + l,
    );
    vstd::arithmetic::div_mod::lemma_fundamental_div_mod_converse(
        raw,
        16,
        h * 16 + l / 16,
        l % 16,
    );
    vstd::arithmetic::div_mod::lemma_fundamental_div_mod_converse(
        h * 16 + l / 16,
        16,
        h,
        l / 16,
    );
}

/// Loading a register and then adding an immediate to it accumulates
/// modulo 256: after `6xnn` then `7xnn'`, register `x` holds
/// `(nn + nn') % 256`, whatever the random byte or timer reading of the
/// two steps.
pub proof fn lemma_load_then_add(
    s: Chip8View,
    x: int,
    nn: u8,
    nn2: u8,
    r1: u8,
    t1: u8,
    r2: u8,
    t2: u8,
)
    requires
        wf_view(s),
        s.mode == Mode::Running,
        0 <= x < 16,
        s.pc as int + 3 < 4096,
        s.mem[s.pc as int] == 0x60 + x,
        s.mem[s.pc as int + 1] == nn,
        s.mem[s.pc as int + 2] == 0x70 + x,
        s.mem[s.pc as int + 3] == nn2,
    ensures
        spec_step(spec_step(s, r1, t1), r2, t2).vx[x] == (nn + nn2) % 256,
{
    lemma_split_word((0x60 + x) as u8, nn);
    let s1 = spec_step(s, r1, t1);
    assert(s1.vx == s.vx.update(x, nn));
    assert(s1.pc == s.pc + 2);
    assert(s1.mode == Mode::Running);
    lemma_split_word((0x70 + x) as u8, nn2);
    let s2 = spec_step(s1, r2, t2);
    assert(s2.vx[x] == (s1.vx[x] + nn2) % 256);
}

/// A subroutine return on an empty call stack is a fatal program defect:
/// the machine halts.
pub proof fn lemma_return_on_empty_stack_halts(s: Chip8View, r: u8, t: u8)
    requires
        wf_view(s),
        s.mode == Mode::Running,
        s.pc as int + 1 < 4096,
        spec_fetch(s) == 0x00EE,
        s.stack.len() == 0,
    ensures
        spec_step(s, r, t) == halt(s),
        spec_step(s, r, t).mode == Mode::Halted,
{
    assert(spec_fetch(s) / 0x1000 == 0);
}

/// A call followed immediately by a return restores the program counter to
/// the instruction after the call, with the call stack as it was.
pub proof fn lemma_call_then_return(
    s: Chip8View,
    nnn: int,
    r1: u8,
    t1: u8,
    r2: u8,
    t2: u8,
)
    requires
        wf_view(s),
        s.mode == Mode::Running,
        s.pc as int + 1 < 4096,
        spec_fetch(s) == 0x2000 + nnn,
        0 <= nnn <= 4094,
        s.mem[nnn] == 0x00,
        s.mem[nnn + 1] == 0xEE,
    ensures
        spec_step(spec_step(s, r1, t1), r2, t2).pc == s.pc + 2,
        spec_step(spec_step(s, r1, t1), r2, t2).stack == s.stack,
        spec_step(spec_step(s, r1, t1), r2, t2).mode == Mode::Running,
{
    let raw = spec_fetch(s);
    assert(raw / 0x1000 == 0x2 && raw % 0x1000 == nnn) by {
        vstd::arithmetic::div_mod::lemma_fundamental_div_mod_converse(raw, 0x1000, 0x2, nnn);
    }
    let s1 = spec_step(s, r1, t1);
    assert(s1.pc == nnn && s1.stack == s.stack.push((s.pc + 2) as u16));
    assert(spec_fetch(s1) == 0x00EE);
    let s2 = spec_step(s1, r2, t2);
    assert(s2.pc == s1.stack.last() == s.pc + 2);
    assert(s2.stack =~= s.stack);
}

/// Every instruction but `Cxnn` (random) and `Fx07` (timer read) ignores
/// the random byte and the timer reading: on such instructions the step is
/// deterministic.
pub proof fn lemma_step_deterministic(s: Chip8View, r1: u8, t1: u8, r2: u8, t2: u8)
    requires
        wf_view(s),
        s.mode == Mode::Running && s.pc as int + 1 < 4096 ==> spec_fetch(s) / 0x1000 != 0xC
            && !(spec_fetch(s) / 0x1000 == 0xF && spec_fetch(s) % 256 == 0x07),
    ensures
        spec_step(s, r1, t1) == spec_step(s, r2, t2),
{
    if s.mode == Mode::Running && s.pc as int + 1 < 4096 {
        assert(spec_step(s, r1, t1) =~= spec_step(s, r2, t2));
    }
}

/// XOR drawing one sprite byte is self-inverse: a second identical draw
/// restores the framebuffer, and it reports an erasure exactly when the
/// first draw lit some pixel.
pub proof fn lemma_draw_byte_twice(s: Seq<u8>, b: u8, x: int, y: int)
    requires
        screen_wf(s),
        x >= 0,
        y >= 0,
    ensures
        draw_byte_spec(draw_byte_spec(s, b, x, y), b, x, y) == s,
        draw_byte_erases(draw_byte_spec(s, b, x, y), b, x, y) == (exists|i: int|
            0 <= i < 8 && sprite_bit(b, i) && s[target_index(x, y, i)] == 0),
{
    let s1 = draw_byte_spec(s, b, x, y);
    let s2 = draw_byte_spec(s1, b, x, y);
    assert forall|idx: int| 0 <= idx < 2048 implies s2[idx] == s[idx] by {
        if exists|i: int| 0 <= i < 8 && sprite_bit(b, i) && target_index(x, y, i) == idx {
            assert(s1[idx] == flip(s[idx]));
            assert(s2[idx] == flip(s1[idx]));
            assert(pixel_ok(s[idx]));
        }
    }
    assert(s2 =~= s);
    if draw_byte_erases(s1, b, x, y) {
        let i = choose|i: int| 0 <= i < 8 && sprite_bit(b, i)
            && s1[target_index(x, y, i)] == 1;
        lemma_target_index_bounds(x, y, i);
        assert(s1[target_index(x, y, i)] == flip(s[target_index(x, y, i)]));
        assert(sprite_bit(b, i) && s[target_index(x, y, i)] == 0);
    }
    if exists|i: int| 0 <= i < 8 && sprite_bit(b, i) && s[target_index(x, y, i)] == 0 {
        let i = choose|i: int| 0 <= i < 8 && sprite_bit(b, i)
            && s[target_index(x, y, i)] == 0;
        lemma_target_index_bounds(x, y, i);
        assert(s1[target_index(x, y, i)] == flip(s[target_index(x, y, i)]));
        assert(sprite_bit(b, i) && s1[target_index(x, y, i)] == 1);
    }
}

/// Whether some set bit of the `n`-byte sprite at `mem[base ..]`, drawn at
/// (`x`, `y`), lands on framebuffer cell `idx`.
pub open spec fn sprite_hits(
    mem: Seq<u8>,
    base: int,
    x: int,
    y: int,
    n: int,
    idx: int,
) -> bool {
    exists|k: int, i: int|
        0 <= k < n && 0 <= i < 8 && sprite_bit(mem[base + k], i)
            && #[trigger] target_index(x, y + k, i) == idx
}

/// Two distinct offsets below the modulus land on distinct residues.
proof fn lemma_mod_shift_distinct(a: int, d: int, m: int)
    requires
        a >= 0,
        0 < d < m,
    ensures
        (a + d) % m != a % m,
{
    vstd::arithmetic::div_mod::lemma_add_mod_noop(a, d, m);
    vstd::arithmetic::div_mod::lemma_mod_bound(a, m);
    vstd::arithmetic::div_mod::lemma_small_mod(d as nat, m as nat);
    let r = a % m;
    if r + d < m {
        vstd::arithmetic::div_mod::lemma_small_mod((r + d) as nat, m as nat);
    } else {
        vstd::arithmetic::div_mod::lemma_mod_sub_multiples_vanish(r + d, m);
        vstd::arithmetic::div_mod::lemma_small_mod((r + d - m) as nat, m as nat);
    }
}

/// A targeted cell determines the sprite row that targeted it: rows of a
/// sprite of height at most 32 land on pairwise distinct screen rows.
proof fn lemma_row_of_target(x: int, y: int, k1: int, i1: int, k2: int, i2: int)
    requires
        x >= 0,
        y >= 0,
        0 <= k1 < k2,
        k2 - k1 < 32,
        0 <= i1 < 8,
        0 <= i2 < 8,
    ensures
        target_index(x, y + k1, i1) != target_index(x, y + k2, i2),
{
    lemma_mod_shift_distinct(y + k1, k2 - k1, 32);
    vstd::arithmetic::div_mod::lemma_mod_bound(y + k1, 32);
    vstd::arithmetic::div_mod::lemma_mod_bound(y + k2, 32);
    vstd::arithmetic::div_mod::lemma_mod_bound(x + i1, 64);
    vstd::arithmetic::div_mod::lemma_mod_bound(x + i2, 64);
}

/// Pointwise characterisation of a whole sprite draw of height at most 32:
/// exactly the cells some set sprite bit lands on are flipped (no two rows
/// share a screen row, so no cell is flipped twice), and the draw reports
/// an erasure exactly when some set bit lands on a lit cell.
pub proof fn lemma_sprite_char(
    scr: Seq<u8>,
    mem: Seq<u8>,
    base: int,
    x: int,
    y: int,
    n: int,
)
    requires
        screen_wf(scr),
        x >= 0,
        y >= 0,
        0 <= n <= 32,
    ensures
        screen_wf(draw_sprite_spec(scr, mem, base, x, y, n)),
        forall|idx: int| 0 <= idx < 2048 ==> draw_sprite_spec(scr, mem, base, x, y, n)[idx]
            == (if sprite_hits(mem, base, x, y, n, idx) {
                flip(scr[idx])
            } else {
                scr[idx]
            }),
        sprite_erases(scr, mem, base, x, y, n) == (exists|k: int, i: int|
            0 <= k < n && 0 <= i < 8 && sprite_bit(mem[base + k], i)
                && scr[#[trigger] target_index(x, y + k, i)] == 1),
    decreases n,
{
    if n > 0 {
        lemma_sprite_char(scr, mem, base, x, y, n - 1);
        let prev = draw_sprite_spec(scr, mem, base, x, y, n - 1);
        let b = mem[base + n - 1];
        let cur = draw_sprite_spec(scr, mem, base, x, y, n);
        assert(cur == draw_byte_spec(prev, b, x, y + n - 1));

        // the last row's cells were untouched by the earlier rows
        assert forall|i: int| 0 <= i < 8 implies
            !sprite_hits(mem, base, x, y, n - 1, #[trigger] target_index(x, y + n - 1, i)) by {
            if sprite_hits(mem, base, x, y, n - 1, target_index(x, y + n - 1, i)) {
                let (k2, i2) = choose|k2: int, i2: int|
                    0 <= k2 < n - 1 && 0 <= i2 < 8 && sprite_bit(mem[base + k2], i2)
                        && #[trigger] target_index(x, y + k2, i2) == target_index(x, y + n - 1, i);
                lemma_row_of_target(x, y, k2, i2, n - 1, i);
            }
        }

        assert forall|idx: int| 0 <= idx < 2048 implies cur[idx] == (
            if sprite_hits(mem, base, x, y, n, idx) {
                flip(scr[idx])
            } else {
                scr[idx]
            }) by {
            if exists|i: int| 0 <= i < 8 && sprite_bit(b, i)
                && target_index(x, y + n - 1, i) == idx {
                // hit by the last row: earlier rows left it alone
                let i = choose|i: int| 0 <= i < 8 && sprite_bit(b, i)
                    && target_index(x, y + n - 1, i) == idx;
                assert(!sprite_hits(mem, base, x, y, n - 1, idx));
                assert(cur[idx] == flip(prev[idx]));
                assert(prev[idx] == scr[idx]);
                assert(sprite_hits(mem, base, x, y, n, idx));
            } else {
                assert(cur[idx] == prev[idx]);
                if sprite_hits(mem, base, x, y, n - 1, idx) {
                    let (k, i) = choose|k: int, i: int|
                        0 <= k < n - 1 && 0 <= i < 8 && sprite_bit(mem[base + k], i)
                            && #[trigger] target_index(x, y + k, i) == idx;
                    assert(sprite_hits(mem, base, x, y, n, idx));
                } else {
                    if sprite_hits(mem, base, x, y, n, idx) {
                        let (k, i) = choose|k: int, i: int|
                            0 <= k < n && 0 <= i < 8 && sprite_bit(mem[base + k], i)
                                && #[trigger] target_index(x, y + k, i) == idx;
                        if k < n - 1 {
                            assert(sprite_hits(mem, base, x, y, n - 1, idx));
                        } else {
                            assert(sprite_bit(b, i) && target_index(x, y + n - 1, i) == idx);
                        }
                        assert(false);
                    }
                }
            }
        }

        // the erasure flag of the last row is judged against `prev`, which
        // agrees with `scr` on that row's cells
        assert(draw_byte_erases(prev, b, x, y + n - 1) == (exists|i: int|
            0 <= i < 8 && sprite_bit(b, i) && scr[target_index(x, y + n - 1, i)] == 1)) by {
            if draw_byte_erases(prev, b, x, y + n - 1) {
                let i = choose|i: int| 0 <= i < 8 && sprite_bit(b, i)
                    && prev[target_index(x, y + n - 1, i)] == 1;
                lemma_target_index_bounds(x, y + n - 1, i);
                assert(prev[target_index(x, y + n - 1, i)] == scr[target_index(x, y + n - 1, i)]);
                assert(sprite_bit(b, i) && scr[target_index(x, y + n - 1, i)] == 1);
            }
            if exists|i: int| 0 <= i < 8 && sprite_bit(b, i)
                && scr[target_index(x, y + n - 1, i)] == 1 {
                let i = choose|i: int| 0 <= i < 8 && sprite_bit(b, i)
                    && scr[target_index(x, y + n - 1, i)] == 1;
                lemma_target_index_bounds(x, y + n - 1, i);
                assert(prev[target_index(x, y + n - 1, i)] == scr[target_index(x, y + n - 1, i)]);
                assert(sprite_bit(b, i) && prev[target_index(x, y + n - 1, i)] == 1);
            }
        }

        assert(sprite_erases(scr, mem, base, x, y, n) == (exists|k: int, i: int|
            0 <= k < n && 0 <= i < 8 && sprite_bit(mem[base + k], i)
                && scr[#[trigger] target_index(x, y + k, i)] == 1)) by {
            if sprite_erases(scr, mem, base, x, y, n) {
                if sprite_erases(scr, mem, base, x, y, n - 1) {
                    let (k, i) = choose|k: int, i: int|
                        0 <= k < n - 1 && 0 <= i < 8 && sprite_bit(mem[base + k], i)
                            && scr[#[trigger] target_index(x, y + k, i)] == 1;
                    assert(0 <= k < n && 0 <= i < 8 && sprite_bit(mem[base + k], i)
                        && scr[target_index(x, y + k, i)] == 1);
                } else {
                    let i = choose|i: int| 0 <= i < 8 && sprite_bit(b, i)
                        && scr[target_index(x, y + n - 1, i)] == 1;
                    assert(0 <= n - 1 < n && 0 <= i < 8 && sprite_bit(mem[base + n - 1], i)
                        && scr[target_index(x, y + n - 1, i)] == 1);
                }
            }
            if exists|k: int, i: int| 0 <= k < n && 0 <= i < 8 && sprite_bit(mem[base + k], i)
                && scr[#[trigger] target_index(x, y + k, i)] == 1 {
                let (k, i) = choose|k: int, i: int|
                    0 <= k < n && 0 <= i < 8 && sprite_bit(mem[base + k], i)
                        && scr[#[trigger] target_index(x, y + k, i)] == 1;
                if k < n - 1 {
                    assert(sprite_erases(scr, mem, base, x, y, n - 1));
                } else {
                    assert(sprite_bit(b, i) && scr[target_index(x, y + n - 1, i)] == 1);
                    assert(draw_byte_erases(prev, b, x, y + n - 1));
                }
            }
        }

        assert forall|idx: int| 0 <= idx < 2048 implies pixel_ok(#[trigger] cur[idx]) by {
            assert(pixel_ok(scr[idx]));
        }
    }
}

/// Drawing the same sprite twice at the same location restores the
/// framebuffer, and the second draw reports an erasure exactly when the
/// first draw lit some pixel.
pub proof fn lemma_draw_sprite_twice(
    scr: Seq<u8>,
    mem: Seq<u8>,
    base: int,
    x: int,
    y: int,
    n: int,
)
    requires
        screen_wf(scr),
        x >= 0,
        y >= 0,
        0 <= n <= 32,
    ensures
        draw_sprite_spec(draw_sprite_spec(scr, mem, base, x, y, n), mem, base, x, y, n) == scr,
        sprite_erases(draw_sprite_spec(scr, mem, base, x, y, n), mem, base, x, y, n)
            == (exists|k: int, i: int|
            0 <= k < n && 0 <= i < 8 && sprite_bit(mem[base + k], i)
                && scr[#[trigger] target_index(x, y + k, i)] == 0),
{
    let s1 = draw_sprite_spec(scr, mem, base, x, y, n);
    lemma_sprite_char(scr, mem, base, x, y, n);
    lemma_sprite_char(s1, mem, base, x, y, n);
    let s2 = draw_sprite_spec(s1, mem, base, x, y, n);
    assert forall|idx: int| 0 <= idx < 2048 implies s2[idx] == scr[idx] by {
        assert(pixel_ok(scr[idx]));
    }
    assert(s2 =~= scr);
    assert(sprite_erases(s1, mem, base, x, y, n) == (exists|k: int, i: int|
        0 <= k < n && 0 <= i < 8 && sprite_bit(mem[base + k], i)
            && scr[#[trigger] target_index(x, y + k, i)] == 0)) by {
        if sprite_erases(s1, mem, base, x, y, n) {
            let (k, i) = choose|k: int, i: int|
                0 <= k < n && 0 <= i < 8 && sprite_bit(mem[base + k], i)
                    && s1[#[trigger] target_index(x, y + k, i)] == 1;
            lemma_target_index_bounds(x, y + k, i);
            assert(sprite_hits(mem, base, x, y, n, target_index(x, y + k, i)));
            assert(s1[target_index(x, y + k, i)] == flip(scr[target_index(x, y + k, i)]));
            assert(sprite_bit(mem[base + k], i) && scr[target_index(x, y + k, i)] == 0);
        }
        if exists|k: int, i: int| 0 <= k < n && 0 <= i < 8 && sprite_bit(mem[base + k], i)
            && scr[#[trigger] target_index(x, y + k, i)] == 0 {
            let (k, i) = choose|k: int, i: int|
                0 <= k < n && 0 <= i < 8 && sprite_bit(mem[base + k], i)
                    && scr[#[trigger] target_index(x, y + k, i)] == 0;
            lemma_target_index_bounds(x, y + k, i);
            assert(sprite_hits(mem, base, x, y, n, target_index(x, y + k, i)));
            assert(s1[target_index(x, y + k, i)] == flip(scr[target_index(x, y + k, i)]));
            assert(sprite_bit(mem[base + k], i) && s1[target_index(x, y + k, i)] == 1);
        }
    }
}

} // verus!
