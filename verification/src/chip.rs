//! The interpreter: a 4096-byte memory holding the font and the loaded
//! program, the 16 general registers, the index register, the program
//! counter, the call stack, and one fetch-decode-execute step over the full
//! instruction set, with explicit `Running` / `WaitingForKey` / `Halted`
//! states. Undecodable opcodes, a return on an empty stack and out-of-range
//! memory accesses are fatal and leave the machine `Halted`.
//!
//! The whole transition is the spec function `spec_step`, parametrised by
//! the random byte of `Cxnn` and the timer reading of `Fx07`; `step_with`
//! is verified against it exactly, and `decode` supplies those two values
//! from the random generator and the wall clock.
//!
//! Design decisions pinned down here: `8xy4` assigns VF on both branches
//! (0 when there is no carry); `8xy5` compares as signed bytes; `8xy7`
//! takes the wrapped signed difference and VF from its sign bit; `Fx1E`
//! wraps the index register at 16 bits; and the sprite fetch of `Dxyn`,
//! the memory windows of `Fx33`/`Fx55`/`Fx65` and the ROM load are
//! range-checked and fail fast instead of wrapping silently.

use vstd::prelude::*;

use crate::display::{
    blank_screen, draw_byte_erases, draw_byte_spec, lemma_draw_byte_row_mod, screen_wf, Display,
};
use crate::keyboard::Keyboard;
use crate::timer::Timer;

verus! {

/// Size of the address space in bytes.
pub const MEM_SIZE: usize = 4096;

/// Address at which a ROM image is loaded.
pub const ROM_BASE: usize = 512;

/// The interpreter's execution state.
#[derive(Clone, Copy, PartialEq, Eq, Structural)]
pub enum Mode {
    /// Normal fetch-decode-execute.
    Running,
    /// `Fx0A` was executed: progress is suspended until a key event
    /// arrives, which lands in the register carried here.
    WaitingForKey(u8),
    /// A fatal program defect was met; the machine never leaves this state.
    Halted,
}

/// The abstract machine state.
#[verifier::ext_equal]
pub ghost struct Chip8View {
    pub mem: Seq<u8>,
    pub vx: Seq<u8>,
    pub stack: Seq<u16>,
    pub i: u16,
    pub pc: u16,
    pub screen: Seq<u8>,
    pub key: Option<u8>,
    pub timer: u8,
    pub mode: Mode,
}

/// A well-formed machine state. While waiting for a key the target
/// register is a nibble and the program counter still has room to advance.
pub open spec fn wf_view(s: Chip8View) -> bool {
    &&& s.mem.len() == 4096
    &&& s.vx.len() == 16
    &&& screen_wf(s.screen)
    &&& (s.mode matches Mode::WaitingForKey(x) ==> x < 16 && s.pc <= 4094)
}

/// `s`, halted.
pub open spec fn halt(s: Chip8View) -> Chip8View {
    Chip8View { mode: Mode::Halted, ..s }
}

/// `s` with the program counter advanced by `k` bytes.
pub open spec fn adv(s: Chip8View, k: int) -> Chip8View {
    Chip8View { pc: (s.pc + k) as u16, ..s }
}

/// `s` with register `x` set to `v`.
pub open spec fn set_v(s: Chip8View, x: int, v: u8) -> Chip8View {
    Chip8View { vx: s.vx.update(x, v), ..s }
}

/// The 16-bit instruction word at the program counter, big-endian.
pub open spec fn spec_fetch(s: Chip8View) -> int {
    s.mem[s.pc as int] * 256 + s.mem[s.pc as int + 1]
}

/// A byte read as a signed 8-bit value.
pub open spec fn as_i8(b: u8) -> int {
    if b < 128 {
        b as int
    } else {
        b as int - 256
    }
}

/// The screen after drawing the `n`-byte sprite at `mem[base ..]` at
/// (`x`, `y`): the rows are drawn in order, row `k` at `(y + k) % 256`
/// (only its residue modulo 32 matters).
pub open spec fn draw_sprite_spec(
    scr: Seq<u8>,
    mem: Seq<u8>,
    base: int,
    x: int,
    y: int,
    n: int,
) -> Seq<u8>
    decreases n,
{
    if n <= 0 {
        scr
    } else {
        draw_byte_spec(
            draw_sprite_spec(scr, mem, base, x, y, n - 1),
            mem[base + n - 1],
            x,
            y + n - 1,
        )
    }
}

/// Whether drawing the `n`-byte sprite erases some lit pixel in any row,
/// each row judged against the screen as the rows before it left it.
pub open spec fn sprite_erases(
    scr: Seq<u8>,
    mem: Seq<u8>,
    base: int,
    x: int,
    y: int,
    n: int,
) -> bool
    decreases n,
{
    if n <= 0 {
        false
    } else {
        ||| sprite_erases(scr, mem, base, x, y, n - 1)
        ||| draw_byte_erases(
            draw_sprite_spec(scr, mem, base, x, y, n - 1),
            mem[base + n - 1],
            x,
            y + n - 1,
        )
    }
}

/// The arithmetic/logic group `8xyn`. VF doubles as a general register:
/// where an instruction writes both its result and the flag, the writes
/// land in the order the instruction performs them.
pub open spec fn spec_exec_alu(s: Chip8View, x: int, y: int, n: int) -> Chip8View {
    let vx = s.vx[x];
    let vy = s.vx[y];
    if n == 0x0 {
        adv(set_v(s, x, vy), 2)
    } else if n == 0x1 {
        adv(set_v(s, x, vx | vy), 2)
    } else if n == 0x2 {
        adv(set_v(s, x, vx & vy), 2)
    } else if n == 0x3 {
        adv(set_v(s, x, vx ^ vy), 2)
    } else if n == 0x4 {
        // result first, then VF = carry (0 as well as 1)
        let sum = vx + vy;
        let flag: u8 = if sum > 255 { 1 } else { 0 };
        adv(set_v(set_v(s, x, (sum % 256) as u8), 15, flag), 2)
    } else if n == 0x5 {
        // VF first (signed compare of the old values), then the wrapping
        // subtraction over the updated register file
        let flag: u8 = if as_i8(vx) > as_i8(vy) { 1 } else { 0 };
        let s1 = set_v(s, 15, flag);
        adv(set_v(s1, x, ((s1.vx[x] - s1.vx[y]) % 256) as u8), 2)
    } else if n == 0x6 {
        let flag: u8 = (vx % 2) as u8;
        adv(set_v(set_v(s, 15, flag), x, vx / 2), 2)
    } else if n == 0x7 {
        // the wrapped signed difference Vy - Vx; VF from its sign bit
        let d = (vy - vx) % 256;
        let flag: u8 = if d >= 128 { 1 } else { 0 };
        adv(set_v(set_v(s, x, d as u8), 15, flag), 2)
    } else if n == 0xE {
        let flag: u8 = (vx / 128) as u8;
        adv(set_v(set_v(s, 15, flag), x, ((vx * 2) % 256) as u8), 2)
    } else {
        halt(s)
    }
}

/// The sprite instruction `Dxyn`: a fetch past the end of memory is fatal;
/// otherwise the sprite is drawn and VF reports whether a pixel was erased.
pub open spec fn spec_exec_draw(s: Chip8View, x: int, y: int, n: int) -> Chip8View {
    if s.i as int + n > 4096 {
        halt(s)
    } else {
        let sx = s.vx[x] as int;
        let sy = s.vx[y] as int;
        let erased = sprite_erases(s.screen, s.mem, s.i as int, sx, sy, n);
        adv(
            Chip8View {
                screen: draw_sprite_spec(s.screen, s.mem, s.i as int, sx, sy, n),
                vx: s.vx.update(15, if erased { 1u8 } else { 0u8 }),
                ..s
            },
            2,
        )
    }
}

/// The `Fxnn` group, with `tval` the timer reading used by `Fx07`.
pub open spec fn spec_exec_f(s: Chip8View, x: int, nn: u8, tval: u8) -> Chip8View {
    let vx = s.vx[x];
    if nn == 0x07 {
        adv(set_v(s, x, tval), 2)
    } else if nn == 0x0A {
        Chip8View { mode: Mode::WaitingForKey(x as u8), ..s }
    } else if nn == 0x15 {
        adv(Chip8View { timer: vx, ..s }, 2)
    } else if nn == 0x18 {
        // sound is out of scope by design: a no-op
        adv(s, 2)
    } else if nn == 0x1E {
        // the index register wraps at 16 bits
        adv(Chip8View { i: ((s.i + vx) % 0x10000) as u16, ..s }, 2)
    } else if nn == 0x29 {
        adv(Chip8View { i: (vx * 5) as u16, ..s }, 2)
    } else if nn == 0x33 {
        if s.i as int + 3 > 4096 {
            halt(s)
        } else {
            let m = s.mem.update(s.i as int, (vx / 100) as u8).update(
                s.i as int + 1,
                ((vx % 100) / 10) as u8,
            ).update(s.i as int + 2, (vx % 10) as u8);
            adv(Chip8View { mem: m, ..s }, 2)
        }
    } else if nn == 0x55 {
        if s.i as int + x + 1 > 4096 {
            halt(s)
        } else {
            let base = s.i as int;
            let m = Seq::new(
                4096,
                |k: int| if base <= k <= base + x { s.vx[k - base] } else { s.mem[k] },
            );
            adv(Chip8View { mem: m, i: (s.i + x + 1) as u16, ..s }, 2)
        }
    } else if nn == 0x65 {
        if s.i as int + x + 1 > 4096 {
            halt(s)
        } else {
            let base = s.i as int;
            let v = Seq::new(16, |k: int| if k <= x { s.mem[base + k] } else { s.vx[k] });
            adv(Chip8View { vx: v, i: (s.i + x + 1) as u16, ..s }, 2)
        }
    } else {
        halt(s)
    }
}

/// One decoded instruction, dispatched on the nibbles of `raw`.
pub open spec fn spec_exec(s: Chip8View, raw: int, rnd: u8, tval: u8) -> Chip8View {
    let op = raw / 0x1000;
    let x = (raw / 0x100) % 16;
    let y = (raw / 16) % 16;
    let n = raw % 16;
    let nn = (raw % 256) as u8;
    let nnn = raw % 0x1000;
    if op == 0x0 {
        if raw == 0x00E0 {
            adv(Chip8View { screen: blank_screen(), ..s }, 2)
        } else if raw == 0x00EE {
            if s.stack.len() == 0 {
                halt(s)
            } else {
                Chip8View { pc: s.stack.last(), stack: s.stack.drop_last(), ..s }
            }
        } else {
            // SYS: historically ignored
            adv(s, 2)
        }
    } else if op == 0x1 {
        Chip8View { pc: nnn as u16, ..s }
    } else if op == 0x2 {
        Chip8View { stack: s.stack.push((s.pc + 2) as u16), pc: nnn as u16, ..s }
    } else if op == 0x3 {
        adv(s, if s.vx[x] == nn { 4 } else { 2 })
    } else if op == 0x4 {
        adv(s, if s.vx[x] != nn { 4 } else { 2 })
    } else if op == 0x5 {
        if n == 0 {
            adv(s, if s.vx[x] == s.vx[y] { 4 } else { 2 })
        } else {
            halt(s)
        }
    } else if op == 0x6 {
        adv(set_v(s, x, nn), 2)
    } else if op == 0x7 {
        adv(set_v(s, x, ((s.vx[x] + nn) % 256) as u8), 2)
    } else if op == 0x8 {
        spec_exec_alu(s, x, y, n)
    } else if op == 0x9 {
        if n == 0 {
            adv(s, if s.vx[x] != s.vx[y] { 4 } else { 2 })
        } else {
            halt(s)
        }
    } else if op == 0xA {
        adv(Chip8View { i: nnn as u16, ..s }, 2)
    } else if op == 0xB {
        Chip8View { pc: (s.vx[0] + nnn) as u16, ..s }
    } else if op == 0xC {
        adv(set_v(s, x, rnd), 2)
    } else if op == 0xD {
        spec_exec_draw(s, x, y, n)
    } else if op == 0xE {
        if nn == 0x9E {
            adv(s, if s.key == Some(s.vx[x]) { 4 } else { 2 })
        } else if nn == 0xA1 {
            adv(s, if s.key != Some(s.vx[x]) { 4 } else { 2 })
        } else {
            halt(s)
        }
    } else {
        spec_exec_f(s, x, nn, tval)
    }
}

/// One whole step: nothing happens unless the machine is running; a fetch
/// past the end of memory is fatal; otherwise the fetched instruction
/// executes. `rnd` stands for the random byte of `Cxnn` and `tval` for the
/// timer reading of `Fx07`; every other instruction ignores both.
pub open spec fn spec_step(s: Chip8View, rnd: u8, tval: u8) -> Chip8View {
    if s.mode != Mode::Running {
        s
    } else if s.pc as int + 1 >= 4096 {
        halt(s)
    } else {
        spec_exec(s, spec_fetch(s), rnd, tval)
    }
}

/// A key event: the latch is replaced, and a machine waiting on `Fx0A`
/// consumes the key into its target register and resumes.
pub open spec fn spec_key_event(s: Chip8View, key: u8) -> Chip8View {
    match s.mode {
        Mode::WaitingForKey(x) => Chip8View {
            key: Some(key),
            vx: s.vx.update(x as int, key),
            pc: (s.pc + 2) as u16,
            mode: Mode::Running,
            ..s
        },
        _ => Chip8View { key: Some(key), ..s },
    }
}

/// The 16 built-in 5-byte hexadecimal digit sprites.
pub open spec fn font_seq() -> Seq<u8> {
    seq![
        0xF0u8, 0x90, 0x90, 0x90, 0xF0, // 0
        0x20, 0x60, 0x20, 0x20, 0x70, // 1
        0xF0, 0x10, 0xF0, 0x80, 0xF0, // 2
        0xF0, 0x10, 0xF0, 0x10, 0xF0, // 3
        0x90, 0x90, 0xF0, 0x10, 0x10, // 4
        0xF0, 0x80, 0xF0, 0x10, 0xF0, // 5
        0xF0, 0x80, 0xF0, 0x90, 0xF0, // 6
        0xF0, 0x10, 0x20, 0x40, 0x40, // 7
        0xF0, 0x90, 0xF0, 0x90, 0xF0, // 8
        0xF0, 0x90, 0xF0, 0x10, 0xF0, // 9
        0xF0, 0x90, 0xF0, 0x90, 0x90, // A
        0xE0, 0x90, 0xE0, 0x90, 0xE0, // B
        0xF0, 0x80, 0x80, 0x80, 0xF0, // C
        0xE0, 0x90, 0x90, 0x90, 0xE0, // D
        0xF0, 0x80, 0xF0, 0x80, 0xF0, // E
        0xF0, 0x80, 0xF0, 0x80, 0x80, // F
    ]
}

/// Memory at construction: the font in the first 80 cells, zero elsewhere.
pub open spec fn font_mem() -> Seq<u8> {
    Seq::new(4096, |k: int| if k < 80 { font_seq()[k] } else { 0u8 })
}

/// The machine at construction.
pub open spec fn initial_state() -> Chip8View {
    Chip8View {
        mem: font_mem(),
        vx: Seq::new(16, |k: int| 0u8),
        stack: Seq::empty(),
        i: 0,
        pc: 0x200,
        screen: blank_screen(),
        key: None,
        timer: 0,
        mode: Mode::Running,
    }
}

/// Memory after a ROM load: the image at `ROM_BASE`, the rest untouched.
pub open spec fn loaded_mem(mem: Seq<u8>, rom: Seq<u8>) -> Seq<u8> {
    Seq::new(4096, |k: int| if 512 <= k < 512 + rom.len() { rom[k - 512] } else { mem[k] })
}

/// Relies on rand::random: a uniformly distributed random byte. Nothing is
/// promised of the value.
#[verifier::external_body]
fn random_byte() -> (r: u8) {
    rand::random::<u8>()
}

/// The interpreter.
pub struct Chip8 {
    mem: Vec<u8>,
    vx: Vec<u8>,
    stack: Vec<u16>,
    i: u16,
    pc: u16,
    screen: Display,
    keyboard: Keyboard,
    timer: Timer,
    mode: Mode,
}

impl View for Chip8 {
    type V = Chip8View;

    closed spec fn view(&self) -> Chip8View {
        Chip8View {
            mem: self.mem@,
            vx: self.vx@,
            stack: self.stack@,
            i: self.i,
            pc: self.pc,
            screen: self.screen@,
            key: self.keyboard@,
            timer: self.timer@,
            mode: self.mode,
        }
    }
}

impl Chip8 {
    /// Whether the machine state is well formed.
    pub open spec fn wf(&self) -> bool {
        wf_view(self@)
    }

    /// A fresh machine: font written, program counter at `ROM_BASE`,
    /// everything else cleared.
    pub fn new() -> (c: Chip8)
        ensures
            c.wf(),
            c@ == initial_state(),
    {
        let mut mem = font_table();
        while mem.len() < MEM_SIZE
            invariant
                80 <= mem@.len() <= 4096,
                forall|k: int| 0 <= k < 80 ==> mem@[k] == font_seq()[k],
                forall|k: int| 80 <= k < mem@.len() ==> mem@[k] == 0u8,
            decreases 4096 - mem@.len(),
        {
            mem.push(0);
        }
        let mut vx: Vec<u8> = Vec::new();
        while vx.len() < 16
            invariant
                vx@.len() <= 16,
                forall|k: int| 0 <= k < vx@.len() ==> vx@[k] == 0u8,
            decreases 16 - vx@.len(),
        {
            vx.push(0);
        }
        let c = Chip8 {
            mem,
            vx,
            stack: Vec::new(),
            i: 0,
            pc: 0x200,
            screen: Display::new(),
            keyboard: Keyboard::new(),
            timer: Timer::new(),
            mode: Mode::Running,
        };
        proof {
            assert(c@.mem =~= font_mem());
            assert(c@.vx =~= initial_state().vx);
            assert(c@.stack =~= initial_state().stack);
            assert(c@ =~= initial_state());
        }
        c
    }

    /// Copy a ROM image into memory at `ROM_BASE`. An image that would run
    /// past the end of memory is rejected whole and nothing changes.
    pub fn load_rom(&mut self, data: &Vec<u8>) -> (ok: bool)
        requires
            old(self).wf(),
        ensures
            final(self).wf(),
            ok == (data@.len() <= 3584),
            ok ==> final(self)@ == (Chip8View {
                mem: loaded_mem(old(self)@.mem, data@),
                ..old(self)@
            }),
            !ok ==> final(self)@ == old(self)@,
    {
        if data.len() > MEM_SIZE - ROM_BASE {
            return false;
        }
        let mut k: usize = 0;
        while k < data.len()
            invariant
                old(self).wf(),
                data@.len() <= 3584,
                k <= data@.len(),
                self@ == (Chip8View { mem: self@.mem, ..old(self)@ }),
                self@.mem.len() == 4096,
                forall|j: int| 0 <= j < 4096 ==> #[trigger] self@.mem[j] == (
                    if 512 <= j < 512 + k {
                        data@[j - 512]
                    } else {
                        old(self)@.mem[j]
                    }),
            decreases data@.len() - k,
        {
            self.mem[ROM_BASE + k] = data[k];
            k += 1;
        }
        proof {
            assert(self@.mem =~= loaded_mem(old(self)@.mem, data@));
            assert(self@ =~= (Chip8View { mem: loaded_mem(old(self)@.mem, data@), ..old(self)@ }));
        }
        true
    }

    /// Read-only snapshot of the framebuffer for rendering.
    pub fn get_display_buffer(&self) -> (r: &[u8])
        ensures
            r@ == self@.screen,
    {
        self.screen.get_dis_buf()
    }

    /// Deliver a key event: latch it, and resume a machine waiting on
    /// `Fx0A` by writing the key into its target register.
    pub fn set_key_pressed(&mut self, key: u8)
        requires
            old(self).wf(),
        ensures
            final(self).wf(),
            final(self)@ == spec_key_event(old(self)@, key),
    {
        self.keyboard.set_key_pressed(key);
        match self.mode {
            Mode::WaitingForKey(x) => {
                self.vx[x as usize] = key;
                self.pc = self.pc + 2;
                self.mode = Mode::Running;
            },
            _ => {},
        }
        proof {
            assert(self@ =~= spec_key_event(old(self)@, key));
        }
    }

    /// Draw the `h`-byte sprite at `mem[i ..]` at (`x`, `y`) and set VF to
    /// whether a lit pixel was erased.
    fn draw_sprite(&mut self, x: u8, y: u8, h: u8)
        requires
            old(self).wf(),
            old(self)@.i as int + h as int <= 4096,
        ensures
            final(self).wf(),
            final(self)@ == (Chip8View {
                screen: draw_sprite_spec(
                    old(self)@.screen,
                    old(self)@.mem,
                    old(self)@.i as int,
                    x as int,
                    y as int,
                    h as int,
                ),
                vx: old(self)@.vx.update(
                    15,
                    if sprite_erases(
                        old(self)@.screen,
                        old(self)@.mem,
                        old(self)@.i as int,
                        x as int,
                        y as int,
                        h as int,
                    ) {
                        1u8
                    } else {
                        0u8
                    },
                ),
                ..old(self)@
            }),
    {
        let ghost s0 = old(self)@;
        let mut erased = false;
        let mut sy: u8 = 0;
        while sy < h
            invariant
                wf_view(s0),
                s0 == old(self)@,
                s0.i as int + h as int <= 4096,
                sy <= h,
                self@ == (Chip8View { screen: self@.screen, ..s0 }),
                screen_wf(self@.screen),
                self@.screen == draw_sprite_spec(
                    s0.screen,
                    s0.mem,
                    s0.i as int,
                    x as int,
                    y as int,
                    sy as int,
                ),
                erased == sprite_erases(
                    s0.screen,
                    s0.mem,
                    s0.i as int,
                    x as int,
                    y as int,
                    sy as int,
                ),
            decreases h - sy,
        {
            let ghost scr_before = self@.screen;
            let byte = self.mem[self.i as usize + sy as usize];
            let row: u8 = ((y as u16 + sy as u16) % 256) as u8;
            let e = self.screen.draw_byte(byte, x, row);
            if e {
                erased = true;
            }
            proof {
                lemma_draw_byte_row_mod(scr_before, byte, x as int, y as int + sy as int);
                assert(row as int == (y as int + sy as int) % 256);
            }
            sy += 1;
        }
        if erased {
            self.vx[15] = 1;
        } else {
            self.vx[15] = 0;
        }
        proof {
            assert(self@ =~= (Chip8View {
                screen: draw_sprite_spec(s0.screen, s0.mem, s0.i as int, x as int, y as int, h as int),
                vx: s0.vx.update(
                    15,
                    if sprite_erases(s0.screen, s0.mem, s0.i as int, x as int, y as int, h as int) {
                        1u8
                    } else {
                        0u8
                    },
                ),
                ..s0
            }));
        }
    }

    /// The `8xyn` arithmetic/logic group, program counter included.
    fn exec_alu(&mut self, x: usize, y: usize, n: u8)
        requires
            old(self).wf(),
            old(self)@.mode == Mode::Running,
            x < 16,
            y < 16,
            old(self)@.pc <= 4094,
        ensures
            final(self).wf(),
            final(self)@ == spec_exec_alu(old(self)@, x as int, y as int, n as int),
    {
        let vx = self.vx[x];
        let vy = self.vx[y];
        match n {
            0x0 => {
                self.vx[x] = vy;
                self.pc = self.pc + 2;
            },
            0x1 => {
                self.vx[x] = vx | vy;
                self.pc = self.pc + 2;
            },
            0x2 => {
                self.vx[x] = vx & vy;
                self.pc = self.pc + 2;
            },
            0x3 => {
                self.vx[x] = vx ^ vy;
                self.pc = self.pc + 2;
            },
            0x4 => {
                let sum: u16 = vx as u16 + vy as u16;
                self.vx[x] = (sum % 256) as u8;
                self.vx[15] = if sum > 255 { 1 } else { 0 };
                self.pc = self.pc + 2;
            },
            0x5 => {
                self.vx[15] = if signed_gt(vx, vy) { 1 } else { 0 };
                let a = self.vx[x];
                let b = self.vx[y];
                let d: u16 = (a as u16 + 256 - b as u16) % 256;
                self.vx[x] = d as u8;
                self.pc = self.pc + 2;
                proof {
                    assert(d as int == (a as int - b as int) % 256) by {
                        vstd::arithmetic::div_mod::lemma_mod_multiples_vanish(
                            1,
                            a as int - b as int,
                            256,
                        );
                    }
                }
            },
            0x6 => {
                self.vx[15] = vx % 2;
                self.vx[x] = vx / 2;
                self.pc = self.pc + 2;
            },
            0x7 => {
                let d: u16 = (vy as u16 + 256 - vx as u16) % 256;
                self.vx[x] = d as u8;
                self.vx[15] = if d >= 128 { 1 } else { 0 };
                self.pc = self.pc + 2;
                proof {
                    assert(d as int == (vy as int - vx as int) % 256) by {
                        vstd::arithmetic::div_mod::lemma_mod_multiples_vanish(
                            1,
                            vy as int - vx as int,
                            256,
                        );
                    }
                }
            },
            0xE => {
                self.vx[15] = vx / 128;
                let doubled: u16 = (vx as u16 * 2) % 256;
                self.vx[x] = doubled as u8;
                self.pc = self.pc + 2;
            },
            _ => {
                self.mode = Mode::Halted;
            },
        }
        proof {
            assert(self@ =~= spec_exec_alu(old(self)@, x as int, y as int, n as int));
        }
    }

    /// The `Fxnn` group, with `tval` the timer reading used by `Fx07`.
    fn exec_f(&mut self, x: usize, nn: u8, tval: u8)
        requires
            old(self).wf(),
            old(self)@.mode == Mode::Running,
            x < 16,
            old(self)@.pc <= 4094,
        ensures
            final(self).wf(),
            final(self)@ == spec_exec_f(old(self)@, x as int, nn, tval),
    {
        let ghost s0 = old(self)@;
        match nn {
            0x07 => {
                self.vx[x] = tval;
                self.pc = self.pc + 2;
            },
            0x0A => {
                self.mode = Mode::WaitingForKey(x as u8);
            },
            0x15 => {
                let v = self.vx[x];
                self.timer.set_timer(v);
                self.pc = self.pc + 2;
            },
            0x18 => {
                self.pc = self.pc + 2;
            },
            0x1E => {
                let sum: u32 = self.i as u32 + self.vx[x] as u32;
                self.i = (sum % 0x10000) as u16;
                self.pc = self.pc + 2;
            },
            0x29 => {
                self.i = self.vx[x] as u16 * 5;
                self.pc = self.pc + 2;
            },
            0x33 => {
                if self.i as usize + 3 > 4096 {
                    self.mode = Mode::Halted;
                } else {
                    let v = self.vx[x];
                    let base = self.i as usize;
                    self.mem[base] = v / 100;
                    self.mem[base + 1] = (v % 100) / 10;
                    self.mem[base + 2] = v % 10;
                    self.pc = self.pc + 2;
                }
            },
            0x55 => {
                if self.i as usize + x + 1 > 4096 {
                    self.mode = Mode::Halted;
                } else {
                    let base = self.i as usize;
                    let mut k: usize = 0;
                    while k < x + 1
                        invariant
                            wf_view(s0),
                            s0 == old(self)@,
                            x < 16,
                            base == s0.i as usize,
                            base + x + 1 <= 4096,
                            k <= x + 1,
                            self@ == (Chip8View { mem: self@.mem, ..s0 }),
                            self@.mem.len() == 4096,
                            forall|j: int| 0 <= j < 4096 ==> #[trigger] self@.mem[j] == (
                                if base <= j < base + k {
                                    s0.vx[j - base]
                                } else {
                                    s0.mem[j]
                                }),
                        decreases x + 1 - k,
                    {
                        self.mem[base + k] = self.vx[k];
                        k += 1;
                    }
                    self.i = self.i + x as u16 + 1;
                    self.pc = self.pc + 2;
                    proof {
                        assert(self@.mem =~= Seq::new(
                            4096,
                            |j: int| if s0.i as int <= j <= s0.i as int + x {
                                s0.vx[j - s0.i as int]
                            } else {
                                s0.mem[j]
                            },
                        ));
                    }
                }
            },
            0x65 => {
                if self.i as usize + x + 1 > 4096 {
                    self.mode = Mode::Halted;
                } else {
                    let base = self.i as usize;
                    let mut k: usize = 0;
                    while k < x + 1
                        invariant
                            wf_view(s0),
                            s0 == old(self)@,
                            x < 16,
                            base == s0.i as usize,
                            base + x + 1 <= 4096,
                            k <= x + 1,
                            self@ == (Chip8View { vx: self@.vx, ..s0 }),
                            self@.vx.len() == 16,
                            forall|j: int| 0 <= j < 16 ==> #[trigger] self@.vx[j] == (
                                if j < k {
                                    s0.mem[s0.i as int + j]
                                } else {
                                    s0.vx[j]
                                }),
                        decreases x + 1 - k,
                    {
                        self.vx[k] = self.mem[base + k];
                        k += 1;
                    }
                    self.i = self.i + x as u16 + 1;
                    self.pc = self.pc + 2;
                    proof {
                        assert(self@.vx =~= Seq::new(
                            16,
                            |j: int| if j <= x {
                                s0.mem[s0.i as int + j]
                            } else {
                                s0.vx[j]
                            },
                        ));
                    }
                }
            },
            _ => {
                self.mode = Mode::Halted;
            },
        }
        proof {
            assert(self@ =~= spec_exec_f(old(self)@, x as int, nn, tval));
        }
    }

    /// One fetch-decode-execute step with the two environment-dependent
    /// inputs made explicit: `rnd` is the byte `Cxnn` stores and `tval` the
    /// reading `Fx07` stores. Every other instruction ignores both, so the
    /// whole transition is deterministic in the arguments.
    pub fn step_with(&mut self, rnd: u8, tval: u8)
        requires
            old(self).wf(),
        ensures
            final(self).wf(),
            final(self)@ == spec_step(old(self)@, rnd, tval),
    {
        match self.mode {
            Mode::Running => {},
            _ => {
                return;
            },
        }
        if self.pc as usize + 1 >= 4096 {
            self.mode = Mode::Halted;
            return;
        }
        let hi = self.mem[self.pc as usize];
        let lo = self.mem[self.pc as usize + 1];
        let raw: u16 = (hi as u16) * 256 + (lo as u16);
        let op: u16 = raw / 0x1000;
        let x = ((raw / 0x100) % 16) as usize;
        let y = ((raw / 16) % 16) as usize;
        let n = (raw % 16) as u8;
        let nn = (raw % 256) as u8;
        let nnn = raw % 0x1000;
        match op {
            0x0 => {
                if raw == 0x00E0 {
                    self.screen.clear();
                    self.pc = self.pc + 2;
                } else if raw == 0x00EE {
                    match self.stack.pop() {
                        Some(addr) => {
                            self.pc = addr;
                        },
                        None => {
                            self.mode = Mode::Halted;
                        },
                    }
                } else {
                    self.pc = self.pc + 2;
                }
            },
            0x1 => {
                self.pc = nnn;
            },
            0x2 => {
                self.stack.push(self.pc + 2);
                self.pc = nnn;
            },
            0x3 => {
                if self.vx[x] == nn {
                    self.pc = self.pc + 4;
                } else {
                    self.pc = self.pc + 2;
                }
            },
            0x4 => {
                if self.vx[x] != nn {
                    self.pc = self.pc + 4;
                } else {
                    self.pc = self.pc + 2;
                }
            },
            0x5 => {
                if n == 0 {
                    if self.vx[x] == self.vx[y] {
                        self.pc = self.pc + 4;
                    } else {
                        self.pc = self.pc + 2;
                    }
                } else {
                    self.mode = Mode::Halted;
                }
            },
            0x6 => {
                self.vx[x] = nn;
                self.pc = self.pc + 2;
            },
            0x7 => {
                let sum: u16 = self.vx[x] as u16 + nn as u16;
                self.vx[x] = (sum % 256) as u8;
                self.pc = self.pc + 2;
            },
            0x8 => {
                self.exec_alu(x, y, n);
            },
            0x9 => {
                if n == 0 {
                    if self.vx[x] != self.vx[y] {
                        self.pc = self.pc + 4;
                    } else {
                        self.pc = self.pc + 2;
                    }
                } else {
                    self.mode = Mode::Halted;
                }
            },
            0xA => {
                self.i = nnn;
                self.pc = self.pc + 2;
            },
            0xB => {
                self.pc = self.vx[0] as u16 + nnn;
            },
            0xC => {
                self.vx[x] = rnd;
                self.pc = self.pc + 2;
            },
            0xD => {
                if self.i as usize + n as usize > 4096 {
                    self.mode = Mode::Halted;
                } else {
                    let sx = self.vx[x];
                    let sy = self.vx[y];
                    self.draw_sprite(sx, sy, n);
                    self.pc = self.pc + 2;
                }
            },
            0xE => {
                if nn == 0x9E {
                    let key = self.vx[x];
                    if self.keyboard.is_key_pressed(key) {
                        self.pc = self.pc + 4;
                    } else {
                        self.pc = self.pc + 2;
                    }
                } else if nn == 0xA1 {
                    let key = self.vx[x];
                    if !self.keyboard.is_key_pressed(key) {
                        self.pc = self.pc + 4;
                    } else {
                        self.pc = self.pc + 2;
                    }
                } else {
                    self.mode = Mode::Halted;
                }
            },
            0xF => {
                self.exec_f(x, nn, tval);
            },
            _ => {
                proof {
                    assert(false);
                }
            },
        }
        proof {
            assert(self@ =~= spec_step(old(self)@, rnd, tval));
        }
    }

    /// One fetch-decode-execute step, drawing the random byte of `Cxnn`
    /// from the generator and the reading of `Fx07` from the timer. The
    /// result is a `spec_step` outcome for some such pair of values, the
    /// timer reading never above the value the timer was set to.
    pub fn decode(&mut self)
        requires
            old(self).wf(),
        ensures
            final(self).wf(),
            exists|r: u8, t: u8|
                t <= old(self)@.timer && final(self)@ == spec_step(old(self)@, r, t),
    {
        let mut rnd: u8 = 0;
        let mut tval: u8 = 0;
        let running = match self.mode {
            Mode::Running => true,
            _ => false,
        };
        if running && self.pc as usize + 1 < 4096 {
            let hi = self.mem[self.pc as usize];
            let lo = self.mem[self.pc as usize + 1];
            let raw: u16 = (hi as u16) * 256 + (lo as u16);
            if raw / 0x1000 == 0xC {
                rnd = random_byte();
            }
            if raw / 0x1000 == 0xF && raw % 256 == 0x07 {
                tval = self.timer.get_timer();
            }
        }
        let ghost r0 = rnd;
        let ghost t0 = tval;
        self.step_with(rnd, tval);
        proof {
            assert(t0 <= old(self)@.timer && self@ == spec_step(old(self)@, r0, t0));
        }
    }

    /// Register `idx`.
    pub fn get_vx(&self, idx: u8) -> (r: u8)
        requires
            self.wf(),
            idx < 16,
        ensures
            r == self@.vx[idx as int],
    {
        self.vx[idx as usize]
    }

    /// The program counter.
    pub fn get_pc(&self) -> (r: u16)
        ensures
            r == self@.pc,
    {
        self.pc
    }

    /// The index register.
    pub fn get_i(&self) -> (r: u16)
        ensures
            r == self@.i,
    {
        self.i
    }

    /// The memory cell at `addr`.
    pub fn get_mem(&self, addr: u16) -> (r: u8)
        requires
            self.wf(),
            addr < 4096,
        ensures
            r == self@.mem[addr as int],
    {
        self.mem[addr as usize]
    }

    /// Whether the machine met a fatal program defect.
    pub fn is_halted(&self) -> (r: bool)
        ensures
            r == (self@.mode == Mode::Halted),
    {
        match self.mode {
            Mode::Halted => true,
            _ => false,
        }
    }

    /// Whether the machine is suspended on `Fx0A`.
    pub fn is_waiting_for_key(&self) -> (r: bool)
        ensures
            r == (self@.mode matches Mode::WaitingForKey(_)),
    {
        match self.mode {
            Mode::WaitingForKey(_) => true,
            _ => false,
        }
    }
}

/// The font table as a vector.
fn font_table() -> (t: Vec<u8>)
    ensures
        t@ == font_seq(),
{
    let mut t: Vec<u8> = Vec::new();
    t.push(0xF0); t.push(0x90); t.push(0x90); t.push(0x90); t.push(0xF0);
    t.push(0x20); t.push(0x60); t.push(0x20); t.push(0x20); t.push(0x70);
    t.push(0xF0); t.push(0x10); t.push(0xF0); t.push(0x80); t.push(0xF0);
    t.push(0xF0); t.push(0x10); t.push(0xF0); t.push(0x10); t.push(0xF0);
    t.push(0x90); t.push(0x90); t.push(0xF0); t.push(0x10); t.push(0x10);
    t.push(0xF0); t.push(0x80); t.push(0xF0); t.push(0x10); t.push(0xF0);
    t.push(0xF0); t.push(0x80); t.push(0xF0); t.push(0x90); t.push(0xF0);
    t.push(0xF0); t.push(0x10); t.push(0x20); t.push(0x40); t.push(0x40);
    t.push(0xF0); t.push(0x90); t.push(0xF0); t.push(0x90); t.push(0xF0);
    t.push(0xF0); t.push(0x90); t.push(0xF0); t.push(0x10); t.push(0xF0);
    t.push(0xF0); t.push(0x90); t.push(0xF0); t.push(0x90); t.push(0x90);
    t.push(0xE0); t.push(0x90); t.push(0xE0); t.push(0x90); t.push(0xE0);
    t.push(0xF0); t.push(0x80); t.push(0x80); t.push(0x80); t.push(0xF0);
    t.push(0xE0); t.push(0x90); t.push(0x90); t.push(0x90); t.push(0xE0);
    t.push(0xF0); t.push(0x80); t.push(0xF0); t.push(0x80); t.push(0xF0);
    t.push(0xF0); t.push(0x80); t.push(0xF0); t.push(0x80); t.push(0x80);
    proof {
        assert(t@ =~= font_seq());
    }
    t
}

/// Compare two bytes as signed 8-bit values.
fn signed_gt(a: u8, b: u8) -> (r: bool)
    ensures
        r == (as_i8(a) > as_i8(b)),
{
    let sa: i16 = if a >= 128 { a as i16 - 256 } else { a as i16 };
    let sb: i16 = if b >= 128 { b as i16 - 256 } else { b as i16 };
    sa > sb
}

} // verus!
