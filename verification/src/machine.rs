//! The interpreter proper: the machine state, the fetch-decode-execute
//! cycle, and the semantics of every instruction.
//!
//! Every contract here is stated over [`State`], a mathematical image of the
//! machine, and over pure spec transitions on it; `step` ties the whole
//! cycle to [`spec_step`].

use vstd::prelude::*;

use rand::Rng;

use crate::error::Chip8Error;
use crate::font::{font_seq, load_font};
use crate::opcode::{field_n, field_nn, field_nnn, field_x, field_y, Opcode};
use crate::screen::{blank_grid, grid_wf, Screen};
use crate::stack::Stack;
use crate::timers::Timers;

verus! {

/// Outcome of one interpreter cycle.
#[derive(Clone, Copy, Debug, PartialEq, Eq, Structural)]
pub enum StepOutcome {
    /// The program counter ran past the end of memory: the designed, graceful
    /// termination of a program that runs off the end.
    Halted,
    /// One cycle completed. `redraw` reports whether a framebuffer change is
    /// pending for the host to present (and clear with `clear_redraw`).
    Continued { redraw: bool },
    /// A fatal machine fault, distinct from a normal halt.
    Faulted(Chip8Error),
}

/// The observable machine state as one mathematical value; the image of a
/// [`Chip8`] under [`abs`]. All contracts and transition functions speak of
/// this.
#[verifier::ext_equal]
pub struct State {
    /// The 4096 memory bytes.
    pub memory: Seq<u8>,
    /// The program counter: address of the next instruction to fetch.
    pub pc: int,
    /// The most recently fetched instruction word.
    pub opcode: u16,
    /// The call stack of return addresses, most recent last.
    pub stack: Seq<usize>,
    /// The sixteen 8-bit general-purpose registers.
    pub v: Seq<u8>,
    /// The 64x32 framebuffer, 32 rows of 64 one-bit pixels.
    pub grid: Seq<Seq<u8>>,
    /// The 16-bit index register.
    pub i: int,
    /// The delay timer.
    pub delay: u8,
    /// The sound timer.
    pub sound: u8,
    /// The keypad: pressed state of keys 0x0..=0xF, as last supplied.
    pub keys: Seq<bool>,
    /// The keypad state supplied before that, for press-edge detection.
    pub prev_keys: Seq<bool>,
    /// `Some(x)` while a wait-key instruction is suspended on register `x`.
    pub awaiting_key: Option<u8>,
    /// Whether a framebuffer change is pending for the host.
    pub need_redraw: bool,
}

/// The machine: memory, register file, call stack, timers, framebuffer and
/// keypad snapshot, with the fetch-decode-execute cycle over them.
pub struct Chip8 {
    /// The flat 4096-byte memory; the first 80 bytes hold the glyph bitmaps,
    /// the program image is loaded at 0x200.
    pub memory: Vec<u8>,
    /// The program counter.
    pub pc: usize,
    /// The current instruction word.
    pub opcode: Opcode,
    /// The call stack.
    pub stack: Stack,
    /// The sixteen 8-bit registers; register 0xF doubles as the flag output.
    pub v: Vec<u8>,
    /// The framebuffer.
    pub screen: Screen,
    /// The 16-bit index register.
    pub i: usize,
    rng: rand::rngs::ThreadRng,
    /// The delay and sound timers.
    pub timers: Timers,
    /// Pressed state of the sixteen keys, as last supplied by the host.
    pub keys: Vec<bool>,
    /// The key state supplied before that, for press-edge detection.
    pub prev_keys: Vec<bool>,
    /// `Some(x)` while a wait-key instruction is suspended on register `x`.
    pub awaiting_key: Option<u8>,
    /// Whether a framebuffer change is pending for the host.
    pub need_redraw: bool,
}

/// Declares rand's thread-local generator type, opaque to the verifier, so
/// the machine can hold one for the random instruction.
#[verifier::external_type_specification]
#[verifier::external_body]
pub struct ExThreadRng(rand::rngs::ThreadRng);

/// Relies on rand::thread_rng: obtains the thread-local random generator.
#[verifier::external_body]
fn new_rng() -> rand::rngs::ThreadRng {
    rand::thread_rng()
}

/// Relies on rand::Rng::gen: draws one byte from the generator. Nothing is
/// promised of the value: callers state what holds of every outcome.
#[verifier::external_body]
fn draw_byte(rng: &mut rand::rngs::ThreadRng) -> u8 {
    rng.gen::<u8>()
}

/// The memory image at construction: the font in the glyph region, zeroes
/// everywhere else.
pub open spec fn initial_memory() -> Seq<u8> {
    Seq::new(4096, |j: int| if j < 80 { font_seq()[j] } else { 0u8 })
}

/// The machine state at construction.
pub open spec fn initial_state() -> State {
    State {
        memory: initial_memory(),
        pc: 0x200,
        opcode: 0u16,
        stack: Seq::empty(),
        v: Seq::new(16, |j: int| 0u8),
        grid: blank_grid(),
        i: 0,
        delay: 0u8,
        sound: 0u8,
        keys: Seq::new(16, |j: int| false),
        prev_keys: Seq::new(16, |j: int| false),
        awaiting_key: None,
        need_redraw: false,
    }
}

/// Well-formedness of a machine state: fixed sizes, one-bit pixels, the
/// index register within its 16 bits, and a valid wait-key target.
pub open spec fn wf_state(s: State) -> bool {
    &&& s.memory.len() == 4096
    &&& s.v.len() == 16
    &&& s.keys.len() == 16
    &&& s.prev_keys.len() == 16
    &&& grid_wf(s.grid)
    &&& 0 <= s.pc
    &&& 0 <= s.i < 0x10000
    &&& match s.awaiting_key {
        Some(x) => x < 16,
        None => true,
    }
}

/// A timer value after one cadence step: down by one, clamped at zero.
pub open spec fn ticked(t: u8) -> u8 {
    if t > 0 {
        (t - 1) as u8
    } else {
        0u8
    }
}

/// Whether key `k` counts as pressed: only the sixteen keypad codes can be.
pub open spec fn key_pressed(s: State, k: u8) -> bool {
    k < 16 && s.keys[k as int]
}

/// Clear-screen: blanks the framebuffer and marks a redraw.
pub open spec fn exec_cls(s: State) -> State {
    State { grid: blank_grid(), need_redraw: true, ..s }
}

/// Return: pops the most recent return address into the program counter; an
/// empty stack is a fatal underflow and leaves the state unchanged.
pub open spec fn exec_ret(s: State) -> (State, Option<Chip8Error>) {
    if s.stack.len() == 0 {
        (s, Some(Chip8Error::StackUnderflow))
    } else {
        ((State { pc: s.stack.last() as int, stack: s.stack.drop_last(), ..s }), None)
    }
}

/// Jump: sets the program counter to the instruction's address field.
pub open spec fn exec_jp(s: State) -> State {
    State { pc: field_nnn(s.opcode) as int, ..s }
}

/// Call: pushes the (already advanced) program counter and jumps.
pub open spec fn exec_call(s: State) -> State {
    State { stack: s.stack.push(s.pc as usize), pc: field_nnn(s.opcode) as int, ..s }
}

/// Skip-if-equal-immediate: advances the program counter one extra
/// instruction when `V[x]` equals the immediate.
pub open spec fn exec_se_imm(s: State) -> State {
    State {
        pc: if s.v[field_x(s.opcode) as int] == field_nn(s.opcode) {
            s.pc + 2
        } else {
            s.pc
        },
        ..s
    }
}

/// Skip-if-not-equal-immediate.
pub open spec fn exec_sne_imm(s: State) -> State {
    State {
        pc: if s.v[field_x(s.opcode) as int] != field_nn(s.opcode) {
            s.pc + 2
        } else {
            s.pc
        },
        ..s
    }
}

/// Skip-if-equal-register.
pub open spec fn exec_se_reg(s: State) -> State {
    State {
        pc: if s.v[field_x(s.opcode) as int] == s.v[field_y(s.opcode) as int] {
            s.pc + 2
        } else {
            s.pc
        },
        ..s
    }
}

/// Skip-if-not-equal-register.
pub open spec fn exec_sne_reg(s: State) -> State {
    State {
        pc: if s.v[field_x(s.opcode) as int] != s.v[field_y(s.opcode) as int] {
            s.pc + 2
        } else {
            s.pc
        },
        ..s
    }
}

/// Load-immediate: `V[x] = nn`.
pub open spec fn exec_ld_imm(s: State) -> State {
    State { v: s.v.update(field_x(s.opcode) as int, field_nn(s.opcode)), ..s }
}

/// Add-immediate: `V[x] = (V[x] + nn) mod 256`, no flag.
pub open spec fn exec_add_imm(s: State) -> State {
    State {
        v: s.v.update(
            field_x(s.opcode) as int,
            ((s.v[field_x(s.opcode) as int] + field_nn(s.opcode)) % 256) as u8,
        ),
        ..s
    }
}

/// Load-register: `V[x] = V[y]`.
pub open spec fn exec_ld_reg(s: State) -> State {
    State { v: s.v.update(field_x(s.opcode) as int, s.v[field_y(s.opcode) as int]), ..s }
}

/// Bitwise or: `V[x] |= V[y]`, no flag.
pub open spec fn exec_or(s: State) -> State {
    State {
        v: s.v.update(
            field_x(s.opcode) as int,
            s.v[field_x(s.opcode) as int] | s.v[field_y(s.opcode) as int],
        ),
        ..s
    }
}

/// Bitwise and: `V[x] &= V[y]`, no flag.
pub open spec fn exec_and(s: State) -> State {
    State {
        v: s.v.update(
            field_x(s.opcode) as int,
            s.v[field_x(s.opcode) as int] & s.v[field_y(s.opcode) as int],
        ),
        ..s
    }
}

/// Bitwise xor: `V[x] ^= V[y]`, no flag.
pub open spec fn exec_xor(s: State) -> State {
    State {
        v: s.v.update(
            field_x(s.opcode) as int,
            s.v[field_x(s.opcode) as int] ^ s.v[field_y(s.opcode) as int],
        ),
        ..s
    }
}

/// Add-register: 9-bit sum; the flag register reports the carry, and `V[x]`
/// keeps the low 8 bits. The flag is written first, so with `x = 0xF` the
/// sum wins.
pub open spec fn exec_add_reg(s: State) -> State {
    let sum = s.v[field_x(s.opcode) as int] + s.v[field_y(s.opcode) as int];
    State {
        v: s.v.update(15, if sum > 255 { 1u8 } else { 0u8 }).update(
            field_x(s.opcode) as int,
            (sum % 256) as u8,
        ),
        ..s
    }
}

/// Subtract: the flag register reports no-borrow (`V[x] > V[y]`), and
/// `V[x]` takes the wrapped difference.
pub open spec fn exec_sub(s: State) -> State {
    let vx = s.v[field_x(s.opcode) as int];
    let vy = s.v[field_y(s.opcode) as int];
    State {
        v: s.v.update(15, if vx > vy { 1u8 } else { 0u8 }).update(
            field_x(s.opcode) as int,
            ((vx - vy) % 256) as u8,
        ),
        ..s
    }
}

/// Shift right: the flag register takes the pre-shift low bit of `V[x]`,
/// then `V[x]` is halved.
pub open spec fn exec_shr(s: State) -> State {
    let vx = s.v[field_x(s.opcode) as int];
    State { v: s.v.update(15, vx & 1).update(field_x(s.opcode) as int, vx >> 1u8), ..s }
}

/// Reverse subtract: the flag register reports no-borrow (`V[y] > V[x]`),
/// and `V[x]` takes the wrapped difference `V[y] - V[x]`.
pub open spec fn exec_subn(s: State) -> State {
    let vx = s.v[field_x(s.opcode) as int];
    let vy = s.v[field_y(s.opcode) as int];
    State {
        v: s.v.update(15, if vy > vx { 1u8 } else { 0u8 }).update(
            field_x(s.opcode) as int,
            ((vy - vx) % 256) as u8,
        ),
        ..s
    }
}

/// Shift left: the flag register takes the pre-shift high bit (bit 7) of
/// `V[x]` — not the low bit — then `V[x]` is doubled modulo 256.
pub open spec fn exec_shl(s: State) -> State {
    let vx = s.v[field_x(s.opcode) as int];
    State {
        v: s.v.update(15, if vx & 0x80 != 0 { 1u8 } else { 0u8 }).update(
            field_x(s.opcode) as int,
            vx << 1u8,
        ),
        ..s
    }
}

/// Load-index: `I = nnn`.
pub open spec fn exec_ld_index(s: State) -> State {
    State { i: field_nnn(s.opcode) as int, ..s }
}

/// Jump-plus-V0: `pc = nnn + V[0]`.
pub open spec fn exec_jp_v0(s: State) -> State {
    State { pc: field_nnn(s.opcode) + s.v[0], ..s }
}

/// Random: `V[x] = rb & nn` for the drawn byte `rb`.
pub open spec fn exec_rnd(s: State, rb: u8) -> State {
    State { v: s.v.update(field_x(s.opcode) as int, rb & field_nn(s.opcode)), ..s }
}

/// Skip-if-key-pressed: skips when the key numbered `V[x]` is down.
pub open spec fn exec_skp(s: State) -> State {
    State {
        pc: if key_pressed(s, s.v[field_x(s.opcode) as int]) {
            s.pc + 2
        } else {
            s.pc
        },
        ..s
    }
}

/// Skip-if-key-released: skips when the key numbered `V[x]` is not down.
pub open spec fn exec_sknp(s: State) -> State {
    State {
        pc: if !key_pressed(s, s.v[field_x(s.opcode) as int]) {
            s.pc + 2
        } else {
            s.pc
        },
        ..s
    }
}

/// Load-delay: `V[x]` takes the delay timer.
pub open spec fn exec_ld_delay(s: State) -> State {
    State { v: s.v.update(field_x(s.opcode) as int, s.delay), ..s }
}

/// Wait-key: suspends instruction progression on register `x` until a fresh
/// key-press edge arrives; the program counter stays put while suspended.
pub open spec fn exec_wait_key(s: State) -> State {
    State { awaiting_key: Some(field_x(s.opcode) as u8), ..s }
}

/// Set-delay: the delay timer takes `V[x]`.
pub open spec fn exec_set_delay(s: State) -> State {
    State { delay: s.v[field_x(s.opcode) as int], ..s }
}

/// Set-sound: the sound timer takes `V[x]`.
pub open spec fn exec_set_sound(s: State) -> State {
    State { sound: s.v[field_x(s.opcode) as int], ..s }
}

/// Add-index: `I = (I + V[x]) mod 0x10000` — the index register keeps its
/// 16 bits.
pub open spec fn exec_add_index(s: State) -> State {
    State { i: (s.i + s.v[field_x(s.opcode) as int]) % 0x10000, ..s }
}

/// Index-to-glyph: `I` points at the 5-byte glyph for digit `V[x]`.
pub open spec fn exec_glyph_index(s: State) -> State {
    State { i: s.v[field_x(s.opcode) as int] * 5, ..s }
}

/// The sprite bit that byte `b` contributes to column offset `bit`:
/// column 0 is the byte's high bit.
pub open spec fn sprite_bit(b: u8, bit: int) -> u8 {
    (b >> ((7 - bit) as u8)) & 1
}

/// What the draw instruction toggles into pixel (`r`, `c`): the sprite bit
/// that wraps onto it, or 0 if none does. Screen row `r` receives sprite row
/// `b = (r - V[y]) mod 32` (when `b < n`), and column `c` receives sprite
/// column `bit = (c - V[x]) mod 64` (when `bit < 8`).
pub open spec fn draw_toggle(s: State, r: int, c: int) -> u8 {
    let vx = s.v[field_x(s.opcode) as int] as int;
    let vy = s.v[field_y(s.opcode) as int] as int;
    let n = field_n(s.opcode) as int;
    let b = (r - vy) % 32;
    let bit = (c - vx) % 64;
    if b < n && bit < 8 {
        sprite_bit(s.memory[s.i + b], bit)
    } else {
        0u8
    }
}

/// The toggles after the draw has processed sprite rows below `bmax` whole
/// and row `bmax` up to column `tmax`: the partial image the drawing loop
/// walks through.
pub open spec fn draw_toggle_part(s: State, bmax: int, tmax: int, r: int, c: int) -> u8 {
    let vx = s.v[field_x(s.opcode) as int] as int;
    let vy = s.v[field_y(s.opcode) as int] as int;
    let b = (r - vy) % 32;
    let bit = (c - vx) % 64;
    if b < bmax && bit < 8 {
        sprite_bit(s.memory[s.i + b], bit)
    } else if b == bmax && 0 <= bit < tmax {
        sprite_bit(s.memory[s.i + b], bit)
    } else {
        0u8
    }
}

/// Whether the draw toggles some pixel that was already set.
pub open spec fn draw_collision(s: State) -> bool {
    exists|r: int, c: int|
        0 <= r < 32 && 0 <= c < 64 && #[trigger] draw_toggle(s, r, c) == 1 && s.grid[r][c] == 1
}

/// Whether the partial draw up to (`bmax`, `tmax`) has toggled some pixel
/// that was already set.
pub open spec fn collision_part(s: State, bmax: int, tmax: int) -> bool {
    exists|r: int, c: int|
        0 <= r < 32 && 0 <= c < 64 && #[trigger] draw_toggle_part(s, bmax, tmax, r, c) == 1
            && s.grid[r][c] == 1
}

/// The framebuffer after the draw: every pixel XORed with its toggle.
pub open spec fn draw_grid(s: State) -> Seq<Seq<u8>> {
    Seq::new(32, |r: int| Seq::new(64, |c: int| s.grid[r][c] ^ draw_toggle(s, r, c)))
}

/// Draw: reads `n` sprite bytes at `I` and XORs them onto the screen at
/// (`V[x]`, `V[y]`), wrapping both coordinates; the flag register reports
/// whether any set pixel was toggled off. A sprite read past the end of
/// memory is a fatal fault that leaves the state unchanged.
pub open spec fn exec_drw(s: State) -> (State, Option<Chip8Error>) {
    let n = field_n(s.opcode) as int;
    if n > 0 && s.i + n > 4096 {
        (s, Some(Chip8Error::OutOfBounds))
    } else {
        (
            (State {
                grid: draw_grid(s),
                v: s.v.update(15, if draw_collision(s) { 1u8 } else { 0u8 }),
                need_redraw: true,
                ..s
            }),
            None,
        )
    }
}

/// Store-BCD: the decimal digits of `V[x]` go to memory at `I`, `I+1`,
/// `I+2`; an access past the end of memory is a fatal fault that leaves the
/// state unchanged.
pub open spec fn exec_bcd(s: State) -> (State, Option<Chip8Error>) {
    if s.i + 3 > 4096 {
        (s, Some(Chip8Error::OutOfBounds))
    } else {
        let vx = s.v[field_x(s.opcode) as int];
        (
            (State {
                memory: s.memory.update(s.i, (vx / 100) as u8).update(
                    s.i + 1,
                    ((vx / 10) % 10) as u8,
                ).update(s.i + 2, (vx % 10) as u8),
                ..s
            }),
            None,
        )
    }
}

/// Register-dump: memory at `I..=I+x` takes `V[0..=x]`; an access past the
/// end of memory is a fatal fault that leaves the state unchanged.
pub open spec fn exec_reg_dump(s: State) -> (State, Option<Chip8Error>) {
    let x = field_x(s.opcode) as int;
    if s.i + x + 1 > 4096 {
        (s, Some(Chip8Error::OutOfBounds))
    } else {
        (
            (State {
                memory: Seq::new(
                    4096,
                    |j: int| if s.i <= j <= s.i + x { s.v[j - s.i] } else { s.memory[j] },
                ),
                ..s
            }),
            None,
        )
    }
}

/// Register-load: `V[0..=x]` takes memory at `I..=I+x`; an access past the
/// end of memory is a fatal fault that leaves the state unchanged.
pub open spec fn exec_reg_load(s: State) -> (State, Option<Chip8Error>) {
    let x = field_x(s.opcode) as int;
    if s.i + x + 1 > 4096 {
        (s, Some(Chip8Error::OutOfBounds))
    } else {
        (
            (State {
                v: Seq::new(16, |j: int| if j <= x { s.memory[s.i + j] } else { s.v[j] }),
                ..s
            }),
            None,
        )
    }
}

/// The state after an optional timer tick: both counters down by one,
/// clamped at zero, everything else untouched.
pub open spec fn tick_state(s: State, tick: bool) -> State {
    if tick {
        State { delay: ticked(s.delay), sound: ticked(s.sound), ..s }
    } else {
        s
    }
}

/// The lowest key at or above `k` showing a fresh press edge (down now,
/// up in the previous snapshot), if any.
pub open spec fn first_edge_from(keys: Seq<bool>, prev: Seq<bool>, k: int) -> Option<u8>
    decreases 16 - k,
{
    if k < 0 || k >= 16 {
        None
    } else if keys[k] && !prev[k] {
        Some(k as u8)
    } else {
        first_edge_from(keys, prev, k + 1)
    }
}

/// The lowest key showing a fresh press edge, if any.
pub open spec fn first_edge(keys: Seq<bool>, prev: Seq<bool>) -> Option<u8> {
    first_edge_from(keys, prev, 0)
}

/// A suspended machine seeing the current key snapshot: on a fresh press
/// edge the key's code lands in the wait-key target register and the
/// machine resumes; otherwise nothing moves. The program counter never
/// advances here.
pub open spec fn resume_wait(s: State, t: u8) -> State {
    match first_edge(s.keys, s.prev_keys) {
        Some(k) => State { v: s.v.update(t as int, k), awaiting_key: None, ..s },
        None => s,
    }
}

/// One instruction dispatched on the already-fetched word of `s`, with `rb`
/// the byte the random instruction would draw. Unknown patterns within a
/// family are no-ops. The optional fault reports a fatal condition; the
/// state it pairs with is then unchanged.
pub open spec fn dispatch(s: State, rb: u8) -> (State, Option<Chip8Error>) {
    let w = s.opcode;
    let op = w / 0x1000;
    if op == 0 {
        if field_nn(w) == 0xE0 {
            (exec_cls(s), None)
        } else if field_nn(w) == 0xEE {
            exec_ret(s)
        } else {
            (s, None)
        }
    } else if op == 1 {
        (exec_jp(s), None)
    } else if op == 2 {
        (exec_call(s), None)
    } else if op == 3 {
        (exec_se_imm(s), None)
    } else if op == 4 {
        (exec_sne_imm(s), None)
    } else if op == 5 {
        (exec_se_reg(s), None)
    } else if op == 6 {
        (exec_ld_imm(s), None)
    } else if op == 7 {
        (exec_add_imm(s), None)
    } else if op == 8 {
        let sel = field_n(w);
        if sel == 0 {
            (exec_ld_reg(s), None)
        } else if sel == 1 {
            (exec_or(s), None)
        } else if sel == 2 {
            (exec_and(s), None)
        } else if sel == 3 {
            (exec_xor(s), None)
        } else if sel == 4 {
            (exec_add_reg(s), None)
        } else if sel == 5 {
            (exec_sub(s), None)
        } else if sel == 6 {
            (exec_shr(s), None)
        } else if sel == 7 {
            (exec_subn(s), None)
        } else if sel == 0xE {
            (exec_shl(s), None)
        } else {
            (s, None)
        }
    } else if op == 9 {
        (exec_sne_reg(s), None)
    } else if op == 0xA {
        (exec_ld_index(s), None)
    } else if op == 0xB {
        (exec_jp_v0(s), None)
    } else if op == 0xC {
        (exec_rnd(s, rb), None)
    } else if op == 0xD {
        exec_drw(s)
    } else if op == 0xE {
        if field_nn(w) == 0x9E {
            (exec_skp(s), None)
        } else if field_nn(w) == 0xA1 {
            (exec_sknp(s), None)
        } else {
            (s, None)
        }
    } else {
        let sel = field_nn(w);
        if sel == 0x07 {
            (exec_ld_delay(s), None)
        } else if sel == 0x0A {
            (exec_wait_key(s), None)
        } else if sel == 0x15 {
            (exec_set_delay(s), None)
        } else if sel == 0x18 {
            (exec_set_sound(s), None)
        } else if sel == 0x1E {
            (exec_add_index(s), None)
        } else if sel == 0x29 {
            (exec_glyph_index(s), None)
        } else if sel == 0x33 {
            exec_bcd(s)
        } else if sel == 0x55 {
            exec_reg_dump(s)
        } else if sel == 0x65 {
            exec_reg_load(s)
        } else {
            (s, None)
        }
    }
}

/// One whole interpreter cycle as a mathematical function: the optional
/// timer tick, then either the wait-key resume, a graceful halt when the
/// fetch would run past the end of memory, or fetch-decode-execute of one
/// instruction. `rb` stands for the byte the random instruction would draw
/// this cycle. On a fault the fetch and advance have happened, the
/// instruction's effect has not.
pub open spec fn spec_step(s: State, tick: bool, rb: u8) -> (State, StepOutcome) {
    let s1 = tick_state(s, tick);
    match s.awaiting_key {
        Some(t) => (resume_wait(s1, t), StepOutcome::Continued { redraw: false }),
        None => {
            if s.pc + 1 >= 4096 {
                (s1, StepOutcome::Halted)
            } else {
                let w = (s.memory[s.pc] * 0x100 + s.memory[s.pc + 1]) as u16;
                let s2 = State { opcode: w, pc: s.pc + 2, ..s1 };
                let s3 = dispatch(s2, rb).0;
                match dispatch(s2, rb).1 {
                    Some(e) => (s3, StepOutcome::Faulted(e)),
                    None => (s3, StepOutcome::Continued { redraw: s3.need_redraw }),
                }
            }
        },
    }
}

/// One-bit facts about the byte operations the framebuffer logic rests on.
proof fn lemma_bit_basics()
    ensures
        forall|a: u8| #[trigger] (a ^ 0u8) == a,
        forall|a: u8, b: u8| a <= 1 && b <= 1 ==> #[trigger] (a ^ b) <= 1,
        forall|a: u8, b: u8| #[trigger] ((a ^ b) ^ b) == a,
        forall|a: u8| #[trigger] (a & 1u8) <= 1,
        forall|a: u8, b: u8| a <= 1 && b <= 1 ==> #[trigger] (a | b) <= 1,
        forall|a: u8, b: u8|
            a <= 1 && b <= 1 ==> ((#[trigger] (a | b)) == 1 <==> (a == 1 || b == 1)),
        forall|a: u8, b: u8| a <= 1 && b <= 1 ==> #[trigger] (a & b) <= 1,
        forall|a: u8, b: u8|
            a <= 1 && b <= 1 ==> ((#[trigger] (a & b)) == 1 <==> (a == 1 && b == 1)),
{
    assert(forall|a: u8| #[trigger] (a ^ 0u8) == a) by (bit_vector);
    assert(forall|a: u8, b: u8| a <= 1 && b <= 1 ==> #[trigger] (a ^ b) <= 1) by (bit_vector);
    assert(forall|a: u8, b: u8| #[trigger] ((a ^ b) ^ b) == a) by (bit_vector);
    assert(forall|a: u8| #[trigger] (a & 1u8) <= 1) by (bit_vector);
    assert(forall|a: u8, b: u8| a <= 1 && b <= 1 ==> #[trigger] (a | b) <= 1) by (bit_vector);
    assert(forall|a: u8, b: u8|
        a <= 1 && b <= 1 ==> ((#[trigger] (a | b)) == 1 <==> (a == 1 || b == 1))) by (bit_vector);
    assert(forall|a: u8, b: u8| a <= 1 && b <= 1 ==> #[trigger] (a & b) <= 1) by (bit_vector);
    assert(forall|a: u8, b: u8|
        a <= 1 && b <= 1 ==> ((#[trigger] (a & b)) == 1 <==> (a == 1 && b == 1))) by (bit_vector);
}

/// Stepping `t` cells forward from `k` on the ring of `m` cells lands on a
/// cell whose offset back to `k` is `t` again.
proof fn lemma_wrap_diff(k: int, t: int, m: int)
    requires
        0 < m,
        0 <= t < m,
        0 <= k,
    ensures
        ((k + t) % m - k) % m == t,
{
    let q = (k + t) / m;
    vstd::arithmetic::div_mod::lemma_fundamental_div_mod(k + t, m);
    assert((k + t) % m - k == m * (-q) + t) by {
        assert(m * (-q) == -(m * q)) by (nonlinear_arith);
    }
    vstd::arithmetic::div_mod::lemma_mod_multiples_vanish(-q, t, m);
    vstd::arithmetic::div_mod::lemma_small_mod(t as nat, m as nat);
}

/// A ring cell is recovered from its offset: adding `(r - k) mod m` to `k`
/// leads back to `r`.
proof fn lemma_wrap_member(k: int, r: int, m: int)
    requires
        0 < m,
        0 <= r < m,
        0 <= k,
    ensures
        (k + ((r - k) % m)) % m == r,
{
    let q = (r - k) / m;
    vstd::arithmetic::div_mod::lemma_fundamental_div_mod(r - k, m);
    assert(k + ((r - k) % m) == m * (-q) + r) by {
        assert(m * (-q) == -(m * q)) by (nonlinear_arith);
    }
    vstd::arithmetic::div_mod::lemma_mod_multiples_vanish(-q, r, m);
    vstd::arithmetic::div_mod::lemma_small_mod(r as nat, m as nat);
}

/// Folds a transition's optional fault into the result its method returns.
pub open spec fn fault_result(e: Option<Chip8Error>) -> Result<(), Chip8Error> {
    match e {
        Some(err) => Err(err),
        None => Ok(()),
    }
}

/// Builds a byte vector of `n` zeroes.
fn zero_bytes(n: usize) -> (r: Vec<u8>)
    ensures
        r@ == Seq::new(n as nat, |j: int| 0u8),
{
    let mut f: Vec<u8> = Vec::new();
    while f.len() < n
        invariant
            f@.len() <= n,
            forall|j: int| 0 <= j < f@.len() ==> #[trigger] f@[j] == 0u8,
        decreases n - f.len(),
    {
        f.push(0u8);
    }
    proof {
        assert(f@ =~= Seq::new(n as nat, |j: int| 0u8));
    }
    f
}

/// Builds a flag vector of `n` `false` entries.
fn false_flags(n: usize) -> (r: Vec<bool>)
    ensures
        r@ == Seq::new(n as nat, |j: int| false),
{
    let mut f: Vec<bool> = Vec::new();
    while f.len() < n
        invariant
            f@.len() <= n,
            forall|j: int| 0 <= j < f@.len() ==> #[trigger] f@[j] == false,
        decreases n - f.len(),
    {
        f.push(false);
    }
    proof {
        assert(f@ =~= Seq::new(n as nat, |j: int| false));
    }
    f
}

impl Chip8 {
    /// The machine's mathematical image.
    pub closed spec fn abs(&self) -> State {
        State {
            memory: self.memory@,
            pc: self.pc as int,
            opcode: self.opcode@,
            stack: self.stack@,
            v: self.v@,
            grid: self.screen.grid(),
            i: self.i as int,
            delay: self.timers.delay,
            sound: self.timers.sound,
            keys: self.keys@,
            prev_keys: self.prev_keys@,
            awaiting_key: self.awaiting_key,
            need_redraw: self.need_redraw,
        }
    }

    /// Well-formedness of the machine.
    pub open spec fn wf(&self) -> bool {
        wf_state(self.abs())
    }

    /// A zeroed machine: font pre-loaded into the glyph region, the program
    /// counter at the 0x200 load base, everything else clear.
    pub fn new() -> (r: Self)
        ensures
            r.wf(),
            r.abs() == initial_state(),
    {
        let mut memory = zero_bytes(4096);
        load_font(&mut memory);
        let pc: usize = 0x200;
        let opcode = Opcode::new();
        let stack = Stack::new();
        let v = zero_bytes(16);
        let screen = Screen::new();
        let i: usize = 0;
        let rng = new_rng();
        let timers = Timers::new();
        let keys = false_flags(16);
        let prev_keys = false_flags(16);
        let awaiting_key: Option<u8> = None;
        let need_redraw = false;

        let r = Self {
            memory,
            pc,
            opcode,
            stack,
            v,
            screen,
            i,
            rng,
            timers,
            keys,
            prev_keys,
            awaiting_key,
            need_redraw,
        };
        proof {
            assert(r.abs().memory =~= initial_memory());
            assert(r.abs() =~~= initial_state());
        }
        r
    }

    /// Copies a program image into memory starting at the 0x200 load base.
    /// An image that would extend past the end of memory is rejected whole.
    pub fn load_from_vec(&mut self, program: &Vec<u8>) -> (r: Result<(), Chip8Error>)
        requires
            old(self).wf(),
        ensures
            final(self).wf(),
            program@.len() <= 4096 - 0x200 ==> r == Result::<(), Chip8Error>::Ok(())
                && final(self).abs() == (State {
                memory: Seq::new(
                    4096,
                    |j: int|
                        if 0x200 <= j < 0x200 + program@.len() {
                            program@[j - 0x200]
                        } else {
                            old(self).abs().memory[j]
                        },
                ),
                ..old(self).abs()
            }),
            program@.len() > 4096 - 0x200 ==> r == Result::<(), Chip8Error>::Err(
                Chip8Error::ProgramTooLarge,
            ) && final(self).abs() == old(self).abs(),
    {
        if program.len() > 4096 - 0x200 {
            return Err(Chip8Error::ProgramTooLarge);
        }
        let mut k: usize = 0;
        while k < program.len()
            invariant
                self.memory@.len() == 4096,
                program@.len() <= 4096 - 0x200,
                k <= program@.len(),
                forall|j: int|
                    0x200 <= j < 0x200 + k ==> #[trigger] self.memory@[j] == program@[j - 0x200],
                forall|j: int|
                    (0 <= j < 0x200 || 0x200 + k <= j < 4096) ==> #[trigger] self.memory@[j] == old(
                        self,
                    ).memory@[j],
                self.pc == old(self).pc,
                self.opcode == old(self).opcode,
                self.stack == old(self).stack,
                self.v == old(self).v,
                self.screen == old(self).screen,
                self.i == old(self).i,
                self.timers == old(self).timers,
                self.keys == old(self).keys,
                self.prev_keys == old(self).prev_keys,
                self.awaiting_key == old(self).awaiting_key,
                self.need_redraw == old(self).need_redraw,
            decreases program@.len() - k,
        {
            self.memory[0x200 + k] = program[k];
            k = k + 1;
        }
        proof {
            assert(self.abs().memory =~= Seq::new(
                4096,
                |j: int|
                    if 0x200 <= j < 0x200 + program@.len() {
                        program@[j - 0x200]
                    } else {
                        old(self).abs().memory[j]
                    },
            ));
            assert(self.abs() =~~= (State {
                memory: self.abs().memory,
                ..old(self).abs()
            }));
        }
        Ok(())
    }

    /// Clear the display.
    pub fn cls_00e0(&mut self)
        requires
            old(self).wf(),
        ensures
            final(self).wf(),
            final(self).abs() == exec_cls(old(self).abs()),
    {
        self.screen.clear();
        self.need_redraw = true;
        proof {
            assert(self.abs() =~~= exec_cls(old(self).abs()));
        }
    }

    /// Return from a subroutine: the program counter takes the address at
    /// the top of the stack. An empty stack is a fatal underflow.
    pub fn ret_00ee(&mut self) -> (r: Result<(), Chip8Error>)
        requires
            old(self).wf(),
        ensures
            final(self).wf(),
            final(self).abs() == exec_ret(old(self).abs()).0,
            r == fault_result(exec_ret(old(self).abs()).1),
    {
        let popped = self.stack.ret();
        match popped {
            Ok(a) => {
                self.pc = a;
                proof {
                    assert(self.abs() =~~= exec_ret(old(self).abs()).0);
                }
                Ok(())
            },
            Err(e) => {
                proof {
                    assert(self.abs() =~~= exec_ret(old(self).abs()).0);
                }
                Err(e)
            },
        }
    }

    /// Jump to address `nnn`.
    pub fn jp_1nnn(&mut self)
        requires
            old(self).wf(),
        ensures
            final(self).wf(),
            final(self).abs() == exec_jp(old(self).abs()),
    {
        self.pc = self.opcode.nnn();
        proof {
            assert(self.abs() =~~= exec_jp(old(self).abs()));
        }
    }

    /// Call the subroutine at `nnn`: the current program counter goes on the
    /// stack, then the jump.
    pub fn call_2nnn(&mut self)
        requires
            old(self).wf(),
        ensures
            final(self).wf(),
            final(self).abs() == exec_call(old(self).abs()),
    {
        self.stack.push(self.pc);

        let nnn = self.opcode.nnn();
        self.pc = nnn;
        proof {
            assert(self.abs() =~~= exec_call(old(self).abs()));
        }
    }

    /// Skip the next instruction if `V[x] == nn`.
    pub fn se_3xnn(&mut self)
        requires
            old(self).wf(),
            old(self).abs().pc + 2 <= usize::MAX,
        ensures
            final(self).wf(),
            final(self).abs() == exec_se_imm(old(self).abs()),
    {
        let x = self.opcode.x();
        let vx = self.v[x];
        let nn = self.opcode.nn();

        if vx == nn {
            self.pc += 2;
        }
        proof {
            assert(self.abs() =~~= exec_se_imm(old(self).abs()));
        }
    }

    /// Skip the next instruction if `V[x] != nn`.
    pub fn sne_4xnn(&mut self)
        requires
            old(self).wf(),
            old(self).abs().pc + 2 <= usize::MAX,
        ensures
            final(self).wf(),
            final(self).abs() == exec_sne_imm(old(self).abs()),
    {
        let x = self.opcode.x();
        let vx = self.v[x];
        let nn = self.opcode.nn();

        if vx != nn {
            self.pc += 2;
        }
        proof {
            assert(self.abs() =~~= exec_sne_imm(old(self).abs()));
        }
    }

    /// Skip the next instruction if `V[x] == V[y]`.
    pub fn se_5xy0(&mut self)
        requires
            old(self).wf(),
            old(self).abs().pc + 2 <= usize::MAX,
        ensures
            final(self).wf(),
            final(self).abs() == exec_se_reg(old(self).abs()),
    {
        let x = self.opcode.x();
        let vx = self.v[x];
        let y = self.opcode.y();
        let vy = self.v[y];

        if vx == vy {
            self.pc += 2;
        }
        proof {
            assert(self.abs() =~~= exec_se_reg(old(self).abs()));
        }
    }

    /// Load immediate: `V[x] = nn`.
    pub fn ld_6xnn(&mut self)
        requires
            old(self).wf(),
        ensures
            final(self).wf(),
            final(self).abs() == exec_ld_imm(old(self).abs()),
    {
        let x = self.opcode.x();
        let nn = self.opcode.nn();
        self.v[x] = nn;
        proof {
            assert(self.abs() =~~= exec_ld_imm(old(self).abs()));
        }
    }

    /// Add immediate: `V[x] = (V[x] + nn) mod 256`, wrapping, no flag.
    pub fn add_7xnn(&mut self)
        requires
            old(self).wf(),
        ensures
            final(self).wf(),
            final(self).abs() == exec_add_imm(old(self).abs()),
    {
        let x = self.opcode.x();
        let vx = self.v[x];
        let nn = self.opcode.nn();

        let sum = (vx as u16) + (nn as u16);
        self.v[x] = (sum % 256) as u8;
        proof {
            assert(self.abs() =~~= exec_add_imm(old(self).abs()));
        }
    }

    /// Load register: `V[x] = V[y]`.
    pub fn ld_8xy0(&mut self)
        requires
            old(self).wf(),
        ensures
            final(self).wf(),
            final(self).abs() == exec_ld_reg(old(self).abs()),
    {
        let x = self.opcode.x();
        let y = self.opcode.y();
        let vy = self.v[y];

        self.v[x] = vy;
        proof {
            assert(self.abs() =~~= exec_ld_reg(old(self).abs()));
        }
    }

    /// Bitwise or: `V[x] |= V[y]`.
    pub fn or_8xy1(&mut self)
        requires
            old(self).wf(),
        ensures
            final(self).wf(),
            final(self).abs() == exec_or(old(self).abs()),
    {
        let x = self.opcode.x();
        let vx = self.v[x];
        let y = self.opcode.y();
        let vy = self.v[y];

        self.v[x] = vx | vy;
        proof {
            assert(self.abs() =~~= exec_or(old(self).abs()));
        }
    }

    /// Bitwise and: `V[x] &= V[y]`.
    pub fn and_8xy2(&mut self)
        requires
            old(self).wf(),
        ensures
            final(self).wf(),
            final(self).abs() == exec_and(old(self).abs()),
    {
        let x = self.opcode.x();
        let vx = self.v[x];
        let y = self.opcode.y();
        let vy = self.v[y];

        self.v[x] = vx & vy;
        proof {
            assert(self.abs() =~~= exec_and(old(self).abs()));
        }
    }

    /// Bitwise xor: `V[x] ^= V[y]`.
    pub fn xor_8xy3(&mut self)
        requires
            old(self).wf(),
        ensures
            final(self).wf(),
            final(self).abs() == exec_xor(old(self).abs()),
    {
        let x = self.opcode.x();
        let vx = self.v[x];
        let y = self.opcode.y();
        let vy = self.v[y];

        self.v[x] = vx ^ vy;
        proof {
            assert(self.abs() =~~= exec_xor(old(self).abs()));
        }
    }

    /// Add registers: 9-bit sum, carry into the flag register, low 8 bits
    /// into `V[x]`.
    pub fn add_8xy4(&mut self)
        requires
            old(self).wf(),
        ensures
            final(self).wf(),
            final(self).abs() == exec_add_reg(old(self).abs()),
    {
        let x = self.opcode.x();
        let vx = self.v[x];
        let y = self.opcode.y();
        let vy = self.v[y];

        let result = (vx as u16) + (vy as u16);

        self.v[0xF] = if result > 255 {
            1
        } else {
            0
        };

        self.v[x] = (result % 256) as u8;
        proof {
            assert(self.abs() =~~= exec_add_reg(old(self).abs()));
        }
    }

    /// Subtract: no-borrow flag, then `V[x] = V[x] - V[y]` wrapping.
    pub fn sub_8xy5(&mut self)
        requires
            old(self).wf(),
        ensures
            final(self).wf(),
            final(self).abs() == exec_sub(old(self).abs()),
    {
        let x = self.opcode.x();
        let vx = self.v[x];
        let y = self.opcode.y();
        let vy = self.v[y];

        self.v[0xF] = if vx > vy {
            1
        } else {
            0
        };

        self.v[x] = vx.wrapping_sub(vy);
        proof {
            assert(self.abs() =~~= exec_sub(old(self).abs()));
        }
    }

    /// Shift right: the flag register takes the pre-shift low bit, then
    /// `V[x]` is halved.
    pub fn shr_8xy6(&mut self)
        requires
            old(self).wf(),
        ensures
            final(self).wf(),
            final(self).abs() == exec_shr(old(self).abs()),
    {
        let x = self.opcode.x();
        let vx = self.v[x];

        self.v[0xF] = vx & 0x1;

        self.v[x] = vx >> 1;
        proof {
            assert(self.abs() =~~= exec_shr(old(self).abs()));
        }
    }

    /// Reverse subtract: no-borrow flag, then `V[x] = V[y] - V[x]` wrapping.
    pub fn subn_8xy7(&mut self)
        requires
            old(self).wf(),
        ensures
            final(self).wf(),
            final(self).abs() == exec_subn(old(self).abs()),
    {
        let x = self.opcode.x();
        let vx = self.v[x];
        let y = self.opcode.y();
        let vy = self.v[y];

        self.v[0xF] = if vy > vx {
            1
        } else {
            0
        };

        self.v[x] = vy.wrapping_sub(vx);
        proof {
            assert(self.abs() =~~= exec_subn(old(self).abs()));
        }
    }

    /// Shift left: the flag register takes the pre-shift high bit (bit 7),
    /// then `V[x]` is doubled modulo 256.
    pub fn shl_8x0e(&mut self)
        requires
            old(self).wf(),
        ensures
            final(self).wf(),
            final(self).abs() == exec_shl(old(self).abs()),
    {
        let x = self.opcode.x();
        let vx = self.v[x];

        self.v[0xF] = if vx & 0x80 != 0 {
            1
        } else {
            0
        };

        self.v[x] = vx << 1;
        proof {
            assert(self.abs() =~~= exec_shl(old(self).abs()));
        }
    }

    /// Skip the next instruction if `V[x] != V[y]`.
    pub fn sne_9xy0(&mut self)
        requires
            old(self).wf(),
            old(self).abs().pc + 2 <= usize::MAX,
        ensures
            final(self).wf(),
            final(self).abs() == exec_sne_reg(old(self).abs()),
    {
        let x = self.opcode.x();
        let vx = self.v[x];
        let y = self.opcode.y();
        let vy = self.v[y];

        if vx != vy {
            self.pc += 2;
        }
        proof {
            assert(self.abs() =~~= exec_sne_reg(old(self).abs()));
        }
    }

    /// Load index: `I = nnn`.
    pub fn ld_annn(&mut self)
        requires
            old(self).wf(),
        ensures
            final(self).wf(),
            final(self).abs() == exec_ld_index(old(self).abs()),
    {
        let nnn = self.opcode.nnn();

        self.i = nnn;
        proof {
            assert(self.abs() =~~= exec_ld_index(old(self).abs()));
        }
    }

    /// Jump to `nnn + V[0]`.
    pub fn jp_bnnn(&mut self)
        requires
            old(self).wf(),
        ensures
            final(self).wf(),
            final(self).abs() == exec_jp_v0(old(self).abs()),
    {
        let nnn = self.opcode.nnn();
        let v0 = self.v[0] as usize;

        self.pc = nnn + v0;
        proof {
            assert(self.abs() =~~= exec_jp_v0(old(self).abs()));
        }
    }

    /// Random: `V[x]` takes a fresh random byte masked with `nn`. Nothing is
    /// assumed about the byte: the contract holds for every outcome.
    pub fn rnd_cxnn(&mut self)
        requires
            old(self).wf(),
        ensures
            final(self).wf(),
            exists|rb: u8| final(self).abs() == #[trigger] exec_rnd(old(self).abs(), rb),
    {
        let x = self.opcode.x();
        let nn = self.opcode.nn();
        let rn = draw_byte(&mut self.rng);

        self.v[x] = rn & nn;
        proof {
            assert(self.abs() =~~= exec_rnd(old(self).abs(), rn));
        }
    }

    /// Skip the next instruction if the key numbered `V[x]` is pressed.
    pub fn skp_ex9e(&mut self)
        requires
            old(self).wf(),
            old(self).abs().pc + 2 <= usize::MAX,
        ensures
            final(self).wf(),
            final(self).abs() == exec_skp(old(self).abs()),
    {
        let x = self.opcode.x();
        let vx = self.v[x];

        let pressed = (vx as usize) < 16 && self.keys[vx as usize];
        if pressed {
            self.pc += 2;
        }
        proof {
            assert(self.abs() =~~= exec_skp(old(self).abs()));
        }
    }

    /// Skip the next instruction if the key numbered `V[x]` is not pressed.
    pub fn sknp_exa1(&mut self)
        requires
            old(self).wf(),
            old(self).abs().pc + 2 <= usize::MAX,
        ensures
            final(self).wf(),
            final(self).abs() == exec_sknp(old(self).abs()),
    {
        let x = self.opcode.x();
        let vx = self.v[x];

        let pressed = (vx as usize) < 16 && self.keys[vx as usize];
        if !pressed {
            self.pc += 2;
        }
        proof {
            assert(self.abs() =~~= exec_sknp(old(self).abs()));
        }
    }

    /// Load delay: `V[x]` takes the delay timer.
    pub fn ld_fx07(&mut self)
        requires
            old(self).wf(),
        ensures
            final(self).wf(),
            final(self).abs() == exec_ld_delay(old(self).abs()),
    {
        let x = self.opcode.x();

        self.v[x] = self.timers.delay();
        proof {
            assert(self.abs() =~~= exec_ld_delay(old(self).abs()));
        }
    }

    /// Wait for a key press: suspends instruction progression on register
    /// `x`; the cycle function resumes the machine on the next fresh
    /// key-press edge and stores the key's code there.
    pub fn ld_fx0a(&mut self)
        requires
            old(self).wf(),
        ensures
            final(self).wf(),
            final(self).abs() == exec_wait_key(old(self).abs()),
    {
        let x = self.opcode.x();

        self.awaiting_key = Some(x as u8);
        proof {
            assert(self.abs() =~~= exec_wait_key(old(self).abs()));
        }
    }

    /// Set delay timer from `V[x]`.
    pub fn ld_fx15(&mut self)
        requires
            old(self).wf(),
        ensures
            final(self).wf(),
            final(self).abs() == exec_set_delay(old(self).abs()),
    {
        let x = self.opcode.x();
        let vx = self.v[x];

        self.timers.set_delay(vx);
        proof {
            assert(self.abs() =~~= exec_set_delay(old(self).abs()));
        }
    }

    /// Set sound timer from `V[x]`.
    pub fn ld_fx18(&mut self)
        requires
            old(self).wf(),
        ensures
            final(self).wf(),
            final(self).abs() == exec_set_sound(old(self).abs()),
    {
        let x = self.opcode.x();
        let vx = self.v[x];

        self.timers.set_sound(vx);
        proof {
            assert(self.abs() =~~= exec_set_sound(old(self).abs()));
        }
    }

    /// Add to index: `I = (I + V[x]) mod 0x10000`.
    pub fn add_fx1e(&mut self)
        requires
            old(self).wf(),
        ensures
            final(self).wf(),
            final(self).abs() == exec_add_index(old(self).abs()),
    {
        let x = self.opcode.x();
        let vx = self.v[x] as usize;

        self.i = (self.i + vx) % 0x10000;
        proof {
            assert(self.abs() =~~= exec_add_index(old(self).abs()));
        }
    }

    /// Point the index register at the glyph for digit `V[x]`.
    pub fn ld_fx29(&mut self)
        requires
            old(self).wf(),
        ensures
            final(self).wf(),
            final(self).abs() == exec_glyph_index(old(self).abs()),
    {
        let x = self.opcode.x();
        let vx = self.v[x] as usize;

        self.i = vx * 5;
        proof {
            assert(self.abs() =~~= exec_glyph_index(old(self).abs()));
        }
    }

    /// Draw an `n`-row sprite from memory at `I` onto the screen at
    /// (`V[x]`, `V[y]`), XORing pixels and wrapping both coordinates; the
    /// flag register reports whether any set pixel was toggled off.
    pub fn drw_dxyn(&mut self) -> (r: Result<(), Chip8Error>)
        requires
            old(self).wf(),
        ensures
            final(self).wf(),
            final(self).abs() == exec_drw(old(self).abs()).0,
            r == fault_result(exec_drw(old(self).abs()).1),
    {
        let ghost s0 = old(self).abs();
        let x = self.opcode.x();
        let y = self.opcode.y();
        let n = self.opcode.n() as usize;

        if n > 0 && self.i + n > 4096 {
            return Err(Chip8Error::OutOfBounds);
        }

        let vx = self.v[x] as usize;
        let vy = self.v[y] as usize;

        proof {
            lemma_bit_basics();
            assert forall|rr: int, cc: int| 0 <= rr < 32 && 0 <= cc < 64 implies #[trigger] draw_toggle_part(
                s0,
                0,
                0,
                rr,
                cc,
            ) == 0u8 by {}
        }

        let mut collided: u8 = 0;
        let mut byte: usize = 0;
        while byte < n
            invariant
                wf_state(s0),
                s0 == old(self).abs(),
                n == field_n(s0.opcode),
                n < 16,
                n > 0 ==> s0.i + n <= 4096,
                byte <= n,
                vx == s0.v[field_x(s0.opcode) as int] as usize,
                vx < 256,
                vy == s0.v[field_y(s0.opcode) as int] as usize,
                vy < 256,
                self.memory@ == s0.memory,
                self.pc == s0.pc,
                self.opcode@ == s0.opcode,
                self.stack@ == s0.stack,
                self.v@ == s0.v,
                self.i == s0.i,
                self.timers.delay == s0.delay,
                self.timers.sound == s0.sound,
                self.keys@ == s0.keys,
                self.prev_keys@ == s0.prev_keys,
                self.awaiting_key == s0.awaiting_key,
                self.need_redraw == s0.need_redraw,
                self.screen.wf(),
                forall|rr: int, cc: int|
                    0 <= rr < 32 && 0 <= cc < 64 ==> self.screen.grid()[rr][cc] == (
                    s0.grid[rr][cc] ^ #[trigger] draw_toggle_part(s0, byte as int, 0, rr, cc)),
                collided <= 1,
                (collided == 1) <==> collision_part(s0, byte as int, 0),
            decreases n - byte,
        {
            let row = (vy + byte) % 32;
            let sprite = self.memory[self.i + byte];
            let mut bit: usize = 0;
            while bit < 8
                invariant
                    wf_state(s0),
                    s0 == old(self).abs(),
                    n == field_n(s0.opcode),
                    n < 16,
                    n > 0 ==> s0.i + n <= 4096,
                    byte < n,
                    bit <= 8,
                    vx == s0.v[field_x(s0.opcode) as int] as usize,
                    vx < 256,
                    vy == s0.v[field_y(s0.opcode) as int] as usize,
                    vy < 256,
                    row == (vy + byte) % 32,
                    sprite == s0.memory[s0.i + byte],
                    self.memory@ == s0.memory,
                    self.pc == s0.pc,
                    self.opcode@ == s0.opcode,
                    self.stack@ == s0.stack,
                    self.v@ == s0.v,
                    self.i == s0.i,
                    self.timers.delay == s0.delay,
                    self.timers.sound == s0.sound,
                    self.keys@ == s0.keys,
                    self.prev_keys@ == s0.prev_keys,
                    self.awaiting_key == s0.awaiting_key,
                    self.need_redraw == s0.need_redraw,
                    self.screen.wf(),
                    forall|rr: int, cc: int|
                        0 <= rr < 32 && 0 <= cc < 64 ==> self.screen.grid()[rr][cc] == (
                        s0.grid[rr][cc] ^ #[trigger] draw_toggle_part(
                            s0,
                            byte as int,
                            bit as int,
                            rr,
                            cc,
                        )),
                    collided <= 1,
                    (collided == 1) <==> collision_part(s0, byte as int, bit as int),
                decreases 8 - bit,
            {
                let col = (vx + bit) % 64;
                proof {
                    lemma_bit_basics();
                    lemma_wrap_diff(vy as int, byte as int, 32);
                    lemma_wrap_diff(vx as int, bit as int, 64);
                    assert(self.screen.vram@[row as int].deep_view() == self.screen.grid()[
                        row as int
                    ]);
                }
                let prior = self.screen.vram[row][col];
                let pix = (sprite >> ((7 - bit) as u8)) & 1;
                let ghost grid_b = self.screen.grid();
                proof {
                    assert(prior == grid_b[row as int][col as int]);
                    assert(draw_toggle_part(s0, byte as int, bit as int, row as int, col as int)
                        == 0u8);
                    assert(prior == s0.grid[row as int][col as int]);
                    assert(pix == sprite_bit(s0.memory[s0.i + byte], bit as int));
                }
                collided = collided | (pix & prior);
                self.screen.set_xy(col, row, pix);
                proof {
                    assert forall|rr: int, cc: int| 0 <= rr < 32 && 0 <= cc < 64 implies self.screen.grid()[rr][cc]
                        == (s0.grid[rr][cc] ^ #[trigger] draw_toggle_part(
                        s0,
                        byte as int,
                        bit as int + 1,
                        rr,
                        cc,
                    )) by {
                        lemma_wrap_member(vy as int, rr, 32);
                        lemma_wrap_member(vx as int, cc, 64);
                        if rr == row as int && cc == col as int {
                            assert(self.screen.grid()[rr][cc] == prior ^ pix);
                        } else {
                            assert(self.screen.grid()[rr][cc] == grid_b[rr][cc]);
                            assert(draw_toggle_part(s0, byte as int, bit as int + 1, rr, cc)
                                == draw_toggle_part(s0, byte as int, bit as int, rr, cc));
                        }
                    }
                    // the collision flag accumulates exactly the partial collision
                    if collided == 1 {
                        if collision_part(s0, byte as int, bit as int) {
                            let (r0, c0) = choose|r0: int, c0: int|
                                0 <= r0 < 32 && 0 <= c0 < 64 && #[trigger] draw_toggle_part(
                                    s0,
                                    byte as int,
                                    bit as int,
                                    r0,
                                    c0,
                                ) == 1 && s0.grid[r0][c0] == 1;
                            assert(draw_toggle_part(s0, byte as int, bit as int + 1, r0, c0) == 1);
                            assert(collision_part(s0, byte as int, bit as int + 1));
                        } else {
                            assert(pix == 1 && prior == 1);
                            assert(draw_toggle_part(
                                s0,
                                byte as int,
                                bit as int + 1,
                                row as int,
                                col as int,
                            ) == 1);
                            assert(collision_part(s0, byte as int, bit as int + 1));
                        }
                    } else {
                        assert(!collision_part(s0, byte as int, bit as int));
                        assert(pix & prior != 1);
                        assert forall|r0: int, c0: int|
                            0 <= r0 < 32 && 0 <= c0 < 64 && #[trigger] draw_toggle_part(
                                s0,
                                byte as int,
                                bit as int + 1,
                                r0,
                                c0,
                            ) == 1 implies !(s0.grid[r0][c0] == 1) by {
                            lemma_wrap_member(vy as int, r0, 32);
                            lemma_wrap_member(vx as int, c0, 64);
                            if r0 == row as int && c0 == col as int {
                                assert(pix == 1);
                                assert(!(prior == 1));
                            } else {
                                assert(draw_toggle_part(s0, byte as int, bit as int, r0, c0) == 1);
                            }
                        }
                        assert(!collision_part(s0, byte as int, bit as int + 1));
                    }
                }
                bit = bit + 1;
            }
            proof {
                assert(forall|rr: int, cc: int|
                    #![trigger draw_toggle_part(s0, byte as int, 8, rr, cc)]
                    #![trigger draw_toggle_part(s0, byte as int + 1, 0, rr, cc)]
                    0 <= rr < 32 && 0 <= cc < 64 ==> draw_toggle_part(s0, byte as int, 8, rr, cc)
                        == draw_toggle_part(s0, byte as int + 1, 0, rr, cc));
                if collision_part(s0, byte as int, 8) {
                    let (r0, c0) = choose|r0: int, c0: int|
                        0 <= r0 < 32 && 0 <= c0 < 64 && #[trigger] draw_toggle_part(
                            s0,
                            byte as int,
                            8,
                            r0,
                            c0,
                        ) == 1 && s0.grid[r0][c0] == 1;
                    assert(draw_toggle_part(s0, byte as int + 1, 0, r0, c0) == 1);
                    assert(collision_part(s0, byte as int + 1, 0));
                }
                if collision_part(s0, byte as int + 1, 0) {
                    let (r0, c0) = choose|r0: int, c0: int|
                        0 <= r0 < 32 && 0 <= c0 < 64 && #[trigger] draw_toggle_part(
                            s0,
                            byte as int + 1,
                            0,
                            r0,
                            c0,
                        ) == 1 && s0.grid[r0][c0] == 1;
                    assert(draw_toggle_part(s0, byte as int, 8, r0, c0) == 1);
                    assert(collision_part(s0, byte as int, 8));
                }
            }
            byte = byte + 1;
        }
        proof {
            lemma_bit_basics();
            assert(forall|rr: int, cc: int|
                #![trigger draw_toggle_part(s0, n as int, 0, rr, cc)]
                #![trigger draw_toggle(s0, rr, cc)]
                0 <= rr < 32 && 0 <= cc < 64 ==> draw_toggle_part(s0, n as int, 0, rr, cc)
                    == draw_toggle(s0, rr, cc));
            if collision_part(s0, n as int, 0) {
                let (r0, c0) = choose|r0: int, c0: int|
                    0 <= r0 < 32 && 0 <= c0 < 64 && #[trigger] draw_toggle_part(
                        s0,
                        n as int,
                        0,
                        r0,
                        c0,
                    ) == 1 && s0.grid[r0][c0] == 1;
                assert(draw_toggle(s0, r0, c0) == 1);
                assert(draw_collision(s0));
            }
            if draw_collision(s0) {
                let (r0, c0) = choose|r0: int, c0: int|
                    0 <= r0 < 32 && 0 <= c0 < 64 && #[trigger] draw_toggle(s0, r0, c0) == 1
                        && s0.grid[r0][c0] == 1;
                assert(draw_toggle_part(s0, n as int, 0, r0, c0) == 1);
                assert(collision_part(s0, n as int, 0));
            }
        }
        self.v[0xF] = if collided == 1 {
            1
        } else {
            0
        };
        self.need_redraw = true;
        proof {
            assert forall|rr: int| 0 <= rr < 32 implies self.screen.grid()[rr] =~= draw_grid(s0)[rr] by {
                assert forall|cc: int| 0 <= cc < 64 implies self.screen.grid()[rr][cc] == draw_grid(
                    s0,
                )[rr][cc] by {
                    assert(draw_toggle_part(s0, n as int, 0, rr, cc) == draw_toggle(s0, rr, cc));
                }
            }
            assert(self.screen.grid() =~= draw_grid(s0));
            assert(self.abs() =~~= exec_drw(s0).0);
        }
        Ok(())
    }

    /// Store the decimal digits of `V[x]` at `I`, `I+1`, `I+2`.
    pub fn ld_fx33(&mut self) -> (r: Result<(), Chip8Error>)
        requires
            old(self).wf(),
        ensures
            final(self).wf(),
            final(self).abs() == exec_bcd(old(self).abs()).0,
            r == fault_result(exec_bcd(old(self).abs()).1),
    {
        if self.i + 3 > 4096 {
            return Err(Chip8Error::OutOfBounds);
        }
        let x = self.opcode.x();
        let vx = self.v[x];

        let i = self.i;
        self.memory[i] = vx / 100;
        self.memory[i + 1] = (vx / 10) % 10;
        self.memory[i + 2] = vx % 10;
        proof {
            assert(self.abs() =~~= exec_bcd(old(self).abs()).0);
        }
        Ok(())
    }

    /// Store registers `V[0]` through `V[x]` in memory starting at `I`.
    pub fn ld_fx55(&mut self) -> (r: Result<(), Chip8Error>)
        requires
            old(self).wf(),
        ensures
            final(self).wf(),
            final(self).abs() == exec_reg_dump(old(self).abs()).0,
            r == fault_result(exec_reg_dump(old(self).abs()).1),
    {
        let x = self.opcode.x();
        if self.i + x + 1 > 4096 {
            return Err(Chip8Error::OutOfBounds);
        }
        let mut k: usize = 0;
        while k < x + 1
            invariant
                self.memory@.len() == 4096,
                x == field_x(old(self).abs().opcode),
                x < 16,
                self.i + x + 1 <= 4096,
                k <= x + 1,
                self.v@.len() == 16,
                forall|j: int|
                    self.i <= j < self.i + k ==> #[trigger] self.memory@[j] == self.v@[j - self.i],
                forall|j: int|
                    (0 <= j < self.i || self.i + k <= j < 4096) ==> #[trigger] self.memory@[j]
                        == old(self).memory@[j],
                self.pc == old(self).pc,
                self.opcode == old(self).opcode,
                self.stack == old(self).stack,
                self.v == old(self).v,
                self.screen == old(self).screen,
                self.i == old(self).i,
                self.timers == old(self).timers,
                self.keys == old(self).keys,
                self.prev_keys == old(self).prev_keys,
                self.awaiting_key == old(self).awaiting_key,
                self.need_redraw == old(self).need_redraw,
            decreases x + 1 - k,
        {
            self.memory[self.i + k] = self.v[k];
            k = k + 1;
        }
        proof {
            let s0 = old(self).abs();
            assert(self.abs().memory =~= Seq::new(
                4096,
                |j: int|
                    if s0.i <= j <= s0.i + field_x(s0.opcode) {
                        s0.v[j - s0.i]
                    } else {
                        s0.memory[j]
                    },
            ));
            assert(self.abs() =~~= exec_reg_dump(s0).0);
        }
        Ok(())
    }

    /// Read registers `V[0]` through `V[x]` from memory starting at `I`.
    pub fn ld_fx65(&mut self) -> (r: Result<(), Chip8Error>)
        requires
            old(self).wf(),
        ensures
            final(self).wf(),
            final(self).abs() == exec_reg_load(old(self).abs()).0,
            r == fault_result(exec_reg_load(old(self).abs()).1),
    {
        let x = self.opcode.x();
        if self.i + x + 1 > 4096 {
            return Err(Chip8Error::OutOfBounds);
        }
        let mut k: usize = 0;
        while k < x + 1
            invariant
                self.memory@.len() == 4096,
                x == field_x(old(self).abs().opcode),
                x < 16,
                self.i + x + 1 <= 4096,
                k <= x + 1,
                self.v@.len() == 16,
                forall|j: int| 0 <= j < k ==> #[trigger] self.v@[j] == self.memory@[self.i + j],
                forall|j: int| k <= j < 16 ==> #[trigger] self.v@[j] == old(self).v@[j],
                self.memory == old(self).memory,
                self.pc == old(self).pc,
                self.opcode == old(self).opcode,
                self.stack == old(self).stack,
                self.screen == old(self).screen,
                self.i == old(self).i,
                self.timers == old(self).timers,
                self.keys == old(self).keys,
                self.prev_keys == old(self).prev_keys,
                self.awaiting_key == old(self).awaiting_key,
                self.need_redraw == old(self).need_redraw,
            decreases x + 1 - k,
        {
            self.v[k] = self.memory[self.i + k];
            k = k + 1;
        }
        proof {
            let s0 = old(self).abs();
            assert(self.abs().v =~= Seq::new(
                16,
                |j: int|
                    if j <= field_x(s0.opcode) {
                        s0.memory[s0.i + j]
                    } else {
                        s0.v[j]
                    },
            ));
            assert(self.abs() =~~= exec_reg_load(s0).0);
        }
        Ok(())
    }

    /// Supplies the current pressed state of the sixteen keys, once per
    /// cycle; the machine keeps the previous snapshot so the cycle function
    /// can see fresh press edges for the wait-key instruction.
    pub fn set_keys(&mut self, pressed: &Vec<bool>)
        requires
            old(self).wf(),
            pressed@.len() == 16,
        ensures
            final(self).wf(),
            final(self).abs() == (State {
                keys: pressed@,
                prev_keys: old(self).abs().keys,
                ..old(self).abs()
            }),
    {
        self.prev_keys = copy_flags(&self.keys);
        self.keys = copy_flags(pressed);
        proof {
            assert(self.abs() =~~= (State {
                keys: pressed@,
                prev_keys: old(self).abs().keys,
                ..old(self).abs()
            }));
        }
    }

    /// True while the sound timer is nonzero; the host drives audio from it.
    pub fn sound_active(&self) -> (r: bool)
        ensures
            r == (self.abs().sound > 0),
    {
        self.timers.sound() > 0
    }

    /// The framebuffer, read-only, for the rendering collaborator.
    pub fn framebuffer_snapshot(&self) -> (r: &Vec<Vec<u8>>)
        ensures
            r.deep_view() == self.abs().grid,
    {
        self.screen.vram()
    }

    /// Clears the pending-redraw signal; the host calls this after it has
    /// presented the framebuffer.
    pub fn clear_redraw(&mut self)
        requires
            old(self).wf(),
        ensures
            final(self).wf(),
            final(self).abs() == (State { need_redraw: false, ..old(self).abs() }),
    {
        self.need_redraw = false;
        proof {
            assert(self.abs() =~~= (State { need_redraw: false, ..old(self).abs() }));
        }
    }

    /// One interpreter cycle, exactly [`spec_step`]: tick the timers if the
    /// host says a cadence boundary elapsed, then resume a suspended
    /// wait-key, halt gracefully on a fetch past the end of memory, or
    /// fetch, decode and execute one instruction. The returned outcome
    /// distinguishes a normal halt from a fatal fault.
    #[verifier::rlimit(100)]
    pub fn step(&mut self, tick: bool) -> (r: StepOutcome)
        requires
            old(self).wf(),
        ensures
            final(self).wf(),
            exists|rb: u8|
                (final(self).abs(), r) == #[trigger] spec_step(old(self).abs(), tick, rb),
    {
        let ghost s0 = old(self).abs();
        if tick {
            self.timers.tick();
        }
        let ghost s1 = tick_state(s0, tick);
        proof {
            assert(self.abs() =~~= s1);
        }
        match self.awaiting_key {
            Some(t) => {
                let mut k: usize = 0;
                while k < 16
                    invariant
                        k <= 16,
                        wf_state(s1),
                        self.abs() == s1,
                        s0 == old(self).abs(),
                        s1 == tick_state(s0, tick),
                        s0.awaiting_key == Some(t),
                        t < 16,
                        first_edge_from(s1.keys, s1.prev_keys, 0) == first_edge_from(
                            s1.keys,
                            s1.prev_keys,
                            k as int,
                        ),
                    decreases 16 - k,
                {
                    if self.keys[k] && !self.prev_keys[k] {
                        self.v[t as usize] = k as u8;
                        self.awaiting_key = None;
                        proof {
                            assert(first_edge_from(s1.keys, s1.prev_keys, k as int) == Some(
                                k as u8,
                            ));
                            assert(self.abs() =~~= resume_wait(s1, t));
                            assert((self.abs(), StepOutcome::Continued { redraw: false })
                                == spec_step(s0, tick, 0u8));
                        }
                        return StepOutcome::Continued { redraw: false };
                    }
                    k = k + 1;
                }
                proof {
                    assert(first_edge(s1.keys, s1.prev_keys) is None);
                    assert(self.abs() =~~= resume_wait(s1, t));
                    assert((self.abs(), StepOutcome::Continued { redraw: false }) == spec_step(
                        s0,
                        tick,
                        0u8,
                    ));
                }
                return StepOutcome::Continued { redraw: false };
            },
            None => {},
        }
        if self.pc >= 4095 {
            proof {
                assert((self.abs(), StepOutcome::Halted) == spec_step(s0, tick, 0u8));
            }
            return StepOutcome::Halted;
        }
        let b0 = self.memory[self.pc];
        let b1 = self.memory[self.pc + 1];
        self.opcode.set_from_u8(b0, b1);
        self.pc = self.pc + 2;
        let ghost w: u16 = (s0.memory[s0.pc] * 0x100 + s0.memory[s0.pc + 1]) as u16;
        let ghost s2 = State { opcode: w, pc: s0.pc + 2, ..s1 };
        proof {
            assert(self.abs() =~~= s2);
            assert(wf_state(s2));
        }
        let ghost mut rbw: u8 = 0u8;

        let code = self.opcode.code();
        proof {
            assert(code & 0xF000 == (code / 0x1000) * 0x1000 && code / 0x1000 < 16) by (bit_vector);
            assert(code & 0x00FF == code % 0x100) by (bit_vector);
            assert(code & 0x000F == code % 0x10) by (bit_vector);
        }
        match code & 0xF000 {
            0x0000 => match code & 0x00FF {
                0x00E0 => self.cls_00e0(),
                0x00EE => {
                    let ret = self.ret_00ee();
                    match ret {
                        Ok(()) => {},
                        Err(e) => {
                            proof {
                                assert((self.abs(), StepOutcome::Faulted(e)) == spec_step(
                                    s0,
                                    tick,
                                    0u8,
                                ));
                            }
                            return StepOutcome::Faulted(e);
                        },
                    }
                },
                _ => (),
            },
            0x1000 => self.jp_1nnn(),
            0x2000 => self.call_2nnn(),
            0x3000 => self.se_3xnn(),
            0x4000 => self.sne_4xnn(),
            0x5000 => self.se_5xy0(),
            0x6000 => self.ld_6xnn(),
            0x7000 => self.add_7xnn(),
            0x8000 => match code & 0x000F {
                0x0000 => self.ld_8xy0(),
                0x0001 => self.or_8xy1(),
                0x0002 => self.and_8xy2(),
                0x0003 => self.xor_8xy3(),
                0x0004 => self.add_8xy4(),
                0x0005 => self.sub_8xy5(),
                0x0006 => self.shr_8xy6(),
                0x0007 => self.subn_8xy7(),
                0x000E => self.shl_8x0e(),
                _ => (),
            },
            0x9000 => self.sne_9xy0(),
            0xA000 => self.ld_annn(),
            0xB000 => self.jp_bnnn(),
            0xC000 => {
                self.rnd_cxnn();
                proof {
                    rbw = choose|b: u8| self.abs() == exec_rnd(s2, b);
                }
            },
            0xD000 => {
                let drawn = self.drw_dxyn();
                match drawn {
                    Ok(()) => {},
                    Err(e) => {
                        proof {
                            assert((self.abs(), StepOutcome::Faulted(e)) == spec_step(
                                s0,
                                tick,
                                0u8,
                            ));
                        }
                        return StepOutcome::Faulted(e);
                    },
                }
            },
            0xE000 => match code & 0x00FF {
                0x009E => self.skp_ex9e(),
                0x00A1 => self.sknp_exa1(),
                _ => (),
            },
            0xF000 => match code & 0x00FF {
                0x0007 => self.ld_fx07(),
                0x000A => self.ld_fx0a(),
                0x0015 => self.ld_fx15(),
                0x0018 => self.ld_fx18(),
                0x001E => self.add_fx1e(),
                0x0029 => self.ld_fx29(),
                0x0033 => {
                    let stored = self.ld_fx33();
                    match stored {
                        Ok(()) => {},
                        Err(e) => {
                            proof {
                                assert((self.abs(), StepOutcome::Faulted(e)) == spec_step(
                                    s0,
                                    tick,
                                    0u8,
                                ));
                            }
                            return StepOutcome::Faulted(e);
                        },
                    }
                },
                0x0055 => {
                    let dumped = self.ld_fx55();
                    match dumped {
                        Ok(()) => {},
                        Err(e) => {
                            proof {
                                assert((self.abs(), StepOutcome::Faulted(e)) == spec_step(
                                    s0,
                                    tick,
                                    0u8,
                                ));
                            }
                            return StepOutcome::Faulted(e);
                        },
                    }
                },
                0x0065 => {
                    let loaded = self.ld_fx65();
                    match loaded {
                        Ok(()) => {},
                        Err(e) => {
                            proof {
                                assert((self.abs(), StepOutcome::Faulted(e)) == spec_step(
                                    s0,
                                    tick,
                                    0u8,
                                ));
                            }
                            return StepOutcome::Faulted(e);
                        },
                    }
                },
                _ => (),
            },
            _ => (),
        }
        let redraw = self.need_redraw;
        let r = StepOutcome::Continued { redraw };
        proof {
            assert(self.abs() == dispatch(s2, rbw).0);
            assert(dispatch(s2, rbw).1 is None);
            assert((self.abs(), r) == spec_step(s0, tick, rbw));
        }
        r
    }
}

/// Drawing the same sprite twice at the same coordinates is a double XOR:
/// the second draw toggles every pixel back, so the framebuffer returns to
/// its pre-draw state, and the second draw's flag reports the collision
/// that existed against the first draw's result. The flag register may not
/// serve as a coordinate register here: the first draw overwrites it.
pub proof fn lemma_draw_double_xor(s: State)
    requires
        wf_state(s),
        field_x(s.opcode) != 15,
        field_y(s.opcode) != 15,
        (exec_drw(s).1 is None),
    ensures
        (exec_drw(exec_drw(s).0).1 is None),
        exec_drw(exec_drw(s).0).0.grid == s.grid,
        exec_drw(exec_drw(s).0).0.v[15] == (if draw_collision(exec_drw(s).0) {
            1u8
        } else {
            0u8
        }),
{
    lemma_bit_basics();
    let s1 = exec_drw(s).0;
    assert(forall|rr: int, cc: int|
        #![trigger draw_toggle(s1, rr, cc)]
        #![trigger draw_toggle(s, rr, cc)]
        draw_toggle(s1, rr, cc) == draw_toggle(s, rr, cc));
    assert forall|rr: int| 0 <= rr < 32 implies exec_drw(s1).0.grid[rr] =~= s.grid[rr] by {
        assert forall|cc: int| 0 <= cc < 64 implies exec_drw(s1).0.grid[rr][cc] == s.grid[rr][cc] by {
            assert(s1.grid[rr][cc] == s.grid[rr][cc] ^ draw_toggle(s, rr, cc));
            assert(exec_drw(s1).0.grid[rr][cc] == (s.grid[rr][cc] ^ draw_toggle(s, rr, cc)) ^ draw_toggle(
                s,
                rr,
                cc,
            ));
        }
    }
    assert(exec_drw(s1).0.grid =~= s.grid);
}

/// Screen coordinates wrap. A one-row sprite drawn at the far corner
/// (63, 31): its column 0 lands on pixel (63, 31) and its column 1 wraps
/// around to pixel (0, 31); no pixel outside row 31 changes.
pub proof fn lemma_draw_wraparound(s: State)
    requires
        wf_state(s),
        s.v[field_x(s.opcode) as int] == 63,
        s.v[field_y(s.opcode) as int] == 31,
        field_n(s.opcode) == 1,
        s.i + 1 <= 4096,
    ensures
        (exec_drw(s).1 is None),
        exec_drw(s).0.grid[31][63] == s.grid[31][63] ^ sprite_bit(s.memory[s.i], 0),
        exec_drw(s).0.grid[31][0] == s.grid[31][0] ^ sprite_bit(s.memory[s.i], 1),
        forall|rr: int, cc: int|
            0 <= rr < 31 && 0 <= cc < 64 ==> exec_drw(s).0.grid[rr][cc] == s.grid[rr][cc],
{
    lemma_bit_basics();
    assert(draw_toggle(s, 31, 63) == sprite_bit(s.memory[s.i], 0));
    assert(draw_toggle(s, 31, 0) == sprite_bit(s.memory[s.i], 1));
    assert forall|rr: int, cc: int| 0 <= rr < 31 && 0 <= cc < 64 implies exec_drw(s).0.grid[rr][cc]
        == s.grid[rr][cc] by {
        assert((rr - 31) % 32 == rr + 1);
        assert(draw_toggle(s, rr, cc) == 0u8);
    }
}

/// An infinite loop must not fault: one cycle from the state whose next
/// instruction jumps to itself comes back to the same program counter with
/// memory untouched, as a normal continued cycle — never a halt, never a
/// fault. Every later cycle therefore does the same.
pub proof fn lemma_self_jump_loops(s: State, tick: bool, rb: u8)
    requires
        wf_state(s),
        (s.awaiting_key is None),
        s.pc == 0x200,
        s.memory[0x200] == 0x12,
        s.memory[0x201] == 0x00,
    ensures
        wf_state(spec_step(s, tick, rb).0),
        spec_step(s, tick, rb).1 == (StepOutcome::Continued { redraw: s.need_redraw }),
        spec_step(s, tick, rb).0.pc == 0x200,
        spec_step(s, tick, rb).0.memory == s.memory,
        (spec_step(s, tick, rb).0.awaiting_key is None),
        spec_step(s, tick, rb).0.need_redraw == s.need_redraw,
{
    let s1 = tick_state(s, tick);
    let w = (s.memory[s.pc] * 0x100 + s.memory[s.pc + 1]) as u16;
    assert(w == 0x1200);
    let s2 = State { opcode: w, pc: s.pc + 2, ..s1 };
    assert(dispatch(s2, rb) == (exec_jp(s2), None::<Chip8Error>));
    assert(field_nnn(0x1200u16) == 0x200);
}

/// The self-jump configuration: the next instruction at 0x200 is a jump to
/// 0x200 itself.
pub open spec fn self_jump_state(s: State) -> bool {
    &&& wf_state(s)
    &&& (s.awaiting_key is None)
    &&& s.pc == 0x200
    &&& s.memory[0x200] == 0x12
    &&& s.memory[0x201] == 0x00
}

/// The state a machine reaches by running one cycle per input, each input
/// giving that cycle's timer tick and random byte.
pub open spec fn run_steps(s: State, inputs: Seq<(bool, u8)>) -> State
    decreases inputs.len(),
{
    if inputs.len() == 0 {
        s
    } else {
        run_steps(spec_step(s, inputs[0].0, inputs[0].1).0, inputs.drop_first())
    }
}

/// However many cycles the self-jump program runs, under any ticks and any
/// random bytes, the machine stays in the self-jump configuration, the
/// program counter never leaves 0x200, and no cycle halts or faults: an
/// infinite loop is not a fault.
pub proof fn lemma_self_jump_runs_forever(s: State, inputs: Seq<(bool, u8)>)
    requires
        self_jump_state(s),
    ensures
        self_jump_state(run_steps(s, inputs)),
        run_steps(s, inputs).pc == 0x200,
        forall|k: int|
            0 <= k < inputs.len() ==> (#[trigger] spec_step(
                run_steps(s, inputs.take(k)),
                inputs[k].0,
                inputs[k].1,
            ).1 matches StepOutcome::Continued { .. }),
    decreases inputs.len(),
{
    if inputs.len() == 0 {
    } else {
        let t0 = inputs[0];
        let s1 = spec_step(s, t0.0, t0.1).0;
        lemma_self_jump_loops(s, t0.0, t0.1);
        let rest = inputs.drop_first();
        lemma_self_jump_runs_forever(s1, rest);
        assert(run_steps(s, inputs) == run_steps(s1, rest));
        assert forall|k: int|
            0 <= k < inputs.len() implies (#[trigger] spec_step(
            run_steps(s, inputs.take(k)),
            inputs[k].0,
            inputs[k].1,
        ).1 matches StepOutcome::Continued { .. }) by {
            if k == 0 {
                assert(inputs.take(0) =~= Seq::<(bool, u8)>::empty());
                assert(run_steps(s, inputs.take(0)) == s);
            } else {
                assert(inputs.take(k).len() == k);
                assert(inputs.take(k)[0] == t0);
                assert(inputs.take(k).drop_first() =~= rest.take(k - 1));
                assert(run_steps(s, inputs.take(k)) == run_steps(s1, rest.take(k - 1)));
                assert(rest[k - 1] == inputs[k]);
                assert(spec_step(run_steps(s1, rest.take(k - 1)), rest[k - 1].0, rest[k - 1].1).1
                    matches StepOutcome::Continued { .. });
            }
        }
    }
}

/// Copies a key-flag vector.
fn copy_flags(src: &Vec<bool>) -> (r: Vec<bool>)
    ensures
        r@ == src@,
{
    let mut f: Vec<bool> = Vec::new();
    while f.len() < src.len()
        invariant
            f@.len() <= src@.len(),
            forall|j: int| 0 <= j < f@.len() ==> #[trigger] f@[j] == src@[j],
        decreases src.len() - f.len(),
    {
        f.push(src[f.len()]);
    }
    proof {
        assert(f@ =~= src@);
    }
    f
}

} // verus!
