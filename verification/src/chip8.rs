//! The reduced CHIP-8 machine, kept for compatibility.
//!
//! `Chip8` differs from [`crate::processor::Processor`] in its quirk
//! choices, each of them documented on the spec function of the
//! instruction concerned:
//! - shifts read their source from `Vx` and write the flag before the
//!   result, so `x = 15` shifts the fresh flag value;
//! - SUB/SUBN set `VF` to 1 exactly when a borrow occurs (the opposite
//!   flag convention), and also write it before the result;
//! - OR/AND/XOR leave `VF` alone;
//! - a call jumps to the address itself, without the `-2` convention;
//! - drawing wraps around the screen edges and paints `n + 1` rows;
//! - the block store/load instructions leave `I` unchanged;
//! - the wait-for-key instruction reads the lowest currently pressed
//!   key instead of a release observation;
//! - there is no font table and no font-address or BCD instruction.
//!
//! The same policies as for the full machine apply: memory addressing
//! wraps modulo 4096, program-counter arithmetic wraps modulo 0x10000,
//! and invalid opcodes and stack misuse are typed errors.

use crate::bits::{
    addr_nnn, filled, imm_kk, imm_n, lemma_bytes_to_word, lemma_decode, op_cat, op_kk, op_n, op_nnn, op_x,
    op_y, reg_x, reg_y, sprite_bit,
};
use crate::errors::OpcodeError;
use crate::rng::random_below_255;
use vstd::prelude::*;

verus! {

/// The mathematical model of the reduced machine.
#[verifier::ext_equal]
pub struct Chip8State {
    /// 64x32 pixels, row-major.
    pub screen: Seq<bool>,
    /// The 16 general registers V0-VF.
    pub regs: Seq<u8>,
    /// Program counter, in [0, 0x10000).
    pub pc: int,
    /// The 16 return-address slots.
    pub stack: Seq<u16>,
    /// Stack pointer, in [0, 16].
    pub sp: int,
    /// 4096 bytes of memory.
    pub mem: Seq<u8>,
    /// Index register.
    pub i: u16,
    /// Delay timer.
    pub dt: u8,
    /// Sound timer.
    pub st: u8,
    /// Pressed state of the 16 keys.
    pub keys: Seq<bool>,
}

/// Shape of a valid machine state.
pub open spec fn wf_state(s: Chip8State) -> bool {
    &&& s.screen.len() == 2048
    &&& s.regs.len() == 16
    &&& s.stack.len() == 16
    &&& s.mem.len() == 4096
    &&& s.keys.len() == 16
    &&& 0 <= s.pc < 0x10000
    &&& 0 <= s.sp <= 16
}

/// The machine state right after construction: everything zero, the
/// program counter at 0x200.
pub open spec fn init_state() -> Chip8State {
    Chip8State {
        screen: Seq::new(2048, |p: int| false),
        regs: Seq::new(16, |r: int| 0u8),
        pc: 0x200,
        stack: Seq::new(16, |j: int| 0u16),
        sp: 0,
        mem: Seq::new(4096, |a: int| 0u8),
        i: 0,
        dt: 0,
        st: 0,
        keys: Seq::new(16, |k: int| false),
    }
}

/// The program counter two bytes ahead, wrapping modulo 0x10000.
pub open spec fn pc_plus2(pc: int) -> int {
    (pc + 2) % 0x10000
}

/// Two bytes back, wrapping modulo 0x10000.
pub open spec fn pc_back2(target: int) -> int {
    (target + 0x10000 - 2) % 0x10000
}

/// The timer decrement derived from an elapsed time in nanoseconds,
/// truncated to a byte.
pub open spec fn timer_change(dt_nanos: u64) -> u8 {
    ((dt_nanos * 60 / 1000000) % 256) as u8
}

/// A byte-valued timer after subtracting `c`, saturating at zero.
pub open spec fn timer_sub(t: u8, c: u8) -> u8 {
    if t < c { 0u8 } else { (t - c) as u8 }
}

/// The lowest currently pressed key at or above index `j`, if any.
pub open spec fn first_pressed(keys: Seq<bool>, j: int) -> Option<u8>
    decreases 16 - j,
{
    if j < 0 || j >= 16 {
        None
    } else if keys[j] {
        Some(j as u8)
    } else {
        first_pressed(keys, j + 1)
    }
}

/// The state with the program counter advanced over one skipped
/// instruction.
pub open spec fn spec_skip(s: Chip8State) -> Chip8State {
    Chip8State { pc: pc_plus2(s.pc), ..s }
}

/// 00E0: clear the screen.
pub open spec fn spec_clr(s: Chip8State) -> Chip8State {
    Chip8State { screen: Seq::new(2048, |p: int| false), ..s }
}

/// 00EE: pop the stack into the program counter.
pub open spec fn spec_ret(s: Chip8State) -> Chip8State {
    Chip8State { sp: s.sp - 1, pc: s.stack[s.sp - 1] as int, ..s }
}

/// 1nnn: jump, with the `-2` convention for the driver's `+2`.
pub open spec fn spec_jmp(s: Chip8State, nnn: int) -> Chip8State {
    Chip8State { pc: pc_back2(nnn), ..s }
}

/// Bnnn: jump to `nnn + V0`, with the `-2` convention.
pub open spec fn spec_jmp_r0(s: Chip8State, nnn: int) -> Chip8State {
    Chip8State { pc: pc_back2(nnn + s.regs[0]), ..s }
}

/// 2nnn: push the program counter and jump. This machine sets the
/// program counter to the address itself, without the `-2` convention.
pub open spec fn spec_call(s: Chip8State, nnn: int) -> Chip8State {
    Chip8State { stack: s.stack.update(s.sp, s.pc as u16), sp: s.sp + 1, pc: nnn, ..s }
}

/// 3xkk: skip if `Vx == kk`.
pub open spec fn spec_se_r_kk(s: Chip8State, x: int, kk: u8) -> Chip8State {
    if s.regs[x] == kk { spec_skip(s) } else { s }
}

/// 4xkk: skip if `Vx != kk`.
pub open spec fn spec_sne_r_kk(s: Chip8State, x: int, kk: u8) -> Chip8State {
    if s.regs[x] != kk { spec_skip(s) } else { s }
}

/// 5xy0: skip if `Vx == Vy`.
pub open spec fn spec_se_rx_ry(s: Chip8State, x: int, y: int) -> Chip8State {
    if s.regs[x] == s.regs[y] { spec_skip(s) } else { s }
}

/// 9xy0: skip if `Vx != Vy`.
pub open spec fn spec_sne_rx_ry(s: Chip8State, x: int, y: int) -> Chip8State {
    if s.regs[x] != s.regs[y] { spec_skip(s) } else { s }
}

/// 6xkk: load the immediate into `Vx`.
pub open spec fn spec_ld_r_kk(s: Chip8State, x: int, kk: u8) -> Chip8State {
    Chip8State { regs: s.regs.update(x, kk), ..s }
}

/// 7xkk: add the immediate to `Vx`, wrapping, no flag.
pub open spec fn spec_add_r_kk(s: Chip8State, x: int, kk: u8) -> Chip8State {
    Chip8State { regs: s.regs.update(x, s.regs[x].wrapping_add(kk)), ..s }
}

/// 8xy0: copy `Vy` into `Vx`.
pub open spec fn spec_ld_rx_ry(s: Chip8State, x: int, y: int) -> Chip8State {
    Chip8State { regs: s.regs.update(x, s.regs[y]), ..s }
}

/// 8xy1: bitwise OR; `VF` is left alone on this machine.
pub open spec fn spec_or_rx_ry(s: Chip8State, x: int, y: int) -> Chip8State {
    Chip8State { regs: s.regs.update(x, s.regs[x] | s.regs[y]), ..s }
}

/// 8xy2: bitwise AND; `VF` is left alone.
pub open spec fn spec_and_rx_ry(s: Chip8State, x: int, y: int) -> Chip8State {
    Chip8State { regs: s.regs.update(x, s.regs[x] & s.regs[y]), ..s }
}

/// 8xy3: bitwise XOR; `VF` is left alone.
pub open spec fn spec_xor_rx_ry(s: Chip8State, x: int, y: int) -> Chip8State {
    Chip8State { regs: s.regs.update(x, s.regs[x] ^ s.regs[y]), ..s }
}

/// 8xy4: add; the result is written first, then `VF` becomes 1 exactly
/// when the 9-bit sum exceeds 0xFF.
pub open spec fn spec_add_rx_ry(s: Chip8State, x: int, y: int) -> Chip8State {
    let vf: u8 = if s.regs[x] + s.regs[y] > 0xFF { 1u8 } else { 0u8 };
    Chip8State {
        regs: s.regs.update(x, s.regs[x].wrapping_add(s.regs[y])).update(15, vf),
        ..s
    }
}

/// 8xy5: `VF` becomes 1 exactly when `Vy > Vx` (this machine flags the
/// borrow itself), and is written before the wrapping difference, so
/// the subtraction reads the fresh flag when `x = 15` or `y = 15`.
pub open spec fn spec_sub_rx_ry(s: Chip8State, x: int, y: int) -> Chip8State {
    let vf: u8 = if s.regs[y] > s.regs[x] { 1u8 } else { 0u8 };
    let r1 = s.regs.update(15, vf);
    Chip8State { regs: r1.update(x, r1[x].wrapping_sub(r1[y])), ..s }
}

/// 8xy7: `VF` becomes 1 exactly when `Vx > Vy`, written before the
/// wrapping difference `Vy - Vx`.
pub open spec fn spec_subn_rx_ry(s: Chip8State, x: int, y: int) -> Chip8State {
    let vf: u8 = if s.regs[x] > s.regs[y] { 1u8 } else { 0u8 };
    let r1 = s.regs.update(15, vf);
    Chip8State { regs: r1.update(x, r1[y].wrapping_sub(r1[x])), ..s }
}

/// 8xy6: this machine shifts `Vx` itself right by one; `VF` takes the
/// shifted-out bit first, so `x = 15` shifts the fresh flag value.
pub open spec fn spec_shr(s: Chip8State, x: int) -> Chip8State {
    let vf: u8 = if s.regs[x] & 1 == 1 { 1u8 } else { 0u8 };
    let r1 = s.regs.update(15, vf);
    Chip8State { regs: r1.update(x, r1[x] >> 1), ..s }
}

/// 8xyE: this machine shifts `Vx` itself left by one; `VF` takes the
/// shifted-out bit first.
pub open spec fn spec_shl(s: Chip8State, x: int) -> Chip8State {
    let vf: u8 = if s.regs[x] & 0x80 == 0x80 { 1u8 } else { 0u8 };
    let r1 = s.regs.update(15, vf);
    Chip8State { regs: r1.update(x, r1[x] << 1), ..s }
}

/// Annn: load the address into `I`.
pub open spec fn spec_ld_i(s: Chip8State, nnn: int) -> Chip8State {
    Chip8State { i: nnn as u16, ..s }
}

/// Cxkk: `Vx` becomes a random byte masked with `kk`.
pub open spec fn spec_rand(s: Chip8State, x: int, kk: u8, rnd: u8) -> Chip8State {
    Chip8State { regs: s.regs.update(x, rnd & kk), ..s }
}

/// Ex9E: skip if the key named by the low nibble of `Vx` is pressed.
pub open spec fn spec_skp(s: Chip8State, x: int) -> Chip8State {
    if s.keys[(s.regs[x] & 0xF) as int] { spec_skip(s) } else { s }
}

/// ExA1: skip if the key named by the low nibble of `Vx` is not pressed.
pub open spec fn spec_sknp(s: Chip8State, x: int) -> Chip8State {
    if !s.keys[(s.regs[x] & 0xF) as int] { spec_skip(s) } else { s }
}

/// Fx07: copy the delay timer into `Vx`.
pub open spec fn spec_ld_r_dt(s: Chip8State, x: int) -> Chip8State {
    Chip8State { regs: s.regs.update(x, s.dt), ..s }
}

/// Fx0A: if some key is pressed, load the lowest such key into `Vx`;
/// otherwise rewind the program counter so the instruction re-executes
/// on the next step.
pub open spec fn spec_ld_r_kp(s: Chip8State, x: int) -> Chip8State {
    match first_pressed(s.keys, 0) {
        Some(k) => Chip8State { regs: s.regs.update(x, k), ..s },
        None => Chip8State { pc: pc_back2(s.pc), ..s },
    }
}

/// Fx15: copy `Vx` into the delay timer.
pub open spec fn spec_ld_dt_r(s: Chip8State, x: int) -> Chip8State {
    Chip8State { dt: s.regs[x], ..s }
}

/// Fx18: copy `Vx` into the sound timer.
pub open spec fn spec_ld_st_r(s: Chip8State, x: int) -> Chip8State {
    Chip8State { st: s.regs[x], ..s }
}

/// Fx1E: add `Vx` to `I`, wrapping modulo 2^16, no flag.
pub open spec fn spec_add_i_r(s: Chip8State, x: int) -> Chip8State {
    Chip8State { i: s.i.wrapping_add(s.regs[x] as u16), ..s }
}

/// Registers `V0..=Vn` written to memory starting at `i`, addresses
/// wrapping modulo 4096; cells `j..=n` still to be written.
pub open spec fn store_regs(mem: Seq<u8>, regs: Seq<u8>, i: int, n: int, j: int) -> Seq<u8>
    decreases n + 1 - j,
{
    if j > n || j < 0 {
        mem
    } else {
        store_regs(mem.update((i + j) % 4096, regs[j]), regs, i, n, j + 1)
    }
}

/// Registers `V0..=Vn` loaded from memory starting at `i`, addresses
/// wrapping modulo 4096; registers `j..=n` still to be loaded.
pub open spec fn load_regs(regs: Seq<u8>, mem: Seq<u8>, i: int, n: int, j: int) -> Seq<u8>
    decreases n + 1 - j,
{
    if j > n || j < 0 {
        regs
    } else {
        load_regs(regs.update(j, mem[(i + j) % 4096]), mem, i, n, j + 1)
    }
}

/// Fx55: store `V0..=Vx` at `I`; this machine leaves `I` unchanged.
pub open spec fn spec_store_at_i(s: Chip8State, n: int) -> Chip8State {
    Chip8State { mem: store_regs(s.mem, s.regs, s.i as int, n, 0), ..s }
}

/// Fx65: load `V0..=Vx` from `I`; this machine leaves `I` unchanged.
pub open spec fn spec_load_from_i(s: Chip8State, n: int) -> Chip8State {
    Chip8State { regs: load_regs(s.regs, s.mem, s.i as int, n, 0), ..s }
}

/// One sprite bit XORed onto the screen at `(x, y)`, both coordinates
/// wrapping around the screen edges. `vf` becomes 1 when a lit pixel is
/// turned over.
pub open spec fn draw_bit(scr: Seq<bool>, vf: u8, x: int, y: int, on: bool) -> (Seq<bool>, u8) {
    let coord = (y % 32) * 64 + (x % 64);
    (scr.update(coord, scr[coord] != on), if on && scr[coord] { 1u8 } else { vf })
}

/// One 8-pixel sprite row drawn at `(x, y)`, bits `k..8` still to go.
pub open spec fn draw_row(scr: Seq<bool>, vf: u8, x: int, y: int, val: u8, k: int) -> (Seq<bool>, u8)
    decreases 8 - k,
{
    if k < 0 || k >= 8 {
        (scr, vf)
    } else {
        let t = draw_bit(scr, vf, x + k, y, sprite_bit(val, k));
        draw_row(t.0, t.1, x, y, val, k + 1)
    }
}

/// An `n`-row sprite read from memory at `i` drawn at `(x, y)`, rows
/// `j..n` still to go.
pub open spec fn draw_rows(
    scr: Seq<bool>,
    vf: u8,
    mem: Seq<u8>,
    i: int,
    x: int,
    y: int,
    n: int,
    j: int,
) -> (Seq<bool>, u8)
    decreases n - j,
{
    if j < 0 || j >= n {
        (scr, vf)
    } else {
        let t = draw_row(scr, vf, x, y + j, mem[(i + j) % 4096], 0);
        draw_rows(t.0, t.1, mem, i, x, y, n, j + 1)
    }
}

/// Dxyn: XOR a sprite of `n + 1` rows (one more than the field says, a
/// quirk of this machine) read from memory at `I` onto the screen at
/// `(Vx, Vy)`, wrapping around the screen edges; `VF` is not cleared
/// first, it becomes 1 when some lit pixel was turned over and keeps
/// its old value otherwise.
pub open spec fn spec_draw(s: Chip8State, x: int, y: int, n: int) -> Chip8State {
    let t = draw_rows(s.screen, s.regs[15], s.mem, s.i as int, s.regs[x] as int, s.regs[y] as int, n + 1, 0);
    Chip8State { screen: t.0, regs: s.regs.update(15, t.1), ..s }
}

/// Whether this machine accepts the instruction word.
pub open spec fn spec_ok(s: Chip8State, inst: u16) -> bool {
    let cat = op_cat(inst);
    if cat == 0x0 {
        op_nnn(inst) == 0x0E0 || (op_nnn(inst) == 0x0EE && s.sp >= 1)
    } else if cat == 0x2 {
        s.sp < 16
    } else if cat == 0x5 || cat == 0x9 {
        op_n(inst) == 0
    } else if cat == 0x8 {
        op_n(inst) <= 7 || op_n(inst) == 0xE
    } else if cat == 0xE {
        op_kk(inst) == 0x9E || op_kk(inst) == 0xA1
    } else if cat == 0xF {
        ||| op_kk(inst) == 0x07
        ||| op_kk(inst) == 0x0A
        ||| op_kk(inst) == 0x15
        ||| op_kk(inst) == 0x18
        ||| op_kk(inst) == 0x1E
        ||| op_kk(inst) == 0x55
        ||| op_kk(inst) == 0x65
    } else {
        true
    }
}

/// The state transition of a recognized instruction word. `rnd` is the
/// byte the random source produced, relevant only for Cxkk.
pub open spec fn spec_dispatch(s: Chip8State, inst: u16, rnd: u8) -> Chip8State {
    let cat = op_cat(inst);
    let x = op_x(inst);
    let y = op_y(inst);
    let n = op_n(inst);
    let kk = op_kk(inst);
    let nnn = op_nnn(inst);
    if cat == 0x0 {
        if nnn == 0x0E0 { spec_clr(s) } else { spec_ret(s) }
    } else if cat == 0x1 {
        spec_jmp(s, nnn)
    } else if cat == 0x2 {
        spec_call(s, nnn)
    } else if cat == 0x3 {
        spec_se_r_kk(s, x, kk)
    } else if cat == 0x4 {
        spec_sne_r_kk(s, x, kk)
    } else if cat == 0x5 {
        spec_se_rx_ry(s, x, y)
    } else if cat == 0x6 {
        spec_ld_r_kk(s, x, kk)
    } else if cat == 0x7 {
        spec_add_r_kk(s, x, kk)
    } else if cat == 0x8 {
        if n == 0x0 { spec_ld_rx_ry(s, x, y) }
        else if n == 0x1 { spec_or_rx_ry(s, x, y) }
        else if n == 0x2 { spec_and_rx_ry(s, x, y) }
        else if n == 0x3 { spec_xor_rx_ry(s, x, y) }
        else if n == 0x4 { spec_add_rx_ry(s, x, y) }
        else if n == 0x5 { spec_sub_rx_ry(s, x, y) }
        else if n == 0x6 { spec_shr(s, x) }
        else if n == 0x7 { spec_subn_rx_ry(s, x, y) }
        else { spec_shl(s, x) }
    } else if cat == 0x9 {
        spec_sne_rx_ry(s, x, y)
    } else if cat == 0xA {
        spec_ld_i(s, nnn)
    } else if cat == 0xB {
        spec_jmp_r0(s, nnn)
    } else if cat == 0xC {
        spec_rand(s, x, kk, rnd)
    } else if cat == 0xD {
        spec_draw(s, x, y, n)
    } else if cat == 0xE {
        if kk == 0x9E { spec_skp(s, x) } else { spec_sknp(s, x) }
    } else {
        if kk == 0x07 { spec_ld_r_dt(s, x) }
        else if kk == 0x0A { spec_ld_r_kp(s, x) }
        else if kk == 0x15 { spec_ld_dt_r(s, x) }
        else if kk == 0x18 { spec_ld_st_r(s, x) }
        else if kk == 0x1E { spec_add_i_r(s, x) }
        else if kk == 0x55 { spec_store_at_i(s, x) }
        else { spec_load_from_i(s, x) }
    }
}

/// The full effect of `execute`: a recognized word performs its
/// transition, an unrecognized one leaves the state unchanged.
pub open spec fn spec_execute(s: Chip8State, inst: u16, rnd: u8) -> Chip8State {
    if spec_ok(s, inst) {
        spec_dispatch(s, inst, rnd)
    } else {
        s
    }
}

/// The big-endian instruction word at the program counter.
pub open spec fn spec_fetch(s: Chip8State) -> u16 {
    (s.mem[s.pc % 4096] * 0x100 + s.mem[(s.pc + 1) % 4096]) as u16
}

/// The full effect of `step`: execute the fetched word, then advance
/// the program counter by two (also on an unrecognized word).
pub open spec fn spec_step(s: Chip8State, rnd: u8) -> Chip8State {
    let s1 = spec_execute(s, spec_fetch(s), rnd);
    Chip8State { pc: pc_plus2(s1.pc), ..s1 }
}

/// The reduced CHIP-8 machine.
pub struct Chip8 {
    screen_buffer: Vec<bool>,
    registers: Vec<u8>,
    pc: usize,
    stack: Vec<u16>,
    sp: usize,
    mem: Vec<u8>,
    i: u16,
    dt: u8,
    st: u8,
    input_state: Vec<bool>,
}

impl View for Chip8 {
    type V = Chip8State;

    closed spec fn view(&self) -> Chip8State {
        Chip8State {
            screen: self.screen_buffer@,
            regs: self.registers@,
            pc: self.pc as int,
            stack: self.stack@,
            sp: self.sp as int,
            mem: self.mem@,
            i: self.i,
            dt: self.dt,
            st: self.st,
            keys: self.input_state@,
        }
    }
}

impl Chip8 {
    /// The machine state is well formed; established by `new` and
    /// preserved by every operation.
    pub open spec fn wf(&self) -> bool {
        wf_state(self@)
    }

    /// A fresh machine: everything zeroed, the program counter at
    /// 0x200.
    pub fn new() -> (c: Chip8)
        ensures
            c.wf(),
            c@ == init_state(),
    {
        let c = Chip8 {
            screen_buffer: filled(2048, false),
            registers: filled(16, 0u8),
            pc: 0x200,
            stack: filled(16, 0u16),
            sp: 0,
            mem: filled(4096, 0u8),
            i: 0,
            dt: 0,
            st: 0,
            input_state: filled(16, false),
        };
        proof {
            assert(c@ =~= init_state());
        }
        c
    }

    /// Load a program given as big-endian 16-bit instruction words into
    /// memory starting at 0x200.
    pub fn load_program(&mut self, program: &[u16])
        requires
            old(self).wf(),
            program@.len() <= 0x700,
        ensures
            final(self).wf(),
            final(self)@.mem.len() == 4096,
            forall|a: int|
                0 <= a < 4096 ==> final(self)@.mem[a] == (if 0x200 <= a < 0x200 + 2 * program@.len() {
                    (if (a - 0x200) % 2 == 0 {
                        crate::bits::hi8(program@[(a - 0x200) / 2])
                    } else {
                        crate::bits::lo8(program@[(a - 0x200) / 2])
                    })
                } else {
                    old(self)@.mem[a]
                }),
            final(self)@ == (Chip8State { mem: final(self)@.mem, ..old(self)@ }),
    {
        let n = program.len();
        for idx in 0..n
            invariant
                self.wf(),
                n == program@.len() <= 0x700,
                forall|a: int|
                    0 <= a < 4096 ==> self@.mem[a] == (if 0x200 <= a < 0x200 + 2 * idx {
                        (if (a - 0x200) % 2 == 0 {
                            crate::bits::hi8(program@[(a - 0x200) / 2])
                        } else {
                            crate::bits::lo8(program@[(a - 0x200) / 2])
                        })
                    } else {
                        old(self)@.mem[a]
                    }),
                self@ == (Chip8State { mem: self@.mem, ..old(self)@ }),
        {
            let w = program[idx];
            proof {
                crate::bits::lemma_decode(w);
            }
            self.mem[0x200 + 2 * idx] = (w >> 8) as u8;
            self.mem[0x200 + 2 * idx + 1] = (w & 0xFF) as u8;
            proof {
                assert(self@.mem[0x200 + 2 * idx as int] == crate::bits::hi8(program@[idx as int]));
                assert(self@.mem[0x200 + 2 * idx as int + 1] == crate::bits::lo8(program@[idx as int]));
            }
        }
    }

    /// Decrement both timers by the number of 60Hz ticks contained in
    /// the elapsed time, saturating at zero.
    pub fn update_timers(&mut self, dt_nanos: u64)
        requires
            old(self).wf(),
            dt_nanos <= u64::MAX / 60,
        ensures
            final(self).wf(),
            final(self)@.dt == timer_sub(old(self)@.dt, timer_change(dt_nanos)),
            final(self)@.st == timer_sub(old(self)@.st, timer_change(dt_nanos)),
            final(self)@ == (Chip8State { dt: final(self)@.dt, st: final(self)@.st, ..old(self)@ }),
    {
        let change: u8 = ((dt_nanos * 60 / 1000000) % 256) as u8;
        self.dt = self.dt.saturating_sub(change);
        self.st = self.st.saturating_sub(change);
    }

    /// Replace the input latch.
    pub fn update_inputs(&mut self, inputs: [bool; 16])
        requires
            old(self).wf(),
        ensures
            final(self).wf(),
            final(self)@.keys == inputs@,
            final(self)@ == (Chip8State { keys: final(self)@.keys, ..old(self)@ }),
    {
        for k in 0..16usize
            invariant
                self.wf(),
                self@.keys.len() == 16,
                forall|j: int| 0 <= j < k ==> self@.keys[j] == inputs@[j],
                self@ == (Chip8State { keys: self@.keys, ..old(self)@ }),
        {
            self.input_state[k] = inputs[k];
        }
        proof {
            assert(self@.keys =~= inputs@);
        }
    }

    /// Value of general register `register`.
    pub fn get_register_value(&mut self, register: u8) -> (v: u8)
        requires
            self.wf(),
            register < 16,
        ensures
            v == old(self)@.regs[register as int],
            final(self)@ == old(self)@,
    {
        self.registers[register as usize]
    }

    /// Current program counter.
    pub fn get_program_counter(&mut self) -> (v: usize)
        requires
            self.wf(),
        ensures
            v == old(self)@.pc,
            final(self)@ == old(self)@,
    {
        self.pc
    }

    /// Current value of the index register.
    pub fn get_i(&mut self) -> (v: u16)
        ensures
            v == old(self)@.i,
            final(self)@ == old(self)@,
    {
        self.i
    }

    /// The memory byte at `addr`.
    pub fn get_mem_at(&mut self, addr: usize) -> (v: u8)
        requires
            self.wf(),
            addr < 4096,
        ensures
            v == old(self)@.mem[addr as int],
            final(self)@ == old(self)@,
    {
        self.mem[addr]
    }

    /// The pixel at `(x, y)`, with coordinate wraparound modulo the
    /// screen dimensions.
    pub fn get_pixel_at(&self, x: u8, y: u8) -> (v: bool)
        requires
            self.wf(),
        ensures
            v == self@.screen[((x % 64) + y * 64) % 2048],
    {
        self.screen_buffer[((x as usize % 64) + y as usize * 64) % 2048]
    }

    /// Current delay-timer value.
    pub fn get_dt(&self) -> (v: u8)
        ensures
            v == self@.dt,
    {
        self.dt
    }

    /// Current sound-timer value.
    pub fn get_st(&self) -> (v: u8)
        ensures
            v == self@.st,
    {
        self.st
    }
}


impl Chip8 {
    /// The error value for an unrecognized or refused instruction word.
    fn invalid(&self, inst: u16) -> (e: OpcodeError)
        requires
            self.wf(),
        ensures
            e.spec_opcode() == inst,
            e.spec_pc() == (self@.pc % 256) as u8,
    {
        OpcodeError::new(inst, (self.pc % 256) as u8)
    }

    fn ld_r_kk(&mut self, x: usize, kk: u8)
        requires
            old(self).wf(),
            x < 16,
        ensures
            final(self).wf(),
            final(self)@ == spec_ld_r_kk(old(self)@, x as int, kk),
    {
        self.registers[x] = kk;
        proof {
            assert(self@ =~= spec_ld_r_kk(old(self)@, x as int, kk));
        }
    }

    fn ld_rx_ry(&mut self, x: usize, y: usize)
        requires
            old(self).wf(),
            x < 16,
            y < 16,
        ensures
            final(self).wf(),
            final(self)@ == spec_ld_rx_ry(old(self)@, x as int, y as int),
    {
        let v: u8 = self.registers[y];
        self.registers[x] = v;
        proof {
            assert(self@ =~= spec_ld_rx_ry(old(self)@, x as int, y as int));
        }
    }

    fn or_rx_ry(&mut self, x: usize, y: usize)
        requires
            old(self).wf(),
            x < 16,
            y < 16,
        ensures
            final(self).wf(),
            final(self)@ == spec_or_rx_ry(old(self)@, x as int, y as int),
    {
        let v: u8 = self.registers[x] | self.registers[y];
        self.registers[x] = v;
        proof {
            assert(self@ =~= spec_or_rx_ry(old(self)@, x as int, y as int));
        }
    }

    fn and_rx_ry(&mut self, x: usize, y: usize)
        requires
            old(self).wf(),
            x < 16,
            y < 16,
        ensures
            final(self).wf(),
            final(self)@ == spec_and_rx_ry(old(self)@, x as int, y as int),
    {
        let v: u8 = self.registers[x] & self.registers[y];
        self.registers[x] = v;
        proof {
            assert(self@ =~= spec_and_rx_ry(old(self)@, x as int, y as int));
        }
    }

    fn xor_rx_ry(&mut self, x: usize, y: usize)
        requires
            old(self).wf(),
            x < 16,
            y < 16,
        ensures
            final(self).wf(),
            final(self)@ == spec_xor_rx_ry(old(self)@, x as int, y as int),
    {
        let v: u8 = self.registers[x] ^ self.registers[y];
        self.registers[x] = v;
        proof {
            assert(self@ =~= spec_xor_rx_ry(old(self)@, x as int, y as int));
        }
    }

    fn add_rx_ry(&mut self, x: usize, y: usize)
        requires
            old(self).wf(),
            x < 16,
            y < 16,
        ensures
            final(self).wf(),
            final(self)@ == spec_add_rx_ry(old(self)@, x as int, y as int),
    {
        let a: u8 = self.registers[x];
        let b: u8 = self.registers[y];
        let sum: u16 = a as u16 + b as u16;
        self.registers[x] = a.wrapping_add(b);
        self.registers[15] = if sum > 0xFF { 1 } else { 0 };
        proof {
            assert(self@ =~= spec_add_rx_ry(old(self)@, x as int, y as int));
        }
    }

    fn sub_rx_ry(&mut self, x: usize, y: usize)
        requires
            old(self).wf(),
            x < 16,
            y < 16,
        ensures
            final(self).wf(),
            final(self)@ == spec_sub_rx_ry(old(self)@, x as int, y as int),
    {
        let vf: u8 = if self.registers[y] > self.registers[x] { 1 } else { 0 };
        self.registers[15] = vf;
        let a: u8 = self.registers[x];
        let b: u8 = self.registers[y];
        self.registers[x] = a.wrapping_sub(b);
        proof {
            assert(self@ =~= spec_sub_rx_ry(old(self)@, x as int, y as int));
        }
    }

    fn subn_rx_ry(&mut self, x: usize, y: usize)
        requires
            old(self).wf(),
            x < 16,
            y < 16,
        ensures
            final(self).wf(),
            final(self)@ == spec_subn_rx_ry(old(self)@, x as int, y as int),
    {
        let vf: u8 = if self.registers[x] > self.registers[y] { 1 } else { 0 };
        self.registers[15] = vf;
        let a: u8 = self.registers[x];
        let b: u8 = self.registers[y];
        self.registers[x] = b.wrapping_sub(a);
        proof {
            assert(self@ =~= spec_subn_rx_ry(old(self)@, x as int, y as int));
        }
    }

    fn shr(&mut self, x: usize)
        requires
            old(self).wf(),
            x < 16,
        ensures
            final(self).wf(),
            final(self)@ == spec_shr(old(self)@, x as int),
    {
        let vf: u8 = if self.registers[x] & 1 == 1 { 1 } else { 0 };
        self.registers[15] = vf;
        let v: u8 = self.registers[x];
        self.registers[x] = v >> 1;
        proof {
            assert(self@ =~= spec_shr(old(self)@, x as int));
        }
    }

    fn shl(&mut self, x: usize)
        requires
            old(self).wf(),
            x < 16,
        ensures
            final(self).wf(),
            final(self)@ == spec_shl(old(self)@, x as int),
    {
        let vf: u8 = if self.registers[x] & 0x80 == 0x80 { 1 } else { 0 };
        self.registers[15] = vf;
        let v: u8 = self.registers[x];
        self.registers[x] = v << 1;
        proof {
            assert(self@ =~= spec_shl(old(self)@, x as int));
        }
    }

    fn clr(&mut self)
        requires
            old(self).wf(),
        ensures
            final(self).wf(),
            final(self)@ == spec_clr(old(self)@),
    {
        self.screen_buffer = filled(2048, false);
        proof {
            assert(self@ =~= spec_clr(old(self)@));
        }
    }

    fn ret(&mut self)
        requires
            old(self).wf(),
            old(self)@.sp >= 1,
        ensures
            final(self).wf(),
            final(self)@ == spec_ret(old(self)@),
    {
        self.sp = self.sp - 1;
        self.pc = self.stack[self.sp] as usize;
        proof {
            assert(self@ =~= spec_ret(old(self)@));
        }
    }

    fn jmp(&mut self, addr: u16)
        requires
            old(self).wf(),
            addr < 0x1000,
        ensures
            final(self).wf(),
            final(self)@ == spec_jmp(old(self)@, addr as int),
    {
        self.pc = (addr as usize + 0x10000 - 2) % 0x10000;
        proof {
            assert(self@ =~= spec_jmp(old(self)@, addr as int));
        }
    }

    fn jmp_r0(&mut self, addr: u16)
        requires
            old(self).wf(),
            addr < 0x1000,
        ensures
            final(self).wf(),
            final(self)@ == spec_jmp_r0(old(self)@, addr as int),
    {
        let target: usize = addr as usize + self.registers[0] as usize;
        self.pc = (target + 0x10000 - 2) % 0x10000;
        proof {
            assert(self@ =~= spec_jmp_r0(old(self)@, addr as int));
        }
    }

    fn call(&mut self, addr: u16)
        requires
            old(self).wf(),
            old(self)@.sp < 16,
            addr < 0x1000,
        ensures
            final(self).wf(),
            final(self)@ == spec_call(old(self)@, addr as int),
    {
        self.stack[self.sp] = self.pc as u16;
        self.sp = self.sp + 1;
        self.pc = addr as usize;
        proof {
            assert(self@ =~= spec_call(old(self)@, addr as int));
        }
    }

    fn se_r_kk(&mut self, x: usize, kk: u8)
        requires
            old(self).wf(),
            x < 16,
        ensures
            final(self).wf(),
            final(self)@ == spec_se_r_kk(old(self)@, x as int, kk),
    {
        if self.registers[x] == kk {
            self.pc = (self.pc + 2) % 0x10000;
        }
        proof {
            assert(self@ =~= spec_se_r_kk(old(self)@, x as int, kk));
        }
    }

    fn sne_r_kk(&mut self, x: usize, kk: u8)
        requires
            old(self).wf(),
            x < 16,
        ensures
            final(self).wf(),
            final(self)@ == spec_sne_r_kk(old(self)@, x as int, kk),
    {
        if self.registers[x] != kk {
            self.pc = (self.pc + 2) % 0x10000;
        }
        proof {
            assert(self@ =~= spec_sne_r_kk(old(self)@, x as int, kk));
        }
    }

    fn se_rx_ry(&mut self, x: usize, y: usize)
        requires
            old(self).wf(),
            x < 16,
            y < 16,
        ensures
            final(self).wf(),
            final(self)@ == spec_se_rx_ry(old(self)@, x as int, y as int),
    {
        if self.registers[x] == self.registers[y] {
            self.pc = (self.pc + 2) % 0x10000;
        }
        proof {
            assert(self@ =~= spec_se_rx_ry(old(self)@, x as int, y as int));
        }
    }

    fn sne_rx_ry(&mut self, x: usize, y: usize)
        requires
            old(self).wf(),
            x < 16,
            y < 16,
        ensures
            final(self).wf(),
            final(self)@ == spec_sne_rx_ry(old(self)@, x as int, y as int),
    {
        if self.registers[x] != self.registers[y] {
            self.pc = (self.pc + 2) % 0x10000;
        }
        proof {
            assert(self@ =~= spec_sne_rx_ry(old(self)@, x as int, y as int));
        }
    }

    fn skp_r(&mut self, x: usize)
        requires
            old(self).wf(),
            x < 16,
        ensures
            final(self).wf(),
            final(self)@ == spec_skp(old(self)@, x as int),
    {
        proof {
            crate::bits::lemma_u8_low_nibble(self.registers@[x as int]);
        }
        let key: usize = (self.registers[x] & 0xF) as usize;
        if self.input_state[key] {
            self.pc = (self.pc + 2) % 0x10000;
        }
        proof {
            assert(self@ =~= spec_skp(old(self)@, x as int));
        }
    }

    fn sknp_r(&mut self, x: usize)
        requires
            old(self).wf(),
            x < 16,
        ensures
            final(self).wf(),
            final(self)@ == spec_sknp(old(self)@, x as int),
    {
        proof {
            crate::bits::lemma_u8_low_nibble(self.registers@[x as int]);
        }
        let key: usize = (self.registers[x] & 0xF) as usize;
        if !self.input_state[key] {
            self.pc = (self.pc + 2) % 0x10000;
        }
        proof {
            assert(self@ =~= spec_sknp(old(self)@, x as int));
        }
    }

    fn ld_r_kp(&mut self, x: usize)
        requires
            old(self).wf(),
            x < 16,
        ensures
            final(self).wf(),
            final(self)@ == spec_ld_r_kp(old(self)@, x as int),
    {
        let mut found: bool = false;
        let mut idx: u8 = 0;
        for k in 0..16usize
            invariant
                self.wf(),
                self@ == old(self)@,
                !found ==> first_pressed(self@.keys, k as int) == first_pressed(self@.keys, 0),
                found ==> Some(idx) == first_pressed(self@.keys, 0),
        {
            if !found && self.input_state[k] {
                found = true;
                idx = k as u8;
            }
        }
        if found {
            self.registers[x] = idx;
        } else {
            self.pc = (self.pc + 0x10000 - 2) % 0x10000;
        }
        proof {
            assert(self@ =~= spec_ld_r_kp(old(self)@, x as int));
        }
    }

    fn ld_i(&mut self, addr: u16)
        requires
            old(self).wf(),
            addr < 0x1000,
        ensures
            final(self).wf(),
            final(self)@ == spec_ld_i(old(self)@, addr as int),
    {
        self.i = addr;
        proof {
            assert(self@ =~= spec_ld_i(old(self)@, addr as int));
        }
    }

    fn add_i_r(&mut self, x: usize)
        requires
            old(self).wf(),
            x < 16,
        ensures
            final(self).wf(),
            final(self)@ == spec_add_i_r(old(self)@, x as int),
    {
        self.i = self.i.wrapping_add(self.registers[x] as u16);
        proof {
            assert(self@ =~= spec_add_i_r(old(self)@, x as int));
        }
    }

    fn add_r_kk(&mut self, x: usize, kk: u8)
        requires
            old(self).wf(),
            x < 16,
        ensures
            final(self).wf(),
            final(self)@ == spec_add_r_kk(old(self)@, x as int, kk),
    {
        let v: u8 = self.registers[x];
        self.registers[x] = v.wrapping_add(kk);
        proof {
            assert(self@ =~= spec_add_r_kk(old(self)@, x as int, kk));
        }
    }

    fn rand(&mut self, x: usize, kk: u8) -> (b: u8)
        requires
            old(self).wf(),
            x < 16,
        ensures
            final(self).wf(),
            b < 0xFF,
            final(self)@ == spec_rand(old(self)@, x as int, kk, b),
    {
        let b: u8 = random_below_255();
        self.registers[x] = b & kk;
        proof {
            assert(self@ =~= spec_rand(old(self)@, x as int, kk, b));
        }
        b
    }

    fn ld_st_r(&mut self, x: usize)
        requires
            old(self).wf(),
            x < 16,
        ensures
            final(self).wf(),
            final(self)@ == spec_ld_st_r(old(self)@, x as int),
    {
        self.st = self.registers[x];
        proof {
            assert(self@ =~= spec_ld_st_r(old(self)@, x as int));
        }
    }

    fn ld_dt_r(&mut self, x: usize)
        requires
            old(self).wf(),
            x < 16,
        ensures
            final(self).wf(),
            final(self)@ == spec_ld_dt_r(old(self)@, x as int),
    {
        self.dt = self.registers[x];
        proof {
            assert(self@ =~= spec_ld_dt_r(old(self)@, x as int));
        }
    }

    fn ld_r_dt(&mut self, x: usize)
        requires
            old(self).wf(),
            x < 16,
        ensures
            final(self).wf(),
            final(self)@ == spec_ld_r_dt(old(self)@, x as int),
    {
        self.registers[x] = self.dt;
        proof {
            assert(self@ =~= spec_ld_r_dt(old(self)@, x as int));
        }
    }

    fn store_at_i(&mut self, n: usize)
        requires
            old(self).wf(),
            n < 16,
        ensures
            final(self).wf(),
            final(self)@ == spec_store_at_i(old(self)@, n as int),
    {
        let base: usize = self.i as usize;
        for j in 0..(n + 1)
            invariant
                self.wf(),
                n < 16,
                base == old(self)@.i,
                store_regs(self@.mem, old(self)@.regs, base as int, n as int, j as int)
                    == store_regs(old(self)@.mem, old(self)@.regs, base as int, n as int, 0),
                self@ == (Chip8State { mem: self@.mem, ..old(self)@ }),
        {
            self.mem[(base + j) % 4096] = self.registers[j];
        }
        proof {
            assert(self@ =~= spec_store_at_i(old(self)@, n as int));
        }
    }

    fn load_from_i(&mut self, n: usize)
        requires
            old(self).wf(),
            n < 16,
        ensures
            final(self).wf(),
            final(self)@ == spec_load_from_i(old(self)@, n as int),
    {
        let base: usize = self.i as usize;
        for j in 0..(n + 1)
            invariant
                self.wf(),
                n < 16,
                base == old(self)@.i,
                load_regs(self@.regs, old(self)@.mem, base as int, n as int, j as int)
                    == load_regs(old(self)@.regs, old(self)@.mem, base as int, n as int, 0),
                self@ == (Chip8State { regs: self@.regs, ..old(self)@ }),
        {
            self.registers[j] = self.mem[(base + j) % 4096];
        }
        proof {
            assert(self@ =~= spec_load_from_i(old(self)@, n as int));
        }
    }

    fn draw(&mut self, rx: usize, ry: usize, n: usize)
        requires
            old(self).wf(),
            rx < 16,
            ry < 16,
            n < 16,
        ensures
            final(self).wf(),
            final(self)@ == spec_draw(old(self)@, rx as int, ry as int, n as int),
    {
        let px: usize = self.registers[rx] as usize;
        let py: usize = self.registers[ry] as usize;
        let base: usize = self.i as usize;
        let rows: usize = n + 1;
        let ghost mem0 = old(self)@.mem;
        let ghost target = draw_rows(
            old(self)@.screen,
            old(self)@.regs[15],
            mem0,
            base as int,
            px as int,
            py as int,
            rows as int,
            0,
        );
        proof {
            assert(old(self)@.regs.update(15, old(self)@.regs[15]) =~= old(self)@.regs);
        }
        for j in 0..rows
            invariant
                self.wf(),
                old(self).wf(),
                px < 256,
                py < 256,
                rows == n + 1 <= 16,
                base == old(self)@.i,
                mem0 == old(self)@.mem,
                target == draw_rows(
                    old(self)@.screen,
                    old(self)@.regs[15],
                    mem0,
                    base as int,
                    px as int,
                    py as int,
                    rows as int,
                    0,
                ),
                self@.regs == old(self)@.regs.update(15, self@.regs[15]),
                draw_rows(
                    self@.screen,
                    self@.regs[15],
                    mem0,
                    base as int,
                    px as int,
                    py as int,
                    rows as int,
                    j as int,
                ) == target,
                self@ == (Chip8State { screen: self@.screen, regs: self@.regs, ..old(self)@ }),
        {
            let val: u8 = self.mem[(base + j) % 4096];
            for k in 0..8usize
                invariant
                    self.wf(),
                    old(self).wf(),
                    px < 256,
                    py < 256,
                    rows == n + 1 <= 16,
                    j < rows,
                    base == old(self)@.i,
                    mem0 == old(self)@.mem,
                    val == mem0[(base as int + j) % 4096],
                    target == draw_rows(
                        old(self)@.screen,
                        old(self)@.regs[15],
                        mem0,
                        base as int,
                        px as int,
                        py as int,
                        rows as int,
                        0,
                    ),
                    self@.regs == old(self)@.regs.update(15, self@.regs[15]),
                    ({
                        let t = draw_row(
                            self@.screen,
                            self@.regs[15],
                            px as int,
                            py as int + j,
                            val,
                            k as int,
                        );
                        draw_rows(
                            t.0,
                            t.1,
                            mem0,
                            base as int,
                            px as int,
                            py as int,
                            rows as int,
                            j as int + 1,
                        ) == target
                    }),
                    self@ == (Chip8State { screen: self@.screen, regs: self@.regs, ..old(self)@ }),
            {
                let ghost scr_pre = self@.screen;
                let ghost vf_pre = self@.regs[15];
                let sh: u8 = 7 - k as u8;
                let p: bool = (val >> sh) & 1 == 1;
                proof {
                    assert(p == sprite_bit(val, k as int));
                }
                let coord: usize = ((py + j) % 32) * 64 + ((px + k) % 64);
                let cur: bool = self.screen_buffer[coord];
                if p && cur {
                    self.registers[15] = 1;
                }
                self.screen_buffer[coord] = p != cur;
                proof {
                    let t = draw_bit(scr_pre, vf_pre, px as int + k, py as int + j, sprite_bit(val, k as int));
                    assert(self@.screen =~= t.0);
                    assert(self@.regs[15] == t.1);
                    assert(self@.regs =~= old(self)@.regs.update(15, self@.regs[15]));
                }
            }
        }
        proof {
            assert(self@ =~= spec_draw(old(self)@, rx as int, ry as int, n as int));
        }
    }

    /// Execute a single instruction word. Does not advance the program
    /// counter and does not touch the timers. A recognized word
    /// performs its documented transition; an unrecognized word, a call
    /// with a full stack and a return with an empty stack change
    /// nothing and return the error.
    pub fn execute(&mut self, inst: u16) -> (r: Result<(), OpcodeError>)
        requires
            old(self).wf(),
        ensures
            final(self).wf(),
            r is Ok <==> spec_ok(old(self)@, inst),
            op_cat(inst) != 0xC ==> final(self)@ == spec_execute(old(self)@, inst, 0),
            op_cat(inst) == 0xC ==> (exists|b: u8|
                b < 0xFF && final(self)@ == spec_execute(old(self)@, inst, b)),
            r matches Err(e) ==> {
                &&& e.spec_opcode() == inst
                &&& e.spec_pc() == (old(self)@.pc % 256) as u8
                &&& final(self)@ == old(self)@
            },
    {
        proof {
            lemma_decode(inst);
        }
        let ghost s0 = self@;
        let ghost mut rnd_used: u8 = 0u8;
        match inst >> 12 {
            0x0 => {
                if inst & 0xFFF == 0x0E0 {
                    self.clr();
                } else if inst & 0xFFF == 0x0EE {
                    if self.sp == 0 {
                        return Err(self.invalid(inst));
                    }
                    self.ret();
                } else {
                    return Err(self.invalid(inst));
                }
                proof {
                    assert(spec_ok(s0, inst) && self@ == spec_dispatch(s0, inst, rnd_used));
                }
            },
            0x1 => {
                self.jmp(addr_nnn(inst));
                proof {
                    assert(spec_ok(s0, inst) && self@ == spec_dispatch(s0, inst, rnd_used));
                }
            },
            0x2 => {
                if self.sp >= 16 {
                    return Err(self.invalid(inst));
                }
                self.call(addr_nnn(inst));
                proof {
                    assert(spec_ok(s0, inst) && self@ == spec_dispatch(s0, inst, rnd_used));
                }
            },
            0x3 => {
                let x = reg_x(inst);
                let kk = imm_kk(inst);
                self.se_r_kk(x, kk);
                proof {
                    assert(spec_ok(s0, inst) && self@ == spec_dispatch(s0, inst, rnd_used));
                }
            },
            0x4 => {
                let x = reg_x(inst);
                let kk = imm_kk(inst);
                self.sne_r_kk(x, kk);
                proof {
                    assert(spec_ok(s0, inst) && self@ == spec_dispatch(s0, inst, rnd_used));
                }
            },
            0x5 => {
                if inst & 0xF != 0 {
                    return Err(self.invalid(inst));
                }
                let x = reg_x(inst);
                let y = reg_y(inst);
                self.se_rx_ry(x, y);
                proof {
                    assert(spec_ok(s0, inst) && self@ == spec_dispatch(s0, inst, rnd_used));
                }
            },
            0x6 => {
                let x = reg_x(inst);
                let kk = imm_kk(inst);
                self.ld_r_kk(x, kk);
                proof {
                    assert(spec_ok(s0, inst) && self@ == spec_dispatch(s0, inst, rnd_used));
                }
            },
            0x7 => {
                let x = reg_x(inst);
                let kk = imm_kk(inst);
                self.add_r_kk(x, kk);
                proof {
                    assert(spec_ok(s0, inst) && self@ == spec_dispatch(s0, inst, rnd_used));
                }
            },
            0x8 => {
                let x = reg_x(inst);
                let y = reg_y(inst);
                match inst & 0xF {
                    0x0 => self.ld_rx_ry(x, y),
                    0x1 => self.or_rx_ry(x, y),
                    0x2 => self.and_rx_ry(x, y),
                    0x3 => self.xor_rx_ry(x, y),
                    0x4 => self.add_rx_ry(x, y),
                    0x5 => self.sub_rx_ry(x, y),
                    0x6 => self.shr(x),
                    0x7 => self.subn_rx_ry(x, y),
                    0xE => self.shl(x),
                    _ => {
                        return Err(self.invalid(inst));
                    },
                }
                proof {
                    assert(spec_ok(s0, inst) && self@ == spec_dispatch(s0, inst, rnd_used));
                }
            },
            0x9 => {
                if inst & 0xF != 0 {
                    return Err(self.invalid(inst));
                }
                let x = reg_x(inst);
                let y = reg_y(inst);
                self.sne_rx_ry(x, y);
                proof {
                    assert(spec_ok(s0, inst) && self@ == spec_dispatch(s0, inst, rnd_used));
                }
            },
            0xA => {
                self.ld_i(addr_nnn(inst));
                proof {
                    assert(spec_ok(s0, inst) && self@ == spec_dispatch(s0, inst, rnd_used));
                }
            },
            0xB => {
                self.jmp_r0(addr_nnn(inst));
                proof {
                    assert(spec_ok(s0, inst) && self@ == spec_dispatch(s0, inst, rnd_used));
                }
            },
            0xC => {
                let x = reg_x(inst);
                let kk = imm_kk(inst);
                let b: u8 = self.rand(x, kk);
                proof {
                    rnd_used = b;
                    assert(spec_ok(s0, inst) && self@ == spec_dispatch(s0, inst, rnd_used));
                }
            },
            0xD => {
                let x = reg_x(inst);
                let y = reg_y(inst);
                let n = imm_n(inst);
                self.draw(x, y, n);
                proof {
                    assert(spec_ok(s0, inst) && self@ == spec_dispatch(s0, inst, rnd_used));
                }
            },
            0xE => {
                let x = reg_x(inst);
                match inst & 0xFF {
                    0x9E => self.skp_r(x),
                    0xA1 => self.sknp_r(x),
                    _ => {
                        return Err(self.invalid(inst));
                    },
                }
                proof {
                    assert(spec_ok(s0, inst) && self@ == spec_dispatch(s0, inst, rnd_used));
                }
            },
            0xF => {
                let x = reg_x(inst);
                match inst & 0xFF {
                    0x07 => self.ld_r_dt(x),
                    0x0A => self.ld_r_kp(x),
                    0x15 => self.ld_dt_r(x),
                    0x18 => self.ld_st_r(x),
                    0x1E => self.add_i_r(x),
                    0x55 => self.store_at_i(x),
                    0x65 => self.load_from_i(x),
                    _ => {
                        return Err(self.invalid(inst));
                    },
                }
                proof {
                    assert(spec_ok(s0, inst) && self@ == spec_dispatch(s0, inst, rnd_used));
                }
            },
            _ => {
                proof {
                    assert(false);
                }
                return Err(self.invalid(inst));
            },
        }
        proof {
            assert(self@ =~= spec_execute(s0, inst, rnd_used));
        }
        Ok(())
    }

    /// Fetch the big-endian instruction word at the program counter,
    /// execute it, then advance the program counter by two.
    pub fn step(&mut self) -> (r: Result<(), OpcodeError>)
        requires
            old(self).wf(),
        ensures
            final(self).wf(),
            r is Ok <==> spec_ok(old(self)@, spec_fetch(old(self)@)),
            op_cat(spec_fetch(old(self)@)) != 0xC ==> final(self)@ == spec_step(old(self)@, 0),
            op_cat(spec_fetch(old(self)@)) == 0xC ==> (exists|b: u8|
                b < 0xFF && final(self)@ == spec_step(old(self)@, b)),
            r matches Err(e) ==> {
                &&& e.spec_opcode() == spec_fetch(old(self)@)
                &&& e.spec_pc() == (old(self)@.pc % 256) as u8
            },
    {
        let hi: u8 = self.mem[self.pc % 4096];
        let lo: u8 = self.mem[(self.pc + 1) % 4096];
        let inst: u16 = ((hi as u16) << 8) | (lo as u16);
        proof {
            lemma_bytes_to_word(hi, lo);
            assert(inst == spec_fetch(old(self)@));
        }
        let r = self.execute(inst);
        let ghost mid = self@;
        self.pc = (self.pc + 2) % 0x10000;
        proof {
            if op_cat(inst) == 0xC {
                let b = choose|b: u8| b < 0xFF && mid == spec_execute(old(self)@, inst, b);
                assert(self@ =~= spec_step(old(self)@, b));
            } else {
                assert(self@ =~= spec_step(old(self)@, 0));
            }
        }
        r
    }
}

} // verus!
