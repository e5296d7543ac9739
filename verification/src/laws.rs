//! Laws of the instruction set, proved once and for all states.
//!
//! Each lemma quantifies over every well-formed machine state and every
//! instruction word of the family concerned, through the operand
//! fields of [`crate::bits`]. The lemmas speak about
//! [`crate::processor::spec_execute`], which is what the `execute`
//! method of the processor is proved to implement.

use crate::bits::{lemma_field_bounds, op_cat, op_n, op_nnn, op_x, op_y, sprite_bit};
use crate::processor::{
    draw_bit, draw_row, draw_rows, pc_back2, spec_execute, spec_ok, wf_state, MachineState,
};
use vstd::prelude::*;

verus! {

/// ADD (8xy4): the flag reports the carry exactly. `VF` becomes 1
/// precisely when the 9-bit sum exceeds 0xFF — so any pair summing to
/// at most 0xFF leaves `VF` at 0 — and the destination register takes
/// the 8-bit wrapping sum (unless the destination is `VF` itself,
/// which the flag write overrides).
pub proof fn lemma_add_carry_flag(s: MachineState, inst: u16, rnd: u8)
    requires
        wf_state(s),
        op_cat(inst) == 0x8,
        op_n(inst) == 0x4,
    ensures
        ({
            let s2 = spec_execute(s, inst, rnd);
            let x = op_x(inst);
            let y = op_y(inst);
            &&& spec_ok(s, inst)
            &&& s2.regs[15] == (if s.regs[x] + s.regs[y] > 0xFF { 1u8 } else { 0u8 })
            &&& (x != 15 ==> s2.regs[x] == s.regs[x].wrapping_add(s.regs[y]))
        }),
{
    lemma_field_bounds(inst);
}

/// SUB (8xy5): `VF` ends 0 exactly when `Vy > Vx`, and the result is
/// the 8-bit wrapping difference `Vx - Vy` regardless of the flag
/// (unless the destination is `VF` itself).
pub proof fn lemma_sub_borrow_flag(s: MachineState, inst: u16, rnd: u8)
    requires
        wf_state(s),
        op_cat(inst) == 0x8,
        op_n(inst) == 0x5,
    ensures
        ({
            let s2 = spec_execute(s, inst, rnd);
            let x = op_x(inst);
            let y = op_y(inst);
            &&& spec_ok(s, inst)
            &&& (s2.regs[15] == 0 <==> s.regs[y] > s.regs[x])
            &&& (x != 15 ==> s2.regs[x] == s.regs[x].wrapping_sub(s.regs[y]))
        }),
{
    lemma_field_bounds(inst);
}

/// SHR (8xy6): the source of the shift is `Vy`, not `Vx`, and `VF`
/// becomes the bit shifted out of `Vy` — its least significant bit.
pub proof fn lemma_shr_source_and_flag(s: MachineState, inst: u16, rnd: u8)
    requires
        wf_state(s),
        op_cat(inst) == 0x8,
        op_n(inst) == 0x6,
    ensures
        ({
            let s2 = spec_execute(s, inst, rnd);
            let x = op_x(inst);
            let y = op_y(inst);
            &&& spec_ok(s, inst)
            &&& s2.regs[15] == (if s.regs[y] & 1 == 1 { 1u8 } else { 0u8 })
            &&& (x != 15 ==> s2.regs[x] == s.regs[y] >> 1)
        }),
{
    lemma_field_bounds(inst);
}

/// SHL (8xyE): the source of the shift is `Vy`, not `Vx`, and `VF`
/// becomes the bit shifted out of `Vy` — its most significant bit.
pub proof fn lemma_shl_source_and_flag(s: MachineState, inst: u16, rnd: u8)
    requires
        wf_state(s),
        op_cat(inst) == 0x8,
        op_n(inst) == 0xE,
    ensures
        ({
            let s2 = spec_execute(s, inst, rnd);
            let x = op_x(inst);
            let y = op_y(inst);
            &&& spec_ok(s, inst)
            &&& s2.regs[15] == (if s.regs[y] & 0x80 == 0x80 { 1u8 } else { 0u8 })
            &&& (x != 15 ==> s2.regs[x] == s.regs[y] << 1)
        }),
{
    lemma_field_bounds(inst);
}

/// OR/AND/XOR (8xy1, 8xy2, 8xy3): whatever value `VF` held before —
/// even one that is neither 0 nor 1 — it is 0 after any of the three
/// logic instructions, between any two registers.
pub proof fn lemma_logic_ops_clear_flag(s: MachineState, inst: u16, rnd: u8)
    requires
        wf_state(s),
        op_cat(inst) == 0x8,
        1 <= op_n(inst) <= 3,
    ensures
        spec_ok(s, inst),
        spec_execute(s, inst, rnd).regs[15] == 0,
{
    lemma_field_bounds(inst);
}

/// CALL then RET (2nnn then 00EE): the return restores the program
/// counter and the stack pointer to their values before the call, and
/// the stack below the pointer, the registers, the memory and the
/// screen are untouched. Applied at each level, this is the stack
/// discipline that lets calls nest to depth 16 and unwind fully.
pub proof fn lemma_call_ret_restores_pc(s: MachineState, inst: u16, rnd1: u8, rnd2: u8)
    requires
        wf_state(s),
        op_cat(inst) == 0x2,
        s.sp < 16,
    ensures
        ({
            let s1 = spec_execute(s, inst, rnd1);
            let s2 = spec_execute(s1, 0x00EE, rnd2);
            &&& spec_ok(s, inst)
            &&& spec_ok(s1, 0x00EE)
            &&& s1.pc == pc_back2(op_nnn(inst))
            &&& s1.sp == s.sp + 1
            &&& s2.pc == s.pc
            &&& s2.sp == s.sp
            &&& s2.regs == s.regs
            &&& s2.mem == s.mem
            &&& s2.screen == s.screen
            &&& (forall|j: int| 0 <= j < s.sp ==> s2.stack[j] == s.stack[j])
        }),
{
    lemma_field_bounds(inst);
    assert(op_cat(0x00EE) == 0 && op_nnn(0x00EE) == 0x0EE);
}

proof fn lemma_draw_row_frame(scr: Seq<bool>, vf: u8, x: int, y: int, val: u8, k: int, c: int)
    requires
        scr.len() == 2048,
        0 <= c < scr.len(),
        0 <= x,
        0 <= y,
        c % 64 < x || c % 64 >= x + 8 || c / 64 != y,
    ensures
        draw_row(scr, vf, x, y, val, k).0.len() == scr.len(),
        draw_row(scr, vf, x, y, val, k).0[c] == scr[c],
    decreases 8 - k,
{
    if 0 <= k < 8 {
        let t = draw_bit(scr, vf, x + k, y, sprite_bit(val, k));
        if x + k < 64 && y < 32 {
            let coord = y * 64 + (x + k);
            vstd::arithmetic::div_mod::lemma_fundamental_div_mod_converse_div(coord, 64, y, x + k);
            vstd::arithmetic::div_mod::lemma_fundamental_div_mod_converse_mod(coord, 64, y, x + k);
            assert(coord / 64 == y && coord % 64 == x + k);
            assert(coord != c);
            assert(t.0[c] == scr[c]);
        }
        lemma_draw_row_frame(t.0, t.1, x, y, val, k + 1, c);
    }
}

proof fn lemma_draw_rows_frame(
    scr: Seq<bool>,
    vf: u8,
    mem: Seq<u8>,
    i: int,
    x: int,
    y: int,
    n: int,
    j: int,
    c: int,
)
    requires
        scr.len() == 2048,
        0 <= c < scr.len(),
        0 <= x,
        0 <= y,
        0 <= j,
        c % 64 < x || c % 64 >= x + 8 || c / 64 < y + j || c / 64 >= y + n,
    ensures
        draw_rows(scr, vf, mem, i, x, y, n, j).0.len() == scr.len(),
        draw_rows(scr, vf, mem, i, x, y, n, j).0[c] == scr[c],
    decreases n - j,
{
    if j < n {
        let t = draw_row(scr, vf, x, y + j, mem[(i + j) % 4096], 0);
        lemma_draw_row_frame(scr, vf, x, y + j, mem[(i + j) % 4096], 0, c);
        lemma_draw_rows_frame(t.0, t.1, mem, i, x, y, n, j + 1, c);
    }
}

/// DRW (Dxyn) clips instead of wrapping: a pixel whose column is not
/// in `[Vx mod 64, Vx mod 64 + 8)` or whose row is not in
/// `[Vy mod 32, Vy mod 32 + n)` keeps its value. In particular an
/// 8-wide sprite drawn at column 60 leaves columns 0..4 untouched
/// rather than wrapping onto them. (`Vx` and `Vy` are read after `VF`
/// is cleared.)
pub proof fn lemma_draw_touches_only_sprite_rect(s: MachineState, inst: u16, rnd: u8, c: int)
    requires
        wf_state(s),
        op_cat(inst) == 0xD,
        0 <= c < 2048,
        ({
            let regs0 = s.regs.update(15, 0u8);
            let px = regs0[op_x(inst)] % 64;
            let py = regs0[op_y(inst)] % 32;
            c % 64 < px || c % 64 >= px + 8 || c / 64 < py || c / 64 >= py + op_n(inst)
        }),
    ensures
        spec_execute(s, inst, rnd).screen[c] == s.screen[c],
{
    lemma_field_bounds(inst);
    let regs0 = s.regs.update(15, 0u8);
    let px = (regs0[op_x(inst)] % 64) as int;
    let py = (regs0[op_y(inst)] % 32) as int;
    lemma_draw_rows_frame(s.screen, 0u8, s.mem, s.i as int, px, py, op_n(inst), 0, c);
}

} // verus!
