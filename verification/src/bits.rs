//! Instruction-word decoding and small bit-level helpers shared by the
//! two machines.
//!
//! A CHIP-8 instruction word is 16 bits wide. The operand fields sit at
//! fixed positions: register X in bits 8..12, register Y in bits 4..8,
//! an 8-bit immediate in bits 0..8, a 12-bit address in bits 0..12 and a
//! 4-bit immediate in bits 0..4. The spec functions below define the
//! fields arithmetically; `lemma_decode` connects them to the shift and
//! mask expressions the executable code uses.

use vstd::prelude::*;

verus! {

/// Opcode category: the top nibble of the instruction word.
pub open spec fn op_cat(inst: u16) -> int {
    inst as int / 0x1000
}

/// Register index X: bits 8..12 of the instruction word.
pub open spec fn op_x(inst: u16) -> int {
    (inst as int / 0x100) % 0x10
}

/// Register index Y: bits 4..8 of the instruction word.
pub open spec fn op_y(inst: u16) -> int {
    (inst as int / 0x10) % 0x10
}

/// 4-bit immediate N: bits 0..4 of the instruction word.
pub open spec fn op_n(inst: u16) -> int {
    inst as int % 0x10
}

/// 8-bit immediate KK: bits 0..8 of the instruction word.
pub open spec fn op_kk(inst: u16) -> u8 {
    (inst % 0x100) as u8
}

/// 12-bit address NNN: bits 0..12 of the instruction word.
pub open spec fn op_nnn(inst: u16) -> int {
    inst as int % 0x1000
}

/// High byte of a 16-bit word.
pub open spec fn hi8(w: u16) -> u8 {
    (w / 0x100) as u8
}

/// Low byte of a 16-bit word.
pub open spec fn lo8(w: u16) -> u8 {
    (w % 0x100) as u8
}

/// Bit `k` of a sprite row byte, counted from the most significant bit,
/// so that bit 0 is the leftmost pixel of the row.
pub open spec fn sprite_bit(val: u8, k: int) -> bool {
    (val >> ((7 - k) as u8)) & 1 == 1
}

/// The shift and mask expressions of the executable code compute exactly
/// the arithmetic operand fields.
pub proof fn lemma_decode(inst: u16)
    by (bit_vector)
    ensures
        inst >> 12 == inst / 0x1000,
        (inst >> 8) & 0xF == (inst / 0x100) % 0x10,
        (inst >> 4) & 0xF == (inst / 0x10) % 0x10,
        inst & 0xF == inst % 0x10,
        inst & 0xFF == inst % 0x100,
        inst & 0xFFF == inst % 0x1000,
        inst >> 8 == inst / 0x100,
{
}

/// Range facts about the operand fields and byte halves.
pub proof fn lemma_field_bounds(inst: u16)
    ensures
        0 <= op_cat(inst) < 16,
        0 <= op_x(inst) < 16,
        0 <= op_y(inst) < 16,
        0 <= op_n(inst) < 16,
        0 <= op_nnn(inst) < 0x1000,
        hi8(inst) == inst / 0x100,
        lo8(inst) == inst % 0x100,
{
}

/// The low nibble of a byte is below 16.
pub proof fn lemma_u8_low_nibble(v: u8)
    by (bit_vector)
    ensures
        v & 0xF < 16,
{
}

/// Reassembling a word from its bytes: used when fetching an instruction
/// from two consecutive memory cells.
pub proof fn lemma_bytes_to_word(hi: u8, lo: u8)
    by (bit_vector)
    ensures
        ((hi as u16) << 8) | (lo as u16) == hi as u16 * 0x100 + lo as u16,
{
}

/// A vector of `n` copies of `val`.
pub fn filled<T: Copy>(n: usize, val: T) -> (v: Vec<T>)
    ensures
        v@ == Seq::new(n as nat, |j: int| val),
{
    let mut v: Vec<T> = Vec::new();
    for k in 0..n
        invariant
            v@.len() == k,
            forall|j: int| 0 <= j < k ==> v@[j] == val,
    {
        v.push(val);
    }
    proof {
        assert(v@ =~= Seq::new(n as nat, |j: int| val));
    }
    v
}

/// Register index X of the instruction word, as the executable code
/// extracts it.
pub fn reg_x(inst: u16) -> (r: usize)
    ensures
        r == op_x(inst),
        r < 16,
{
    proof {
        lemma_decode(inst);
    }
    ((inst >> 8) & 0xF) as usize
}

/// Register index Y of the instruction word.
pub fn reg_y(inst: u16) -> (r: usize)
    ensures
        r == op_y(inst),
        r < 16,
{
    proof {
        lemma_decode(inst);
    }
    ((inst >> 4) & 0xF) as usize
}

/// The 4-bit immediate of the instruction word.
pub fn imm_n(inst: u16) -> (r: usize)
    ensures
        r == op_n(inst),
        r < 16,
{
    proof {
        lemma_decode(inst);
    }
    (inst & 0xF) as usize
}

/// The 8-bit immediate of the instruction word.
pub fn imm_kk(inst: u16) -> (r: u8)
    ensures
        r == op_kk(inst),
{
    proof {
        lemma_decode(inst);
    }
    (inst & 0xFF) as u8
}

/// The 12-bit address of the instruction word.
pub fn addr_nnn(inst: u16) -> (r: u16)
    ensures
        r == op_nnn(inst),
        r < 0x1000,
{
    proof {
        lemma_decode(inst);
    }
    inst & 0xFFF
}

} // verus!
