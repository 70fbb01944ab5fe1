//! The three bit layouts of a 32-bit instruction word.
//!
//! | format | 31..26 | 25..21 | 20..16 | 15..11 | 10..6 | 5..0  |
//! |--------|--------|--------|--------|--------|-------|-------|
//! | R      | 0      | rs     | rt     | rd     | shamt | funct |
//! | I      | opcode | rs     | rt     | immediate (16 bits)    |
//! | J      | opcode | address (26 bits)                        |

use vstd::prelude::*;

verus! {

/// Bits 31..26: the opcode.
pub open spec fn opcode_of(word: u32) -> u32 {
    word >> 26
}

/// Bits 25..21: the first source register.
pub open spec fn rs_of(word: u32) -> u32 {
    (word >> 21) & 0x1f
}

/// Bits 20..16: the second source register.
pub open spec fn rt_of(word: u32) -> u32 {
    (word >> 16) & 0x1f
}

/// Bits 15..11: the destination register.
pub open spec fn rd_of(word: u32) -> u32 {
    (word >> 11) & 0x1f
}

/// Bits 10..6: the shift amount.
pub open spec fn shamt_of(word: u32) -> u32 {
    (word >> 6) & 0x1f
}

/// Bits 5..0: the function code.
pub open spec fn funct_of(word: u32) -> u32 {
    word & 0x3f
}

/// Bits 15..0: the immediate, read without sign extension.
pub open spec fn immediate_of(word: u32) -> u32 {
    word & 0xffff
}

/// Bits 25..0: the jump address.
pub open spec fn address_of(word: u32) -> u32 {
    word & 0x3ff_ffff
}

/// The register-format word with the given fields; its opcode is zero.
pub open spec fn pack_r(rs: u32, rt: u32, rd: u32, shamt: u32, funct: u32) -> u32 {
    funct | (shamt << 6) | (rd << 11) | (rt << 16) | (rs << 21)
}

/// The immediate-format word with the given fields. Only the low 16 bits of
/// `immediate` are kept.
pub open spec fn pack_i(opcode: u32, rs: u32, rt: u32, immediate: u32) -> u32 {
    (immediate & 0xffff) | (rt << 16) | (rs << 21) | (opcode << 26)
}

/// The jump-format word with the given opcode; its address field is zero.
pub open spec fn pack_j(opcode: u32) -> u32 {
    opcode << 26
}

/// A register-format word built from fields that fit gives every field back.
pub proof fn lemma_fields_of_pack_r(rs: u32, rt: u32, rd: u32, shamt: u32, funct: u32)
    requires
        rs < 32,
        rt < 32,
        rd < 32,
        shamt < 32,
        funct < 64,
    ensures
        opcode_of(pack_r(rs, rt, rd, shamt, funct)) == 0,
        rs_of(pack_r(rs, rt, rd, shamt, funct)) == rs,
        rt_of(pack_r(rs, rt, rd, shamt, funct)) == rt,
        rd_of(pack_r(rs, rt, rd, shamt, funct)) == rd,
        shamt_of(pack_r(rs, rt, rd, shamt, funct)) == shamt,
        funct_of(pack_r(rs, rt, rd, shamt, funct)) == funct,
{
    let w = funct | (shamt << 6) | (rd << 11) | (rt << 16) | (rs << 21);
    assert(w >> 26 == 0 && (w >> 21) & 0x1f == rs && (w >> 16) & 0x1f == rt && (w >> 11) & 0x1f
        == rd && (w >> 6) & 0x1f == shamt && w & 0x3f == funct) by (bit_vector)
        requires
            rs < 32,
            rt < 32,
            rd < 32,
            shamt < 32,
            funct < 64,
            w == funct | (shamt << 6) | (rd << 11) | (rt << 16) | (rs << 21),
    ;
}

/// An immediate-format word built from fields that fit gives every field
/// back, the immediate cut to 16 bits.
pub proof fn lemma_fields_of_pack_i(opcode: u32, rs: u32, rt: u32, immediate: u32)
    requires
        opcode < 64,
        rs < 32,
        rt < 32,
    ensures
        opcode_of(pack_i(opcode, rs, rt, immediate)) == opcode,
        rs_of(pack_i(opcode, rs, rt, immediate)) == rs,
        rt_of(pack_i(opcode, rs, rt, immediate)) == rt,
        immediate_of(pack_i(opcode, rs, rt, immediate)) == immediate & 0xffff,
{
    let w = (immediate & 0xffff) | (rt << 16) | (rs << 21) | (opcode << 26);
    assert(w >> 26 == opcode && (w >> 21) & 0x1f == rs && (w >> 16) & 0x1f == rt && w & 0xffff
        == immediate & 0xffff) by (bit_vector)
        requires
            opcode < 64,
            rs < 32,
            rt < 32,
            w == (immediate & 0xffff) | (rt << 16) | (rs << 21) | (opcode << 26),
    ;
}

/// A jump-format word carries its opcode and a zero address.
pub proof fn lemma_fields_of_pack_j(opcode: u32)
    requires
        opcode < 64,
    ensures
        opcode_of(pack_j(opcode)) == opcode,
        address_of(pack_j(opcode)) == 0,
{
    assert((opcode << 26) >> 26 == opcode && (opcode << 26) & 0x3ff_ffff == 0) by (bit_vector)
        requires
            opcode < 64,
    ;
}

} // verus!
