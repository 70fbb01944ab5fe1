//! Laws of the codec under the standard tables: what decoding gives back
//! after encoding, and which bits of a word each operand reaches.

use crate::decode::{decode_word, is_memory_mnemonic, render_immediate, render_memory, render_r};
use crate::encode::{encode_i, encode_line, encode_tokens, immediate_operand, is_memory_access,
    is_shift, memory_operand};
use crate::error::ErrorKind;
use crate::registers::{is_numeric_name, lemma_numeric_name_digits, numeric_name, register_number};
use crate::standard::{i_codes, j_codes, lemma_i_codes, lemma_j_codes, lemma_r_codes,
    lemma_register_codes, r_codes, register_codes, register_names};
use crate::tables::{lemma_name_of_unique, name_of, names};
use crate::text::{digit_char, parse_u32};
use crate::tokenizer::tokens_of;
use crate::word::{funct_of, lemma_fields_of_pack_i, lemma_fields_of_pack_j,
    lemma_fields_of_pack_r, opcode_of, rd_of, rs_of, rt_of, shamt_of};
use vstd::prelude::*;

verus! {

/// The spelling under which a register operand comes back from decoding: the
/// symbolic name of its register, whether it was written by name or by
/// number.
pub open spec fn canonical_register(name: Seq<char>) -> Seq<char>
    recommends
        register_number(register_codes(), name) is Some,
{
    register_names()[register_number(register_codes(), name)->0 as int]
}

/// The text that decoding gives for the word of a tokenized instruction whose
/// operands are all valid.
///
/// Immediates come back cut to 16 bits and in their shortest decimal
/// spelling. A register-format instruction, written `rd, rt, rs`, comes back
/// as `rd, rs, rt`; a shift comes back with register zero in place of `rs`
/// and without its shift amount. A jump does not come back as text.
pub open spec fn canonical_text(tokens: Seq<Seq<char>>) -> Result<Seq<char>, ErrorKind>
    recommends
        encode_tokens(j_codes(), i_codes(), r_codes(), register_codes(), tokens) is Ok,
{
    let mnemonic = tokens[0];
    if i_codes().contains_key(mnemonic) {
        if is_memory_access(i_codes()[mnemonic]) {
            let parts = memory_operand(tokens[2])->0;
            Ok(
                render_memory(
                    mnemonic,
                    canonical_register(tokens[1]),
                    parse_u32(parts.0)->0 & 0xffff,
                    canonical_register(parts.1),
                ),
            )
        } else {
            Ok(
                render_immediate(
                    mnemonic,
                    canonical_register(tokens[1]),
                    canonical_register(tokens[2]),
                    parse_u32(tokens[3])->0 & 0xffff,
                ),
            )
        }
    } else if r_codes().contains_key(mnemonic) {
        if is_shift(r_codes()[mnemonic]) {
            Ok(
                render_r(
                    mnemonic,
                    canonical_register(tokens[1]),
                    register_names()[0],
                    canonical_register(tokens[2]),
                ),
            )
        } else {
            Ok(
                render_r(
                    mnemonic,
                    canonical_register(tokens[1]),
                    canonical_register(tokens[3]),
                    canonical_register(tokens[2]),
                ),
            )
        }
    } else {
        Err(ErrorKind::UnsupportedDecode)
    }
}

/// Among the immediate-format mnemonics, `lw` and `sw` are the ones whose
/// opcodes take a memory operand.
proof fn lemma_memory_mnemonics(mnemonic: Seq<char>)
    requires
        i_codes().contains_key(mnemonic),
    ensures
        is_memory_mnemonic(mnemonic) <==> is_memory_access(i_codes()[mnemonic]),
{
    assert("addi"@[0] == 'a') by {
        reveal_strlit("addi");
    }
    assert("addiu"@[0] == 'a') by {
        reveal_strlit("addiu");
    }
    assert("andi"@[0] == 'a') by {
        reveal_strlit("andi");
    }
    assert("beq"@[0] == 'b') by {
        reveal_strlit("beq");
    }
    assert("bne"@[0] == 'b') by {
        reveal_strlit("bne");
    }
    assert("lw"@[0] == 'l') by {
        reveal_strlit("lw");
    }
    assert("ori"@[0] == 'o') by {
        reveal_strlit("ori");
    }
    assert("sw"@[0] == 's') by {
        reveal_strlit("sw");
    }
}

/// A register operand that is valid under the standard table names one of
/// the 32 registers, and that register has a symbolic name.
proof fn lemma_register_operand(name: Seq<char>)
    requires
        register_number(register_codes(), name) is Some,
    ensures
        register_number(register_codes(), name)->0 < 32,
        name_of(register_codes(), register_number(register_codes(), name)->0) == Some(
            canonical_register(name),
        ),
{
    lemma_register_codes();
}

/// Decoding undoes encoding: where a line encodes to a word under the
/// standard tables, the word decodes to the canonical text of the line's
/// tokens, or, for a jump, is reported as not decodable.
pub proof fn lemma_round_trip(line: Seq<char>, word: u32)
    requires
        encode_line(j_codes(), i_codes(), r_codes(), register_codes(), line) matches Ok(Some(w))
            && w == word,
    ensures
        decode_word(j_codes(), i_codes(), r_codes(), register_codes(), word) == canonical_text(
            tokens_of(line),
        ),
{
    let tokens = tokens_of(line);
    let mnemonic = tokens[0];
    let registers = register_codes();
    lemma_j_codes();
    lemma_i_codes();
    lemma_r_codes();
    if i_codes().contains_key(mnemonic) {
        let opcode = i_codes()[mnemonic];
        lemma_memory_mnemonics(mnemonic);
        lemma_name_of_unique(i_codes(), mnemonic, opcode);
        assert(name_of(j_codes(), opcode) is None) by {
            if name_of(j_codes(), opcode) is Some {
                let n = choose|n: Seq<char>| names(j_codes(), n, opcode);
                assert(j_codes().contains_key(n));
            }
        }
        if is_memory_access(opcode) {
            let parts = memory_operand(tokens[2])->0;
            lemma_register_operand(tokens[1]);
            lemma_register_operand(parts.1);
            lemma_fields_of_pack_i(
                opcode,
                register_number(registers, parts.1)->0,
                register_number(registers, tokens[1])->0,
                parse_u32(parts.0)->0,
            );
        } else {
            lemma_register_operand(tokens[1]);
            lemma_register_operand(tokens[2]);
            lemma_fields_of_pack_i(
                opcode,
                register_number(registers, tokens[2])->0,
                register_number(registers, tokens[1])->0,
                parse_u32(tokens[3])->0,
            );
        }
    } else if r_codes().contains_key(mnemonic) {
        let funct = r_codes()[mnemonic];
        lemma_name_of_unique(r_codes(), mnemonic, funct);
        lemma_register_codes();
        lemma_register_operand(tokens[1]);
        lemma_register_operand(tokens[2]);
        if is_shift(funct) {
            lemma_fields_of_pack_r(
                0,
                register_number(registers, tokens[2])->0,
                register_number(registers, tokens[1])->0,
                parse_u32(tokens[3])->0,
                funct,
            );
        } else {
            lemma_register_operand(tokens[3]);
            lemma_fields_of_pack_r(
                register_number(registers, tokens[3])->0,
                register_number(registers, tokens[2])->0,
                register_number(registers, tokens[1])->0,
                0,
                funct,
            );
        }
    } else {
        let opcode = j_codes()[mnemonic];
        lemma_name_of_unique(j_codes(), mnemonic, opcode);
        lemma_fields_of_pack_j(opcode);
    }
}

/// The numeric spelling and the symbolic name of a register stand for the
/// same register, so a line encodes alike with either.
pub proof fn lemma_numeric_alias(n: u32)
    requires
        n < 32,
    ensures
        register_number(register_codes(), numeric_name(n)) == Some(n),
        register_number(register_codes(), register_names()[n as int]) == Some(n),
        canonical_register(numeric_name(n)) == register_names()[n as int],
{
    lemma_register_codes();
    lemma_numeric_name_digits(n);
    assert(names(register_codes(), register_names()[n as int], n));
    assert(!register_codes().contains_key(numeric_name(n))) by {
        assert('0' <= numeric_name(n)[1] <= '9');
    }
    assert(is_numeric_name(numeric_name(n), n));
    assert forall|m: u32| is_numeric_name(numeric_name(n), m) implies m == n by {
        lemma_numeric_name_digits(m);
        assert(numeric_name(m).len() == (if m < 10 {
            2nat
        } else {
            3nat
        }));
        assert(numeric_name(n).len() == (if n < 10 {
            2nat
        } else {
            3nat
        }));
        if m < 10 {
            assert(numeric_name(m)[1] == digit_char(m as nat));
            assert(numeric_name(n)[1] == digit_char(n as nat));
        } else {
            assert(numeric_name(m)[1] == digit_char((m / 10) as nat));
            assert(numeric_name(n)[1] == digit_char((n / 10) as nat));
            assert(numeric_name(m)[2] == digit_char((m % 10) as nat));
            assert(numeric_name(n)[2] == digit_char((n % 10) as nat));
        }
    }
}

/// `word` with its `rs` field, bits 25..21, replaced by `rs`.
pub open spec fn with_rs(word: u32, rs: u32) -> u32 {
    (word & !(0x1fu32 << 21)) | (rs << 21)
}

/// Field isolation: replacing the `rs` field of a register-format word
/// changes the middle operand of the decoded text, and nothing else. The
/// mnemonic and the other two registers are those of the word as it was.
pub proof fn lemma_rs_field_isolation(word: u32, rs: u32)
    requires
        opcode_of(word) == 0,
        rs < 32,
    ensures
        opcode_of(with_rs(word, rs)) == 0,
        rs_of(with_rs(word, rs)) == rs,
        rt_of(with_rs(word, rs)) == rt_of(word),
        rd_of(with_rs(word, rs)) == rd_of(word),
        shamt_of(with_rs(word, rs)) == shamt_of(word),
        funct_of(with_rs(word, rs)) == funct_of(word),
        decode_word(j_codes(), i_codes(), r_codes(), register_codes(), with_rs(word, rs)) == (
        match name_of(r_codes(), funct_of(word)) {
            Some(mnemonic) => Ok(
                render_r(
                    mnemonic,
                    register_names()[rd_of(word) as int],
                    register_names()[rs as int],
                    register_names()[rt_of(word) as int],
                ),
            ),
            None => Err(ErrorKind::UnknownMnemonic),
        }),
{
    let changed = (word & !(0x1fu32 << 21)) | (rs << 21);
    assert(changed >> 26 == 0 && (changed >> 21) & 0x1f == rs && (changed >> 16) & 0x1f == (word
        >> 16) & 0x1f && (changed >> 11) & 0x1f == (word >> 11) & 0x1f && (changed >> 6) & 0x1f
        == (word >> 6) & 0x1f && changed & 0x3f == word & 0x3f && (word >> 16) & 0x1f < 32 && (word
        >> 11) & 0x1f < 32) by (bit_vector)
        requires
            word >> 26 == 0,
            rs < 32,
            changed == (word & !(0x1fu32 << 21)) | (rs << 21),
    ;
    lemma_register_codes();
}

/// Masking, for an instruction written `[mnemonic, rt, rs, immediate]`: the
/// word is the same whether the immediate is written in full or cut to its
/// low 16 bits.
pub proof fn lemma_immediate_masking(
    opcode: u32,
    registers: Map<Seq<char>, u32>,
    tokens: Seq<Seq<char>>,
    masked: Seq<char>,
)
    requires
        !is_memory_access(opcode),
        immediate_operand(tokens, 3) is Ok,
        parse_u32(masked) == Some(immediate_operand(tokens, 3)->Ok_0 & 0xffff),
    ensures
        encode_i(opcode, registers, tokens.update(3, masked)) == encode_i(
            opcode,
            registers,
            tokens,
        ),
{
    let n = immediate_operand(tokens, 3)->Ok_0;
    assert((n & 0xffff) & 0xffff == n & 0xffff) by (bit_vector);
}

/// Masking, for a load or store written `[mnemonic, rt, offset(rs)]`: the
/// word is the same whether the offset is written in full or cut to its low
/// 16 bits.
pub proof fn lemma_offset_masking(
    opcode: u32,
    registers: Map<Seq<char>, u32>,
    tokens: Seq<Seq<char>>,
    offset: Seq<char>,
    base: Seq<char>,
    masked: Seq<char>,
    masked_offset: Seq<char>,
)
    requires
        is_memory_access(opcode),
        tokens.len() > 2,
        memory_operand(tokens[2]) == Some((offset, base)),
        memory_operand(masked) == Some((masked_offset, base)),
        parse_u32(offset) is Some,
        parse_u32(masked_offset) == Some(parse_u32(offset)->0 & 0xffff),
    ensures
        encode_i(opcode, registers, tokens.update(2, masked)) == encode_i(
            opcode,
            registers,
            tokens,
        ),
{
    let n = parse_u32(offset)->0;
    assert((n & 0xffff) & 0xffff == n & 0xffff) by (bit_vector);
}

} // verus!
