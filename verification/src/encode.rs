//! The encoders: from the tokens of one line to its instruction word.
//!
//! Operands are checked in a fixed order, and the first check that fails
//! decides the error. A token that is not there counts as a malformed
//! operand; tokens beyond those an instruction needs are ignored.

use crate::error::{AsmError, ErrorKind};
use crate::registers::{lookup_register, register_number};
use crate::standard::{LW_OPCODE, SLL_FUNCT, SRA_FUNCT, SRL_FUNCT, SW_OPCODE};
use crate::tables::MnemonicTable;
use crate::text::{chars_of, parse_u32, read_u32, string_of};
use crate::tokenizer::{tokenize, tokens_of};
use crate::word::{pack_i, pack_j, pack_r};
use vstd::prelude::*;

verus! {

/// The failure of the given kind at token `i`.
pub open spec fn failure(kind: ErrorKind, i: int) -> AsmError {
    AsmError { kind, token: i as usize }
}

/// Token `i`, which must be there.
pub open spec fn operand(tokens: Seq<Seq<char>>, i: int) -> Result<Seq<char>, AsmError> {
    if 0 <= i < tokens.len() {
        Ok(tokens[i])
    } else {
        Err(failure(ErrorKind::MalformedOperandSyntax, i))
    }
}

/// Token `i` read as a register.
pub open spec fn register_operand(
    registers: Map<Seq<char>, u32>,
    tokens: Seq<Seq<char>>,
    i: int,
) -> Result<u32, AsmError> {
    match operand(tokens, i) {
        Err(e) => Err(e),
        Ok(name) => match register_number(registers, name) {
            Some(n) => Ok(n),
            None => Err(failure(ErrorKind::UnknownRegister, i)),
        },
    }
}

/// Token `i` read as an immediate: any unsigned 32-bit decimal number.
pub open spec fn immediate_operand(tokens: Seq<Seq<char>>, i: int) -> Result<u32, AsmError> {
    match operand(tokens, i) {
        Err(e) => Err(e),
        Ok(text) => match parse_u32(text) {
            Some(n) => Ok(n),
            None => Err(failure(ErrorKind::InvalidNumericLiteral, i)),
        },
    }
}

/// Token `i` read as a shift amount: a decimal number that fits in the five
/// bits of its field.
pub open spec fn shift_operand(tokens: Seq<Seq<char>>, i: int) -> Result<u32, AsmError> {
    match immediate_operand(tokens, i) {
        Err(e) => Err(e),
        Ok(n) => if n < 32 {
            Ok(n)
        } else {
            Err(failure(ErrorKind::InvalidNumericLiteral, i))
        },
    }
}

/// Neither parenthesis occurs in `s`.
pub open spec fn paren_free(s: Seq<char>) -> bool {
    forall|k: int| 0 <= k < s.len() ==> #[trigger] s[k] != '(' && s[k] != ')'
}

/// `token` is `offset(base)`, with no further parenthesis in either part.
pub open spec fn is_memory_operand(token: Seq<char>, offset: Seq<char>, base: Seq<char>) -> bool {
    paren_free(offset) && paren_free(base) && token == offset + seq!['('] + base + seq![')']
}

/// The offset and the base of a memory operand, if `token` has that shape.
pub open spec fn memory_operand(token: Seq<char>) -> Option<(Seq<char>, Seq<char>)> {
    if exists|offset: Seq<char>, base: Seq<char>| is_memory_operand(token, offset, base) {
        Some(choose|offset: Seq<char>, base: Seq<char>| is_memory_operand(token, offset, base))
    } else {
        None
    }
}

/// A function code of the shifts by a literal amount: `sll`, `srl`, `sra`.
pub open spec fn is_shift(funct: u32) -> bool {
    funct == SLL_FUNCT || funct == SRL_FUNCT || funct == SRA_FUNCT
}

/// An opcode of the instructions with a memory operand: `lw`, `sw`.
pub open spec fn is_memory_access(opcode: u32) -> bool {
    opcode == LW_OPCODE || opcode == SW_OPCODE
}

/// The word of a register-format instruction.
///
/// A shift is written `[mnemonic, rd, rt, shamt]` and has `rs` zero; any other
/// instruction is written `[mnemonic, rd, rt, rs]` and has `shamt` zero.
pub open spec fn encode_r(funct: u32, registers: Map<Seq<char>, u32>, tokens: Seq<Seq<char>>)
    -> Result<u32, AsmError> {
    if is_shift(funct) {
        match shift_operand(tokens, 3) {
            Err(e) => Err(e),
            Ok(shamt) => match register_operand(registers, tokens, 1) {
                Err(e) => Err(e),
                Ok(rd) => match register_operand(registers, tokens, 2) {
                    Err(e) => Err(e),
                    Ok(rt) => Ok(pack_r(0, rt, rd, shamt, funct)),
                },
            },
        }
    } else {
        match register_operand(registers, tokens, 1) {
            Err(e) => Err(e),
            Ok(rd) => match register_operand(registers, tokens, 2) {
                Err(e) => Err(e),
                Ok(rt) => match register_operand(registers, tokens, 3) {
                    Err(e) => Err(e),
                    Ok(rs) => Ok(pack_r(rs, rt, rd, 0, funct)),
                },
            },
        }
    }
}

/// The word of a load or store, written `[mnemonic, rt, offset(rs)]`. The
/// shape of the memory operand is looked at first, then `rt`, then the offset,
/// then the base register.
pub open spec fn encode_memory(
    opcode: u32,
    registers: Map<Seq<char>, u32>,
    tokens: Seq<Seq<char>>,
) -> Result<u32, AsmError> {
    match operand(tokens, 2) {
        Err(e) => Err(e),
        Ok(token) => match memory_operand(token) {
            None => Err(failure(ErrorKind::MalformedOperandSyntax, 2)),
            Some((offset, base)) => match register_operand(registers, tokens, 1) {
                Err(e) => Err(e),
                Ok(rt) => match parse_u32(offset) {
                    None => Err(failure(ErrorKind::InvalidNumericLiteral, 2)),
                    Some(immediate) => match register_number(registers, base) {
                        None => Err(failure(ErrorKind::UnknownRegister, 2)),
                        Some(rs) => Ok(pack_i(opcode, rs, rt, immediate)),
                    },
                },
            },
        },
    }
}

/// The word of an immediate-format instruction.
///
/// `lw` and `sw` are written `[mnemonic, rt, offset(rs)]`; any other
/// instruction is written `[mnemonic, rt, rs, immediate]`. The immediate or
/// offset is cut to its low 16 bits.
pub open spec fn encode_i(opcode: u32, registers: Map<Seq<char>, u32>, tokens: Seq<Seq<char>>)
    -> Result<u32, AsmError> {
    if is_memory_access(opcode) {
        encode_memory(opcode, registers, tokens)
    } else {
        match immediate_operand(tokens, 3) {
            Err(e) => Err(e),
            Ok(immediate) => match register_operand(registers, tokens, 1) {
                Err(e) => Err(e),
                Ok(rt) => match register_operand(registers, tokens, 2) {
                    Err(e) => Err(e),
                    Ok(rs) => Ok(pack_i(opcode, rs, rt, immediate)),
                },
            },
        }
    }
}

/// The word of a tokenized instruction. The mnemonic is looked up among the
/// immediate-format, then the register-format, then the jump mnemonics.
pub open spec fn encode_tokens(
    j_codes: Map<Seq<char>, u32>,
    i_codes: Map<Seq<char>, u32>,
    r_codes: Map<Seq<char>, u32>,
    registers: Map<Seq<char>, u32>,
    tokens: Seq<Seq<char>>,
) -> Result<u32, AsmError>
    recommends
        tokens.len() > 0,
{
    let mnemonic = tokens[0];
    if i_codes.contains_key(mnemonic) {
        encode_i(i_codes[mnemonic], registers, tokens)
    } else if r_codes.contains_key(mnemonic) {
        encode_r(r_codes[mnemonic], registers, tokens)
    } else if j_codes.contains_key(mnemonic) {
        Ok(pack_j(j_codes[mnemonic]))
    } else {
        Err(failure(ErrorKind::UnknownMnemonic, 0))
    }
}

/// The word of one source line; `None` for a line without tokens.
pub open spec fn encode_line(
    j_codes: Map<Seq<char>, u32>,
    i_codes: Map<Seq<char>, u32>,
    r_codes: Map<Seq<char>, u32>,
    registers: Map<Seq<char>, u32>,
    line: Seq<char>,
) -> Result<Option<u32>, AsmError> {
    let tokens = tokens_of(line);
    if tokens.len() == 0 {
        Ok(None)
    } else {
        match encode_tokens(j_codes, i_codes, r_codes, registers, tokens) {
            Ok(word) => Ok(Some(word)),
            Err(e) => Err(e),
        }
    }
}

/// What the shape `offset(base)` says of a token's characters.
pub proof fn lemma_memory_operand_shape(token: Seq<char>, offset: Seq<char>, base: Seq<char>)
    requires
        is_memory_operand(token, offset, base),
    ensures
        token.len() == offset.len() + base.len() + 2,
        token[offset.len() as int] == '(',
        token.last() == ')',
        offset == token.take(offset.len() as int),
        base == token.subrange(offset.len() as int + 1, token.len() - 1),
        forall|k: int|
            0 <= k < token.len() - 1 && k != offset.len() ==> #[trigger] token[k] != '('
                && token[k] != ')',
{
    let n = offset.len() as int;
    assert(offset =~= token.take(n));
    assert(base =~= token.subrange(n + 1, token.len() - 1));
    assert forall|k: int| 0 <= k < token.len() - 1 && k != n implies #[trigger] token[k] != '('
        && token[k] != ')' by {
        if k < n {
            assert(token[k] == offset[k]);
        } else {
            assert(token[k] == base[k - n - 1]);
        }
    }
}

/// Tells whether `c` is a parenthesis.
fn is_paren(c: char) -> (b: bool)
    ensures
        b == (c == '(' || c == ')'),
{
    c == '(' || c == ')'
}

/// Splits a memory operand `offset(base)` into its two parts.
pub fn split_memory_operand(token: &str) -> (parts: Option<(String, String)>)
    ensures
        parts matches Some((offset, base)) ==> memory_operand(token@) == Some((offset@, base@)),
        parts is None ==> memory_operand(token@) is None,
{
    let v = chars_of(token);
    let n = v.len();
    let mut open: usize = 0;
    while open < n && !is_paren(v[open])
        invariant
            open <= n == v.len(),
            forall|k: int| 0 <= k < open ==> #[trigger] v@[k] != '(' && v@[k] != ')',
        decreases n - open,
    {
        open += 1;
    }
    if n < 2 || open >= n - 1 || v[open] != '(' || v[n - 1] != ')' {
        proof {
            assert forall|o: Seq<char>, b: Seq<char>| !is_memory_operand(token@, o, b) by {
                if is_memory_operand(token@, o, b) {
                    lemma_memory_operand_shape(token@, o, b);
                    if o.len() < open {
                        assert(v@[o.len() as int] == '(');
                    }
                    if open < o.len() {
                        assert(token@[open as int] != '(' && token@[open as int] != ')');
                    }
                }
            }
        }
        return None;
    }
    let mut well_formed = true;
    let mut k: usize = open + 1;
    while well_formed && k + 1 < n
        invariant
            open + 1 < n,
            open < k < n,
            v.len() == n,
            well_formed ==> forall|m: int|
                open < m < k ==> #[trigger] v@[m] != '(' && v@[m] != ')',
            !well_formed ==> exists|m: int|
                open < m < n - 1 && (v@[m] == '(' || v@[m] == ')'),
        decreases n - k,
    {
        if is_paren(v[k]) {
            well_formed = false;
        }
        k += 1;
    }
    if well_formed {
        let offset = string_of(&v, 0, open);
        let base = string_of(&v, open + 1, n - 1);
        proof {
            assert(token@ =~= offset@ + seq!['('] + base@ + seq![')']);
            assert(is_memory_operand(token@, offset@, base@));
            assert forall|o: Seq<char>, b: Seq<char>| is_memory_operand(token@, o, b) implies o
                == offset@ && b == base@ by {
                lemma_memory_operand_shape(token@, o, b);
                if o.len() < open {
                    assert(v@[o.len() as int] == '(');
                }
            }
            let chosen = choose|o: Seq<char>, b: Seq<char>| is_memory_operand(token@, o, b);
            assert(is_memory_operand(token@, chosen.0, chosen.1));
        }
        Some((offset, base))
    } else {
        proof {
            assert forall|o: Seq<char>, b: Seq<char>| !is_memory_operand(token@, o, b) by {
                if is_memory_operand(token@, o, b) {
                    lemma_memory_operand_shape(token@, o, b);
                    if o.len() < open {
                        assert(v@[o.len() as int] == '(');
                    }
                    if open < o.len() {
                        assert(token@[open as int] != '(' && token@[open as int] != ')');
                    }
                    let m = choose|m: int| open < m < n - 1 && (v@[m] == '(' || v@[m] == ')');
                    assert(token@[m] != '(' && token@[m] != ')');
                }
            }
        }
        None
    }
}

/// Reads token `i` as a register.
fn register_at(registers: &MnemonicTable, parts: &Vec<String>, i: usize) -> (n: Result<
    u32,
    AsmError,
>)
    ensures
        n == register_operand(registers@, parts.deep_view(), i as int),
{
    if i >= parts.len() {
        return Err(AsmError { kind: ErrorKind::MalformedOperandSyntax, token: i });
    }
    match lookup_register(registers, parts[i].as_str()) {
        Some(n) => Ok(n),
        None => Err(AsmError { kind: ErrorKind::UnknownRegister, token: i }),
    }
}

/// Reads token `i` as an immediate.
fn immediate_at(parts: &Vec<String>, i: usize) -> (n: Result<u32, AsmError>)
    ensures
        n == immediate_operand(parts.deep_view(), i as int),
{
    if i >= parts.len() {
        return Err(AsmError { kind: ErrorKind::MalformedOperandSyntax, token: i });
    }
    match read_u32(parts[i].as_str()) {
        Some(n) => Ok(n),
        None => Err(AsmError { kind: ErrorKind::InvalidNumericLiteral, token: i }),
    }
}

/// Encodes a register-format instruction from its function code and tokens.
pub fn assemble_r(func_code: u32, registers: &MnemonicTable, parts: &Vec<String>) -> (word: Result<
    u32,
    AsmError,
>)
    ensures
        word == encode_r(func_code, registers@, parts.deep_view()),
{
    let shift_opcode = func_code == SLL_FUNCT || func_code == SRL_FUNCT || func_code == SRA_FUNCT;
    let shift_amount = if shift_opcode {
        match immediate_at(parts, 3) {
            Ok(n) => {
                if n >= 32 {
                    return Err(AsmError { kind: ErrorKind::InvalidNumericLiteral, token: 3 });
                }
                n
            },
            Err(e) => { return Err(e); },
        }
    } else {
        0
    };
    let d_register = match register_at(registers, parts, 1) {
        Ok(n) => n,
        Err(e) => { return Err(e); },
    };
    let t_register = match register_at(registers, parts, 2) {
        Ok(n) => n,
        Err(e) => { return Err(e); },
    };
    let s_register = if shift_opcode {
        0
    } else {
        match register_at(registers, parts, 3) {
            Ok(n) => n,
            Err(e) => { return Err(e); },
        }
    };
    // the opcode is zero for every register-format instruction
    Ok(func_code | (shift_amount << 6) | (d_register << 11) | (t_register << 16) | (s_register << 21))
}

/// Encodes an immediate-format instruction from its opcode and tokens.
pub fn assemble_i(opcode: u32, registers: &MnemonicTable, parts: &Vec<String>) -> (word: Result<
    u32,
    AsmError,
>)
    ensures
        word == encode_i(opcode, registers@, parts.deep_view()),
{
    let immediate: u32;
    let t_register: u32;
    let s_register: u32;
    if opcode == LW_OPCODE || opcode == SW_OPCODE {
        if parts.len() <= 2 {
            return Err(AsmError { kind: ErrorKind::MalformedOperandSyntax, token: 2 });
        }
        let (offset, base) = match split_memory_operand(parts[2].as_str()) {
            Some(pair) => pair,
            None => {
                return Err(AsmError { kind: ErrorKind::MalformedOperandSyntax, token: 2 });
            },
        };
        t_register = match register_at(registers, parts, 1) {
            Ok(n) => n,
            Err(e) => { return Err(e); },
        };
        immediate = match read_u32(offset.as_str()) {
            Some(n) => n,
            None => {
                return Err(AsmError { kind: ErrorKind::InvalidNumericLiteral, token: 2 });
            },
        };
        s_register = match lookup_register(registers, base.as_str()) {
            Some(n) => n,
            None => { return Err(AsmError { kind: ErrorKind::UnknownRegister, token: 2 }); },
        };
    } else {
        immediate = match immediate_at(parts, 3) {
            Ok(n) => n,
            Err(e) => { return Err(e); },
        };
        t_register = match register_at(registers, parts, 1) {
            Ok(n) => n,
            Err(e) => { return Err(e); },
        };
        s_register = match register_at(registers, parts, 2) {
            Ok(n) => n,
            Err(e) => { return Err(e); },
        };
    }
    Ok((immediate & 0xffff) | (t_register << 16) | (s_register << 21) | (opcode << 26))
}

/// Encodes a jump instruction: the opcode goes to bits 31..26 and the address
/// field stays zero, since jump targets are not resolved.
pub fn assemble_j(opcode: u32) -> (word: u32)
    ensures
        word == pack_j(opcode),
{
    opcode << 26
}

/// Encodes one line of source text. A line without tokens, blank or comment
/// only, gives `Ok(None)`: there is no instruction on it.
pub fn assemble_line(
    j_codes: &MnemonicTable,
    i_codes: &MnemonicTable,
    r_codes: &MnemonicTable,
    registers: &MnemonicTable,
    asm_line: &str,
) -> (word: Result<Option<u32>, AsmError>)
    ensures
        word == encode_line(j_codes@, i_codes@, r_codes@, registers@, asm_line@),
{
    let parts = tokenize(asm_line);
    if parts.len() == 0 {
        return Ok(None);
    }
    let instruction = parts[0].as_str();
    let word = if let Some(i_opcode) = i_codes.lookup_by_mnemonic(instruction) {
        assemble_i(i_opcode, registers, &parts)
    } else if let Some(r_opcode) = r_codes.lookup_by_mnemonic(instruction) {
        assemble_r(r_opcode, registers, &parts)
    } else if let Some(j_opcode) = j_codes.lookup_by_mnemonic(instruction) {
        Ok(assemble_j(j_opcode))
    } else {
        Err(AsmError { kind: ErrorKind::UnknownMnemonic, token: 0 })
    };
    match word {
        Ok(w) => Ok(Some(w)),
        Err(e) => Err(e),
    }
}

} // verus!
