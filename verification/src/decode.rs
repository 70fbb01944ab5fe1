//! The decoders: from an instruction word to a line of text.
//!
//! A word with opcode zero is a register-format instruction, told apart by
//! its function code. Any other word is looked up among the jump opcodes and
//! then among the immediate-format opcodes.

use crate::error::ErrorKind;
use crate::registers::register_name;
use crate::tables::{name_of, MnemonicTable};
use crate::text::{chars_of, decimal, write_decimal};
use crate::word::{funct_of, immediate_of, opcode_of, rd_of, rs_of, rt_of};
use vstd::prelude::*;

verus! {

/// The text `mnemonic rd, rs, rt` of a register-format instruction.
pub open spec fn render_r(mnemonic: Seq<char>, rd: Seq<char>, rs: Seq<char>, rt: Seq<char>) -> Seq<
    char,
> {
    mnemonic + " "@ + rd + ", "@ + rs + ", "@ + rt
}

/// The text `mnemonic rt, offset(rs)` of a load or store.
pub open spec fn render_memory(mnemonic: Seq<char>, rt: Seq<char>, offset: u32, rs: Seq<char>)
    -> Seq<char> {
    mnemonic + " "@ + rt + ", "@ + decimal(offset as nat) + "("@ + rs + ")"@
}

/// The text `mnemonic rt, rs, immediate` of any other immediate-format
/// instruction.
pub open spec fn render_immediate(
    mnemonic: Seq<char>,
    rt: Seq<char>,
    rs: Seq<char>,
    immediate: u32,
) -> Seq<char> {
    mnemonic + " "@ + rt + ", "@ + rs + ", "@ + decimal(immediate as nat)
}

/// The text that stands for a jump instruction, whose target is not decoded.
pub open spec fn jump_placeholder(mnemonic: Seq<char>) -> Seq<char> {
    mnemonic + " unimplemented"@
}

/// A mnemonic whose operand is written `offset(base)`.
pub open spec fn is_memory_mnemonic(mnemonic: Seq<char>) -> bool {
    mnemonic == "lw"@ || mnemonic == "sw"@
}

/// The text of a register-format word under the given mnemonic. The
/// registers are always written in the order `rd`, `rs`, `rt`.
pub open spec fn decode_r(registers: Map<Seq<char>, u32>, mnemonic: Seq<char>, word: u32) -> Result<
    Seq<char>,
    ErrorKind,
> {
    match (
        register_name(registers, rd_of(word)),
        register_name(registers, rt_of(word)),
        register_name(registers, rs_of(word)),
    ) {
        (Some(rd), Some(rt), Some(rs)) => Ok(render_r(mnemonic, rd, rs, rt)),
        _ => Err(ErrorKind::UnknownRegister),
    }
}

/// The text of an immediate-format word under the given mnemonic. The
/// immediate is written as an unsigned number.
pub open spec fn decode_i(registers: Map<Seq<char>, u32>, mnemonic: Seq<char>, word: u32) -> Result<
    Seq<char>,
    ErrorKind,
> {
    match (register_name(registers, rt_of(word)), register_name(registers, rs_of(word))) {
        (Some(rt), Some(rs)) => if is_memory_mnemonic(mnemonic) {
            Ok(render_memory(mnemonic, rt, immediate_of(word), rs))
        } else {
            Ok(render_immediate(mnemonic, rt, rs, immediate_of(word)))
        },
        _ => Err(ErrorKind::UnknownRegister),
    }
}

/// The text of an instruction word.
pub open spec fn decode_word(
    j_codes: Map<Seq<char>, u32>,
    i_codes: Map<Seq<char>, u32>,
    r_codes: Map<Seq<char>, u32>,
    registers: Map<Seq<char>, u32>,
    word: u32,
) -> Result<Seq<char>, ErrorKind> {
    if opcode_of(word) == 0 {
        match name_of(r_codes, funct_of(word)) {
            Some(mnemonic) => decode_r(registers, mnemonic, word),
            None => Err(ErrorKind::UnknownMnemonic),
        }
    } else if name_of(j_codes, opcode_of(word)) is Some {
        Err(ErrorKind::UnsupportedDecode)
    } else {
        match name_of(i_codes, opcode_of(word)) {
            Some(mnemonic) => decode_i(registers, mnemonic, word),
            None => Err(ErrorKind::UnknownMnemonic),
        }
    }
}

/// A decoding result with its text as a sequence of characters.
pub open spec fn text_of(result: Result<String, ErrorKind>) -> Result<Seq<char>, ErrorKind> {
    match result {
        Ok(text) => Ok(text@),
        Err(e) => Err(e),
    }
}

/// Tells whether the mnemonic is `lw` or `sw`.
fn has_memory_operand(mnemonic: &str) -> (b: bool)
    ensures
        b == is_memory_mnemonic(mnemonic@),
{
    proof {
        reveal_strlit("lw");
        reveal_strlit("sw");
    }
    let v = chars_of(mnemonic);
    let b = v.len() == 2 && (v[0] == 'l' || v[0] == 's') && v[1] == 'w';
    proof {
        if b {
            assert(mnemonic@ =~= "lw"@ || mnemonic@ =~= "sw"@);
        }
    }
    b
}

/// Decodes a register-format word whose mnemonic is known.
pub fn disassemble_r(instruction: u32, registers: &MnemonicTable, instruction_name: &str) -> (text:
    Result<String, ErrorKind>)
    ensures
        text_of(text) == decode_r(registers@, instruction_name@, instruction),
{
    let d_register = registers.lookup_by_code((instruction >> 11) & 0b11111);
    let t_register = registers.lookup_by_code((instruction >> 16) & 0b11111);
    let s_register = registers.lookup_by_code((instruction >> 21) & 0b11111);
    match (d_register, t_register, s_register) {
        (Some(rd), Some(rt), Some(rs)) => {
            let mut text = String::from_str(instruction_name);
            text.append(" ");
            text.append(rd);
            text.append(", ");
            text.append(rs);
            text.append(", ");
            text.append(rt);
            Ok(text)
        },
        _ => Err(ErrorKind::UnknownRegister),
    }
}

/// Decodes an immediate-format word whose mnemonic is known.
pub fn disassemble_i(instruction: u32, registers: &MnemonicTable, instruction_name: &str) -> (text:
    Result<String, ErrorKind>)
    ensures
        text_of(text) == decode_i(registers@, instruction_name@, instruction),
{
    let t_register = registers.lookup_by_code((instruction >> 16) & 0b11111);
    let s_register = registers.lookup_by_code((instruction >> 21) & 0b11111);
    let immediate = write_decimal(instruction & 0xffff);
    match (t_register, s_register) {
        (Some(rt), Some(rs)) => {
            let mut text = String::from_str(instruction_name);
            text.append(" ");
            text.append(rt);
            text.append(", ");
            if has_memory_operand(instruction_name) {
                text.append(immediate.as_str());
                text.append("(");
                text.append(rs);
                text.append(")");
            } else {
                text.append(rs);
                text.append(", ");
                text.append(immediate.as_str());
            }
            Ok(text)
        },
        _ => Err(ErrorKind::UnknownRegister),
    }
}

/// The placeholder for a jump instruction: its mnemonic and the word
/// `unimplemented`. The target is not decoded, whatever the word holds.
pub fn disassemble_j(instruction: u32, instruction_name: &&str) -> (text: String)
    ensures
        text@ == jump_placeholder(instruction_name@),
{
    let mut text = String::from_str(*instruction_name);
    text.append(" unimplemented");
    text
}

/// Decodes one instruction word. A jump is reported as `UnsupportedDecode`;
/// `disassemble_j` gives its placeholder text.
pub fn disassemble_word(
    j_codes: &MnemonicTable,
    i_codes: &MnemonicTable,
    r_codes: &MnemonicTable,
    registers: &MnemonicTable,
    instruction: u32,
) -> (text: Result<String, ErrorKind>)
    ensures
        text_of(text) == decode_word(j_codes@, i_codes@, r_codes@, registers@, instruction),
{
    let opcode = instruction >> 26;
    if opcode == 0 {
        match r_codes.lookup_by_code(instruction & 0b111111) {
            Some(r_instruction) => disassemble_r(instruction, registers, r_instruction),
            None => Err(ErrorKind::UnknownMnemonic),
        }
    } else if let Some(_j_instruction) = j_codes.lookup_by_code(opcode) {
        Err(ErrorKind::UnsupportedDecode)
    } else if let Some(i_instruction) = i_codes.lookup_by_code(opcode) {
        disassemble_i(instruction, registers, i_instruction)
    } else {
        Err(ErrorKind::UnknownMnemonic)
    }
}

} // verus!
