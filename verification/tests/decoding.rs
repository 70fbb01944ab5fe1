use mips_assembler::decode::{disassemble_i, disassemble_j, disassemble_r, disassemble_word};
use mips_assembler::error::ErrorKind;
use mips_assembler::standard::{
    create_i_codes, create_j_codes, create_r_codes, create_register_codes,
};
use mips_assembler::tables::MnemonicTable;

fn decode(word: u32) -> Result<String, ErrorKind> {
    disassemble_word(
        &create_j_codes(),
        &create_i_codes(),
        &create_r_codes(),
        &create_register_codes(),
        word,
    )
}

fn text(s: &str) -> Result<String, ErrorKind> {
    Ok(s.to_string())
}

#[test]
fn register_format_text_is_rd_rs_rt() {
    let registers = create_register_codes();
    let word = (10 << 21) | (9 << 16) | (8 << 11) | 0b100000;
    assert_eq!(disassemble_r(word, &registers, "add"), text("add $t0, $t2, $t1"));
    assert_eq!(disassemble_r(0, &registers, "sll"), text("sll $zero, $zero, $zero"));
    assert_eq!(disassemble_r(0xffff_ffff, &registers, "any"), text("any $ra, $ra, $ra"));
    assert_eq!(disassemble_r(word | (5 << 6), &registers, "add"), text("add $t0, $t2, $t1"));
}

#[test]
fn immediate_format_text() {
    let registers = create_register_codes();
    let word = (0b001000 << 26) | (9 << 21) | (8 << 16) | 65535;
    assert_eq!(disassemble_i(word, &registers, "addi"), text("addi $t0, $t1, 65535"));
    assert_eq!(disassemble_i(word, &registers, "lw"), text("lw $t0, 65535($t1)"));
    assert_eq!(disassemble_i(word, &registers, "sw"), text("sw $t0, 65535($t1)"));
    assert_eq!(disassemble_i(word, &registers, "lwx"), text("lwx $t0, $t1, 65535"));
    assert_eq!(disassemble_i(word, &registers, "LW"), text("LW $t0, $t1, 65535"));
    assert_eq!(disassemble_i(0, &registers, "beq"), text("beq $zero, $zero, 0"));
}

#[test]
fn jump_placeholder_names_the_mnemonic() {
    assert_eq!(disassemble_j(0x0800_0000, &"j"), "j unimplemented");
    assert_eq!(disassemble_j(0x0c10_0000, &"jal"), "jal unimplemented");
    assert_eq!(disassemble_j(0, &""), " unimplemented");
}

#[test]
fn words_are_told_apart_by_opcode() {
    assert_eq!(decode(0x01494020), text("add $t0, $t2, $t1"));
    assert_eq!(decode(0x8fa80004), text("lw $t0, 4($sp)"));
    assert_eq!(decode(0xafbf0000), text("sw $ra, 0($sp)"));
    assert_eq!(decode(0x00094080), text("sll $t0, $zero, $t1"));
    assert_eq!(decode(0), text("sll $zero, $zero, $zero"));
    assert_eq!(decode(0x2108ffff), text("addi $t0, $t0, 65535"));
    assert_eq!(decode(0x11090010), text("beq $t1, $t0, 16"));
    assert_eq!(decode(0x03e00008), text("jr $zero, $ra, $zero"));
}

#[test]
fn jumps_are_unsupported() {
    assert_eq!(decode(0x0800_0000), Err(ErrorKind::UnsupportedDecode));
    assert_eq!(decode(0x0810_0000), Err(ErrorKind::UnsupportedDecode));
    assert_eq!(decode(0x0fff_ffff), Err(ErrorKind::UnsupportedDecode));
}

#[test]
fn codes_without_a_mnemonic() {
    assert_eq!(decode(0x0000_003f), Err(ErrorKind::UnknownMnemonic));
    assert_eq!(decode(0x0000_0001), Err(ErrorKind::UnknownMnemonic));
    assert_eq!(decode(0x0400_0000), Err(ErrorKind::UnknownMnemonic));
    assert_eq!(decode(0xffff_ffff), Err(ErrorKind::UnknownMnemonic));
}

#[test]
fn register_numbers_without_a_name() {
    let registers = MnemonicTable::new().insert("a", 0).insert("b", 1);
    assert_eq!(disassemble_r(0, &registers, "op"), text("op a, a, a"));
    assert_eq!(disassemble_r(1 << 21, &registers, "op"), text("op a, b, a"));
    assert_eq!(disassemble_r(2 << 21, &registers, "op"), Err(ErrorKind::UnknownRegister));
    assert_eq!(disassemble_r(2 << 16, &registers, "op"), Err(ErrorKind::UnknownRegister));
    assert_eq!(disassemble_r(2 << 11, &registers, "op"), Err(ErrorKind::UnknownRegister));
    assert_eq!(disassemble_i(1 << 16, &registers, "op"), text("op b, a, 0"));
    assert_eq!(disassemble_i(3 << 16, &registers, "op"), Err(ErrorKind::UnknownRegister));
    assert_eq!(disassemble_i(3 << 21, &registers, "lw"), Err(ErrorKind::UnknownRegister));
}

#[test]
fn jump_table_is_asked_before_the_immediate_table() {
    let j = MnemonicTable::new().insert("hop", 5);
    let i = MnemonicTable::new().insert("inc", 5).insert("dec", 6);
    let r = MnemonicTable::new().insert("mix", 1);
    let registers = MnemonicTable::new().insert("a", 0);
    let run = |word: u32| disassemble_word(&j, &i, &r, &registers, word);
    assert_eq!(run(5 << 26), Err(ErrorKind::UnsupportedDecode));
    assert_eq!(run(6 << 26), text("dec a, a, 0"));
    assert_eq!(run(1), text("mix a, a, a"));
    assert_eq!(run(2), Err(ErrorKind::UnknownMnemonic));
    assert_eq!(run(7 << 26), Err(ErrorKind::UnknownMnemonic));
}
