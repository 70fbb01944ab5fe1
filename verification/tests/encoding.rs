use mips_assembler::encode::{
    assemble_i, assemble_j, assemble_line, assemble_r, split_memory_operand,
};
use mips_assembler::error::{AsmError, ErrorKind, LineError};
use mips_assembler::program::{assemble_lines, assemble_source};
use mips_assembler::standard::{
    create_i_codes, create_j_codes, create_r_codes, create_register_codes,
};
use mips_assembler::tables::MnemonicTable;

fn strings(items: &[&str]) -> Vec<String> {
    items.iter().map(|s| s.to_string()).collect()
}

fn encode(line: &str) -> Result<Option<u32>, AsmError> {
    assemble_line(
        &create_j_codes(),
        &create_i_codes(),
        &create_r_codes(),
        &create_register_codes(),
        line,
    )
}

fn failure(kind: ErrorKind, token: usize) -> AsmError {
    AsmError { kind, token }
}

#[test]
fn line_without_tokens_is_no_instruction() {
    assert_eq!(encode(""), Ok(None));
    assert_eq!(encode("   "), Ok(None));
    assert_eq!(encode("# add $t0, $t1, $t2"), Ok(None));
    assert_eq!(encode(" ,, "), Ok(None));
}

#[test]
fn assemble_j_shifts_the_opcode() {
    assert_eq!(assemble_j(0b000010), 0x0800_0000);
    assert_eq!(assemble_j(0b000011), 0x0c00_0000);
    assert_eq!(assemble_j(0), 0);
    assert_eq!(assemble_j(63), 0xfc00_0000);
    assert_eq!(assemble_j(64), 0);
}

#[test]
fn register_format_words() {
    let registers = create_register_codes();
    assert_eq!(
        assemble_r(0b100010, &registers, &strings(&["sub", "$s0", "$s1", "$s2"])),
        Ok((18 << 21) | (17 << 16) | (16 << 11) | 0b100010)
    );
    assert_eq!(
        assemble_r(0b000011, &registers, &strings(&["sra", "$ra", "$1", "31"])),
        Ok((1 << 16) | (31 << 11) | (31 << 6) | 0b000011)
    );
    assert_eq!(
        assemble_r(0b000100, &registers, &strings(&["sllv", "$t0", "$t1", "$t2"])),
        Ok((10 << 21) | (9 << 16) | (8 << 11) | 0b000100)
    );
    assert_eq!(encode("srl $2, $3, 0"), Ok(Some((3 << 16) | (2 << 11) | 0b000010)));
    assert_eq!(encode("xor $zero $zero $zero extra tokens"), Ok(Some(0b100110)));
}

#[test]
fn immediate_format_words() {
    let registers = create_register_codes();
    assert_eq!(
        assemble_i(0b001000, &registers, &strings(&["addi", "$t0", "$t1", "5"])),
        Ok((0b001000 << 26) | (9 << 21) | (8 << 16) | 5)
    );
    assert_eq!(
        assemble_i(0b101011, &registers, &strings(&["sw", "$a0", "65535($fp)"])),
        Ok((0b101011 << 26) | (30 << 21) | (4 << 16) | 0xffff)
    );
    assert_eq!(
        encode("beq $1, $2, 65536"),
        Ok(Some((0b000100 << 26) | (2 << 21) | (1 << 16)))
    );
    assert_eq!(
        encode("ori $t0, $t0, +255"),
        Ok(Some((0b001101 << 26) | (8 << 21) | (8 << 16) | 255))
    );
    assert_eq!(
        encode("lw $t0, 0($zero) trailing"),
        Ok(Some((0b100011 << 26) | (8 << 16)))
    );
}

#[test]
fn unknown_mnemonic() {
    assert_eq!(encode("foo"), Err(failure(ErrorKind::UnknownMnemonic, 0)));
    assert_eq!(encode("$t0 add"), Err(failure(ErrorKind::UnknownMnemonic, 0)));
    assert_eq!(encode("add\t$t0, $t1, $t2"), Err(failure(ErrorKind::UnknownMnemonic, 0)));
    assert_eq!(encode("4"), Err(failure(ErrorKind::UnknownMnemonic, 0)));
}

#[test]
fn unknown_register() {
    assert_eq!(encode("add $x, $t1, $t2"), Err(failure(ErrorKind::UnknownRegister, 1)));
    assert_eq!(encode("add $t0, t1, $t2"), Err(failure(ErrorKind::UnknownRegister, 2)));
    assert_eq!(encode("add $t0, $t1, $32"), Err(failure(ErrorKind::UnknownRegister, 3)));
    assert_eq!(encode("add $T0, $t1, $t2"), Err(failure(ErrorKind::UnknownRegister, 1)));
    assert_eq!(encode("sll $t0, 5, 2"), Err(failure(ErrorKind::UnknownRegister, 2)));
    assert_eq!(encode("addi $t0, 7, 2"), Err(failure(ErrorKind::UnknownRegister, 2)));
    assert_eq!(encode("addi 7, $t0, 2"), Err(failure(ErrorKind::UnknownRegister, 1)));
    assert_eq!(encode("lw $t0, 4($nope)"), Err(failure(ErrorKind::UnknownRegister, 2)));
    assert_eq!(encode("lw $t0, 4()"), Err(failure(ErrorKind::UnknownRegister, 2)));
    assert_eq!(encode("lw t0, 4($sp)"), Err(failure(ErrorKind::UnknownRegister, 1)));
}

#[test]
fn malformed_operand_syntax() {
    assert_eq!(encode("add"), Err(failure(ErrorKind::MalformedOperandSyntax, 1)));
    assert_eq!(encode("add $t0"), Err(failure(ErrorKind::MalformedOperandSyntax, 2)));
    assert_eq!(encode("add $t0, $t1"), Err(failure(ErrorKind::MalformedOperandSyntax, 3)));
    assert_eq!(encode("jr $ra"), Err(failure(ErrorKind::MalformedOperandSyntax, 2)));
    assert_eq!(encode("sll $t0, $t1"), Err(failure(ErrorKind::MalformedOperandSyntax, 3)));
    assert_eq!(encode("sll"), Err(failure(ErrorKind::MalformedOperandSyntax, 3)));
    assert_eq!(encode("addi $t0, $t1"), Err(failure(ErrorKind::MalformedOperandSyntax, 3)));
    assert_eq!(encode("addi"), Err(failure(ErrorKind::MalformedOperandSyntax, 3)));
    assert_eq!(encode("lw"), Err(failure(ErrorKind::MalformedOperandSyntax, 2)));
    assert_eq!(encode("lw $t0"), Err(failure(ErrorKind::MalformedOperandSyntax, 2)));
    assert_eq!(encode("lw $t0, 4$sp"), Err(failure(ErrorKind::MalformedOperandSyntax, 2)));
    assert_eq!(encode("lw $t0, 4($sp"), Err(failure(ErrorKind::MalformedOperandSyntax, 2)));
    assert_eq!(encode("lw $t0, 4$sp)"), Err(failure(ErrorKind::MalformedOperandSyntax, 2)));
    assert_eq!(encode("lw $t0, 4($sp)x"), Err(failure(ErrorKind::MalformedOperandSyntax, 2)));
    assert_eq!(encode("lw $t0, 4(($sp)"), Err(failure(ErrorKind::MalformedOperandSyntax, 2)));
    assert_eq!(encode("lw $t0, 4($sp))"), Err(failure(ErrorKind::MalformedOperandSyntax, 2)));
    assert_eq!(encode("lw $t0, 4 ($sp)"), Err(failure(ErrorKind::MalformedOperandSyntax, 2)));
    assert_eq!(encode("sw $t0, $t1, 4"), Err(failure(ErrorKind::MalformedOperandSyntax, 2)));
    assert_eq!(encode("lw bad, 4$sp"), Err(failure(ErrorKind::MalformedOperandSyntax, 2)));
}

#[test]
fn invalid_numeric_literal() {
    assert_eq!(encode("addi $t0, $t1, x"), Err(failure(ErrorKind::InvalidNumericLiteral, 3)));
    assert_eq!(encode("addi $t0, $t1, -1"), Err(failure(ErrorKind::InvalidNumericLiteral, 3)));
    assert_eq!(encode("addi $t0, $t1, 0x10"), Err(failure(ErrorKind::InvalidNumericLiteral, 3)));
    assert_eq!(
        encode("addi $t0, $t1, 4294967296"),
        Err(failure(ErrorKind::InvalidNumericLiteral, 3))
    );
    assert_eq!(encode("addi bad, bad, x"), Err(failure(ErrorKind::InvalidNumericLiteral, 3)));
    assert_eq!(encode("sll $t0, $t1, $t2"), Err(failure(ErrorKind::InvalidNumericLiteral, 3)));
    assert_eq!(encode("sll $t0, $t1, 32"), Err(failure(ErrorKind::InvalidNumericLiteral, 3)));
    assert_eq!(encode("sra bad, bad, 4294967295"), Err(failure(ErrorKind::InvalidNumericLiteral, 3)));
    assert_eq!(encode("lw $t0, ($sp)"), Err(failure(ErrorKind::InvalidNumericLiteral, 2)));
    assert_eq!(encode("lw $t0, -4($sp)"), Err(failure(ErrorKind::InvalidNumericLiteral, 2)));
    assert_eq!(encode("lw $t0, x(bad)"), Err(failure(ErrorKind::InvalidNumericLiteral, 2)));
}

#[test]
fn memory_operand_is_split() {
    let pair = |a: &str, b: &str| Some((a.to_string(), b.to_string()));
    assert_eq!(split_memory_operand("4($sp)"), pair("4", "$sp"));
    assert_eq!(split_memory_operand("()"), pair("", ""));
    assert_eq!(split_memory_operand("x()"), pair("x", ""));
    assert_eq!(split_memory_operand("(y)"), pair("", "y"));
    assert_eq!(split_memory_operand("12 3(a b)"), pair("12 3", "a b"));
    for bad in ["", "(", ")", ")(", "4", "4(", "4)", "4($sp", "4$sp)", "4($sp)x", "4(($sp)",
        "4($sp))", "(4)($sp)", "4)($sp)", "()()"] {
        assert_eq!(split_memory_operand(bad), None, "token {:?}", bad);
    }
}

#[test]
fn function_code_and_opcode_go_in_as_they_are() {
    let registers = create_register_codes();
    let parts = strings(&["op", "$1", "$2", "$3"]);
    assert_eq!(
        assemble_r(0x7f, &registers, &parts),
        Ok(0x7f | (1 << 11) | (2 << 16) | (3 << 21))
    );
    let parts = strings(&["op", "$1", "$2", "3"]);
    assert_eq!(
        assemble_i(1, &registers, &parts),
        Ok((1 << 26) | (2 << 21) | (1 << 16) | 3)
    );
}

#[test]
fn tables_of_ones_own() {
    let j = MnemonicTable::new().insert("hop", 9);
    let i = MnemonicTable::new().insert("inc", 5).insert("load", 0b100011);
    let r = MnemonicTable::new().insert("mix", 0b111000).insert("inc", 1);
    let registers = MnemonicTable::new().insert("a", 1).insert("b", 2);
    let run = |line: &str| assemble_line(&j, &i, &r, &registers, line);
    assert_eq!(run("hop"), Ok(Some(9 << 26)));
    assert_eq!(run("INC a, b, 7"), Ok(Some((5 << 26) | (2 << 21) | (1 << 16) | 7)));
    assert_eq!(run("load a, 3(b)"), Ok(Some((0b100011 << 26) | (2 << 21) | (1 << 16) | 3)));
    assert_eq!(run("mix a, b, $3"), Ok(Some((3 << 21) | (2 << 16) | (1 << 11) | 0b111000)));
    assert_eq!(run("mix $t0, b, a"), Err(failure(ErrorKind::UnknownRegister, 1)));
    assert_eq!(run("add a, b, a"), Err(failure(ErrorKind::UnknownMnemonic, 0)));
}

#[test]
fn program_is_encoded_line_by_line() {
    let j = create_j_codes();
    let i = create_i_codes();
    let r = create_r_codes();
    let registers = create_register_codes();
    let source = "# a small program\nadd $t0, $t1, $t2\n\n  lw $t0, 4($sp)  # load\nj end\n";
    assert_eq!(
        assemble_source(&j, &i, &r, &registers, source),
        Ok(vec![0x01494020, 0x8fa80004, 0x08000000])
    );
    assert_eq!(assemble_source(&j, &i, &r, &registers, ""), Ok(vec![]));
    assert_eq!(assemble_source(&j, &i, &r, &registers, "\n\n# only\n"), Ok(vec![]));
    let lines = strings(&["sll $t0, $t1, 2", "", "j x"]);
    assert_eq!(assemble_lines(&j, &i, &r, &registers, &lines), Ok(vec![0x00094080, 0x08000000]));
    assert_eq!(assemble_lines(&j, &i, &r, &registers, &Vec::new()), Ok(vec![]));
}

#[test]
fn program_stops_at_its_first_failure() {
    let j = create_j_codes();
    let i = create_i_codes();
    let r = create_r_codes();
    let registers = create_register_codes();
    let source = "add $t0, $t1, $t2\naddi $t0, $t1, x\nfoo\n";
    assert_eq!(
        assemble_source(&j, &i, &r, &registers, source),
        Err(LineError { line: 2, error: failure(ErrorKind::InvalidNumericLiteral, 3) })
    );
    assert_eq!(
        assemble_source(&j, &i, &r, &registers, "bogus"),
        Err(LineError { line: 1, error: failure(ErrorKind::UnknownMnemonic, 0) })
    );
    let lines = strings(&["", "", "lw $t0, 4", "bogus"]);
    assert_eq!(
        assemble_lines(&j, &i, &r, &registers, &lines),
        Err(LineError { line: 3, error: failure(ErrorKind::MalformedOperandSyntax, 2) })
    );
}
