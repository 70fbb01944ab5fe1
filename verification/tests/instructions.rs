use mips_assembler::decode::{disassemble_j, disassemble_word};
use mips_assembler::encode::assemble_line;
use mips_assembler::error::{AsmError, ErrorKind, LineError};
use mips_assembler::program::assemble_source;
use mips_assembler::standard::{
    create_i_codes, create_j_codes, create_r_codes, create_register_codes,
};
use mips_assembler::tables::MnemonicTable;

struct Tables {
    j: MnemonicTable,
    i: MnemonicTable,
    r: MnemonicTable,
    registers: MnemonicTable,
}

fn tables() -> Tables {
    Tables {
        j: create_j_codes(),
        i: create_i_codes(),
        r: create_r_codes(),
        registers: create_register_codes(),
    }
}

fn encode(t: &Tables, line: &str) -> Result<Option<u32>, AsmError> {
    assemble_line(&t.j, &t.i, &t.r, &t.registers, line)
}

fn decode(t: &Tables, word: u32) -> Result<String, ErrorKind> {
    disassemble_word(&t.j, &t.i, &t.r, &t.registers, word)
}

const SYMBOLIC: [&str; 32] = [
    "$zero", "$at", "$v0", "$v1", "$a0", "$a1", "$a2", "$a3", "$t0", "$t1", "$t2", "$t3", "$t4",
    "$t5", "$t6", "$t7", "$s0", "$s1", "$s2", "$s3", "$s4", "$s5", "$s6", "$s7", "$t8", "$t9",
    "$k0", "$k1", "$gp", "$sp", "$fp", "$ra",
];

#[test]
fn add_packs_rd_rt_rs() {
    let t = tables();
    assert_eq!(
        encode(&t, "add $t0, $t1, $t2"),
        Ok(Some(0b000000_01010_01001_01000_00000_100000))
    );
}

#[test]
fn lw_packs_base_and_offset() {
    let t = tables();
    let word = encode(&t, "lw $t0, 4($sp)").unwrap().unwrap();
    assert_eq!(word, 0b100011_11101_01000_0000000000000100);
    assert_eq!(word >> 26, 0b100011);
    assert_eq!((word >> 21) & 0x1f, 0b11101);
    assert_eq!((word >> 16) & 0x1f, 0b01000);
    assert_eq!(word & 0xffff, 4);
}

#[test]
fn sll_packs_shift_amount_and_zero_rs() {
    let t = tables();
    let word = encode(&t, "sll $t0, $t1, 2").unwrap().unwrap();
    assert_eq!(word, 0b000000_00000_01001_01000_00010_000000);
    assert_eq!((word >> 21) & 0x1f, 0);
    assert_eq!((word >> 6) & 0x1f, 2);
    assert_eq!(word & 0x3f, 0);
}

#[test]
fn jump_keeps_only_its_opcode() {
    let t = tables();
    assert_eq!(encode(&t, "j 0x400000"), Ok(Some(0b000010 << 26)));
    assert_eq!(encode(&t, "j"), Ok(Some(0b000010 << 26)));
    assert_eq!(encode(&t, "jal somewhere"), Ok(Some(0b000011 << 26)));
}

#[test]
fn unknown_mnemonic_is_reported_with_its_line() {
    let t = tables();
    let expected = AsmError { kind: ErrorKind::UnknownMnemonic, token: 0 };
    assert_eq!(encode(&t, "foo $t0, $t1, $t2"), Err(expected));
    let source = "add $t0, $t1, $t2\n\nfoo $t0, $t1, $t2\nadd $t0, $t1, $t2\n";
    assert_eq!(
        assemble_source(&t.j, &t.i, &t.r, &t.registers, source),
        Err(LineError { line: 3, error: expected })
    );
}

#[test]
fn numeric_and_symbolic_register_names_encode_alike() {
    let t = tables();
    assert_eq!(encode(&t, "add $k0, $k0, $k0"), encode(&t, "add $26, $26, $26"));
    for (n, name) in SYMBOLIC.iter().enumerate() {
        let symbolic = format!("add {}, $t1, $t2", name);
        let numeric = format!("add ${}, $9, $10", n);
        let word = encode(&t, &symbolic).unwrap().unwrap();
        assert_eq!(encode(&t, &numeric), Ok(Some(word)));
        assert_eq!((word >> 11) & 0x1f, n as u32);
        let lw_symbolic = format!("lw $t0, 8({})", name);
        let lw_numeric = format!("lw $8, 8(${})", n);
        assert_eq!(encode(&t, &lw_symbolic), encode(&t, &lw_numeric));
    }
}

#[test]
fn registers_come_back_under_their_symbolic_names() {
    let t = tables();
    for (n, name) in SYMBOLIC.iter().enumerate() {
        let line = format!("addi ${}, ${}, 1", n, n);
        let word = encode(&t, &line).unwrap().unwrap();
        assert_eq!(decode(&t, word), Ok(format!("addi {}, {}, 1", name, name)));
    }
}

#[test]
fn round_trip_of_an_immediate_instruction() {
    let t = tables();
    let word = encode(&t, "ADDI $t0, $9, 70000   # wraps").unwrap().unwrap();
    assert_eq!(decode(&t, word), Ok("addi $t0, $t1, 4464".to_string()));
}

#[test]
fn round_trip_of_a_load() {
    let t = tables();
    let word = encode(&t, "lw $t0, 4($sp)").unwrap().unwrap();
    assert_eq!(decode(&t, word), Ok("lw $t0, 4($sp)".to_string()));
    let word = encode(&t, "sw $31, 65540($29)").unwrap().unwrap();
    assert_eq!(decode(&t, word), Ok("sw $ra, 4($sp)".to_string()));
}

#[test]
fn round_trip_of_a_register_instruction_swaps_the_sources() {
    let t = tables();
    let word = encode(&t, "add $t0, $t1, $t2").unwrap().unwrap();
    assert_eq!(decode(&t, word), Ok("add $t0, $t2, $t1".to_string()));
}

#[test]
fn round_trip_of_a_shift_loses_the_amount() {
    let t = tables();
    let word = encode(&t, "sll $t0, $t1, 2").unwrap().unwrap();
    assert_eq!(decode(&t, word), Ok("sll $t0, $zero, $t1".to_string()));
}

#[test]
fn round_trip_of_a_jump_is_unsupported() {
    let t = tables();
    let word = encode(&t, "j 0x400000").unwrap().unwrap();
    assert_eq!(decode(&t, word), Err(ErrorKind::UnsupportedDecode));
    let name = t.j.lookup_by_code(word >> 26).unwrap();
    assert_eq!(disassemble_j(word, &name), "j unimplemented");
}

#[test]
fn varying_rs_changes_only_the_middle_operand() {
    let t = tables();
    let word: u32 = 0b000000_01010_01001_01000_00000_100000;
    for (n, name) in SYMBOLIC.iter().enumerate() {
        let changed = (word & !(0x1f << 21)) | ((n as u32) << 21);
        assert_eq!(decode(&t, changed), Ok(format!("add $t0, {}, $t1", name)));
    }
}

#[test]
fn immediate_is_masked_to_sixteen_bits() {
    let t = tables();
    assert_eq!(0x1FFFF, 131071);
    assert_eq!(0x1FFFF & 0xFFFF, 65535);
    let full = encode(&t, "addi $t0, $t1, 131071").unwrap().unwrap();
    let masked = encode(&t, "addi $t0, $t1, 65535").unwrap().unwrap();
    assert_eq!(full, masked);
    assert_eq!(full & 0xffff, 0xffff);
    assert_eq!(full >> 16, masked >> 16);
    assert_eq!(encode(&t, "sw $t0, 131071($t1)"), encode(&t, "sw $t0, 65535($t1)"));
}
