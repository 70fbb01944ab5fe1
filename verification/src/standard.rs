//! The four standard tables: jump opcodes, immediate-format opcodes,
//! register-format function codes, and symbolic register names.

use crate::tables::{is_injective, lemma_name_of_unique, name_of, names, MnemonicTable};
use vstd::prelude::*;

verus! {

/// Opcode of `lw`, the load with a memory operand.
pub const LW_OPCODE: u32 = 0b100011;

/// Opcode of `sw`, the store with a memory operand.
pub const SW_OPCODE: u32 = 0b101011;

/// Function code of `sll`, a shift by a literal amount.
pub const SLL_FUNCT: u32 = 0b000000;

/// Function code of `srl`, a shift by a literal amount.
pub const SRL_FUNCT: u32 = 0b000010;

/// Function code of `sra`, a shift by a literal amount.
pub const SRA_FUNCT: u32 = 0b000011;


/// Jump-format opcodes by mnemonic.
pub open spec fn j_codes() -> Map<Seq<char>, u32> {
    map!["j"@ => 0b000010u32, "jal"@ => 0b000011u32]
}

/// Immediate-format opcodes by mnemonic.
pub open spec fn i_codes() -> Map<Seq<char>, u32> {
    map![
        "addi"@ => 0b001000u32,
        "addiu"@ => 0b001001u32,
        "andi"@ => 0b001100u32,
        "beq"@ => 0b000100u32,
        "bne"@ => 0b000101u32,
        "lw"@ => LW_OPCODE,
        "ori"@ => 0b001101u32,
        "sw"@ => SW_OPCODE,
    ]
}

/// Register-format function codes by mnemonic. The opcode of all of them is zero.
pub open spec fn r_codes() -> Map<Seq<char>, u32> {
    map![
        "add"@ => 0b100000u32,
        "addu"@ => 0b100001u32,
        "and"@ => 0b100100u32,
        "div"@ => 0b011010u32,
        "jr"@ => 0b001000u32,
        "nor"@ => 0b100111u32,
        "or"@ => 0b100101u32,
        "sll"@ => SLL_FUNCT,
        "sllv"@ => 0b000100u32,
        "slt"@ => 0b101010u32,
        "sltu"@ => 0b101011u32,
        "sra"@ => SRA_FUNCT,
        "srav"@ => 0b000111u32,
        "srl"@ => SRL_FUNCT,
        "srlv"@ => 0b000110u32,
        "sub"@ => 0b100010u32,
        "subu"@ => 0b100011u32,
        "xor"@ => 0b100110u32,
    ]
}

/// Register numbers by symbolic name.
pub open spec fn register_codes() -> Map<Seq<char>, u32> {
    map![
        "$zero"@ => 0u32,
        "$at"@ => 1u32,
        "$v0"@ => 2u32,
        "$v1"@ => 3u32,
        "$a0"@ => 4u32,
        "$a1"@ => 5u32,
        "$a2"@ => 6u32,
        "$a3"@ => 7u32,
        "$t0"@ => 8u32,
        "$t1"@ => 9u32,
        "$t2"@ => 10u32,
        "$t3"@ => 11u32,
        "$t4"@ => 12u32,
        "$t5"@ => 13u32,
        "$t6"@ => 14u32,
        "$t7"@ => 15u32,
        "$s0"@ => 16u32,
        "$s1"@ => 17u32,
        "$s2"@ => 18u32,
        "$s3"@ => 19u32,
        "$s4"@ => 20u32,
        "$s5"@ => 21u32,
        "$s6"@ => 22u32,
        "$s7"@ => 23u32,
        "$t8"@ => 24u32,
        "$t9"@ => 25u32,
        "$k0"@ => 26u32,
        "$k1"@ => 27u32,
        "$gp"@ => 28u32,
        "$sp"@ => 29u32,
        "$fp"@ => 30u32,
        "$ra"@ => 31u32,
    ]
}

/// The symbolic register names by register number: the spelling under which
/// each register is written out.
pub open spec fn register_names() -> Seq<Seq<char>> {
    seq![
        "$zero"@,
        "$at"@,
        "$v0"@,
        "$v1"@,
        "$a0"@,
        "$a1"@,
        "$a2"@,
        "$a3"@,
        "$t0"@,
        "$t1"@,
        "$t2"@,
        "$t3"@,
        "$t4"@,
        "$t5"@,
        "$t6"@,
        "$t7"@,
        "$s0"@,
        "$s1"@,
        "$s2"@,
        "$s3"@,
        "$s4"@,
        "$s5"@,
        "$s6"@,
        "$s7"@,
        "$t8"@,
        "$t9"@,
        "$k0"@,
        "$k1"@,
        "$gp"@,
        "$sp"@,
        "$fp"@,
        "$ra"@,
    ]
}

/// Builds the table of jump-format opcodes.
pub fn create_j_codes() -> (table: MnemonicTable)
    ensures
        table@ == j_codes(),
{
    MnemonicTable::new().insert("j", 0b000010).insert("jal", 0b000011)
}

/// Builds the table of immediate-format opcodes.
pub fn create_i_codes() -> (table: MnemonicTable)
    ensures
        table@ == i_codes(),
{
    MnemonicTable::new()
        .insert("addi", 0b001000)
        .insert("addiu", 0b001001)
        .insert("andi", 0b001100)
        .insert("beq", 0b000100)
        .insert("bne", 0b000101)
        .insert("lw", LW_OPCODE)
        .insert("ori", 0b001101)
        .insert("sw", SW_OPCODE)
}

/// Builds the table of register-format function codes.
pub fn create_r_codes() -> (table: MnemonicTable)
    ensures
        table@ == r_codes(),
{
    MnemonicTable::new()
        .insert("add", 0b100000)
        .insert("addu", 0b100001)
        .insert("and", 0b100100)
        .insert("div", 0b011010)
        .insert("jr", 0b001000)
        .insert("nor", 0b100111)
        .insert("or", 0b100101)
        .insert("sll", SLL_FUNCT)
        .insert("sllv", 0b000100)
        .insert("slt", 0b101010)
        .insert("sltu", 0b101011)
        .insert("sra", SRA_FUNCT)
        .insert("srav", 0b000111)
        .insert("srl", SRL_FUNCT)
        .insert("srlv", 0b000110)
        .insert("sub", 0b100010)
        .insert("subu", 0b100011)
        .insert("xor", 0b100110)
}

/// Builds the table of symbolic register names.
pub fn create_register_codes() -> (table: MnemonicTable)
    ensures
        table@ == register_codes(),
{
    MnemonicTable::new()
        .insert("$zero", 0)
        .insert("$at", 1)
        .insert("$v0", 2)
        .insert("$v1", 3)
        .insert("$a0", 4)
        .insert("$a1", 5)
        .insert("$a2", 6)
        .insert("$a3", 7)
        .insert("$t0", 8)
        .insert("$t1", 9)
        .insert("$t2", 10)
        .insert("$t3", 11)
        .insert("$t4", 12)
        .insert("$t5", 13)
        .insert("$t6", 14)
        .insert("$t7", 15)
        .insert("$s0", 16)
        .insert("$s1", 17)
        .insert("$s2", 18)
        .insert("$s3", 19)
        .insert("$s4", 20)
        .insert("$s5", 21)
        .insert("$s6", 22)
        .insert("$s7", 23)
        .insert("$t8", 24)
        .insert("$t9", 25)
        .insert("$k0", 26)
        .insert("$k1", 27)
        .insert("$gp", 28)
        .insert("$sp", 29)
        .insert("$fp", 30)
        .insert("$ra", 31)
}

/// The jump opcodes are six-bit codes other than zero, one per mnemonic.
pub proof fn lemma_j_codes()
    ensures
        is_injective(j_codes()),
        forall|name: Seq<char>| #[trigger]
            j_codes().contains_key(name) ==> j_codes()[name] == 2 || j_codes()[name] == 3,
{
}

/// The immediate-format opcodes are six-bit codes other than zero, one per
/// mnemonic, and none of them is a jump opcode.
pub proof fn lemma_i_codes()
    ensures
        is_injective(i_codes()),
        forall|name: Seq<char>| #[trigger]
            i_codes().contains_key(name) ==> 3 < i_codes()[name] < 64,
{
}

/// The function codes are six-bit codes, one per mnemonic.
pub proof fn lemma_r_codes()
    ensures
        is_injective(r_codes()),
        forall|name: Seq<char>| #[trigger] r_codes().contains_key(name) ==> r_codes()[name] < 64,
{
}

/// The register table pairs each of the 32 register numbers with its
/// symbolic name, and holds nothing else. Every name has a letter after its
/// dollar sign.
pub proof fn lemma_register_codes()
    ensures
        is_injective(register_codes()),
        forall|name: Seq<char>| #[trigger]
            register_codes().contains_key(name) ==> register_codes()[name] < 32,
        forall|n: u32|
            n < 32 ==> name_of(register_codes(), n) == Some(#[trigger] register_names()[n as int]),
        forall|name: Seq<char>| #[trigger]
            register_codes().contains_key(name) ==> 'a' <= name[1] <= 'z',
{
    assert("$zero"@[1] == 'z' && "$zero"@[2] == 'e') by {
        reveal_strlit("$zero");
    }
    assert("$at"@[1] == 'a' && "$at"@[2] == 't') by {
        reveal_strlit("$at");
    }
    assert("$v0"@[1] == 'v' && "$v0"@[2] == '0') by {
        reveal_strlit("$v0");
    }
    assert("$v1"@[1] == 'v' && "$v1"@[2] == '1') by {
        reveal_strlit("$v1");
    }
    assert("$a0"@[1] == 'a' && "$a0"@[2] == '0') by {
        reveal_strlit("$a0");
    }
    assert("$a1"@[1] == 'a' && "$a1"@[2] == '1') by {
        reveal_strlit("$a1");
    }
    assert("$a2"@[1] == 'a' && "$a2"@[2] == '2') by {
        reveal_strlit("$a2");
    }
    assert("$a3"@[1] == 'a' && "$a3"@[2] == '3') by {
        reveal_strlit("$a3");
    }
    assert("$t0"@[1] == 't' && "$t0"@[2] == '0') by {
        reveal_strlit("$t0");
    }
    assert("$t1"@[1] == 't' && "$t1"@[2] == '1') by {
        reveal_strlit("$t1");
    }
    assert("$t2"@[1] == 't' && "$t2"@[2] == '2') by {
        reveal_strlit("$t2");
    }
    assert("$t3"@[1] == 't' && "$t3"@[2] == '3') by {
        reveal_strlit("$t3");
    }
    assert("$t4"@[1] == 't' && "$t4"@[2] == '4') by {
        reveal_strlit("$t4");
    }
    assert("$t5"@[1] == 't' && "$t5"@[2] == '5') by {
        reveal_strlit("$t5");
    }
    assert("$t6"@[1] == 't' && "$t6"@[2] == '6') by {
        reveal_strlit("$t6");
    }
    assert("$t7"@[1] == 't' && "$t7"@[2] == '7') by {
        reveal_strlit("$t7");
    }
    assert("$s0"@[1] == 's' && "$s0"@[2] == '0') by {
        reveal_strlit("$s0");
    }
    assert("$s1"@[1] == 's' && "$s1"@[2] == '1') by {
        reveal_strlit("$s1");
    }
    assert("$s2"@[1] == 's' && "$s2"@[2] == '2') by {
        reveal_strlit("$s2");
    }
    assert("$s3"@[1] == 's' && "$s3"@[2] == '3') by {
        reveal_strlit("$s3");
    }
    assert("$s4"@[1] == 's' && "$s4"@[2] == '4') by {
        reveal_strlit("$s4");
    }
    assert("$s5"@[1] == 's' && "$s5"@[2] == '5') by {
        reveal_strlit("$s5");
    }
    assert("$s6"@[1] == 's' && "$s6"@[2] == '6') by {
        reveal_strlit("$s6");
    }
    assert("$s7"@[1] == 's' && "$s7"@[2] == '7') by {
        reveal_strlit("$s7");
    }
    assert("$t8"@[1] == 't' && "$t8"@[2] == '8') by {
        reveal_strlit("$t8");
    }
    assert("$t9"@[1] == 't' && "$t9"@[2] == '9') by {
        reveal_strlit("$t9");
    }
    assert("$k0"@[1] == 'k' && "$k0"@[2] == '0') by {
        reveal_strlit("$k0");
    }
    assert("$k1"@[1] == 'k' && "$k1"@[2] == '1') by {
        reveal_strlit("$k1");
    }
    assert("$gp"@[1] == 'g' && "$gp"@[2] == 'p') by {
        reveal_strlit("$gp");
    }
    assert("$sp"@[1] == 's' && "$sp"@[2] == 'p') by {
        reveal_strlit("$sp");
    }
    assert("$fp"@[1] == 'f' && "$fp"@[2] == 'p') by {
        reveal_strlit("$fp");
    }
    assert("$ra"@[1] == 'r' && "$ra"@[2] == 'a') by {
        reveal_strlit("$ra");
    }
    assert forall|n: u32| n < 32 implies name_of(register_codes(), n) == Some(
        #[trigger] register_names()[n as int],
    ) by {
        if n == 0 {
            assert(names(register_codes(), "$zero"@, 0));
        }
        if n == 1 {
            assert(names(register_codes(), "$at"@, 1));
        }
        if n == 2 {
            assert(names(register_codes(), "$v0"@, 2));
        }
        if n == 3 {
            assert(names(register_codes(), "$v1"@, 3));
        }
        if n == 4 {
            assert(names(register_codes(), "$a0"@, 4));
        }
        if n == 5 {
            assert(names(register_codes(), "$a1"@, 5));
        }
        if n == 6 {
            assert(names(register_codes(), "$a2"@, 6));
        }
        if n == 7 {
            assert(names(register_codes(), "$a3"@, 7));
        }
        if n == 8 {
            assert(names(register_codes(), "$t0"@, 8));
        }
        if n == 9 {
            assert(names(register_codes(), "$t1"@, 9));
        }
        if n == 10 {
            assert(names(register_codes(), "$t2"@, 10));
        }
        if n == 11 {
            assert(names(register_codes(), "$t3"@, 11));
        }
        if n == 12 {
            assert(names(register_codes(), "$t4"@, 12));
        }
        if n == 13 {
            assert(names(register_codes(), "$t5"@, 13));
        }
        if n == 14 {
            assert(names(register_codes(), "$t6"@, 14));
        }
        if n == 15 {
            assert(names(register_codes(), "$t7"@, 15));
        }
        if n == 16 {
            assert(names(register_codes(), "$s0"@, 16));
        }
        if n == 17 {
            assert(names(register_codes(), "$s1"@, 17));
        }
        if n == 18 {
            assert(names(register_codes(), "$s2"@, 18));
        }
        if n == 19 {
            assert(names(register_codes(), "$s3"@, 19));
        }
        if n == 20 {
            assert(names(register_codes(), "$s4"@, 20));
        }
        if n == 21 {
            assert(names(register_codes(), "$s5"@, 21));
        }
        if n == 22 {
            assert(names(register_codes(), "$s6"@, 22));
        }
        if n == 23 {
            assert(names(register_codes(), "$s7"@, 23));
        }
        if n == 24 {
            assert(names(register_codes(), "$t8"@, 24));
        }
        if n == 25 {
            assert(names(register_codes(), "$t9"@, 25));
        }
        if n == 26 {
            assert(names(register_codes(), "$k0"@, 26));
        }
        if n == 27 {
            assert(names(register_codes(), "$k1"@, 27));
        }
        if n == 28 {
            assert(names(register_codes(), "$gp"@, 28));
        }
        if n == 29 {
            assert(names(register_codes(), "$sp"@, 29));
        }
        if n == 30 {
            assert(names(register_codes(), "$fp"@, 30));
        }
        if n == 31 {
            assert(names(register_codes(), "$ra"@, 31));
        }
        lemma_name_of_unique(register_codes(), register_names()[n as int], n);
    }
}

} // verus!
