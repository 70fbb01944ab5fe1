//! Register operands: symbolic names from the register table, and the numeric
//! spellings `$0` to `$31` as aliases for the same numbers.

use crate::tables::{code_of, name_of, MnemonicTable};
use crate::text::{chars_of, decimal, digit_char};
use vstd::prelude::*;

verus! {

/// The numeric spelling of register `n`: a dollar sign and `n` in decimal.
pub open spec fn numeric_name(n: u32) -> Seq<char> {
    seq!['$'] + decimal(n as nat)
}

/// `name` is the numeric spelling of register `n`, one of the 32 registers.
pub open spec fn is_numeric_name(name: Seq<char>, n: u32) -> bool {
    n < 32 && numeric_name(n) == name
}

/// The register that a numeric spelling stands for, if `name` is one.
pub open spec fn numeric_alias(name: Seq<char>) -> Option<u32> {
    if exists|n: u32| is_numeric_name(name, n) {
        Some(choose|n: u32| is_numeric_name(name, n))
    } else {
        None
    }
}

/// The number of the register that `name` stands for: what the table says of
/// a name it knows, else what the numeric spelling says.
pub open spec fn register_number(registers: Map<Seq<char>, u32>, name: Seq<char>) -> Option<u32> {
    match code_of(registers, name) {
        Some(n) => Some(n),
        None => numeric_alias(name),
    }
}

/// The one name under which register `n` is written out.
pub open spec fn register_name(registers: Map<Seq<char>, u32>, n: u32) -> Option<Seq<char>> {
    name_of(registers, n)
}

/// The numeric spelling of a register has one digit below ten and two from
/// ten on.
pub proof fn lemma_numeric_name_digits(n: u32)
    requires
        n < 32,
    ensures
        n < 10 ==> numeric_name(n) == seq!['$', digit_char(n as nat)],
        n >= 10 ==> numeric_name(n) == seq![
            '$',
            digit_char((n / 10) as nat),
            digit_char((n % 10) as nat),
        ],
{
    reveal_with_fuel(decimal, 2);
    if n < 10 {
        assert(numeric_name(n) =~= seq!['$', digit_char(n as nat)]);
    } else {
        assert(numeric_name(n) =~= seq![
            '$',
            digit_char((n / 10) as nat),
            digit_char((n % 10) as nat),
        ]);
    }
}

/// Reads a numeric register spelling.
pub fn numeric_register(name: &str) -> (n: Option<u32>)
    ensures
        n == numeric_alias(name@),
{
    let v = chars_of(name);
    let mut found: Option<u32> = None;
    if v.len() == 2 && v[0] == '$' && '0' <= v[1] && v[1] <= '9' {
        found = Some(v[1] as u32 - '0' as u32);
    } else if v.len() == 3 && v[0] == '$' && '1' <= v[1] && v[1] <= '3' && '0' <= v[2] && v[2]
        <= '9' {
        let value = (v[1] as u32 - '0' as u32) * 10 + (v[2] as u32 - '0' as u32);
        if value < 32 {
            found = Some(value);
        }
    }
    proof {
        assert forall|m: u32| is_numeric_name(name@, m) implies found == Some(m) by {
            lemma_numeric_name_digits(m);
            if m < 10 {
                assert(name@[1] == digit_char(m as nat));
            } else {
                assert(name@[1] == digit_char((m / 10) as nat));
                assert(name@[2] == digit_char((m % 10) as nat));
            }
        }
        if let Some(value) = found {
            lemma_numeric_name_digits(value);
            assert(numeric_name(value) =~= name@);
            assert(is_numeric_name(name@, value));
        }
    }
    found
}

/// Looks up a register operand, symbolic or numeric.
pub fn lookup_register(registers: &MnemonicTable, name: &str) -> (n: Option<u32>)
    ensures
        n == register_number(registers@, name@),
{
    match registers.lookup_by_mnemonic(name) {
        Some(n) => Some(n),
        None => numeric_register(name),
    }
}

} // verus!
