//! Mnemonic tables: two-way lookup between names and small integer codes.
//!
//! A table is modelled as a `Map<Seq<char>, u32>` in which no code belongs to
//! two names. It is kept in a `bimap::BiHashMap`, whose methods are taken on
//! trust: their contracts say what the bimap holds after each call.

use bimap::BiHashMap;
use vstd::prelude::*;

verus! {

/// `bimap::BiHashMap`, a two-way hash map, taken as an opaque type.
#[verifier::external_type_specification]
#[verifier::external_body]
#[verifier::reject_recursive_types(L)]
#[verifier::reject_recursive_types(R)]
#[verifier::reject_recursive_types(LS)]
#[verifier::reject_recursive_types(RS)]
pub struct ExBiHashMap<L, R, LS, RS>(BiHashMap<L, R, LS, RS>);

/// The left-right pairs that a `bimap::BiHashMap` from names to codes holds,
/// as a map from each left value's characters to its right value.
pub uninterp spec fn bimap_pairs(m: BiHashMap<String, u32>) -> Map<Seq<char>, u32>;

/// The table without any pair.
pub open spec fn no_pairs() -> Map<Seq<char>, u32> {
    Map::empty()
}

/// No code belongs to two names.
pub open spec fn is_injective(pairs: Map<Seq<char>, u32>) -> bool {
    forall|a: Seq<char>, b: Seq<char>|
        #![trigger pairs.contains_key(a), pairs.contains_key(b)]
        pairs.contains_key(a) && pairs.contains_key(b) && pairs[a] == pairs[b] ==> a == b
}

/// The pairs of a table after `name` has been paired with `code`: the new
/// pair, and every earlier pair that shares neither its name nor its code.
pub open spec fn with_pair(pairs: Map<Seq<char>, u32>, name: Seq<char>, code: u32) -> Map<
    Seq<char>,
    u32,
> {
    Map::new(
        |n: Seq<char>| n == name || (pairs.contains_key(n) && pairs[n] != code),
        |n: Seq<char>|
            if n == name {
                code
            } else {
                pairs[n]
            },
    )
}

/// The code that `name` stands for, if the table knows the name.
pub open spec fn code_of(pairs: Map<Seq<char>, u32>, name: Seq<char>) -> Option<u32> {
    if pairs.contains_key(name) {
        Some(pairs[name])
    } else {
        None
    }
}

/// `name` is a name of `code` in the table.
pub open spec fn names(pairs: Map<Seq<char>, u32>, name: Seq<char>, code: u32) -> bool {
    pairs.contains_key(name) && pairs[name] == code
}

/// The name that stands for `code`, if the table has one.
pub open spec fn name_of(pairs: Map<Seq<char>, u32>, code: u32) -> Option<Seq<char>> {
    if exists|n: Seq<char>| names(pairs, n, code) {
        Some(choose|n: Seq<char>| names(pairs, n, code))
    } else {
        None
    }
}

/// In an injective table a name of `code` is the name of `code`.
pub proof fn lemma_name_of_unique(pairs: Map<Seq<char>, u32>, name: Seq<char>, code: u32)
    requires
        is_injective(pairs),
        names(pairs, name, code),
    ensures
        name_of(pairs, code) == Some(name),
{
    let chosen = choose|n: Seq<char>| names(pairs, n, code);
    assert(pairs.contains_key(chosen) && pairs.contains_key(name));
}

/// Pairing a name with a code keeps a table injective.
pub proof fn lemma_with_pair_injective(pairs: Map<Seq<char>, u32>, name: Seq<char>, code: u32)
    requires
        is_injective(pairs),
    ensures
        is_injective(with_pair(pairs, name, code)),
{
    let next = with_pair(pairs, name, code);
    assert forall|a: Seq<char>, b: Seq<char>|
        next.contains_key(a) && next.contains_key(b) && next[a] == next[b] implies a == b by {
        if a != name && b != name {
            assert(pairs.contains_key(a) && pairs.contains_key(b));
        }
    }
}

/// `BiHashMap::new`: the new bimap holds no pair.
#[verifier::external_body]
fn bimap_new() -> (m: BiHashMap<String, u32>)
    ensures
        bimap_pairs(m) == no_pairs(),
{
    BiHashMap::new()
}

/// `BiHashMap::insert`: the pair is added, after the pair that held the same
/// left value and the pair that held the same right value, if any, have been
/// removed. What the call returns is dropped, and the bimap is handed back.
#[verifier::external_body]
fn bimap_insert(m: BiHashMap<String, u32>, name: &str, code: u32) -> (after: BiHashMap<
    String,
    u32,
>)
    ensures
        bimap_pairs(after) == with_pair(bimap_pairs(m), name@, code),
{
    let mut m = m;
    m.insert(String::from(name), code);
    m
}

/// `BiHashMap::get_by_left`: the right value paired with the given left
/// value, if the bimap holds that left value.
#[verifier::external_body]
fn bimap_get_by_left<'a>(m: &'a BiHashMap<String, u32>, name: &str) -> (code: Option<&'a u32>)
    ensures
        code matches Some(c) ==> names(bimap_pairs(*m), name@, *c),
        code is None ==> !bimap_pairs(*m).contains_key(name@),
{
    m.get_by_left(name)
}

/// `BiHashMap::get_by_right`: a left value paired with the given right value,
/// if the bimap holds that right value.
#[verifier::external_body]
fn bimap_get_by_right<'a>(m: &'a BiHashMap<String, u32>, code: u32) -> (name: Option<&'a String>)
    ensures
        name matches Some(n) ==> names(bimap_pairs(*m), n@, code),
        name is None ==> forall|n: Seq<char>| !names(bimap_pairs(*m), n, code),
{
    m.get_by_right(&code)
}

/// An injective two-way table between mnemonic strings and integer codes.
pub struct MnemonicTable {
    pairs: BiHashMap<String, u32>,
}

impl View for MnemonicTable {
    type V = Map<Seq<char>, u32>;

    closed spec fn view(&self) -> Map<Seq<char>, u32> {
        bimap_pairs(self.pairs)
    }
}

impl MnemonicTable {
    #[verifier::type_invariant]
    spec fn injective(self) -> bool {
        is_injective(bimap_pairs(self.pairs))
    }

    /// An empty table.
    pub fn new() -> (table: MnemonicTable)
        ensures
            table@ == no_pairs(),
    {
        MnemonicTable { pairs: bimap_new() }
    }

    /// The table with `name` paired with `code`. An earlier pair with the
    /// same name or the same code gives way, so the table stays injective.
    pub fn insert(self, name: &str, code: u32) -> (table: MnemonicTable)
        ensures
            table@ == with_pair(self@, name@, code),
    {
        proof {
            use_type_invariant(&self);
            lemma_with_pair_injective(self@, name@, code);
        }
        MnemonicTable { pairs: bimap_insert(self.pairs, name, code) }
    }

    /// The code paired with `name`, or `None` for an unknown name.
    pub fn lookup_by_mnemonic(&self, name: &str) -> (code: Option<u32>)
        ensures
            code == code_of(self@, name@),
    {
        match bimap_get_by_left(&self.pairs, name) {
            Some(c) => Some(*c),
            None => None,
        }
    }

    /// The name paired with `code`, or `None` for an unknown code.
    pub fn lookup_by_code(&self, code: u32) -> (name: Option<&str>)
        ensures
            name matches Some(n) ==> name_of(self@, code) == Some(n@),
            name is None ==> name_of(self@, code) is None,
    {
        match bimap_get_by_right(&self.pairs, code) {
            Some(n) => {
                proof {
                    use_type_invariant(self);
                    lemma_name_of_unique(self@, n@, code);
                }
                Some(n.as_str())
            },
            None => None,
        }
    }
}

} // verus!
