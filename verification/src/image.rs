//! The two images of an encoded program: its words as little-endian bytes,
//! and a listing with one line of 32 binary digits per word, the most
//! significant bit first.
//!
//! Reading an image is defined as the inverse of writing it: bytes or digits
//! read as the words that would have been written as them.

use crate::program::{lines_of, split_lines};
use crate::text::{chars_of, push_char};
use crate::tokenizer::{trim, trimmed};
use vstd::prelude::*;

verus! {

/// The binary digit for bit `31 - k` of `word`: digit `k` of its listing line.
pub open spec fn bit_char(word: u32, k: u32) -> char {
    if (word >> ((31 - k) as u32)) & 1 == 1 {
        '1'
    } else {
        '0'
    }
}

/// The 32 binary digits of `word`, the most significant bit first.
pub open spec fn bits_of(word: u32) -> Seq<char> {
    Seq::new(32, |k: int| bit_char(word, k as u32))
}

/// The word that is written as the digits `s`, if there is one.
pub open spec fn word_of_bits(s: Seq<char>) -> Option<u32> {
    if exists|word: u32| bits_of(word) == s {
        Some(choose|word: u32| bits_of(word) == s)
    } else {
        None
    }
}

/// The listing of a program: for each word its digits and a line feed.
pub open spec fn listing_of(words: Seq<u32>) -> Seq<char>
    decreases words.len(),
{
    if words.len() == 0 {
        Seq::empty()
    } else {
        listing_of(words.drop_last()) + bits_of(words.last()) + seq!['\n']
    }
}

/// The words of a listing given as lines. A line is read without the white
/// space around it; an empty one is skipped, and any other must be the digits
/// of a word.
pub open spec fn words_of_listing(lines: Seq<Seq<char>>) -> Option<Seq<u32>>
    decreases lines.len(),
{
    if lines.len() == 0 {
        Some(Seq::empty())
    } else {
        match words_of_listing(lines.drop_last()) {
            None => None,
            Some(words) => if trim(lines.last()).len() == 0 {
                Some(words)
            } else {
                match word_of_bits(trim(lines.last())) {
                    Some(word) => Some(words.push(word)),
                    None => None,
                }
            },
        }
    }
}

/// Byte `k` of `word`, counted from the least significant.
pub open spec fn le_byte(word: u32, k: int) -> u8 {
    if k == 0 {
        (word & 0xff) as u8
    } else if k == 1 {
        ((word >> 8) & 0xff) as u8
    } else if k == 2 {
        ((word >> 16) & 0xff) as u8
    } else {
        ((word >> 24) & 0xff) as u8
    }
}

/// The bytes of a program: four for each word, the least significant first.
pub open spec fn le_bytes_of(words: Seq<u32>) -> Seq<u8> {
    Seq::new(4 * words.len(), |k: int| le_byte(words[k / 4], k % 4))
}

/// The words that are written as the given bytes, if there are any.
pub open spec fn words_of_le_bytes(bytes: Seq<u8>) -> Option<Seq<u32>> {
    if exists|words: Seq<u32>| le_bytes_of(words) == bytes {
        Some(choose|words: Seq<u32>| le_bytes_of(words) == bytes)
    } else {
        None
    }
}

/// Words with the same 32 bits are the same word.
proof fn lemma_same_bits(a: u32, b: u32)
    by (bit_vector)
    requires
        (a >> 0) & 1 == (b >> 0) & 1,
        (a >> 1) & 1 == (b >> 1) & 1,
        (a >> 2) & 1 == (b >> 2) & 1,
        (a >> 3) & 1 == (b >> 3) & 1,
        (a >> 4) & 1 == (b >> 4) & 1,
        (a >> 5) & 1 == (b >> 5) & 1,
        (a >> 6) & 1 == (b >> 6) & 1,
        (a >> 7) & 1 == (b >> 7) & 1,
        (a >> 8) & 1 == (b >> 8) & 1,
        (a >> 9) & 1 == (b >> 9) & 1,
        (a >> 10) & 1 == (b >> 10) & 1,
        (a >> 11) & 1 == (b >> 11) & 1,
        (a >> 12) & 1 == (b >> 12) & 1,
        (a >> 13) & 1 == (b >> 13) & 1,
        (a >> 14) & 1 == (b >> 14) & 1,
        (a >> 15) & 1 == (b >> 15) & 1,
        (a >> 16) & 1 == (b >> 16) & 1,
        (a >> 17) & 1 == (b >> 17) & 1,
        (a >> 18) & 1 == (b >> 18) & 1,
        (a >> 19) & 1 == (b >> 19) & 1,
        (a >> 20) & 1 == (b >> 20) & 1,
        (a >> 21) & 1 == (b >> 21) & 1,
        (a >> 22) & 1 == (b >> 22) & 1,
        (a >> 23) & 1 == (b >> 23) & 1,
        (a >> 24) & 1 == (b >> 24) & 1,
        (a >> 25) & 1 == (b >> 25) & 1,
        (a >> 26) & 1 == (b >> 26) & 1,
        (a >> 27) & 1 == (b >> 27) & 1,
        (a >> 28) & 1 == (b >> 28) & 1,
        (a >> 29) & 1 == (b >> 29) & 1,
        (a >> 30) & 1 == (b >> 30) & 1,
        (a >> 31) & 1 == (b >> 31) & 1,
    ensures
        a == b,
{
}

/// Different words are written as different digits.
pub proof fn lemma_bits_of_injective(a: u32, b: u32)
    requires
        bits_of(a) == bits_of(b),
    ensures
        a == b,
{
    assert forall|k: u32| k < 32 implies (a >> k) & 1 == (b >> k) & 1 by {
        let j = (31 - k) as u32;
        assert(bits_of(a)[j as int] == bit_char(a, j));
        assert(bits_of(b)[j as int] == bit_char(b, j));
        assert((a >> k) & 1 == 0 || (a >> k) & 1 == 1) by (bit_vector);
        assert((b >> k) & 1 == 0 || (b >> k) & 1 == 1) by (bit_vector);
    }
    lemma_same_bits(a, b);
}

/// Reading the digits of a word gives the word back.
pub proof fn lemma_word_of_bits(word: u32)
    ensures
        word_of_bits(bits_of(word)) == Some(word),
{
    let chosen = choose|w: u32| bits_of(w) == bits_of(word);
    lemma_bits_of_injective(chosen, word);
}

/// Words with the same four bytes are the same word.
proof fn lemma_same_bytes(a: u32, b: u32)
    by (bit_vector)
    requires
        a & 0xff == b & 0xff,
        (a >> 8) & 0xff == (b >> 8) & 0xff,
        (a >> 16) & 0xff == (b >> 16) & 0xff,
        (a >> 24) & 0xff == (b >> 24) & 0xff,
    ensures
        a == b,
{
}

/// Every byte of a word fits in eight bits.
proof fn lemma_byte_fits(word: u32)
    by (bit_vector)
    ensures
        word & 0xff < 256,
        (word >> 8) & 0xff < 256,
        (word >> 16) & 0xff < 256,
        (word >> 24) & 0xff < 256,
{
}

/// Different programs are written as different bytes.
pub proof fn lemma_le_bytes_of_injective(a: Seq<u32>, b: Seq<u32>)
    requires
        le_bytes_of(a) == le_bytes_of(b),
    ensures
        a == b,
{
    assert(le_bytes_of(a).len() == 4 * a.len());
    assert(le_bytes_of(b).len() == 4 * b.len());
    assert forall|i: int| 0 <= i < a.len() implies a[i] == b[i] by {
        lemma_byte_fits(a[i]);
        lemma_byte_fits(b[i]);
        assert(le_bytes_of(a)[4 * i] == le_byte(a[i], 0));
        assert(le_bytes_of(b)[4 * i] == le_byte(b[i], 0));
        assert(le_bytes_of(a)[4 * i + 1] == le_byte(a[i], 1));
        assert(le_bytes_of(b)[4 * i + 1] == le_byte(b[i], 1));
        assert(le_bytes_of(a)[4 * i + 2] == le_byte(a[i], 2));
        assert(le_bytes_of(b)[4 * i + 2] == le_byte(b[i], 2));
        assert(le_bytes_of(a)[4 * i + 3] == le_byte(a[i], 3));
        assert(le_bytes_of(b)[4 * i + 3] == le_byte(b[i], 3));
        lemma_same_bytes(a[i], b[i]);
    }
    assert(a =~= b);
}

/// Reading the bytes of a program gives the program back.
pub proof fn lemma_words_of_le_bytes(words: Seq<u32>)
    ensures
        words_of_le_bytes(le_bytes_of(words)) == Some(words),
{
    let chosen = choose|w: Seq<u32>| le_bytes_of(w) == le_bytes_of(words);
    lemma_le_bytes_of_injective(chosen, words);
}

/// Writes a word as 32 binary digits, the most significant bit first.
pub fn word_bits(word: u32) -> (digits: String)
    ensures
        digits@ == bits_of(word),
{
    let mut digits = String::new();
    let mut k: u32 = 0;
    while k < 32
        invariant
            k <= 32,
            digits@.len() == k,
            forall|j: int| 0 <= j < k ==> digits@[j] == bit_char(word, j as u32),
        decreases 32 - k,
    {
        let digit = if (word >> (31 - k)) & 1 == 1 {
            '1'
        } else {
            '0'
        };
        push_char(&mut digits, digit);
        k += 1;
    }
    assert(digits@ =~= bits_of(word));
    digits
}

/// Writes the listing of a program: one line of digits per word.
pub fn bit_listing(words: &Vec<u32>) -> (listing: String)
    ensures
        listing@ == listing_of(words@),
{
    let mut listing = String::new();
    let mut i: usize = 0;
    while i < words.len()
        invariant
            i <= words.len(),
            listing@ == listing_of(words@.take(i as int)),
        decreases words.len() - i,
    {
        let digits = word_bits(words[i]);
        assert(words@.take(i + 1).drop_last() =~= words@.take(i as int));
        listing.append(digits.as_str());
        push_char(&mut listing, '\n');
        i += 1;
    }
    assert(words@.take(i as int) =~= words@);
    listing
}

/// The next bit read goes below the bits read so far.
proof fn lemma_shift_in(value: u32, bit: u32, k: u32, next: u32)
    by (bit_vector)
    requires
        bit <= 1,
        k <= 30,
        next == k + 1,
    ensures
        (((value << 1) | bit) >> next) & 1 == (value >> k) & 1,
        (((value << 1) | bit) >> 0) & 1 == bit,
{
}

/// Reads a word from 32 binary digits, the most significant bit first.
pub fn read_bits(digits: &str) -> (word: Option<u32>)
    ensures
        word == word_of_bits(digits@),
{
    let v = chars_of(digits);
    if v.len() != 32 {
        assert forall|w: u32| bits_of(w) != digits@ by {
            assert(bits_of(w).len() == 32);
        }
        return None;
    }
    let mut value: u32 = 0;
    let mut k: usize = 0;
    while k < 32
        invariant
            k <= 32 == v.len(),
            v@ == digits@,
            forall|j: int|
                0 <= j < k ==> v@[j] == (if (value >> ((k - 1 - j) as u32)) & 1 == 1 {
                    '1'
                } else {
                    '0'
                }),
        decreases 32 - k,
    {
        let c = v[k];
        if c != '0' && c != '1' {
            assert forall|w: u32| bits_of(w) != digits@ by {
                assert(bits_of(w)[k as int] == bit_char(w, k as u32));
            }
            return None;
        }
        let bit: u32 = if c == '1' {
            1
        } else {
            0
        };
        let ghost before = value;
        value = (value << 1) | bit;
        proof {
            assert forall|j: int| 0 <= j < k + 1 implies v@[j] == (if (value >> ((k - j) as u32))
                & 1 == 1 {
                '1'
            } else {
                '0'
            }) by {
                if j < k {
                    lemma_shift_in(before, bit, (k - 1 - j) as u32, (k - j) as u32);
                } else {
                    lemma_shift_in(before, bit, 0, 1);
                }
            }
        }
        k += 1;
    }
    proof {
        assert(digits@ =~= bits_of(value));
        lemma_word_of_bits(value);
    }
    Some(value)
}

/// A listing with a bad line among its first `k` lines is no listing.
proof fn lemma_bad_line_stays(lines: Seq<Seq<char>>, k: int)
    requires
        0 <= k <= lines.len(),
        words_of_listing(lines.take(k)) is None,
    ensures
        words_of_listing(lines) is None,
    decreases lines.len(),
{
    if k < lines.len() {
        assert(lines.drop_last().take(k) =~= lines.take(k));
        lemma_bad_line_stays(lines.drop_last(), k);
    } else {
        assert(lines.take(k) =~= lines);
    }
}

/// Reads a program from its listing.
pub fn read_listing(text: &str) -> (words: Option<Vec<u32>>)
    ensures
        words matches Some(w) ==> words_of_listing(lines_of(text@)) == Some(w@),
        words is None ==> words_of_listing(lines_of(text@)) is None,
{
    let lines = split_lines(text);
    let mut words: Vec<u32> = Vec::new();
    let mut i: usize = 0;
    while i < lines.len()
        invariant
            i <= lines.len(),
            lines.deep_view() == lines_of(text@),
            words_of_listing(lines.deep_view().take(i as int)) == Some(words@),
        decreases lines.len() - i,
    {
        let ghost seen = lines.deep_view().take(i + 1);
        assert(seen.drop_last() =~= lines.deep_view().take(i as int));
        assert(seen.last() == lines@[i as int]@);
        let digits = trimmed(lines[i].as_str());
        if digits.as_str().unicode_len() > 0 {
            match read_bits(digits.as_str()) {
                Some(word) => {
                    words.push(word);
                },
                None => {
                    proof {
                        lemma_bad_line_stays(lines.deep_view(), i + 1);
                    }
                    return None;
                },
            }
        }
        i += 1;
    }
    assert(lines.deep_view().take(i as int) =~= lines.deep_view());
    Some(words)
}

/// Writes a program as bytes: four for each word, the least significant
/// first.
pub fn le_bytes(words: &Vec<u32>) -> (bytes: Vec<u8>)
    ensures
        bytes@ == le_bytes_of(words@),
{
    let mut bytes: Vec<u8> = Vec::new();
    let mut i: usize = 0;
    while i < words.len()
        invariant
            i <= words.len(),
            bytes@ == le_bytes_of(words@.take(i as int)),
        decreases words.len() - i,
    {
        let word = words[i];
        proof {
            lemma_byte_fits(word);
        }
        bytes.push((word & 0xff) as u8);
        bytes.push(((word >> 8) & 0xff) as u8);
        bytes.push(((word >> 16) & 0xff) as u8);
        bytes.push(((word >> 24) & 0xff) as u8);
        assert(bytes@ =~= le_bytes_of(words@.take(i + 1)));
        i += 1;
    }
    assert(words@.take(i as int) =~= words@);
    bytes
}

/// A word put together from its four bytes has those bytes.
proof fn lemma_bytes_of_joined(b0: u32, b1: u32, b2: u32, b3: u32)
    by (bit_vector)
    requires
        b0 < 256,
        b1 < 256,
        b2 < 256,
        b3 < 256,
    ensures
        (b0 | (b1 << 8) | (b2 << 16) | (b3 << 24)) & 0xff == b0,
        ((b0 | (b1 << 8) | (b2 << 16) | (b3 << 24)) >> 8) & 0xff == b1,
        ((b0 | (b1 << 8) | (b2 << 16) | (b3 << 24)) >> 16) & 0xff == b2,
        ((b0 | (b1 << 8) | (b2 << 16) | (b3 << 24)) >> 24) & 0xff == b3,
{
}

/// Reads a program from its bytes. Bytes whose number is no multiple of four
/// are no program.
pub fn read_le_bytes(bytes: &Vec<u8>) -> (words: Option<Vec<u32>>)
    ensures
        words matches Some(w) ==> words_of_le_bytes(bytes@) == Some(w@),
        words is None ==> words_of_le_bytes(bytes@) is None,
{
    if bytes.len() % 4 != 0 {
        assert forall|w: Seq<u32>| le_bytes_of(w) != bytes@ by {
            assert(le_bytes_of(w).len() == 4 * w.len());
        }
        return None;
    }
    let count = bytes.len() / 4;
    let mut words: Vec<u32> = Vec::new();
    let mut i: usize = 0;
    while i < count
        invariant
            i <= count,
            count * 4 == bytes.len(),
            words@.len() == i,
            le_bytes_of(words@) == bytes@.take(4 * i),
        decreases count - i,
    {
        let b0 = bytes[4 * i] as u32;
        let b1 = bytes[4 * i + 1] as u32;
        let b2 = bytes[4 * i + 2] as u32;
        let b3 = bytes[4 * i + 3] as u32;
        let ghost before = words@;
        proof {
            lemma_bytes_of_joined(b0, b1, b2, b3);
        }
        words.push(b0 | (b1 << 8) | (b2 << 16) | (b3 << 24));
        assert(le_bytes_of(words@) =~= bytes@.take(4 * (i + 1))) by {
            assert forall|k: int| 0 <= k < 4 * i implies le_bytes_of(words@)[k] == le_bytes_of(
                before,
            )[k] by {}
        }
        i += 1;
    }
    proof {
        assert(bytes@.take(4 * i) =~= bytes@);
        lemma_words_of_le_bytes(words@);
    }
    Some(words)
}

} // verus!
