//! A two-way codec between lines of MIPS assembly text and 32-bit instruction
//! words, for a small fixed set of register, immediate and jump instructions.
//!
//! Every function is verified against a mathematical model: text is a
//! `Seq<char>`, a mnemonic table is a `Map<Seq<char>, u32>`, and an
//! instruction word is a `u32` read through the bit fields of `word`.
//!
//! - `tables`, `standard`, `registers`: the mnemonic tables and register names
//! - `text`, `tokenizer`: characters, decimal numbers, and the tokens of a line
//! - `word`: the bit layouts of the three instruction formats
//! - `encode`, `decode`: one line to one word, and one word to one line
//! - `program`, `image`: whole programs, and their images as bytes and digits
//! - `laws`: what encoding and decoding owe each other

pub mod decode;
pub mod encode;
pub mod error;
pub mod image;
pub mod laws;
pub mod program;
pub mod registers;
pub mod standard;
pub mod tables;
pub mod text;
pub mod tokenizer;
pub mod word;
