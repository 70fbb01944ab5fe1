//! Whole programs: from source text to the words of its instructions.
//!
//! A program is encoded line by line, and the first line that fails stops it.
//! A caller that would rather skip a bad line encodes the lines one by one.

use crate::encode::{assemble_line, encode_line};
use crate::error::LineError;
use crate::tables::MnemonicTable;
use crate::text::{chars_of, push_char};
use vstd::prelude::*;

verus! {

/// The lines of a text. A line ends at a line feed or, if characters are left
/// over, at the end of the text; the line feed is not part of the line.
pub open spec fn lines_of(text: Seq<char>) -> Seq<Seq<char>>
    decreases text.len(),
{
    if text.len() == 0 {
        Seq::empty()
    } else {
        let before = lines_of(text.drop_last());
        let open = text.len() >= 2 && text[text.len() - 2] != '\n';
        if text.last() == '\n' {
            if open {
                before
            } else {
                before.push(Seq::empty())
            }
        } else {
            if open {
                before.drop_last().push(before.last().push(text.last()))
            } else {
                before.push(seq![text.last()])
            }
        }
    }
}

/// The words of a program given as lines: one word per line that holds an
/// instruction, in order; or the first failure, with its line number.
pub open spec fn encode_program(
    j_codes: Map<Seq<char>, u32>,
    i_codes: Map<Seq<char>, u32>,
    r_codes: Map<Seq<char>, u32>,
    registers: Map<Seq<char>, u32>,
    lines: Seq<Seq<char>>,
) -> Result<Seq<u32>, LineError>
    decreases lines.len(),
{
    if lines.len() == 0 {
        Ok(Seq::empty())
    } else {
        match encode_program(j_codes, i_codes, r_codes, registers, lines.drop_last()) {
            Err(e) => Err(e),
            Ok(words) => match encode_line(j_codes, i_codes, r_codes, registers, lines.last()) {
                Err(e) => Err(LineError { line: lines.len() as usize, error: e }),
                Ok(None) => Ok(words),
                Ok(Some(word)) => Ok(words.push(word)),
            },
        }
    }
}

/// An encoding result with its words as a sequence.
pub open spec fn words_of(result: Result<Vec<u32>, LineError>) -> Result<Seq<u32>, LineError> {
    match result {
        Ok(words) => Ok(words@),
        Err(e) => Err(e),
    }
}

/// Cuts a text into its lines.
pub fn split_lines(text: &str) -> (lines: Vec<String>)
    ensures
        lines.deep_view() == lines_of(text@),
{
    let v = chars_of(text);
    let mut lines: Vec<String> = Vec::new();
    let mut line = String::new();
    let mut open = false;
    let mut i: usize = 0;
    assert(lines.deep_view() =~= Seq::<Seq<char>>::empty());
    while i < v.len()
        invariant
            i <= v.len(),
            v@ == text@,
            open <==> i > 0 && v@[i - 1] != '\n',
            open ==> lines_of(text@.take(i as int)) == lines.deep_view().push(line@),
            !open ==> line@.len() == 0 && lines_of(text@.take(i as int)) == lines.deep_view(),
        decreases v.len() - i,
    {
        let c = v[i];
        let ghost seen = text@.take(i + 1);
        let ghost before = lines.deep_view();
        assert(seen.drop_last() =~= text@.take(i as int));
        assert(seen.last() == c);
        if open {
            assert(seen[seen.len() - 2] == v@[i - 1]);
            assert(before.push(line@).drop_last() =~= before);
        }
        if c == '\n' {
            assert(!open ==> line@ =~= Seq::<char>::empty());
            lines.push(line);
            assert(lines.deep_view() =~= before.push(line@));
            line = String::new();
            open = false;
        } else {
            assert(line@.len() == 0 ==> line@.push(c) =~= seq![c]);
            push_char(&mut line, c);
            open = true;
        }
        i += 1;
    }
    assert(text@.take(i as int) =~= text@);
    if open {
        let ghost before = lines.deep_view();
        lines.push(line);
        assert(lines.deep_view() =~= before.push(line@));
    }
    lines
}

/// Encodes a program given as lines, up to its first failure.
pub fn assemble_lines(
    j_codes: &MnemonicTable,
    i_codes: &MnemonicTable,
    r_codes: &MnemonicTable,
    registers: &MnemonicTable,
    lines: &Vec<String>,
) -> (words: Result<Vec<u32>, LineError>)
    ensures
        words_of(words) == encode_program(
            j_codes@,
            i_codes@,
            r_codes@,
            registers@,
            lines.deep_view(),
        ),
{
    let mut words: Vec<u32> = Vec::new();
    let mut i: usize = 0;
    while i < lines.len()
        invariant
            i <= lines.len(),
            encode_program(
                j_codes@,
                i_codes@,
                r_codes@,
                registers@,
                lines.deep_view().take(i as int),
            ) == Ok::<Seq<u32>, LineError>(words@),
        decreases lines.len() - i,
    {
        let ghost seen = lines.deep_view().take(i + 1);
        assert(seen.drop_last() =~= lines.deep_view().take(i as int));
        assert(seen.last() == lines@[i as int]@);
        match assemble_line(j_codes, i_codes, r_codes, registers, lines[i].as_str()) {
            Ok(Some(word)) => {
                words.push(word);
            },
            Ok(None) => {},
            Err(e) => {
                proof {
                    lemma_failure_stays(
                        j_codes@,
                        i_codes@,
                        r_codes@,
                        registers@,
                        lines.deep_view(),
                        i + 1,
                    );
                }
                return Err(LineError { line: i + 1, error: e });
            },
        }
        i += 1;
    }
    assert(lines.deep_view().take(i as int) =~= lines.deep_view());
    Ok(words)
}

/// Encodes the source text of a program, up to its first failure.
pub fn assemble_source(
    j_codes: &MnemonicTable,
    i_codes: &MnemonicTable,
    r_codes: &MnemonicTable,
    registers: &MnemonicTable,
    source: &str,
) -> (words: Result<Vec<u32>, LineError>)
    ensures
        words_of(words) == encode_program(
            j_codes@,
            i_codes@,
            r_codes@,
            registers@,
            lines_of(source@),
        ),
{
    let lines = split_lines(source);
    assemble_lines(j_codes, i_codes, r_codes, registers, &lines)
}

/// A failure among the first `k` lines is the failure of the whole program.
pub proof fn lemma_failure_stays(
    j_codes: Map<Seq<char>, u32>,
    i_codes: Map<Seq<char>, u32>,
    r_codes: Map<Seq<char>, u32>,
    registers: Map<Seq<char>, u32>,
    lines: Seq<Seq<char>>,
    k: int,
)
    requires
        0 <= k <= lines.len(),
        encode_program(j_codes, i_codes, r_codes, registers, lines.take(k)) is Err,
    ensures
        encode_program(j_codes, i_codes, r_codes, registers, lines) == encode_program(
            j_codes,
            i_codes,
            r_codes,
            registers,
            lines.take(k),
        ),
    decreases lines.len(),
{
    if k < lines.len() {
        assert(lines.drop_last().take(k) =~= lines.take(k));
        lemma_failure_stays(j_codes, i_codes, r_codes, registers, lines.drop_last(), k);
    } else {
        assert(lines.take(k) =~= lines);
    }
}

} // verus!
