//! The line tokenizer: from one line of source text to its tokens.
//!
//! A line is cut at the first `#`, trimmed of white space at both ends and
//! split at every run of spaces and commas. The first token, the mnemonic, is
//! lower-cased; operands keep their case.

use crate::text::{ascii_lower, char_is_whitespace, char_to_ascii_lower, chars_of, is_whitespace,
    push_char, string_of};
use vstd::prelude::*;

verus! {

/// A character that ends a token: a space or a comma.
pub open spec fn is_separator(c: char) -> bool {
    c == ' ' || c == ','
}

/// The line up to its first `#`, or the whole line if it has none.
pub open spec fn strip_comment(line: Seq<char>) -> Seq<char> {
    match line.index_of_first('#') {
        Some(i) => line.take(i),
        None => line,
    }
}

/// `s` without the white space at its end.
pub open spec fn trim_end(s: Seq<char>) -> Seq<char>
    decreases s.len(),
{
    if s.len() > 0 && is_whitespace(s.last()) {
        trim_end(s.drop_last())
    } else {
        s
    }
}

/// `s` without the white space at its start.
pub open spec fn trim_start(s: Seq<char>) -> Seq<char>
    decreases s.len(),
{
    if s.len() > 0 && is_whitespace(s.first()) {
        trim_start(s.drop_first())
    } else {
        s
    }
}

/// `s` without the white space at either end.
pub open spec fn trim(s: Seq<char>) -> Seq<char> {
    trim_start(trim_end(s))
}

/// The maximal separator-free runs of `s`, in order. Read from the left, a
/// separator ends the field in progress, and any other character extends it
/// or, after a separator or at the very start, opens a new one.
pub open spec fn split_fields(s: Seq<char>) -> Seq<Seq<char>>
    decreases s.len(),
{
    if s.len() == 0 {
        Seq::empty()
    } else {
        let before = split_fields(s.drop_last());
        if is_separator(s.last()) {
            before
        } else if s.len() >= 2 && !is_separator(s[s.len() - 2]) {
            before.drop_last().push(before.last().push(s.last()))
        } else {
            before.push(seq![s.last()])
        }
    }
}

/// Where the fields of `s` start: for each field of `split_fields(s)`, the
/// index in `s` of its first character.
pub open spec fn field_starts(s: Seq<char>) -> Seq<int>
    decreases s.len(),
{
    if s.len() == 0 {
        Seq::empty()
    } else {
        let before = field_starts(s.drop_last());
        if is_separator(s.last()) || (s.len() >= 2 && !is_separator(s[s.len() - 2])) {
            before
        } else {
            before.push(s.len() - 1)
        }
    }
}

/// The number of characters that trimming takes from the start of `s`.
pub open spec fn leading_white_space(s: Seq<char>) -> int {
    trim_end(s).len() - trim(s).len()
}

/// The column of each token of a line: the index in the line of the token's
/// first character, counted from zero.
pub open spec fn columns_of(line: Seq<char>) -> Seq<int> {
    let text = strip_comment(line);
    Seq::new(
        field_starts(trim(text)).len(),
        |k: int| leading_white_space(text) + field_starts(trim(text))[k],
    )
}

/// `s` with its ASCII capitals turned into small letters.
pub open spec fn ascii_lowercase(s: Seq<char>) -> Seq<char> {
    Seq::new(s.len(), |i: int| ascii_lower(s[i]))
}

/// The fields with the first one, the mnemonic, lower-cased.
pub open spec fn lower_mnemonic(fields: Seq<Seq<char>>) -> Seq<Seq<char>> {
    if fields.len() == 0 {
        fields
    } else {
        fields.update(0, ascii_lowercase(fields[0]))
    }
}

/// The tokens of one source line. A blank or comment-only line has none.
pub open spec fn tokens_of(line: Seq<char>) -> Seq<Seq<char>> {
    lower_mnemonic(split_fields(trim(strip_comment(line))))
}

/// No field is empty, and no field holds a separator.
pub proof fn lemma_fields_are_runs(s: Seq<char>)
    ensures
        forall|k: int|
            0 <= k < split_fields(s).len() ==> (#[trigger] split_fields(s)[k]).len() > 0,
        forall|k: int, j: int|
            0 <= k < split_fields(s).len() && 0 <= j < split_fields(s)[k].len() ==> !is_separator(
                #[trigger] split_fields(s)[k][j],
            ),
        s.len() > 0 && !is_separator(s.last()) ==> split_fields(s).len() > 0,
    decreases s.len(),
{
    if s.len() > 0 {
        let fields = split_fields(s);
        let before = split_fields(s.drop_last());
        lemma_fields_are_runs(s.drop_last());
        if s.len() >= 2 {
            assert(s.drop_last().last() == s[s.len() - 2]);
        }
        assert forall|k: int| 0 <= k < fields.len() implies (#[trigger] fields[k]).len() > 0
            && forall|j: int| 0 <= j < fields[k].len() ==> !is_separator(#[trigger] fields[k][j]) by {
            if is_separator(s.last()) || k < fields.len() - 1 {
                assert(fields[k] == before[k]);
            } else if s.len() >= 2 && !is_separator(s[s.len() - 2]) {
                assert(fields[k] == before.last().push(s.last()));
            } else {
                assert(fields[k] == seq![s.last()]);
            }
        }
    }
}

/// Every field is the run of characters that begins at its start.
pub proof fn lemma_field_at_start(s: Seq<char>)
    ensures
        field_starts(s).len() == split_fields(s).len(),
        forall|k: int|
            #![trigger split_fields(s)[k]]
            #![trigger field_starts(s)[k]]
            0 <= k < split_fields(s).len() ==> {
                &&& 0 <= field_starts(s)[k]
                &&& field_starts(s)[k] + split_fields(s)[k].len() <= s.len()
                &&& split_fields(s)[k] == s.subrange(
                    field_starts(s)[k],
                    field_starts(s)[k] + split_fields(s)[k].len(),
                )
            },
        s.len() > 0 && !is_separator(s.last()) ==> split_fields(s).len() > 0 && field_starts(
            s,
        ).last() + split_fields(s).last().len() == s.len(),
    decreases s.len(),
{
    if s.len() > 0 {
        let rest = s.drop_last();
        let fields = split_fields(s);
        let before = split_fields(rest);
        let starts = field_starts(s);
        lemma_field_at_start(rest);
        if s.len() >= 2 {
            assert(rest.last() == s[s.len() - 2]);
        }
        assert forall|k: int|
            #![trigger fields[k]]
            #![trigger starts[k]]
            0 <= k < fields.len() implies {
            &&& 0 <= starts[k]
            &&& starts[k] + fields[k].len() <= s.len()
            &&& fields[k] == s.subrange(starts[k], starts[k] + fields[k].len())
        } by {
            if is_separator(s.last()) || k < fields.len() - 1 {
                assert(fields[k] == before[k]);
                assert(rest.subrange(starts[k], starts[k] + fields[k].len()) =~= s.subrange(
                    starts[k],
                    starts[k] + fields[k].len(),
                ));
            } else if s.len() >= 2 && !is_separator(s[s.len() - 2]) {
                assert(fields[k] == before.last().push(s.last()));
                assert(rest.subrange(starts[k], starts[k] + before.last().len()).push(s.last())
                    =~= s.subrange(starts[k], starts[k] + fields[k].len()));
            } else {
                assert(fields[k] =~= s.subrange(starts[k], starts[k] + 1));
            }
        }
    }
}

/// Trimming keeps the characters from the first to the last that is no
/// white space.
pub proof fn lemma_trim_is_subrange(s: Seq<char>)
    ensures
        0 <= leading_white_space(s) <= trim_end(s).len() <= s.len(),
        trim_end(s) == s.take(trim_end(s).len() as int),
        trim(s) == s.subrange(leading_white_space(s), trim_end(s).len() as int),
{
    lemma_trim_end_is_prefix(s);
    lemma_trim_start_is_suffix(trim_end(s));
    let t = trim_end(s);
    assert(t.skip(t.len() - trim(s).len()) =~= s.subrange(
        leading_white_space(s),
        t.len() as int,
    ));
}

/// What is left after trimming the end is a prefix.
proof fn lemma_trim_end_is_prefix(s: Seq<char>)
    ensures
        trim_end(s).len() <= s.len(),
        trim_end(s) == s.take(trim_end(s).len() as int),
    decreases s.len(),
{
    if s.len() > 0 && is_whitespace(s.last()) {
        lemma_trim_end_is_prefix(s.drop_last());
        assert(s.drop_last().take(trim_end(s).len() as int) =~= s.take(trim_end(s).len() as int));
    } else {
        assert(s.take(s.len() as int) =~= s);
    }
}

/// What is left after trimming the start is a suffix.
proof fn lemma_trim_start_is_suffix(s: Seq<char>)
    ensures
        trim_start(s).len() <= s.len(),
        trim_start(s) == s.skip(s.len() - trim_start(s).len()),
    decreases s.len(),
{
    if s.len() > 0 && is_whitespace(s.first()) {
        lemma_trim_start_is_suffix(s.drop_first());
        assert(s.drop_first().skip(s.len() - 1 - trim_start(s).len()) =~= s.skip(
            s.len() - trim_start(s).len(),
        ));
    } else {
        assert(s.skip(0) =~= s);
    }
}

/// Every token is the run of characters that begins at its column of the
/// line; the mnemonic is that run in lower case.
pub proof fn lemma_token_at_column(line: Seq<char>, k: int)
    requires
        0 <= k < tokens_of(line).len(),
    ensures
        columns_of(line).len() == tokens_of(line).len(),
        0 <= columns_of(line)[k],
        columns_of(line)[k] + tokens_of(line)[k].len() <= line.len(),
        k > 0 ==> tokens_of(line)[k] == line.subrange(
            columns_of(line)[k],
            columns_of(line)[k] + tokens_of(line)[k].len(),
        ),
        k == 0 ==> tokens_of(line)[k] == ascii_lowercase(
            line.subrange(columns_of(line)[k], columns_of(line)[k] + tokens_of(line)[k].len()),
        ),
{
    let text = strip_comment(line);
    let inner = trim(text);
    let lead = leading_white_space(text);
    line.index_of_first_ensures('#');
    lemma_trim_is_subrange(text);
    lemma_field_at_start(inner);
    let start = field_starts(inner)[k];
    let field = split_fields(inner)[k];
    assert(field == inner.subrange(start, start + field.len()));
    assert(inner.subrange(start, start + field.len()) =~= line.subrange(
        lead + start,
        lead + start + field.len(),
    ));
}

/// The index of the first `#` in `v`, or its length.
fn comment_start(v: &Vec<char>) -> (end: usize)
    ensures
        end <= v.len(),
        v@.take(end as int) == strip_comment(v@),
{
    let mut end: usize = 0;
    while end < v.len() && v[end] != '#'
        invariant
            end <= v.len(),
            forall|j: int| 0 <= j < end ==> v@[j] != '#',
        decreases v.len() - end,
    {
        end += 1;
    }
    proof {
        v@.index_of_first_ensures('#');
        if end == v.len() {
            assert(v@.take(end as int) =~= v@);
        }
    }
    end
}

/// The bounds of `v[..end]` without the white space at either end.
fn trim_bounds(v: &Vec<char>, end: usize) -> (bounds: (usize, usize))
    requires
        end <= v.len(),
    ensures
        bounds.0 <= bounds.1 <= end,
        v@.subrange(bounds.0 as int, bounds.1 as int) == trim(v@.take(end as int)),
        bounds.0 == leading_white_space(v@.take(end as int)),
        bounds.1 == trim_end(v@.take(end as int)).len(),
{
    let mut to: usize = end;
    while to > 0 && char_is_whitespace(v[to - 1])
        invariant
            to <= end <= v.len(),
            trim_end(v@.take(to as int)) == trim_end(v@.take(end as int)),
        decreases to,
    {
        assert(v@.take(to as int).drop_last() =~= v@.take(to - 1));
        to -= 1;
    }
    let mut from: usize = 0;
    assert(v@.subrange(0, to as int) =~= v@.take(to as int));
    while from < to && char_is_whitespace(v[from])
        invariant
            from <= to <= v.len(),
            trim_start(v@.subrange(from as int, to as int)) == trim_start(v@.take(to as int)),
        decreases to - from,
    {
        assert(v@.subrange(from as int, to as int).drop_first() =~= v@.subrange(
            from + 1,
            to as int,
        ));
        from += 1;
    }
    (from, to)
}

/// Trims a string of the white space at both ends.
pub fn trimmed(s: &str) -> (t: String)
    ensures
        t@ == trim(s@),
{
    let v = chars_of(s);
    let (from, to) = trim_bounds(&v, v.len());
    assert(v@.take(v.len() as int) =~= v@);
    string_of(&v, from, to)
}

/// Lower-cases a string, ASCII only.
pub fn to_ascii_lowercase(s: &str) -> (lower: String)
    ensures
        lower@ == ascii_lowercase(s@),
{
    let v = chars_of(s);
    let mut lower = String::new();
    let mut i: usize = 0;
    while i < v.len()
        invariant
            i <= v.len(),
            v@ == s@,
            lower@ == ascii_lowercase(s@.take(i as int)),
        decreases v.len() - i,
    {
        push_char(&mut lower, char_to_ascii_lower(v[i]));
        assert(lower@ =~= ascii_lowercase(s@.take(i + 1)));
        i += 1;
    }
    assert(s@.take(i as int) =~= s@);
    lower
}

/// Splits `v[from..to]` at every run of spaces and commas.
fn split_range(v: &Vec<char>, from: usize, to: usize) -> (fields: Vec<String>)
    requires
        from <= to <= v.len(),
    ensures
        fields.deep_view() == split_fields(v@.subrange(from as int, to as int)),
{
    let ghost text = v@.subrange(from as int, to as int);
    let mut fields: Vec<String> = Vec::new();
    let mut field = String::new();
    let mut in_field = false;
    let mut i: usize = from;
    assert(fields.deep_view() =~= Seq::<Seq<char>>::empty());
    while i < to
        invariant
            from <= i <= to <= v.len(),
            text == v@.subrange(from as int, to as int),
            in_field ==> i > from && !is_separator(v@[i - 1]) && split_fields(
                text.take(i - from),
            ) == fields.deep_view().push(field@),
            !in_field ==> (i == from || is_separator(v@[i - 1])) && field@.len() == 0
                && split_fields(text.take(i - from)) == fields.deep_view(),
        decreases to - i,
    {
        let c = v[i];
        let ghost seen = text.take(i - from + 1);
        assert(seen.drop_last() =~= text.take(i - from));
        assert(seen.last() == c);
        if c == ' ' || c == ',' {
            if in_field {
                let ghost before = fields.deep_view();
                fields.push(field);
                assert(fields.deep_view() =~= before.push(field@));
                field = String::new();
                in_field = false;
            }
        } else {
            if in_field {
                assert(seen[seen.len() - 2] == v@[i - 1]);
                assert(fields.deep_view().push(field@).drop_last() =~= fields.deep_view());
            } else {
                assert(field@.push(c) =~= seq![c]);
            }
            push_char(&mut field, c);
            in_field = true;
        }
        i += 1;
    }
    assert(text.take(i - from) =~= text);
    if in_field {
        let ghost before = fields.deep_view();
        fields.push(field);
        assert(fields.deep_view() =~= before.push(field@));
    }
    fields
}

/// The starts of the fields of `v[from..to]`, counted from `from`.
fn starts_in_range(v: &Vec<char>, from: usize, to: usize) -> (starts: Vec<usize>)
    requires
        from <= to <= v.len(),
    ensures
        starts@.len() == field_starts(v@.subrange(from as int, to as int)).len(),
        forall|k: int|
            0 <= k < starts@.len() ==> starts@[k] as int == field_starts(
                v@.subrange(from as int, to as int),
            )[k],
{
    let ghost text = v@.subrange(from as int, to as int);
    let mut starts: Vec<usize> = Vec::new();
    let mut i: usize = from;
    while i < to
        invariant
            from <= i <= to <= v.len(),
            text == v@.subrange(from as int, to as int),
            starts@.len() == field_starts(text.take(i - from)).len(),
            forall|k: int|
                0 <= k < starts@.len() ==> starts@[k] as int == field_starts(
                    text.take(i - from),
                )[k],
        decreases to - i,
    {
        let c = v[i];
        let ghost seen = text.take(i - from + 1);
        assert(seen.drop_last() =~= text.take(i - from));
        assert(seen.last() == c);
        if i > from {
            assert(seen[seen.len() - 2] == v@[i - 1]);
        }
        if c != ' ' && c != ',' && (i == from || v[i - 1] == ' ' || v[i - 1] == ',') {
            starts.push(i - from);
        }
        i += 1;
    }
    assert(text.take(i - from) =~= text);
    starts
}

/// The column of each token of a line: where in the line, counted in
/// characters from zero, the token begins.
pub fn token_columns(line: &str) -> (columns: Vec<usize>)
    ensures
        columns@.len() == columns_of(line@).len(),
        forall|k: int| 0 <= k < columns@.len() ==> columns@[k] as int == columns_of(line@)[k],
{
    let v = chars_of(line);
    let end = comment_start(&v);
    let (from, to) = trim_bounds(&v, end);
    let starts = starts_in_range(&v, from, to);
    let ghost text = strip_comment(line@);
    proof {
        lemma_field_at_start(trim(text));
    }
    let mut columns: Vec<usize> = Vec::new();
    let mut k: usize = 0;
    while k < starts.len()
        invariant
            k <= starts.len(),
            from <= to <= v.len(),
            from as int == leading_white_space(text),
            starts@.len() == field_starts(trim(text)).len(),
            forall|m: int|
                0 <= m < starts@.len() ==> starts@[m] as int == field_starts(trim(text))[m]
                    && starts@[m] <= to - from,
            columns@.len() == k,
            forall|m: int|
                0 <= m < k ==> columns@[m] as int == leading_white_space(text) + field_starts(
                    trim(text),
                )[m],
        decreases starts.len() - k,
    {
        columns.push(from + starts[k]);
        k += 1;
    }
    columns
}

/// Cuts one source line into its tokens: the mnemonic in lower case, then the
/// operands as written. A blank or comment-only line gives no token.
pub fn tokenize(line: &str) -> (tokens: Vec<String>)
    ensures
        tokens.deep_view() == tokens_of(line@),
{
    let v = chars_of(line);
    let end = comment_start(&v);
    let (from, to) = trim_bounds(&v, end);
    let mut tokens = split_range(&v, from, to);
    if tokens.len() > 0 {
        let ghost fields = tokens.deep_view();
        let mnemonic = to_ascii_lowercase(tokens[0].as_str());
        tokens.set(0, mnemonic);
        assert(tokens.deep_view() =~= fields.update(0, mnemonic@));
    }
    tokens
}

} // verus!
