//! Stripping the comments from a text.

use vstd::prelude::*;
use crate::comment::{
    block_comment_end,
    line_comment_end,
    scan_block_comment,
    scan_line_comment,
};
use crate::element::{code_element, kept, scan, scan_from, stripped, Kind, Span};
use crate::error::ScanError;
use crate::laws::lemma_output_is_input_without_comments;
use crate::literal::{
    char_literal_end,
    multiline_string_literal_end,
    scan_char_literal,
    scan_multiline_string_literal,
    scan_string_literal,
    string_literal_end,
};
use crate::text::{push_range, to_chars};

verus! {

/// Returns `input` without its comments. Everything else is kept character
/// for character: code, white space, and literals with their delimiters.
/// Fails, with no output, on the first block comment, string or multiline
/// string that nothing closes.
pub fn remove_comments(input: &str) -> (res: Result<String, ScanError>)
    ensures
        match res {
            Ok(output) => stripped(input@) == Ok::<Seq<char>, ScanError>(output@) && output@.len()
                <= input@.len(),
            Err(e) => stripped(input@) == Err::<Seq<char>, ScanError>(e) && e
                != ScanError::NoMatch,
        },
{
    let text = to_chars(input);
    let n = text.len();
    let mut output = String::new();
    let mut pos: usize = 0;
    let ghost mut done: Seq<Span> = Seq::empty();
    while pos < n
        invariant
            pos <= n,
            n == text@.len(),
            text@ == input@,
            output@ == kept(text@, done),
            match scan_from(text@, pos as int) {
                Ok(rest) => scan(text@) == Ok::<Seq<Span>, ScanError>(done + rest),
                Err(e) => scan(text@) == Err::<Seq<Span>, ScanError>(e),
            },
        decreases n - pos,
    {
        match code_element(text.as_slice(), pos) {
            Err(e) => {
                return Err(e);
            },
            Ok(element) => {
                match element.kind {
                    Kind::Comment => {},
                    _ => {
                        push_range(&mut output, text.as_slice(), element.start, element.end);
                    },
                }
                proof {
                    let before = done;
                    done = done.push(element@);
                    assert(done.drop_last() =~= before);
                    match scan_from(text@, element.end as int) {
                        Ok(rest) => {
                            assert(before + (seq![element@] + rest) =~= done + rest);
                        },
                        Err(_) => {},
                    }
                }
                pos = element.end;
            },
        }
    }
    proof {
        assert(done + Seq::<Span>::empty() =~= done);
        lemma_output_is_input_without_comments(text@);
    }
    Ok(output)
}

/// Cuts `input` at `end` and returns what follows `end` and, before it, the
/// characters from `from` up to `to`.
fn cut<'a>(input: &'a str, from: usize, to: usize, end: usize) -> (res: (&'a str, &'a str))
    requires
        from <= to <= end <= input@.len(),
    ensures
        res.0@ == input@.subrange(end as int, input@.len() as int),
        res.1@ == input@.subrange(from as int, to as int),
{
    let n = input.unicode_len();
    (input.substring_char(end, n), input.substring_char(from, to))
}

/// Recognizes a character literal at the start of `input`. Returns the rest
/// of the input and the literal with its quotes.
pub fn char_literal<'a>(input: &'a str) -> (res: Result<(&'a str, &'a str), ScanError>)
    ensures
        match res {
            Ok((rest, literal)) => char_literal_end(input@, 0) matches Ok(end) && literal@
                == input@.subrange(0, end) && rest@ == input@.subrange(end, input@.len() as int),
            Err(e) => char_literal_end(input@, 0) == Err::<int, ScanError>(e),
        },
{
    let text = to_chars(input);
    match scan_char_literal(text.as_slice(), 0) {
        Ok(end) => Ok(cut(input, 0, end, end)),
        Err(e) => Err(e),
    }
}

/// Recognizes a string literal at the start of `input`. Returns the rest of
/// the input and the literal with its quotes.
pub fn string_literal<'a>(input: &'a str) -> (res: Result<(&'a str, &'a str), ScanError>)
    ensures
        match res {
            Ok((rest, literal)) => string_literal_end(input@, 0) matches Ok(end) && literal@
                == input@.subrange(0, end) && rest@ == input@.subrange(end, input@.len() as int),
            Err(e) => string_literal_end(input@, 0) == Err::<int, ScanError>(e),
        },
{
    let text = to_chars(input);
    match scan_string_literal(text.as_slice(), 0) {
        Ok(end) => Ok(cut(input, 0, end, end)),
        Err(e) => Err(e),
    }
}

/// Recognizes a multiline string literal at the start of `input`. Returns
/// the rest of the input and the literal with its quotes.
pub fn multiline_string_literal<'a>(input: &'a str) -> (res: Result<(&'a str, &'a str), ScanError>)
    ensures
        match res {
            Ok((rest, literal)) => multiline_string_literal_end(input@, 0) matches Ok(end)
                && literal@ == input@.subrange(0, end) && rest@ == input@.subrange(
                end,
                input@.len() as int,
            ),
            Err(e) => multiline_string_literal_end(input@, 0) == Err::<int, ScanError>(e),
        },
{
    let text = to_chars(input);
    match scan_multiline_string_literal(text.as_slice(), 0) {
        Ok(end) => Ok(cut(input, 0, end, end)),
        Err(e) => Err(e),
    }
}

/// Recognizes a line comment at the start of `input`. Returns the rest of
/// the input, which begins with the line break if there is one, and the
/// content of the comment: what stands between its two hyphens and the end
/// of the line.
pub fn line_comment<'a>(input: &'a str) -> (res: Result<(&'a str, &'a str), ScanError>)
    ensures
        match res {
            Ok((rest, content)) => line_comment_end(input@, 0) matches Ok(end) && content@
                == input@.subrange(2, end) && rest@ == input@.subrange(end, input@.len() as int),
            Err(e) => line_comment_end(input@, 0) == Err::<int, ScanError>(e) && e
                == ScanError::NoMatch,
        },
{
    let text = to_chars(input);
    match scan_line_comment(text.as_slice(), 0) {
        Ok(end) => Ok(cut(input, 2, end, end)),
        Err(e) => Err(e),
    }
}

/// Recognizes a block comment at the start of `input`. Returns the rest of
/// the input and the content of the comment: what stands between its
/// opening token and the closing token that matches it.
pub fn block_comment<'a>(input: &'a str) -> (res: Result<(&'a str, &'a str), ScanError>)
    ensures
        match res {
            Ok((rest, content)) => block_comment_end(input@, 0) matches Ok(end) && content@
                == input@.subrange(2, end - 2) && rest@ == input@.subrange(
                end,
                input@.len() as int,
            ),
            Err(e) => block_comment_end(input@, 0) == Err::<int, ScanError>(e),
        },
{
    let text = to_chars(input);
    match scan_block_comment(text.as_slice(), 0) {
        Ok(end) => Ok(cut(input, 2, end - 2, end)),
        Err(e) => Err(e),
    }
}

} // verus!
