//! The elements of a text and the text that is left without its comments.

use vstd::prelude::*;
use crate::comment::{comment_end, lemma_block_end_bounds, lemma_line_end, scan_comment};
use crate::error::ScanError;
use crate::literal::{
    lemma_quoted_end_bounds,
    lemma_triple_quoted_end_bounds,
    scan_text_literal,
    text_literal_end,
};
use crate::text::{is_special, special};

verus! {

/// What an element of the text is.
#[derive(Clone, Copy, Debug, PartialEq, Eq, Structural)]
pub enum Kind {
    /// A line comment or a block comment: left out of the output.
    Comment,
    /// A character, string or multiline string literal with its delimiters:
    /// kept as it is.
    TextLiteral,
    /// Anything else: kept as it is.
    Code,
}

/// One element of a text, as the characters from `start` up to `end`.
#[derive(Clone, Copy, Debug, PartialEq, Eq, Structural)]
pub struct Element {
    pub kind: Kind,
    pub start: usize,
    pub end: usize,
}

/// The mathematical form of an [`Element`].
pub struct Span {
    pub kind: Kind,
    pub start: int,
    pub end: int,
}

impl View for Element {
    type V = Span;

    open spec fn view(&self) -> Span {
        Span { kind: self.kind, start: self.start as int, end: self.end as int }
    }
}

/// The first index from `i` on that holds a special character, or the
/// length of the text if none follows.
pub open spec fn code_end(s: Seq<char>, i: int) -> int
    decreases s.len() - i,
{
    if i < 0 || i >= s.len() || is_special(s[i]) {
        i
    } else {
        code_end(s, i + 1)
    }
}

/// The element that begins at `pos`. A comment goes before a literal. Where
/// neither is found, a special character is code by itself, and any other
/// character is code together with all that follows it up to the next
/// special character.
///
/// A block comment, a string or a multiline string that nothing closes is
/// the error of the element: the scan cannot go on. A single quote is
/// different. It stands in code where it opens no character literal, as the
/// apostrophe of `it's` does, so a single quote that nothing closes, or
/// that another single quote follows at once, is code by itself.
pub open spec fn element_at(s: Seq<char>, pos: int) -> Result<Span, ScanError> {
    if pos < 0 || pos >= s.len() {
        Err(ScanError::NoMatch)
    } else {
        match comment_end(s, pos) {
            Ok(end) => Ok(Span { kind: Kind::Comment, start: pos, end }),
            Err(ScanError::UnterminatedBlockComment) => Err(ScanError::UnterminatedBlockComment),
            Err(_) => match text_literal_end(s, pos) {
                Ok(end) => Ok(Span { kind: Kind::TextLiteral, start: pos, end }),
                Err(e) => if s[pos] == '"' {
                    Err(e)
                } else {
                    Ok(
                        Span {
                            kind: Kind::Code,
                            start: pos,
                            end: if is_special(s[pos]) {
                                pos + 1
                            } else {
                                code_end(s, pos)
                            },
                        },
                    )
                },
            },
        }
    }
}

/// The elements of the text from `pos` on, in order: each begins where the
/// one before it ends. The first element that is in error is the error of
/// the whole.
pub open spec fn scan_from(s: Seq<char>, pos: int) -> Result<Seq<Span>, ScanError>
    decreases s.len() - pos,
    via scan_from_goes_forward
{
    if pos >= s.len() {
        Ok(Seq::empty())
    } else {
        match element_at(s, pos) {
            Err(e) => Err(e),
            Ok(span) => match scan_from(s, span.end) {
                Ok(rest) => Ok(seq![span] + rest),
                Err(e) => Err(e),
            },
        }
    }
}

#[via_fn]
proof fn scan_from_goes_forward(s: Seq<char>, pos: int) {
    lemma_element_goes_forward(s, pos);
}

/// Every element begins where it is looked for, holds at least one
/// character and ends inside the text: the scan goes forward with each
/// element and never past the end.
pub proof fn lemma_element_goes_forward(s: Seq<char>, pos: int)
    ensures
        element_at(s, pos) matches Ok(span) ==> span.start == pos && pos < span.end <= s.len(),
{
    if 0 <= pos < s.len() {
        if pos + 2 <= s.len() {
            lemma_line_end(s, pos + 2);
        }
        lemma_block_end_bounds(s, pos + 2, 1);
        lemma_quoted_end_bounds(s, pos + 1, '\'');
        lemma_quoted_end_bounds(s, pos + 1, '"');
        lemma_triple_quoted_end_bounds(s, pos + 3);
        lemma_code_end(s, pos);
    }
}

/// The elements of the whole text.
pub open spec fn scan(s: Seq<char>) -> Result<Seq<Span>, ScanError> {
    scan_from(s, 0)
}

/// What one element gives to the output: nothing for a comment, its
/// characters for anything else.
pub open spec fn kept_of(s: Seq<char>, span: Span) -> Seq<char> {
    if span.kind is Comment {
        Seq::empty()
    } else {
        s.subrange(span.start, span.end)
    }
}

/// The characters of all elements but the comments, in order.
pub open spec fn kept(s: Seq<char>, spans: Seq<Span>) -> Seq<char>
    decreases spans.len(),
{
    if spans.len() == 0 {
        Seq::empty()
    } else {
        kept(s, spans.drop_last()) + kept_of(s, spans.last())
    }
}

/// The text without its comments.
pub open spec fn stripped(s: Seq<char>) -> Result<Seq<char>, ScanError> {
    match scan(s) {
        Ok(spans) => Ok(kept(s, spans)),
        Err(e) => Err(e),
    }
}

/// A run of code ends at or after the index it is read from, inside the
/// text; no special character stands before its end, and one stands at its
/// end unless the text ends there.
pub proof fn lemma_code_end(s: Seq<char>, i: int)
    requires
        0 <= i <= s.len(),
    ensures
        i <= code_end(s, i) <= s.len(),
        forall|j: int| i <= j < code_end(s, i) ==> !is_special(#[trigger] s[j]),
        code_end(s, i) < s.len() ==> is_special(s[code_end(s, i)]),
    decreases s.len() - i,
{
    if i < s.len() && !is_special(s[i]) {
        lemma_code_end(s, i + 1);
    }
}

/// Recognizes the element at `pos`. Fails past the end of the text, where
/// no element begins, and on a block comment, a string or a multiline
/// string that nothing closes.
pub fn code_element(text: &[char], pos: usize) -> (res: Result<Element, ScanError>)
    ensures
        match res {
            Ok(element) => element_at(text@, pos as int) == Ok::<Span, ScanError>(element@)
                && element.start == pos && pos < element.end <= text@.len(),
            Err(e) => element_at(text@, pos as int) == Err::<Span, ScanError>(e),
        },
{
    let n = text.len();
    if pos >= n {
        return Err(ScanError::NoMatch);
    }
    match scan_comment(text, pos) {
        Ok(end) => Ok(Element { kind: Kind::Comment, start: pos, end }),
        Err(ScanError::UnterminatedBlockComment) => Err(ScanError::UnterminatedBlockComment),
        Err(_) => match scan_text_literal(text, pos) {
            Ok(end) => Ok(Element { kind: Kind::TextLiteral, start: pos, end }),
            Err(e) => {
                if text[pos] == '"' {
                    return Err(e);
                }
                let mut i: usize = pos + 1;
                if !special(text[pos]) {
                    while i < n && !special(text[i])
                        invariant
                            pos < i <= n,
                            n == text@.len(),
                            code_end(text@, i as int) == code_end(text@, pos as int),
                        decreases n - i,
                    {
                        i = i + 1;
                    }
                }
                Ok(Element { kind: Kind::Code, start: pos, end: i })
            },
        },
    }
}

} // verus!
