//! Text literals: character literals, string literals and multiline string
//! literals.
//!
//! A backslash inside a literal takes the character after it along, whatever
//! that character is, so that an escaped quote never closes the literal.
//! Escapes are not decoded.

use vstd::prelude::*;
use crate::error::{ScanError, end_of};
use crate::text::has_at;

verus! {

/// Where the content of a quoted literal, read from index `i`, is closed:
/// the index just past the first `quote` that no backslash takes along.
/// `None` if the text ends first.
pub open spec fn quoted_end(s: Seq<char>, i: int, quote: char) -> Option<int>
    decreases s.len() - i,
{
    if i < 0 || i >= s.len() {
        None
    } else if s[i] == quote {
        Some(i + 1)
    } else if s[i] == '\\' {
        if i + 1 < s.len() {
            quoted_end(s, i + 2, quote)
        } else {
            None
        }
    } else {
        quoted_end(s, i + 1, quote)
    }
}

/// Whether three double quotes stand at index `i`.
pub open spec fn triple_quote_at(s: Seq<char>, i: int) -> bool {
    has_at(s, i, '"') && has_at(s, i + 1, '"') && has_at(s, i + 2, '"')
}

/// Where the content of a multiline string, read from index `i`, is closed:
/// the index just past the first three double quotes in a row of which the
/// first is not taken along by a backslash. `None` if the text ends first.
pub open spec fn triple_quoted_end(s: Seq<char>, i: int) -> Option<int>
    decreases s.len() - i,
{
    if i < 0 || i >= s.len() {
        None
    } else if s[i] == '\\' {
        if i + 1 < s.len() {
            triple_quoted_end(s, i + 2)
        } else {
            None
        }
    } else if triple_quote_at(s, i) {
        Some(i + 3)
    } else {
        triple_quoted_end(s, i + 1)
    }
}

/// The end of the character literal that begins at `pos`: a single quote,
/// one or more characters of content, and a closing single quote.
pub open spec fn char_literal_end(s: Seq<char>, pos: int) -> Result<int, ScanError> {
    if !has_at(s, pos, '\'') || has_at(s, pos + 1, '\'') {
        Err(ScanError::NoMatch)
    } else {
        match quoted_end(s, pos + 1, '\'') {
            Some(end) => Ok(end),
            None => Err(ScanError::UnterminatedLiteral),
        }
    }
}

/// The end of the string literal that begins at `pos`: a double quote,
/// content that may be empty, and a closing double quote.
pub open spec fn string_literal_end(s: Seq<char>, pos: int) -> Result<int, ScanError> {
    if !has_at(s, pos, '"') {
        Err(ScanError::NoMatch)
    } else {
        match quoted_end(s, pos + 1, '"') {
            Some(end) => Ok(end),
            None => Err(ScanError::UnterminatedLiteral),
        }
    }
}

/// The end of the multiline string literal that begins at `pos`: three
/// double quotes, content that may be empty, and three closing double quotes.
pub open spec fn multiline_string_literal_end(s: Seq<char>, pos: int) -> Result<int, ScanError> {
    if !triple_quote_at(s, pos) {
        Err(ScanError::NoMatch)
    } else {
        match triple_quoted_end(s, pos + 3) {
            Some(end) => Ok(end),
            None => Err(ScanError::UnterminatedLiteral),
        }
    }
}

/// The end of the literal that begins at `pos`. The opening decides the
/// form: three double quotes open a multiline string, any other double
/// quote opens a string, and a single quote opens a character literal. The
/// multiline string goes first, so that three quotes are never read as an
/// empty string and one more quote; where nothing closes it, the literal is
/// unterminated and the string is not tried in its place.
pub open spec fn text_literal_end(s: Seq<char>, pos: int) -> Result<int, ScanError> {
    if triple_quote_at(s, pos) {
        multiline_string_literal_end(s, pos)
    } else if has_at(s, pos, '"') {
        string_literal_end(s, pos)
    } else {
        char_literal_end(s, pos)
    }
}

/// Whether `c` can stand between the quotes of a literal: it is made of
/// characters other than the quote and the backslash, and of pairs of a
/// backslash and any character.
pub open spec fn is_content(c: Seq<char>, quote: char) -> bool
    decreases c.len(),
{
    if c.len() == 0 {
        true
    } else if c[0] == quote {
        false
    } else if c[0] == '\\' {
        c.len() >= 2 && is_content(c.skip(2), quote)
    } else {
        is_content(c.skip(1), quote)
    }
}

/// A quoted literal is closed at `end` exactly when a quote stands just
/// before `end` and what stands before that quote is content. So there is
/// one place at most where the literal can end.
pub proof fn lemma_quoted_end_is_content(s: Seq<char>, i: int, end: int, quote: char)
    requires
        0 <= i,
    ensures
        quoted_end(s, i, quote) == Some(end) <==> i < end <= s.len() && s[end - 1] == quote
            && is_content(s.subrange(i, end - 1), quote),
    decreases s.len() - i,
{
    if i < s.len() {
        if i < end <= s.len() {
            let c = s.subrange(i, end - 1);
            if c.len() > 0 {
                assert(c[0] == s[i]);
            }
            if s[i] != quote {
                if s[i] == '\\' {
                    if i + 1 < s.len() {
                        lemma_quoted_end_is_content(s, i + 2, end, quote);
                        if c.len() >= 2 {
                            assert(c.skip(2) =~= s.subrange(i + 2, end - 1));
                        }
                    }
                } else {
                    lemma_quoted_end_is_content(s, i + 1, end, quote);
                    if c.len() >= 1 {
                        assert(c.skip(1) =~= s.subrange(i + 1, end - 1));
                    }
                }
            }
        } else {
            lemma_quoted_end_bounds(s, i, quote);
        }
    }
}

/// A closed quoted literal ends after its opening position, inside the
/// text, on the quote.
pub proof fn lemma_quoted_end_bounds(s: Seq<char>, i: int, quote: char)
    ensures
        quoted_end(s, i, quote) matches Some(end) ==> i < end <= s.len() && s[end - 1] == quote,
    decreases s.len() - i,
{
    if 0 <= i < s.len() && s[i] != quote {
        if s[i] == '\\' {
            if i + 1 < s.len() {
                lemma_quoted_end_bounds(s, i + 2, quote);
            }
        } else {
            lemma_quoted_end_bounds(s, i + 1, quote);
        }
    }
}

/// A closed multiline string ends inside the text, on three double quotes.
pub proof fn lemma_triple_quoted_end_bounds(s: Seq<char>, i: int)
    ensures
        triple_quoted_end(s, i) matches Some(end) ==> i + 3 <= end <= s.len() && triple_quote_at(
            s,
            end - 3,
        ),
    decreases s.len() - i,
{
    if 0 <= i < s.len() {
        if s[i] == '\\' {
            if i + 1 < s.len() {
                lemma_triple_quoted_end_bounds(s, i + 2);
            }
        } else if !triple_quote_at(s, i) {
            lemma_triple_quoted_end_bounds(s, i + 1);
        }
    }
}

/// Walks the content of a quoted literal from `start` to its closing quote.
fn scan_quoted(text: &[char], start: usize, quote: char) -> (end: Option<usize>)
    requires
        start <= text@.len(),
    ensures
        match end {
            Some(e) => quoted_end(text@, start as int, quote) == Some(e as int) && start < e
                <= text@.len(),
            None => quoted_end(text@, start as int, quote) is None,
        },
{
    let n = text.len();
    let mut i: usize = start;
    while i < n
        invariant
            start <= i <= n,
            n == text@.len(),
            quoted_end(text@, i as int, quote) == quoted_end(text@, start as int, quote),
        decreases n - i,
    {
        let c = text[i];
        if c == quote {
            return Some(i + 1);
        }
        if c == '\\' {
            if n - i < 2 {
                return None;
            }
            i = i + 2;
        } else {
            i = i + 1;
        }
    }
    None
}

/// Tells whether three double quotes stand at `pos`.
fn triple_quote(text: &[char], pos: usize) -> (b: bool)
    ensures
        b == triple_quote_at(text@, pos as int),
{
    let n = text.len();
    pos < n && n - pos >= 3 && text[pos] == '"' && text[pos + 1] == '"' && text[pos + 2] == '"'
}

/// Walks the content of a multiline string from `start` to its closing
/// quotes.
fn scan_triple_quoted(text: &[char], start: usize) -> (end: Option<usize>)
    requires
        start <= text@.len(),
    ensures
        match end {
            Some(e) => triple_quoted_end(text@, start as int) == Some(e as int) && start + 3 <= e
                <= text@.len(),
            None => triple_quoted_end(text@, start as int) is None,
        },
{
    let n = text.len();
    let mut i: usize = start;
    while i < n
        invariant
            start <= i <= n,
            n == text@.len(),
            triple_quoted_end(text@, i as int) == triple_quoted_end(text@, start as int),
        decreases n - i,
    {
        if text[i] == '\\' {
            if n - i < 2 {
                return None;
            }
            i = i + 2;
        } else if triple_quote(text, i) {
            return Some(i + 3);
        } else {
            i = i + 1;
        }
    }
    None
}

/// Recognizes a character literal at `pos` and returns the position after
/// its closing quote.
pub fn scan_char_literal(text: &[char], pos: usize) -> (res: Result<usize, ScanError>)
    ensures
        end_of(res) == char_literal_end(text@, pos as int),
        res matches Ok(end) ==> pos + 3 <= end <= text@.len(),
{
    let n = text.len();
    if pos >= n || text[pos] != '\'' {
        return Err(ScanError::NoMatch);
    }
    if pos + 1 < n && text[pos + 1] == '\'' {
        return Err(ScanError::NoMatch);
    }
    proof {
        lemma_quoted_end_bounds(text@, pos + 2, '\'');
        lemma_quoted_end_bounds(text@, pos + 3, '\'');
    }
    match scan_quoted(text, pos + 1, '\'') {
        Some(end) => Ok(end),
        None => Err(ScanError::UnterminatedLiteral),
    }
}

/// Recognizes a string literal at `pos` and returns the position after its
/// closing quote.
pub fn scan_string_literal(text: &[char], pos: usize) -> (res: Result<usize, ScanError>)
    ensures
        end_of(res) == string_literal_end(text@, pos as int),
        res matches Ok(end) ==> pos + 2 <= end <= text@.len(),
{
    let n = text.len();
    if pos >= n || text[pos] != '"' {
        return Err(ScanError::NoMatch);
    }
    match scan_quoted(text, pos + 1, '"') {
        Some(end) => Ok(end),
        None => Err(ScanError::UnterminatedLiteral),
    }
}

/// Recognizes a multiline string literal at `pos` and returns the position
/// after its closing quotes.
pub fn scan_multiline_string_literal(text: &[char], pos: usize) -> (res: Result<usize, ScanError>)
    ensures
        end_of(res) == multiline_string_literal_end(text@, pos as int),
        res matches Ok(end) ==> pos + 6 <= end <= text@.len(),
{
    let n = text.len();
    if pos >= n || !triple_quote(text, pos) {
        return Err(ScanError::NoMatch);
    }
    match scan_triple_quoted(text, pos + 3) {
        Some(end) => Ok(end),
        None => Err(ScanError::UnterminatedLiteral),
    }
}

/// Recognizes a literal at `pos`, of the form that its opening asks for,
/// and returns the position after it.
pub fn scan_text_literal(text: &[char], pos: usize) -> (res: Result<usize, ScanError>)
    ensures
        end_of(res) == text_literal_end(text@, pos as int),
        res matches Ok(end) ==> pos + 2 <= end <= text@.len(),
{
    match scan_multiline_string_literal(text, pos) {
        Err(ScanError::NoMatch) => match scan_string_literal(text, pos) {
            Err(ScanError::NoMatch) => scan_char_literal(text, pos),
            plain => plain,
        },
        multi => multi,
    }
}

} // verus!
