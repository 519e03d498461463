//! Comments: line comments and nested block comments.

use vstd::prelude::*;
use crate::error::{ScanError, end_of};
use crate::text::has_at;

verus! {

/// Whether a line comment opens at index `i`: two hyphens.
pub open spec fn opens_line(s: Seq<char>, i: int) -> bool {
    has_at(s, i, '-') && has_at(s, i + 1, '-')
}

/// Whether a block comment opens at index `i`: a brace and a hyphen.
pub open spec fn opens_block(s: Seq<char>, i: int) -> bool {
    has_at(s, i, '{') && has_at(s, i + 1, '-')
}

/// Whether a block comment closes at index `i`: a hyphen and a brace.
pub open spec fn closes_block(s: Seq<char>, i: int) -> bool {
    has_at(s, i, '-') && has_at(s, i + 1, '}')
}

/// The characters that end a line.
pub open spec fn is_line_break(c: char) -> bool {
    c == '\n' || c == '\r'
}

/// The first index from `i` on that holds a line break, or the length of
/// the text if the line is its last.
pub open spec fn line_end(s: Seq<char>, i: int) -> int
    decreases s.len() - i,
{
    if i < 0 || i >= s.len() || is_line_break(s[i]) {
        i
    } else {
        line_end(s, i + 1)
    }
}

/// Where the block comment that is read from index `i`, with `depth`
/// comments open at that point, is closed: the index just past the closing
/// token that brings the number of open comments to zero. An opening token
/// inside the comment opens one more, a closing token closes the innermost,
/// and a token is read as a whole, so that the brace of `{-}` closes
/// nothing. `None` if the text ends while a comment is open.
pub open spec fn block_end(s: Seq<char>, i: int, depth: nat) -> Option<int>
    decreases s.len() - i,
{
    if i < 0 || i >= s.len() {
        None
    } else if opens_block(s, i) {
        block_end(s, i + 2, depth + 1)
    } else if closes_block(s, i) {
        if depth <= 1 {
            Some(i + 2)
        } else {
            block_end(s, i + 2, (depth - 1) as nat)
        }
    } else {
        block_end(s, i + 1, depth)
    }
}

/// The end of the line comment that begins at `pos`: it runs from its two
/// hyphens up to the next line break, which it leaves in place, or to the
/// end of the text.
pub open spec fn line_comment_end(s: Seq<char>, pos: int) -> Result<int, ScanError> {
    if opens_line(s, pos) {
        Ok(line_end(s, pos + 2))
    } else {
        Err(ScanError::NoMatch)
    }
}

/// The end of the block comment that begins at `pos`: the index just past
/// the closing token that matches its opening token.
pub open spec fn block_comment_end(s: Seq<char>, pos: int) -> Result<int, ScanError> {
    if opens_block(s, pos) {
        match block_end(s, pos + 2, 1) {
            Some(end) => Ok(end),
            None => Err(ScanError::UnterminatedBlockComment),
        }
    } else {
        Err(ScanError::NoMatch)
    }
}

/// The end of the comment, of either form, that begins at `pos`.
pub open spec fn comment_end(s: Seq<char>, pos: int) -> Result<int, ScanError> {
    if opens_block(s, pos) {
        block_comment_end(s, pos)
    } else {
        line_comment_end(s, pos)
    }
}

/// A line ends at or after the index it is read from, inside the text; no
/// line break stands before its end, and one stands at its end unless the
/// text ends there.
pub proof fn lemma_line_end(s: Seq<char>, i: int)
    requires
        0 <= i <= s.len(),
    ensures
        i <= line_end(s, i) <= s.len(),
        forall|j: int| i <= j < line_end(s, i) ==> !is_line_break(#[trigger] s[j]),
        line_end(s, i) < s.len() ==> is_line_break(s[line_end(s, i)]),
    decreases s.len() - i,
{
    if i < s.len() && !is_line_break(s[i]) {
        lemma_line_end(s, i + 1);
    }
}

/// A closed block comment ends at least two characters after the index it
/// is read from, inside the text, on a closing token.
pub proof fn lemma_block_end_bounds(s: Seq<char>, i: int, depth: nat)
    ensures
        block_end(s, i, depth) matches Some(end) ==> i + 2 <= end <= s.len() && closes_block(
            s,
            end - 2,
        ),
    decreases s.len() - i,
{
    if 0 <= i < s.len() {
        if opens_block(s, i) {
            lemma_block_end_bounds(s, i + 2, depth + 1);
        } else if closes_block(s, i) {
            if depth > 1 {
                lemma_block_end_bounds(s, i + 2, (depth - 1) as nat);
            }
        } else {
            lemma_block_end_bounds(s, i + 1, depth);
        }
    }
}

/// Tells whether the characters `first` and `second` stand at `pos` and
/// after it.
fn pair_at(text: &[char], pos: usize, first: char, second: char) -> (b: bool)
    ensures
        b == (has_at(text@, pos as int, first) && has_at(text@, pos + 1, second)),
{
    let n = text.len();
    pos < n && n - pos >= 2 && text[pos] == first && text[pos + 1] == second
}

/// Recognizes a line comment at `pos` and returns the position at which it
/// ends: that of the line break, or the length of the text.
pub fn scan_line_comment(text: &[char], pos: usize) -> (res: Result<usize, ScanError>)
    ensures
        end_of(res) == line_comment_end(text@, pos as int),
        res matches Ok(end) ==> {
            &&& pos + 2 <= end <= text@.len()
            &&& forall|j: int| pos + 2 <= j < end ==> !is_line_break(#[trigger] text@[j])
            &&& end < text@.len() ==> is_line_break(text@[end as int])
        },
{
    if !pair_at(text, pos, '-', '-') {
        return Err(ScanError::NoMatch);
    }
    proof {
        lemma_line_end(text@, pos + 2);
    }
    let n = text.len();
    let mut i: usize = pos + 2;
    while i < n && text[i] != '\n' && text[i] != '\r'
        invariant
            pos + 2 <= i <= n,
            n == text@.len(),
            line_end(text@, i as int) == line_end(text@, pos + 2),
        decreases n - i,
    {
        i = i + 1;
    }
    Ok(i)
}

/// Recognizes a block comment at `pos` and returns the position after the
/// closing token that matches its opening token. The nesting is counted,
/// not followed by recursion.
pub fn scan_block_comment(text: &[char], pos: usize) -> (res: Result<usize, ScanError>)
    ensures
        end_of(res) == block_comment_end(text@, pos as int),
        res matches Ok(end) ==> pos + 4 <= end <= text@.len(),
{
    if !pair_at(text, pos, '{', '-') {
        return Err(ScanError::NoMatch);
    }
    let n = text.len();
    let mut depth: usize = 1;
    let mut i: usize = pos + 2;
    while i < n
        invariant
            pos + 2 <= i <= n,
            n == text@.len(),
            1 <= depth < i - pos,
            opens_block(text@, pos as int),
            block_end(text@, i as int, depth as nat) == block_end(text@, pos + 2, 1),
        decreases n - i,
    {
        if pair_at(text, i, '{', '-') {
            depth = depth + 1;
            i = i + 2;
        } else if pair_at(text, i, '-', '}') {
            if depth == 1 {
                return Ok(i + 2);
            }
            depth = depth - 1;
            i = i + 2;
        } else {
            i = i + 1;
        }
    }
    Err(ScanError::UnterminatedBlockComment)
}

/// Recognizes a comment of either form at `pos` and returns the position at
/// which it ends.
pub fn scan_comment(text: &[char], pos: usize) -> (res: Result<usize, ScanError>)
    ensures
        end_of(res) == comment_end(text@, pos as int),
        res matches Ok(end) ==> pos + 2 <= end <= text@.len(),
{
    match scan_block_comment(text, pos) {
        Err(ScanError::NoMatch) => scan_line_comment(text, pos),
        res => res,
    }
}

} // verus!
