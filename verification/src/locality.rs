//! The scan reads forward only.
//!
//! What a recognizer finds at a position depends on the text from that
//! position on, and on nothing before it: with any text put in front, it
//! finds the same, further along by the length of what was put in front.

use vstd::prelude::*;
use crate::comment::{
    block_comment_end,
    block_end,
    closes_block,
    comment_end,
    is_line_break,
    lemma_block_end_bounds,
    line_comment_end,
    line_end,
    opens_block,
    opens_line,
};
use crate::element::{
    code_end,
    element_at,
    kept,
    kept_of,
    lemma_element_goes_forward,
    scan,
    scan_from,
    stripped,
    Kind,
    Span,
};
use crate::error::ScanError;
use crate::laws::{lemma_element_inside, lemma_kept_concat};
use crate::literal::{
    char_literal_end,
    multiline_string_literal_end,
    quoted_end,
    string_literal_end,
    text_literal_end,
    triple_quote_at,
    triple_quoted_end,
};
use crate::nesting::{is_block_comment, lemma_block_comment_is_one_element};
use crate::text::{has_at, is_special};

verus! {

/// The position `end`, if there is one, further along by `by`.
pub open spec fn moved(end: Option<int>, by: int) -> Option<int> {
    match end {
        Some(e) => Some(e + by),
        None => None,
    }
}

/// The end that a recognizer reports, further along by `by`.
pub open spec fn moved_end(end: Result<int, ScanError>, by: int) -> Result<int, ScanError> {
    match end {
        Ok(e) => Ok(e + by),
        Err(e) => Err(e),
    }
}

/// The element `span`, further along by `by`.
pub open spec fn moved_span(span: Span, by: int) -> Span {
    Span { kind: span.kind, start: span.start + by, end: span.end + by }
}

/// The elements `spans`, each further along by `by`.
pub open spec fn moved_spans(spans: Seq<Span>, by: int) -> Seq<Span> {
    Seq::new(spans.len(), |i: int| moved_span(spans[i], by))
}

/// The result of recognizing one element, further along by `by`.
pub open spec fn moved_element(res: Result<Span, ScanError>, by: int) -> Result<Span, ScanError> {
    match res {
        Ok(span) => Ok(moved_span(span, by)),
        Err(e) => Err(e),
    }
}

/// The result of a scan, further along by `by`.
pub open spec fn moved_scan(res: Result<Seq<Span>, ScanError>, by: int) -> Result<
    Seq<Span>,
    ScanError,
> {
    match res {
        Ok(spans) => Ok(moved_spans(spans, by)),
        Err(e) => Err(e),
    }
}

/// With `a` put in front of `b`, the characters and tokens of `b` stand
/// further along by the length of `a`.
pub proof fn lemma_tokens_move(a: Seq<char>, b: Seq<char>, i: int)
    requires
        0 <= i,
    ensures
        i < b.len() ==> (a + b)[a.len() + i] == b[i],
        forall|c: char| has_at(a + b, a.len() + i, c) == has_at(b, i, c),
        opens_line(a + b, a.len() + i) == opens_line(b, i),
        opens_block(a + b, a.len() + i) == opens_block(b, i),
        closes_block(a + b, a.len() + i) == closes_block(b, i),
        triple_quote_at(a + b, a.len() + i) == triple_quote_at(b, i),
{
    let s = a + b;
    if i < b.len() {
        assert(s[a.len() + i] == b[i]);
    }
    if i + 1 < b.len() {
        assert(s[a.len() + i + 1] == b[i + 1]);
    }
    if i + 2 < b.len() {
        assert(s[a.len() + i + 2] == b[i + 2]);
    }
}

/// The closing quote of a literal is found without regard to what stands
/// before the literal.
pub proof fn lemma_quoted_end_moves(a: Seq<char>, b: Seq<char>, i: int, quote: char)
    requires
        0 <= i,
    ensures
        quoted_end(a + b, a.len() + i, quote) == moved(quoted_end(b, i, quote), a.len() as int),
    decreases b.len() - i,
{
    lemma_tokens_move(a, b, i);
    if i < b.len() && b[i] != quote {
        if b[i] == '\\' {
            if i + 1 < b.len() {
                lemma_quoted_end_moves(a, b, i + 2, quote);
            }
        } else {
            lemma_quoted_end_moves(a, b, i + 1, quote);
        }
    }
}

/// The closing quotes of a multiline string are found without regard to
/// what stands before the string.
pub proof fn lemma_triple_quoted_end_moves(a: Seq<char>, b: Seq<char>, i: int)
    requires
        0 <= i,
    ensures
        triple_quoted_end(a + b, a.len() + i) == moved(triple_quoted_end(b, i), a.len() as int),
    decreases b.len() - i,
{
    lemma_tokens_move(a, b, i);
    if i < b.len() {
        if b[i] == '\\' {
            if i + 1 < b.len() {
                lemma_triple_quoted_end_moves(a, b, i + 2);
            }
        } else if !triple_quote_at(b, i) {
            lemma_triple_quoted_end_moves(a, b, i + 1);
        }
    }
}

/// The end of a line is found without regard to what stands before the
/// place it is read from.
pub proof fn lemma_line_end_moves(a: Seq<char>, b: Seq<char>, i: int)
    requires
        0 <= i,
    ensures
        line_end(a + b, a.len() + i) == line_end(b, i) + a.len(),
    decreases b.len() - i,
{
    lemma_tokens_move(a, b, i);
    if i < b.len() && !is_line_break(b[i]) {
        lemma_line_end_moves(a, b, i + 1);
    }
}

/// The end of a run of code is found without regard to what stands before
/// the run.
pub proof fn lemma_code_end_moves(a: Seq<char>, b: Seq<char>, i: int)
    requires
        0 <= i,
    ensures
        code_end(a + b, a.len() + i) == code_end(b, i) + a.len(),
    decreases b.len() - i,
{
    lemma_tokens_move(a, b, i);
    if i < b.len() && !is_special(b[i]) {
        lemma_code_end_moves(a, b, i + 1);
    }
}

/// The closing token of a block comment is found without regard to what
/// stands before the place the comment is read from.
pub proof fn lemma_block_end_moves(a: Seq<char>, b: Seq<char>, i: int, depth: nat)
    requires
        0 <= i,
    ensures
        block_end(a + b, a.len() + i, depth) == moved(block_end(b, i, depth), a.len() as int),
    decreases b.len() - i,
{
    lemma_tokens_move(a, b, i);
    if i < b.len() {
        if opens_block(b, i) {
            lemma_block_end_moves(a, b, i + 2, depth + 1);
        } else if closes_block(b, i) {
            if depth > 1 {
                lemma_block_end_moves(a, b, i + 2, (depth - 1) as nat);
            }
        } else {
            lemma_block_end_moves(a, b, i + 1, depth);
        }
    }
}

/// A comment is recognized without regard to what stands before it.
pub proof fn lemma_comment_end_moves(a: Seq<char>, b: Seq<char>, i: int)
    requires
        0 <= i,
    ensures
        line_comment_end(a + b, a.len() + i) == moved_end(line_comment_end(b, i), a.len() as int),
        block_comment_end(a + b, a.len() + i) == moved_end(
            block_comment_end(b, i),
            a.len() as int,
        ),
        comment_end(a + b, a.len() + i) == moved_end(comment_end(b, i), a.len() as int),
{
    lemma_tokens_move(a, b, i);
    lemma_line_end_moves(a, b, i + 2);
    lemma_block_end_moves(a, b, i + 2, 1);
}

/// A literal is recognized without regard to what stands before it.
pub proof fn lemma_text_literal_end_moves(a: Seq<char>, b: Seq<char>, i: int)
    requires
        0 <= i,
    ensures
        char_literal_end(a + b, a.len() + i) == moved_end(char_literal_end(b, i), a.len() as int),
        string_literal_end(a + b, a.len() + i) == moved_end(
            string_literal_end(b, i),
            a.len() as int,
        ),
        multiline_string_literal_end(a + b, a.len() + i) == moved_end(
            multiline_string_literal_end(b, i),
            a.len() as int,
        ),
        text_literal_end(a + b, a.len() + i) == moved_end(text_literal_end(b, i), a.len() as int),
{
    lemma_tokens_move(a, b, i);
    lemma_tokens_move(a, b, i + 1);
    lemma_quoted_end_moves(a, b, i + 1, '\'');
    lemma_quoted_end_moves(a, b, i + 1, '"');
    lemma_triple_quoted_end_moves(a, b, i + 3);
}

/// An element is recognized without regard to what stands before it.
pub proof fn lemma_element_moves(a: Seq<char>, b: Seq<char>, i: int)
    requires
        0 <= i,
    ensures
        element_at(a + b, a.len() + i) == moved_element(element_at(b, i), a.len() as int),
{
    lemma_tokens_move(a, b, i);
    lemma_comment_end_moves(a, b, i);
    lemma_text_literal_end_moves(a, b, i);
    lemma_code_end_moves(a, b, i);
}

/// The scan does not look back: from a position on, it finds the same
/// elements whatever stands before that position.
pub proof fn lemma_scan_moves(a: Seq<char>, b: Seq<char>, i: int)
    requires
        0 <= i,
    ensures
        scan_from(a + b, a.len() + i) == moved_scan(scan_from(b, i), a.len() as int),
    decreases b.len() - i,
{
    let by = a.len() as int;
    if i >= b.len() {
        assert(moved_spans(Seq::<Span>::empty(), by) =~= Seq::<Span>::empty());
    } else {
        lemma_element_moves(a, b, i);
        match element_at(b, i) {
            Ok(span) => {
                lemma_element_goes_forward(b, i);
                lemma_scan_moves(a, b, span.end);
                match scan_from(b, span.end) {
                    Ok(rest) => {
                        assert(moved_spans(seq![span] + rest, by) =~= seq![moved_span(span, by)]
                            + moved_spans(rest, by));
                    },
                    Err(_) => {},
                }
            },
            Err(_) => {},
        }
    }
}

/// What is kept of elements is the same with any text put in front, the
/// elements taken further along.
pub proof fn lemma_kept_moves(a: Seq<char>, b: Seq<char>, spans: Seq<Span>)
    requires
        forall|i: int| 0 <= i < spans.len() ==> 0 <= (#[trigger] spans[i]).start <= spans[i].end
            <= b.len(),
    ensures
        kept(a + b, moved_spans(spans, a.len() as int)) == kept(b, spans),
    decreases spans.len(),
{
    let by = a.len() as int;
    if spans.len() > 0 {
        let init = spans.drop_last();
        let last = spans.last();
        assert forall|i: int| 0 <= i < init.len() implies 0 <= (#[trigger] init[i]).start
            <= init[i].end <= b.len() by {
            assert(init[i] == spans[i]);
        }
        lemma_kept_moves(a, b, init);
        assert(moved_spans(spans, by).drop_last() =~= moved_spans(init, by));
        assert(moved_spans(spans, by).last() == moved_span(last, by));
        assert(last == spans[spans.len() - 1]);
        assert((a + b).subrange(last.start + by, last.end + by) =~= b.subrange(
            last.start,
            last.end,
        ));
    }
}

/// A block comment at the beginning of a text is removed as a whole,
/// whatever it holds: the text without its comments is what follows the
/// comment, without its comments.
pub proof fn lemma_block_comment_is_removed(c: Seq<char>, rest: Seq<char>)
    requires
        is_block_comment(c),
    ensures
        stripped(c + rest) == stripped(rest),
{
    let t = c + rest;
    let by = c.len() as int;
    let comment = Span { kind: Kind::Comment, start: 0, end: by };
    assert(t.subrange(0, by) =~= c);
    lemma_block_comment_is_one_element(t, 0, c);
    lemma_block_end_bounds(c, 2, 1);
    lemma_scan_moves(c, rest, 0);
    match scan(rest) {
        Ok(spans) => {
            let moved = moved_spans(spans, by);
            assert(scan(t) == Ok::<Seq<Span>, ScanError>(seq![comment] + moved));
            assert forall|i: int| 0 <= i < spans.len() implies 0 <= (#[trigger] spans[i]).start
                <= spans[i].end <= rest.len() by {
                lemma_element_inside(rest, i);
            }
            lemma_kept_moves(c, rest, spans);
            lemma_kept_concat(t, seq![comment], moved);
            assert(kept(t, seq![comment]) =~= Seq::<char>::empty()) by {
                assert(seq![comment].drop_last() =~= Seq::<Span>::empty());
                assert(seq![comment].last() == comment);
                assert(kept_of(t, comment) =~= Seq::<char>::empty());
                assert(kept(t, seq![comment].drop_last()) =~= Seq::<char>::empty());
            }
            assert(kept(t, seq![comment] + moved) =~= kept(rest, spans));
        },
        Err(_) => {},
    }
}

} // verus!
