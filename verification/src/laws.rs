//! What holds of every text: how the elements lie in it, what the output
//! keeps of them, and when stripping a text twice changes nothing more.

use vstd::prelude::*;
use crate::element::{
    element_at,
    kept,
    kept_of,
    lemma_element_goes_forward,
    scan,
    scan_from,
    stripped,
    Kind,
    Span,
};
use crate::error::ScanError;
use crate::literal::text_literal_end;

verus! {

/// Whether `spans` lie end to end from `from` to `to`, none of them empty.
pub open spec fn tiles(spans: Seq<Span>, from: int, to: int) -> bool {
    &&& from <= to
    &&& spans.len() == 0 ==> from == to
    &&& spans.len() > 0 ==> spans.first().start == from && spans.last().end == to
    &&& forall|i: int| 0 <= i < spans.len() ==> (#[trigger] spans[i]).start < spans[i].end
    &&& forall|i: int, j: int|
        #![trigger spans[i], spans[j]]
        0 <= i && j == i + 1 && j < spans.len() ==> spans[i].end == spans[j].start
}

/// The characters of all elements, comments included, in order.
pub open spec fn whole(s: Seq<char>, spans: Seq<Span>) -> Seq<char>
    decreases spans.len(),
{
    if spans.len() == 0 {
        Seq::empty()
    } else {
        whole(s, spans.drop_last()) + s.subrange(spans.last().start, spans.last().end)
    }
}

/// The number of characters that the comments among `spans` hold.
pub open spec fn comment_len(spans: Seq<Span>) -> int
    decreases spans.len(),
{
    if spans.len() == 0 {
        0
    } else {
        comment_len(spans.drop_last()) + if spans.last().kind is Comment {
            spans.last().end - spans.last().start
        } else {
            0
        }
    }
}

/// Whether none of `spans` is a comment.
pub open spec fn no_comment(spans: Seq<Span>) -> bool {
    forall|i: int| 0 <= i < spans.len() ==> !((#[trigger] spans[i]).kind is Comment)
}

/// Whether the scan of `s` succeeds and finds no comment.
pub open spec fn comment_free(s: Seq<char>) -> bool {
    scan(s) matches Ok(spans) && no_comment(spans)
}

/// The elements that a scan from `pos` finds lie end to end from `pos` to
/// the end of the text, and each is the element that begins at its start.
pub proof fn lemma_scan_from_tiles(s: Seq<char>, pos: int)
    requires
        0 <= pos <= s.len(),
        scan_from(s, pos) is Ok,
    ensures
        scan_from(s, pos) matches Ok(spans) && tiles(spans, pos, s.len() as int) && forall|i: int|
            0 <= i < spans.len() ==> element_at(s, (#[trigger] spans[i]).start) == Ok::<
                Span,
                ScanError,
            >(spans[i]),
    decreases s.len() - pos,
{
    if pos < s.len() {
        let span = element_at(s, pos)->Ok_0;
        lemma_element_goes_forward(s, pos);
        lemma_scan_from_tiles(s, span.end);
        let rest = scan_from(s, span.end)->Ok_0;
        let spans = seq![span] + rest;
        assert(scan_from(s, pos) == Ok::<Seq<Span>, ScanError>(spans));
        assert forall|i: int| 0 <= i < spans.len() implies (#[trigger] spans[i]).start
            < spans[i].end && element_at(s, spans[i].start) == Ok::<Span, ScanError>(
            spans[i],
        ) by {
            if i > 0 {
                assert(spans[i] == rest[i - 1]);
            }
        }
        assert forall|i: int, j: int|
            #![trigger spans[i], spans[j]]
            0 <= i && j == i + 1 && j < spans.len() implies spans[i].end == spans[j].start by {
            assert(spans[j] == rest[i]);
            if i > 0 {
                assert(spans[i] == rest[i - 1]);
            }
        }
        if rest.len() > 0 {
            assert(spans.last() == rest.last());
        }
    }
}

/// Elements that lie end to end hold, together, the text between the start
/// of the first and the end of the last.
pub proof fn lemma_whole_of_tiles(s: Seq<char>, spans: Seq<Span>, from: int, to: int)
    requires
        0 <= from,
        to <= s.len(),
        tiles(spans, from, to),
    ensures
        whole(s, spans) == s.subrange(from, to),
    decreases spans.len(),
{
    if spans.len() == 0 {
        assert(s.subrange(from, to) =~= Seq::<char>::empty());
    } else {
        let init = spans.drop_last();
        let last = spans.last();
        assert forall|i: int| 0 <= i < init.len() implies (#[trigger] init[i]).start
            < init[i].end by {
            assert(init[i] == spans[i]);
        }
        assert forall|i: int, j: int|
            #![trigger init[i], init[j]]
            0 <= i && j == i + 1 && j < init.len() implies init[i].end == init[j].start by {
            assert(init[i] == spans[i]);
            assert(init[j] == spans[j]);
        }
        if init.len() > 0 {
            assert(init.last() == spans[spans.len() - 2]);
            assert(init.first() == spans[0]);
            assert(spans[spans.len() - 2].end == spans[spans.len() - 1].start);
        }
        lemma_tiles_start(spans, from, to, spans.len() - 1);
        lemma_whole_of_tiles(s, init, from, last.start);
        assert(s.subrange(from, last.start) + s.subrange(last.start, last.end) =~= s.subrange(
            from,
            to,
        ));
    }
}

/// The output and the comments share out the characters of the elements.
pub proof fn lemma_kept_len(s: Seq<char>, spans: Seq<Span>)
    requires
        forall|i: int| 0 <= i < spans.len() ==> 0 <= (#[trigger] spans[i]).start <= spans[i].end
            <= s.len(),
    ensures
        kept(s, spans).len() + comment_len(spans) == whole(s, spans).len(),
        comment_len(spans) >= 0,
        comment_len(spans) == 0 ==> kept(s, spans) == whole(s, spans),
        no_comment(spans) ==> comment_len(spans) == 0,
    decreases spans.len(),
{
    if spans.len() > 0 {
        let init = spans.drop_last();
        assert forall|i: int| 0 <= i < init.len() implies 0 <= (#[trigger] init[i]).start
            <= init[i].end <= s.len() by {
            assert(init[i] == spans[i]);
        }
        lemma_kept_len(s, init);
        assert(spans.last() == spans[spans.len() - 1]);
        if no_comment(spans) {
            assert forall|i: int| 0 <= i < init.len() implies !((#[trigger] init[i]).kind
                is Comment) by {
                assert(init[i] == spans[i]);
            }
        }
    }
}

/// Among elements of which none is empty, the comments hold no character
/// only if there is no comment.
pub proof fn lemma_no_comment_len(spans: Seq<Span>)
    requires
        forall|i: int| 0 <= i < spans.len() ==> (#[trigger] spans[i]).start < spans[i].end,
        comment_len(spans) == 0,
    ensures
        no_comment(spans),
    decreases spans.len(),
{
    if spans.len() > 0 {
        let init = spans.drop_last();
        assert forall|i: int| 0 <= i < init.len() implies (#[trigger] init[i]).start
            < init[i].end by {
            assert(init[i] == spans[i]);
        }
        assert(spans.last() == spans[spans.len() - 1]);
        lemma_comment_len_nonnegative(init);
        lemma_no_comment_len(init);
        assert forall|i: int| 0 <= i < spans.len() implies !((#[trigger] spans[i]).kind
            is Comment) by {
            if i < init.len() {
                assert(init[i] == spans[i]);
            }
        }
    }
}

/// Comments hold no negative number of characters where no element ends
/// before it starts.
pub proof fn lemma_comment_len_nonnegative(spans: Seq<Span>)
    requires
        forall|i: int| 0 <= i < spans.len() ==> (#[trigger] spans[i]).start < spans[i].end,
    ensures
        comment_len(spans) >= 0,
    decreases spans.len(),
{
    if spans.len() > 0 {
        let init = spans.drop_last();
        assert forall|i: int| 0 <= i < init.len() implies (#[trigger] init[i]).start
            < init[i].end by {
            assert(init[i] == spans[i]);
        }
        assert(spans.last() == spans[spans.len() - 1]);
        lemma_comment_len_nonnegative(init);
    }
}

/// What is kept of two runs of elements, one after the other, is what is
/// kept of the first and then what is kept of the second.
pub proof fn lemma_kept_concat(s: Seq<char>, a: Seq<Span>, b: Seq<Span>)
    ensures
        kept(s, a + b) == kept(s, a) + kept(s, b),
    decreases b.len(),
{
    if b.len() == 0 {
        assert(a + b =~= a);
        assert(kept(s, a) + kept(s, b) =~= kept(s, a));
    } else {
        lemma_kept_concat(s, a, b.drop_last());
        assert((a + b).drop_last() =~= a + b.drop_last());
        assert((a + b).last() == b.last());
        assert(kept(s, a + b) =~= kept(s, a) + kept(s, b));
    }
}

/// The output is the input with every comment deleted and nothing else
/// changed.
///
/// Where the scan of `s` succeeds, its elements lie end to end from the
/// first character of `s` to its last, each is the element that the
/// classifier finds at its start, and all of them together hold `s`. The
/// output holds those that are no comments, in the same order. It is
/// therefore shorter than `s` by the number of characters in comments, and
/// never longer.
pub proof fn lemma_output_is_input_without_comments(s: Seq<char>)
    requires
        scan(s) is Ok,
    ensures
        scan(s) matches Ok(spans) && {
            &&& tiles(spans, 0, s.len() as int)
            &&& forall|i: int|
                0 <= i < spans.len() ==> element_at(s, (#[trigger] spans[i]).start) == Ok::<
                    Span,
                    ScanError,
                >(spans[i])
            &&& whole(s, spans) == s
            &&& stripped(s) == Ok::<Seq<char>, ScanError>(kept(s, spans))
            &&& kept(s, spans).len() == s.len() - comment_len(spans)
            &&& kept(s, spans).len() <= s.len()
        },
{
    lemma_scan_from_tiles(s, 0);
    let spans = scan(s)->Ok_0;
    lemma_whole_of_tiles(s, spans, 0, s.len() as int);
    assert(s.subrange(0, s.len() as int) =~= s);
    lemma_spans_inside(s, spans);
    lemma_kept_len(s, spans);
}

/// Elements that lie end to end inside a text each lie inside it.
proof fn lemma_spans_inside(s: Seq<char>, spans: Seq<Span>)
    requires
        tiles(spans, 0, s.len() as int),
    ensures
        forall|i: int|
            0 <= i < spans.len() ==> 0 <= (#[trigger] spans[i]).start < spans[i].end <= s.len(),
{
    assert forall|i: int| 0 <= i < spans.len() implies 0 <= (#[trigger] spans[i]).start
        < spans[i].end <= s.len() by {
        lemma_tiles_ordered(spans, 0, s.len() as int, i);
    }
}

/// In elements that lie end to end from `from` to `to`, each starts at or
/// after `from` and ends at or before `to`.
proof fn lemma_tiles_ordered(spans: Seq<Span>, from: int, to: int, i: int)
    requires
        tiles(spans, from, to),
        0 <= i < spans.len(),
    ensures
        from <= spans[i].start < spans[i].end <= to,
{
    lemma_tiles_start(spans, from, to, i);
    lemma_tiles_end(spans, from, to, i);
}

proof fn lemma_tiles_start(spans: Seq<Span>, from: int, to: int, i: int)
    requires
        tiles(spans, from, to),
        0 <= i < spans.len(),
    ensures
        from <= spans[i].start,
    decreases i,
{
    if i > 0 {
        lemma_tiles_start(spans, from, to, i - 1);
        assert(spans[i - 1].end == spans[i].start);
    }
}

proof fn lemma_tiles_end(spans: Seq<Span>, from: int, to: int, i: int)
    requires
        tiles(spans, from, to),
        0 <= i < spans.len(),
    ensures
        spans[i].end <= to,
    decreases spans.len() - i,
{
    if i < spans.len() - 1 {
        lemma_tiles_end(spans, from, to, i + 1);
        assert(spans[i].end == spans[i + 1].start);
    }
}

/// A text is its own stripped form exactly when the scan finds no comment
/// in it.
pub proof fn lemma_unchanged_iff_comment_free(s: Seq<char>)
    ensures
        stripped(s) == Ok::<Seq<char>, ScanError>(s) <==> comment_free(s),
{
    if scan(s) is Ok {
        let spans = scan(s)->Ok_0;
        lemma_output_is_input_without_comments(s);
        lemma_spans_inside(s, spans);
        lemma_kept_len(s, spans);
        if kept(s, spans) == s {
            lemma_no_comment_len(spans);
        }
    }
}

/// Stripping is idempotent on every text whose stripped form holds no
/// comment: stripping that form again returns it unchanged.
///
/// The condition is needed. Two characters that a comment kept apart can
/// meet when the comment between them is taken out, and begin a comment of
/// their own: of a hyphen, an empty block comment and a hyphen, two hyphens
/// are left, which are a line comment.
pub proof fn lemma_strip_is_idempotent(s: Seq<char>)
    requires
        stripped(s) matches Ok(once) && comment_free(once),
    ensures
        stripped(stripped(s)->Ok_0) == stripped(s),
{
    lemma_unchanged_iff_comment_free(stripped(s)->Ok_0);
}

/// Every element that is not a comment stands in the output as it stood in
/// the input: character for character, delimiters included. The output is
/// what is kept of the elements before it, then the element itself, then
/// what is kept of the elements after it. This holds of a literal whatever
/// it contains, tokens of comments too.
pub proof fn lemma_kept_element_is_preserved(s: Seq<char>, i: int)
    requires
        scan(s) matches Ok(spans) && 0 <= i < spans.len() && !(spans[i].kind is Comment),
    ensures
        scan(s) matches Ok(spans) && stripped(s) matches Ok(output) && {
            let at = kept(s, spans.take(i)).len() as int;
            let len = spans[i].end - spans[i].start;
            &&& 0 <= spans[i].start < spans[i].end <= s.len()
            &&& output == kept(s, spans.take(i)) + s.subrange(spans[i].start, spans[i].end) + kept(
                s,
                spans.skip(i + 1),
            )
            &&& at + len <= output.len()
            &&& output.subrange(at, at + len) == s.subrange(spans[i].start, spans[i].end)
        },
{
    let spans = scan(s)->Ok_0;
    lemma_element_inside(s, i);
    let before = spans.take(i);
    let one = seq![spans[i]];
    let after = spans.skip(i + 1);
    assert(spans =~= (before + one) + after);
    lemma_kept_concat(s, before + one, after);
    lemma_kept_concat(s, before, one);
    assert(kept(s, one) =~= kept_of(s, spans[i])) by {
        assert(one.drop_last() =~= Seq::<Span>::empty());
        assert(one.last() == spans[i]);
        assert(kept(s, one.drop_last()) =~= Seq::<char>::empty());
    }
    let output = kept(s, spans);
    let head = kept(s, before);
    let text = s.subrange(spans[i].start, spans[i].end);
    let tail = kept(s, after);
    assert(output == (head + text) + tail);
    assert(((head + text) + tail).subrange(head.len() as int, (head.len() + text.len()) as int)
        =~= text);
}

/// Each element that a scan finds lies inside the text and is not empty.
pub proof fn lemma_element_inside(s: Seq<char>, i: int)
    requires
        scan(s) matches Ok(spans) && 0 <= i < spans.len(),
    ensures
        scan(s) matches Ok(spans) && 0 <= spans[i].start < spans[i].end <= s.len(),
{
    lemma_scan_from_tiles(s, 0);
    lemma_tiles_ordered(scan(s)->Ok_0, 0, s.len() as int, i);
}

/// An element that the scan calls a literal is a literal: one of the three
/// forms begins at its start and ends at its end.
pub proof fn lemma_literal_element(s: Seq<char>, i: int)
    requires
        scan(s) matches Ok(spans) && 0 <= i < spans.len() && spans[i].kind is TextLiteral,
    ensures
        scan(s) matches Ok(spans) && text_literal_end(s, spans[i].start) == Ok::<int, ScanError>(
            spans[i].end,
        ),
{
    lemma_output_is_input_without_comments(s);
}

} // verus!
