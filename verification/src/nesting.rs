//! Block comments inside block comments.
//!
//! A block comment may hold any number of block comments, side by side and
//! one inside the other. However many there are, the comment that holds
//! them is closed by its own closing token and by no earlier one, and the
//! classifier takes all of it as one element.

use vstd::prelude::*;
use crate::comment::{
    block_comment_end,
    block_end,
    closes_block,
    lemma_block_end_bounds,
    opens_block,
};
use crate::element::{element_at, Kind, Span};
use crate::error::ScanError;

verus! {

/// Whether `c` is one block comment from its first character to its last.
pub open spec fn is_block_comment(c: Seq<char>) -> bool {
    block_comment_end(c, 0) == Ok::<int, ScanError>(c.len() as int)
}

/// Whether `p` is plain text for a block comment: it holds no token of a
/// block comment, and it does not end on a character that could begin one
/// together with what follows.
pub open spec fn is_plain(p: Seq<char>) -> bool {
    &&& forall|k: int| !(#[trigger] opens_block(p, k))
    &&& forall|k: int| !(#[trigger] closes_block(p, k))
    &&& p.len() > 0 ==> p.last() != '{' && p.last() != '-'
}

/// What may stand inside a block comment, between its tokens: a block
/// comment, or plain text.
pub open spec fn is_part(p: Seq<char>) -> bool {
    is_block_comment(p) || is_plain(p)
}

/// The texts `parts`, one after the other.
pub open spec fn joined(parts: Seq<Seq<char>>) -> Seq<char>
    decreases parts.len(),
{
    if parts.len() == 0 {
        Seq::empty()
    } else {
        joined(parts.drop_last()) + parts.last()
    }
}

/// The text made of an opening token, `parts` one after the other, and a
/// closing token.
pub open spec fn enclosed(parts: Seq<Seq<char>>) -> Seq<char> {
    seq!['{', '-'] + joined(parts) + seq!['-', '}']
}

/// Where a block comment is closed depends on the characters up to that
/// place alone: the same characters, at another place or in another text,
/// are closed after as many characters.
pub proof fn lemma_block_end_window(a: Seq<char>, i: int, b: Seq<char>, j: int, depth: nat)
    requires
        0 <= i,
        0 <= j,
        block_end(a, i, depth) matches Some(end) && j + (end - i) <= b.len() && forall|k: int|
            i <= k < end ==> #[trigger] a[k] == b[k - i + j],
    ensures
        block_end(a, i, depth) matches Some(end) && block_end(b, j, depth) == Some(j + (end - i)),
    decreases a.len() - i,
{
    lemma_block_end_bounds(a, i, depth);
    assert(a[i] == b[i - i + j]);
    assert(a[i + 1] == b[i + 1 - i + j]);
    assert(opens_block(a, i) == opens_block(b, j));
    assert(closes_block(a, i) == closes_block(b, j));
    if opens_block(a, i) {
        lemma_block_end_window(a, i + 2, b, j + 2, depth + 1);
    } else if closes_block(a, i) {
        if depth > 1 {
            lemma_block_end_window(a, i + 2, b, j + 2, (depth - 1) as nat);
        }
    } else {
        lemma_block_end_window(a, i + 1, b, j + 1, depth);
    }
}

/// Where the comments that are open at `i` are closed at `end`, and `more`
/// comments are open around them, the walk goes on at `end` with those
/// `more` still open.
pub proof fn lemma_block_end_deeper(s: Seq<char>, i: int, depth: nat, more: nat)
    requires
        depth >= 1,
        more >= 1,
        block_end(s, i, depth) is Some,
    ensures
        block_end(s, i, depth + more) == block_end(s, block_end(s, i, depth)->0, more),
    decreases s.len() - i,
{
    if opens_block(s, i) {
        lemma_block_end_deeper(s, i + 2, depth + 1, more);
    } else if closes_block(s, i) {
        if depth > 1 {
            lemma_block_end_deeper(s, i + 2, (depth - 1) as nat, more);
        }
    } else {
        lemma_block_end_deeper(s, i + 1, depth, more);
    }
}

/// Inside a block comment, plain text is passed over, and as many comments
/// are open behind it as before it.
pub proof fn lemma_block_end_skips_plain(t: Seq<char>, pos: int, p: Seq<char>, depth: nat)
    requires
        0 <= pos,
        pos + p.len() <= t.len(),
        t.subrange(pos, pos + p.len()) == p,
        is_plain(p),
    ensures
        block_end(t, pos, depth) == block_end(t, pos + p.len(), depth),
    decreases p.len(),
{
    if p.len() > 0 {
        let rest = p.drop_first();
        assert(t.subrange(pos, pos + p.len())[0] == t[pos]);
        if p.len() > 1 {
            assert(t.subrange(pos, pos + p.len())[1] == t[pos + 1]);
            assert(rest.last() == p.last());
        }
        assert(!opens_block(p, 0) && !closes_block(p, 0));
        assert(!opens_block(t, pos) && !closes_block(t, pos));
        assert(t.subrange(pos + 1, pos + 1 + rest.len()) =~= rest);
        assert forall|k: int| !(#[trigger] opens_block(rest, k)) by {
            if 0 <= k && k + 1 < rest.len() {
                assert(rest[k] == p[k + 1] && rest[k + 1] == p[k + 2]);
                assert(!opens_block(p, k + 1));
            }
        }
        assert forall|k: int| !(#[trigger] closes_block(rest, k)) by {
            if 0 <= k && k + 1 < rest.len() {
                assert(rest[k] == p[k + 1] && rest[k + 1] == p[k + 2]);
                assert(!closes_block(p, k + 1));
            }
        }
        lemma_block_end_skips_plain(t, pos + 1, rest, depth);
    }
}

/// Inside a block comment, a block comment is passed over as a whole: where
/// one begins at `i`, the walk goes on behind its closing token with as
/// many comments open as before it, whatever it holds.
pub proof fn lemma_nested_comment_is_skipped(t: Seq<char>, i: int, depth: nat)
    requires
        depth >= 1,
        block_comment_end(t, i) is Ok,
    ensures
        block_end(t, i, depth) == block_end(t, block_comment_end(t, i)->Ok_0, depth),
{
    lemma_block_end_deeper(t, i + 2, 1, depth);
}

/// The text of a whole block comment is a block comment wherever it
/// stands: in `t` at `pos`, it is recognized from its first character to
/// its last.
pub proof fn lemma_block_comment_stands(t: Seq<char>, pos: int, c: Seq<char>)
    requires
        0 <= pos,
        pos + c.len() <= t.len(),
        t.subrange(pos, pos + c.len()) == c,
        is_block_comment(c),
    ensures
        block_comment_end(t, pos) == Ok::<int, ScanError>(pos + c.len()),
        c.len() >= 4,
{
    lemma_block_end_bounds(c, 2, 1);
    assert forall|k: int| 0 <= k < c.len() implies #[trigger] c[k] == t[k + pos] by {
        assert(t.subrange(pos, pos + c.len())[k] == t[pos + k]);
    }
    assert(c[0] == t[0 + pos]);
    assert(c[1] == t[1 + pos]);
    assert(opens_block(t, pos));
    assert forall|k: int| 2 <= k < c.len() implies #[trigger] c[k] == t[k - 2 + (pos + 2)] by {
        assert(c[k] == t[k + pos]);
    }
    lemma_block_end_window(c, 2, t, pos + 2, 1);
}

/// Inside a block comment, the text of a whole block comment is passed
/// over, and as many comments are open behind it as before it.
pub proof fn lemma_block_end_skips_comment(t: Seq<char>, pos: int, c: Seq<char>, depth: nat)
    requires
        depth >= 1,
        0 <= pos,
        pos + c.len() <= t.len(),
        t.subrange(pos, pos + c.len()) == c,
        is_block_comment(c),
    ensures
        block_end(t, pos, depth) == block_end(t, pos + c.len(), depth),
{
    lemma_block_comment_stands(t, pos, c);
    lemma_nested_comment_is_skipped(t, pos, depth);
}

/// Inside a block comment, any number of parts, one after the other, are
/// passed over, and as many comments are open behind them as before them.
pub proof fn lemma_block_end_skips_parts(
    t: Seq<char>,
    pos: int,
    parts: Seq<Seq<char>>,
    depth: nat,
)
    requires
        depth >= 1,
        0 <= pos,
        pos + joined(parts).len() <= t.len(),
        t.subrange(pos, pos + joined(parts).len()) == joined(parts),
        forall|i: int| 0 <= i < parts.len() ==> is_part(#[trigger] parts[i]),
    ensures
        block_end(t, pos, depth) == block_end(t, pos + joined(parts).len(), depth),
    decreases parts.len(),
{
    if parts.len() > 0 {
        let init = parts.drop_last();
        let last = parts.last();
        let mid = pos + joined(init).len();
        assert(joined(parts) == joined(init) + last);
        assert(t.subrange(pos, mid) =~= joined(init)) by {
            assert forall|k: int| 0 <= k < joined(init).len() implies t.subrange(pos, mid)[k]
                == joined(init)[k] by {
                assert(t.subrange(pos, pos + joined(parts).len())[k] == t[pos + k]);
                assert(joined(parts)[k] == joined(init)[k]);
            }
        }
        assert(t.subrange(mid, mid + last.len()) =~= last) by {
            assert forall|k: int| 0 <= k < last.len() implies t.subrange(mid, mid + last.len())[k]
                == last[k] by {
                assert(t.subrange(pos, pos + joined(parts).len())[joined(init).len() + k] == t[mid
                    + k]);
                assert(joined(parts)[joined(init).len() + k] == last[k]);
            }
        }
        assert forall|i: int| 0 <= i < init.len() implies is_part(#[trigger] init[i]) by {
            assert(init[i] == parts[i]);
        }
        lemma_block_end_skips_parts(t, pos, init, depth);
        assert(is_part(parts[parts.len() - 1]));
        if is_block_comment(last) {
            lemma_block_end_skips_comment(t, mid, last, depth);
        } else {
            lemma_block_end_skips_plain(t, mid, last, depth);
        }
    }
}

/// A block comment is closed by its own closing token, however many block
/// comments it holds: an opening token, any number of parts and a closing
/// token are one block comment, where each part is a block comment, which
/// may hold others in the same way, or plain text.
pub proof fn lemma_nested_comments_are_one_comment(parts: Seq<Seq<char>>)
    requires
        forall|i: int| 0 <= i < parts.len() ==> is_part(#[trigger] parts[i]),
    ensures
        is_block_comment(enclosed(parts)),
{
    let t = enclosed(parts);
    let inner = joined(parts).len() as int;
    assert(t.len() == inner + 4);
    assert(t[0] == '{' && t[1] == '-');
    assert(t[inner + 2] == '-' && t[inner + 3] == '}');
    assert(t.subrange(2, 2 + inner) =~= joined(parts));
    lemma_block_end_skips_parts(t, 2, parts, 1);
    assert(closes_block(t, inner + 2));
    assert(!opens_block(t, inner + 2));
}

/// A whole block comment is one element: wherever it stands in a text, the
/// element that begins at its first character is a comment that ends with
/// its last, whatever the comment holds.
pub proof fn lemma_block_comment_is_one_element(t: Seq<char>, pos: int, c: Seq<char>)
    requires
        0 <= pos,
        pos + c.len() <= t.len(),
        t.subrange(pos, pos + c.len()) == c,
        is_block_comment(c),
    ensures
        element_at(t, pos) == Ok::<Span, ScanError>(
            Span { kind: Kind::Comment, start: pos, end: pos + c.len() },
        ),
{
    lemma_block_comment_stands(t, pos, c);
}

} // verus!
