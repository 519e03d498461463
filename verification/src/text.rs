//! Texts as sequences of characters.

use vstd::prelude::*;

verus! {

/// Whether `s` holds the character `c` at index `i`.
pub open spec fn has_at(s: Seq<char>, i: int, c: char) -> bool {
    0 <= i < s.len() && s[i] == c
}

/// The four characters that may begin a comment or a literal.
pub open spec fn is_special(c: char) -> bool {
    c == '\'' || c == '-' || c == '"' || c == '{'
}

/// Tells whether `c` may begin a comment or a literal.
pub fn special(c: char) -> (b: bool)
    ensures
        b == is_special(c),
{
    c == '\'' || c == '-' || c == '"' || c == '{'
}

/// The characters of `input`, in order.
pub fn to_chars(input: &str) -> (chars: Vec<char>)
    ensures
        chars@ == input@,
{
    let mut chars: Vec<char> = Vec::new();
    for c in it: input.chars()
        invariant
            chars@ == it.seq().take(it.index()),
            it.seq() == input@,
    {
        chars.push(c);
    }
    chars
}

/// Appends one character to a string.
///
/// Calls `String::push` of the standard library, which is documented to
/// append the given character to the end of the string. Nothing of this is
/// proved here.
#[verifier::external_body]
fn push_char(out: &mut String, c: char)
    ensures
        final(out)@ == old(out)@.push(c),
{
    out.push(c);
}

/// Appends the characters `text[from..to]` to `out`.
pub fn push_range(out: &mut String, text: &[char], from: usize, to: usize)
    requires
        from <= to <= text@.len(),
    ensures
        final(out)@ == old(out)@ + text@.subrange(from as int, to as int),
{
    let mut i: usize = from;
    while i < to
        invariant
            from <= i <= to <= text@.len(),
            out@ == old(out)@ + text@.subrange(from as int, i as int),
        decreases to - i,
    {
        push_char(out, text[i]);
        assert(text@.subrange(from as int, i + 1) =~= text@.subrange(from as int, i as int).push(
            text@[i as int],
        ));
        i = i + 1;
    }
}

} // verus!
