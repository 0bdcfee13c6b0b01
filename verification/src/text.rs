//! What the standard library does with strings, as far as the rest of the
//! library needs it and the verifier does not know it yet.
use vstd::prelude::*;

verus! {

/// Appends one character to a string, by `String::push`.
#[verifier::external_body]
pub(crate) fn push_char(s: &mut String, c: char)
    ensures
        final(s)@ == old(s)@.push(c),
{
    s.push(c);
}

/// `part` occurs somewhere in `text`.
pub open spec fn occurs_in(part: Seq<char>, text: Seq<char>) -> bool {
    exists|i: int|
        0 <= i && i + part.len() <= text.len() && #[trigger] text.subrange(i, i + part.len())
            == part
}

/// Whether `text` begins with `prefix`, by `str::starts_with`.
#[verifier::external_body]
pub(crate) fn starts_with(text: &str, prefix: &str) -> (b: bool)
    ensures
        b == prefix@.is_prefix_of(text@),
{
    text.starts_with(prefix)
}

/// Whether `text` ends with `suffix`, by `str::ends_with`.
#[verifier::external_body]
pub(crate) fn ends_with(text: &str, suffix: &str) -> (b: bool)
    ensures
        b == suffix@.is_suffix_of(text@),
{
    text.ends_with(suffix)
}

/// Whether `part` occurs in `text`, by `str::contains`.
#[verifier::external_body]
pub(crate) fn contains(text: &str, part: &str) -> (b: bool)
    ensures
        b == occurs_in(part@, text@),
{
    text.contains(part)
}

/// Whether two texts are the same.
pub(crate) fn same_text(a: &str, b: &str) -> (same: bool)
    ensures
        same == (a@ == b@),
{
    a.to_owned() == b.to_owned()
}

/// The characters of a text.
pub(crate) fn chars_of(text: &str) -> (out: Vec<char>)
    ensures
        out@ == text@,
{
    let mut out: Vec<char> = Vec::new();
    for c in it: text.chars()
        invariant
            it.seq() == text@,
            out@ == it.seq().take(it.index() as int),
    {
        out.push(c);
    }
    out
}

/// The text of the characters from place `from` on.
pub(crate) fn text_from(chars: &Vec<char>, from: usize) -> (out: String)
    requires
        from <= chars@.len(),
    ensures
        out@ == chars@.skip(from as int),
{
    let mut out = String::new();
    let mut i: usize = from;
    while i < chars.len()
        invariant
            from <= i <= chars.len(),
            out@ == chars@.subrange(from as int, i as int),
        decreases chars.len() - i,
    {
        push_char(&mut out, chars[i]);
        assert(out@ =~= chars@.subrange(from as int, i as int + 1));
        i += 1;
    }
    assert(out@ =~= chars@.skip(from as int));
    out
}

} // verus!
