//! Questions about the text of a line.

use vstd::prelude::*;

verus! {

/// Whether `c` is one of the characters that JSON allows between its
/// tokens: space, tab, carriage return, line feed.
pub open spec fn blank_char(c: char) -> bool {
    c == ' ' || c == '\t' || c == '\r' || c == '\n'
}

/// Whether `text` is blank: it holds nothing but spaces, tabs, carriage
/// returns and line feeds. The empty text is blank.
pub open spec fn blank(text: Seq<char>) -> bool {
    forall|i: int| 0 <= i < text.len() ==> blank_char(#[trigger] text[i])
}

/// Whether a line is blank, which is to say that it holds no record.
pub fn is_blank(text: &str) -> (r: bool)
    ensures
        r == blank(text@),
{
    for c in it: text.chars()
        invariant
            it.seq() == text@,
            forall|i: int| 0 <= i < it.index() ==> blank_char(#[trigger] text@[i]),
    {
        if !(c == ' ' || c == '\t' || c == '\r' || c == '\n') {
            assert(!blank_char(text@[it.index() as int]));
            return false;
        }
    }
    true
}

/// Whether two string slices hold the same text.
pub(crate) fn same_text(a: &str, b: &str) -> (r: bool)
    ensures
        r == (a@ == b@),
{
    a.to_owned() == b.to_owned()
}

} // verus!
