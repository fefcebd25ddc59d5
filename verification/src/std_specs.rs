//! Contracts for the few std functions that vstd leaves unspecified.
use vstd::prelude::*;

verus! {

/// `String::push` appends one char at the end of the string.
pub assume_specification[ String::push ](s: &mut String, ch: char)
    ensures
        final(s)@ == old(s)@.push(ch),
;

/// Whether a char is alphabetic or numeric in the sense of Unicode; what
/// `char::is_alphanumeric` answers depends on the Unicode tables of std, and
/// only on the char.
pub uninterp spec fn char_is_alphanumeric(c: char) -> bool;

/// `char::is_alphanumeric` answers `char_is_alphanumeric`; for ASCII chars
/// it accepts exactly the ASCII letters and digits.
pub assume_specification[ char::is_alphanumeric ](c: char) -> (r: bool)
    ensures
        r == char_is_alphanumeric(c),
        (c as u32) < 128 ==> (r <==> (('a' <= c && c <= 'z') || ('A' <= c && c <= 'Z') || (
        '0' <= c && c <= '9'))),
;

/// Whether a char has the Unicode `White_Space` property; what
/// `char::is_whitespace` answers depends on the Unicode tables of std, and
/// only on the char.
pub uninterp spec fn char_is_whitespace(c: char) -> bool;

/// `char::is_whitespace` answers `char_is_whitespace`; among the ASCII
/// chars, exactly the space and the controls from tab to carriage return
/// (`'\t'`, `'\n'`, vertical tab, form feed, `'\r'`) have the property.
pub assume_specification[ char::is_whitespace ](c: char) -> (r: bool)
    ensures
        r == char_is_whitespace(c),
        (c as u32) < 128 ==> (r <==> (c == ' ' || ('\t' <= c && c <= '\r'))),
;

/// The `Debug` rendering of a string (the text in double quotes, with the
/// characters that need it escaped); it depends on the string alone.
pub uninterp spec fn str_debug(s: Seq<char>) -> Seq<char>;

/// `format!("{:?}", s)` for a string: its `Debug` rendering, which starts
/// and ends with a double quote.
#[verifier::external_body]
pub(crate) fn debug_str(s: &str) -> (r: String)
    ensures
        r@ == str_debug(s@),
        r@.len() >= 2,
        r@[0] == '"',
        r@.last() == '"',
{
    format!("{:?}", s)
}

} // verus!
