//! Unicode character properties and case mapping, as std implements them.
use vstd::prelude::*;

verus! {

/// `char::is_uppercase`: the character has the Unicode `Uppercase` property.
pub uninterp spec fn char_is_upper(c: char) -> bool;

/// `char::is_lowercase`: the character has the Unicode `Lowercase` property.
pub uninterp spec fn char_is_lower(c: char) -> bool;

/// `char::is_whitespace`: the character has the Unicode `White_Space` property,
/// which these code points have: tab to carriage return, space, next line,
/// no-break space, ogham space mark, en quad to hair space, line and paragraph
/// separators, narrow no-break space, medium mathematical space, ideographic
/// space.
pub open spec fn char_is_space(c: char) -> bool {
    let u = c as u32;
    (0x9 <= u <= 0xd) || u == 0x20 || u == 0x85 || u == 0xa0 || u == 0x1680 || (0x2000 <= u <= 0x200a)
        || u == 0x2028 || u == 0x2029 || u == 0x202f || u == 0x205f || u == 0x3000
}

/// `str::to_lowercase`: the Unicode lowercase mapping of a whole string.
pub uninterp spec fn lowercase(s: Seq<char>) -> Seq<char>;

/// Calls `char::is_uppercase`. Trusted: the result is the `char_is_upper` property of `c`.
#[verifier::external_body]
pub(crate) fn is_upper(c: char) -> (r: bool)
    ensures
        r == char_is_upper(c),
{
    c.is_uppercase()
}

/// Calls `char::is_lowercase`. Trusted: the result is the `char_is_lower` property of `c`.
#[verifier::external_body]
pub(crate) fn is_lower(c: char) -> (r: bool)
    ensures
        r == char_is_lower(c),
{
    c.is_lowercase()
}

/// Whether a character is white space (see `char_is_space`).
pub(crate) fn is_space(c: char) -> (r: bool)
    ensures
        r == char_is_space(c),
{
    let u = c as u32;
    (0x9 <= u && u <= 0xd) || u == 0x20 || u == 0x85 || u == 0xa0 || u == 0x1680 || (0x2000 <= u && u <= 0x200a)
        || u == 0x2028 || u == 0x2029 || u == 0x202f || u == 0x205f || u == 0x3000
}

/// Calls `str::to_lowercase`. Trusted: the result is `lowercase` of the input.
#[verifier::external_body]
pub(crate) fn to_lower(s: &str) -> (r: String)
    ensures
        r@ == lowercase(s@),
{
    s.to_lowercase()
}

} // verus!
