//! Small string operations of std that vstd does not specify.

use vstd::prelude::*;

verus! {

/// `String::push`: appends one character to the end of the string.
#[verifier::external_body]
pub(crate) fn push_char(s: &mut String, c: char)
    ensures
        final(s)@ == old(s)@.push(c),
{
    s.push(c)
}

/// `<str as PartialEq>::eq`: two string slices are equal exactly when they hold the same
/// characters.
#[verifier::external_body]
pub(crate) fn str_eq(a: &str, b: &str) -> (r: bool)
    ensures
        r == (a@ == b@),
{
    a == b
}

/// `char::from_u32`: yields the character with the given code point, or `None` when the
/// value is a surrogate or lies above `0x10FFFF`.
#[verifier::external_body]
pub(crate) fn char_from_u32(v: u32) -> (r: Option<char>)
    ensures
        r is Some <==> (v <= 0x10FFFF && !(0xD800 <= v <= 0xDFFF)),
        r matches Some(c) ==> c as u32 == v,
{
    char::from_u32(v)
}

/// The text a `Cow<str>` holds.
pub fn cow_str<'a>(c: &'a std::borrow::Cow<'_, str>) -> (r: &'a str)
    ensures
        r@ == c@,
{
    match c {
        std::borrow::Cow::Borrowed(s) => s,
        std::borrow::Cow::Owned(s) => s.as_str(),
    }
}

} // verus!
