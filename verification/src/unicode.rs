//! The standard library's Unicode case primitives, as trusted items.
//!
//! The general Unicode lowercase and uppercase mappings and the case
//! membership predicates are supplied by the standard library; this module
//! names their results so that the rest of the crate can state exact
//! contracts over them. The mappings depend on the Unicode Character
//! Database alone, never on a locale or the environment, so naming them is
//! sound.

use vstd::prelude::*;

verus! {

/// The full Unicode lowercase mapping of a character: the codepoints that
/// `char::to_lowercase` yields, in order.
pub uninterp spec fn unicode_lower(c: char) -> Seq<char>;

/// The full Unicode uppercase mapping of a character: the codepoints that
/// `char::to_uppercase` yields, in order.
pub uninterp spec fn unicode_upper(c: char) -> Seq<char>;

/// Whether the Unicode standard classes a character as lowercase.
pub uninterp spec fn unicode_is_lowercase(c: char) -> bool;

/// Whether the Unicode standard classes a character as uppercase.
pub uninterp spec fn unicode_is_uppercase(c: char) -> bool;

/// Relies on char::to_lowercase: the locale-agnostic Unicode lowercase
/// mapping of the character, documented to yield one or more codepoints
/// (a character with no lowercase equivalent yields itself) and to depend
/// on the character alone.
#[verifier::external_body]
pub fn to_lowercase_chars(c: char) -> (r: Vec<char>)
    ensures
        r@ == unicode_lower(c),
        r@.len() >= 1,
{
    c.to_lowercase().collect()
}

/// Relies on char::to_uppercase: the locale-agnostic Unicode uppercase
/// mapping of the character, documented to yield one or more codepoints
/// (a character with no uppercase equivalent yields itself) and to depend
/// on the character alone.
#[verifier::external_body]
pub fn to_uppercase_chars(c: char) -> (r: Vec<char>)
    ensures
        r@ == unicode_upper(c),
        r@.len() >= 1,
{
    c.to_uppercase().collect()
}

/// Relies on char::is_lowercase: whether the character has the Unicode
/// `Lowercase` property.
#[verifier::external_body]
pub fn is_lowercase_char(c: char) -> (r: bool)
    ensures
        r == unicode_is_lowercase(c),
{
    c.is_lowercase()
}

/// Relies on char::is_uppercase: whether the character has the Unicode
/// `Uppercase` property.
#[verifier::external_body]
pub fn is_uppercase_char(c: char) -> (r: bool)
    ensures
        r == unicode_is_uppercase(c),
{
    c.is_uppercase()
}

/// Whether a `u32` is a Unicode scalar value: in the codepoint range and
/// not a surrogate.
pub open spec fn is_unicode_scalar(v: u32) -> bool {
    v <= 0x10FFFF && !(0xD800 <= v && v <= 0xDFFF)
}

/// Relies on char::from_u32: `Some` exactly on Unicode scalar values
/// (at most 0x10FFFF and not a surrogate), returning the character with
/// that value.
#[verifier::external_body]
pub fn char_from_u32(v: u32) -> (r: Option<char>)
    ensures
        is_unicode_scalar(v) ==> r == Some(v as char),
        !is_unicode_scalar(v) ==> r is None,
{
    char::from_u32(v)
}

/// Relies on String::push: appends the given character to the end of the
/// string.
#[verifier::external_body]
pub fn push_char(s: &mut String, c: char)
    ensures
        final(s)@ == old(s)@.push(c),
{
    s.push(c)
}

} // verus!
