//! Unicode character classification, relied on from the standard library.
//!
//! On the ASCII range each predicate is written out, so its value there is
//! known to every proof.  Beyond ASCII the predicates depend on Unicode
//! tables that cannot be written out here, so that part of each predicate is
//! an uninterpreted name, pinned to the standard library by a trusted
//! wrapper.

use vstd::prelude::*;

verus! {

pub uninterp spec fn unicode_is_alphanumeric(c: char) -> bool;

pub uninterp spec fn unicode_is_lowercase(c: char) -> bool;

pub uninterp spec fn unicode_is_uppercase(c: char) -> bool;

pub uninterp spec fn unicode_is_whitespace(c: char) -> bool;

/// Whether a character is ASCII alphanumeric.
pub open spec fn spec_is_ascii_alphanumeric(c: char) -> bool {
    ('a' <= c && c <= 'z') || ('A' <= c && c <= 'Z') || ('0' <= c && c <= '9')
}

/// What `char::is_alphanumeric` returns: on ASCII, exactly the letters and
/// digits; beyond ASCII, the Unicode tables decide.
pub open spec fn spec_is_alphanumeric(c: char) -> bool {
    if c <= '\u{7f}' {
        spec_is_ascii_alphanumeric(c)
    } else {
        unicode_is_alphanumeric(c)
    }
}

/// What `char::is_lowercase` returns: on ASCII, exactly `a` to `z`.
pub open spec fn spec_is_lowercase(c: char) -> bool {
    if c <= '\u{7f}' {
        'a' <= c && c <= 'z'
    } else {
        unicode_is_lowercase(c)
    }
}

/// What `char::is_uppercase` returns: on ASCII, exactly `A` to `Z`.
pub open spec fn spec_is_uppercase(c: char) -> bool {
    if c <= '\u{7f}' {
        'A' <= c && c <= 'Z'
    } else {
        unicode_is_uppercase(c)
    }
}

/// What `char::is_whitespace` returns: on ASCII, exactly space, tab, line
/// feed, vertical tab, form feed and carriage return.
pub open spec fn spec_is_whitespace(c: char) -> bool {
    if c <= '\u{7f}' {
        c == ' ' || c == '\t' || c == '\n' || c == '\u{b}' || c == '\u{c}' || c == '\r'
    } else {
        unicode_is_whitespace(c)
    }
}

/// Relies on `char::is_alphanumeric`: true exactly for Unicode letters and
/// numeric characters; on ASCII those are the letters and digits.
#[verifier::external_body]
pub fn char_is_alphanumeric(c: char) -> (r: bool)
    ensures
        r == spec_is_alphanumeric(c),
        c > '\u{7f}' ==> r == unicode_is_alphanumeric(c),
{
    c.is_alphanumeric()
}

/// Relies on `char::is_lowercase`: true exactly for characters with the
/// Unicode `Lowercase` property; on ASCII those are `a` to `z`.
#[verifier::external_body]
pub fn char_is_lowercase(c: char) -> (r: bool)
    ensures
        r == spec_is_lowercase(c),
        c > '\u{7f}' ==> r == unicode_is_lowercase(c),
{
    c.is_lowercase()
}

/// Relies on `char::is_uppercase`: true exactly for characters with the
/// Unicode `Uppercase` property; on ASCII those are `A` to `Z`.
#[verifier::external_body]
pub fn char_is_uppercase(c: char) -> (r: bool)
    ensures
        r == spec_is_uppercase(c),
        c > '\u{7f}' ==> r == unicode_is_uppercase(c),
{
    c.is_uppercase()
}

/// Relies on `char::is_whitespace`: true exactly for characters with the
/// Unicode `White_Space` property; on ASCII those are space, tab, line feed,
/// vertical tab, form feed and carriage return.
#[verifier::external_body]
pub fn char_is_whitespace(c: char) -> (r: bool)
    ensures
        r == spec_is_whitespace(c),
        c > '\u{7f}' ==> r == unicode_is_whitespace(c),
{
    c.is_whitespace()
}

} // verus!
