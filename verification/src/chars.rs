//! Character classes used by the extraction grammar.
//!
//! Whitespace is taken to be ASCII whitespace throughout: the patterns this
//! library recognises come out of HTML attribute values and URL paths, where
//! the separators of interest are the ASCII ones.

use vstd::prelude::*;

verus! {

/// ASCII whitespace: space, tab, line feed, vertical tab, form feed,
/// carriage return.
pub open spec fn is_space_char(c: char) -> bool {
    c == ' ' || c == '\t' || c == '\n' || c == '\u{b}' || c == '\u{c}' || c == '\r'
}

/// An ASCII decimal digit.
pub open spec fn is_digit_char(c: char) -> bool {
    '0' <= c && c <= '9'
}

/// A character allowed in a CSS class token suffix: ASCII letters, digits,
/// `-` and `_`.
pub open spec fn is_class_char(c: char) -> bool {
    ('a' <= c && c <= 'z') || ('A' <= c && c <= 'Z') || is_digit_char(c) || c == '-' || c == '_'
}

/// A character allowed inside a hyperlinked author name: anything but a
/// slash, a double or single quote, `>`, or whitespace.
pub open spec fn is_link_char(c: char) -> bool {
    c != '/' && c != '"' && c != '\'' && c != '>' && !is_space_char(c)
}

/// A character allowed inside a URL path segment: anything but a slash.
pub open spec fn is_seg_char(c: char) -> bool {
    c != '/'
}

pub fn space_char(c: char) -> (b: bool)
    ensures
        b == is_space_char(c),
{
    c == ' ' || c == '\t' || c == '\n' || c == '\u{b}' || c == '\u{c}' || c == '\r'
}

pub fn digit_char(c: char) -> (b: bool)
    ensures
        b == is_digit_char(c),
{
    '0' <= c && c <= '9'
}

pub fn class_char(c: char) -> (b: bool)
    ensures
        b == is_class_char(c),
{
    ('a' <= c && c <= 'z') || ('A' <= c && c <= 'Z') || ('0' <= c && c <= '9') || c == '-' || c
        == '_'
}

pub fn link_char(c: char) -> (b: bool)
    ensures
        b == is_link_char(c),
{
    c != '/' && c != '"' && c != '\'' && c != '>' && !space_char(c)
}

pub fn seg_char(c: char) -> (b: bool)
    ensures
        b == is_seg_char(c),
{
    c != '/'
}

} // verus!
