use vstd::prelude::*;

verus! {

/// Whether std counts the character as alphanumeric.
pub uninterp spec fn alphanumeric(c: char) -> bool;

/// Whether std counts the character as alphabetic.
pub uninterp spec fn alphabetic(c: char) -> bool;

/// Relies on `char::is_alphanumeric`: the answer depends on the character alone.
#[verifier::external_body]
pub(crate) fn is_alphanumeric(c: char) -> (r: bool)
    ensures
        r == alphanumeric(c),
{
    c.is_alphanumeric()
}

/// Relies on `char::is_alphabetic`: the answer depends on the character alone.
#[verifier::external_body]
pub(crate) fn is_alphabetic(c: char) -> (r: bool)
    ensures
        r == alphabetic(c),
{
    c.is_alphabetic()
}

/// Relies on `String::push`: the character is appended at the end.
#[verifier::external_body]
pub(crate) fn push_char(s: &mut String, c: char)
    ensures
        final(s)@ == old(s)@.push(c),
{
    s.push(c)
}

/// Space, tab, carriage return or newline.
pub open spec fn is_space(b: u8) -> bool {
    b == '\n' as u8 || b == '\r' as u8 || b == '\t' as u8 || b == ' ' as u8
}

pub open spec fn is_digit(b: u8) -> bool {
    '0' as u8 <= b <= '9' as u8
}

/// An ASCII letter or an underscore: the bytes that may start a name.
pub open spec fn is_name_start(b: u8) -> bool {
    ('A' as u8 <= b <= 'Z' as u8) || ('a' as u8 <= b <= 'z' as u8) || b == '_' as u8
}

/// The bytes that may continue a name, read as Latin-1 characters.
pub open spec fn is_name_byte(b: u8) -> bool {
    alphanumeric(b as char) || b == '_' as u8
}

pub(crate) fn space_byte(b: u8) -> (r: bool)
    ensures
        r == is_space(b),
{
    b == '\n' as u8 || b == '\r' as u8 || b == '\t' as u8 || b == ' ' as u8
}

pub(crate) fn digit_byte(b: u8) -> (r: bool)
    ensures
        r == is_digit(b),
{
    '0' as u8 <= b && b <= '9' as u8
}

pub(crate) fn name_start_byte(b: u8) -> (r: bool)
    ensures
        r == is_name_start(b),
{
    ('A' as u8 <= b && b <= 'Z' as u8) || ('a' as u8 <= b && b <= 'z' as u8) || b == '_' as u8
}

pub(crate) fn name_byte(b: u8) -> (r: bool)
    ensures
        r == is_name_byte(b),
{
    is_alphanumeric(b as char) || b == '_' as u8
}

} // verus!
