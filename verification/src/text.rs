//! Characters of text, one by one.

use vstd::prelude::*;

verus! {

pub open spec fn is_digit(c: char) -> bool {
    '0' <= c <= '9'
}

/// The ASCII lower case of a character.
pub open spec fn lower(c: char) -> char {
    if 'A' <= c <= 'Z' {
        (c as u32 + 32) as char
    } else {
        c
    }
}

/// The characters of a text.
pub fn chars_of(s: &str) -> (v: Vec<char>)
    ensures
        v@ == s@,
{
    let mut v: Vec<char> = Vec::new();
    for c in it: s.chars()
        invariant
            it.seq() == s@,
            v@ == s@.take(it.index() as int),
    {
        v.push(c);
    }
    v
}

pub fn is_digit_char(c: char) -> (r: bool)
    ensures
        r == is_digit(c),
{
    '0' <= c && c <= '9'
}

/// The code of the ASCII lower case of a character.
pub fn lower_code(c: char) -> (r: u32)
    ensures
        r == lower(c) as u32,
{
    if 'A' <= c && c <= 'Z' {
        c as u32 + 32
    } else {
        c as u32
    }
}

/// The characters of a text come one by one and in order; the digits are the ten of ASCII; and
/// lower case changes the 26 capital letters of ASCII only, each by the same distance.
pub proof fn law_characters(s: &str, v: Vec<char>, c: char, digit: bool, code: u32)
    requires
        call_ensures(chars_of, (s,), v),
        call_ensures(is_digit_char, (c,), digit),
        call_ensures(lower_code, (c,), code),
    ensures
        v@ == s@,
        digit <==> 48 <= c as int <= 57,
        65 <= c as int <= 90 ==> code == c as int + 32,
        !(65 <= c as int <= 90) ==> code == c as int,
{
}

} // verus!
