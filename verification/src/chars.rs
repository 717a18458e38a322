use vstd::prelude::*;

verus! {

// Character classes of the ASCII alphabet that naming conventions are built
// from. A token may only contain letters, digits, '_' and '-'; anything else
// makes it invalid.

pub open spec fn is_lower_char(c: char) -> bool {
    97 <= c as u32 && c as u32 <= 122
}

pub open spec fn is_upper_char(c: char) -> bool {
    65 <= c as u32 && c as u32 <= 90
}

pub open spec fn is_digit_char(c: char) -> bool {
    48 <= c as u32 && c as u32 <= 57
}

pub open spec fn is_letter_char(c: char) -> bool {
    is_lower_char(c) || is_upper_char(c)
}

pub open spec fn is_alnum_char(c: char) -> bool {
    is_letter_char(c) || is_digit_char(c)
}

/// The characters an identifier may be composed of at all.
pub open spec fn is_ident_char(c: char) -> bool {
    is_alnum_char(c) || c == '_' || c == '-'
}

/// ASCII uppercasing of a single character; everything but 'a'..'z' is kept.
pub open spec fn to_upper_char(c: char) -> char {
    if is_lower_char(c) {
        ((c as u32) - 32) as char
    } else {
        c
    }
}

/// ASCII lowercasing of a single character; everything but 'A'..'Z' is kept.
pub open spec fn to_lower_char(c: char) -> char {
    if is_upper_char(c) {
        ((c as u32) + 32) as char
    } else {
        c
    }
}

#[verifier::when_used_as_spec(is_lower_char)]
pub fn is_lower(c: char) -> (b: bool)
    ensures
        b == is_lower_char(c),
{
    let u: u32 = c as u32;
    97 <= u && u <= 122
}

#[verifier::when_used_as_spec(is_upper_char)]
pub fn is_upper(c: char) -> (b: bool)
    ensures
        b == is_upper_char(c),
{
    let u: u32 = c as u32;
    65 <= u && u <= 90
}

#[verifier::when_used_as_spec(is_digit_char)]
pub fn is_digit(c: char) -> (b: bool)
    ensures
        b == is_digit_char(c),
{
    let u: u32 = c as u32;
    48 <= u && u <= 57
}

#[verifier::when_used_as_spec(is_letter_char)]
pub fn is_letter(c: char) -> (b: bool)
    ensures
        b == is_letter_char(c),
{
    is_lower(c) || is_upper(c)
}

#[verifier::when_used_as_spec(is_alnum_char)]
pub fn is_alnum(c: char) -> (b: bool)
    ensures
        b == is_alnum_char(c),
{
    is_letter(c) || is_digit(c)
}

pub fn upcase_char(c: char) -> (r: char)
    ensures
        r == to_upper_char(c),
{
    let u: u32 = c as u32;
    if 97 <= u && u <= 122 {
        ((u - 32) as u8) as char
    } else {
        c
    }
}

pub fn downcase_char(c: char) -> (r: char)
    ensures
        r == to_lower_char(c),
{
    let u: u32 = c as u32;
    if 65 <= u && u <= 90 {
        ((u + 32) as u8) as char
    } else {
        c
    }
}

/// How the two case mappings move characters between classes.
pub proof fn lemma_case_char(c: char)
    ensures
        is_lower_char(c) ==> is_upper_char(to_upper_char(c)),
        !is_lower_char(c) ==> to_upper_char(c) == c,
        is_upper_char(c) ==> is_lower_char(to_lower_char(c)),
        !is_upper_char(c) ==> to_lower_char(c) == c,
        is_digit_char(to_upper_char(c)) == is_digit_char(c),
        is_digit_char(to_lower_char(c)) == is_digit_char(c),
        is_letter_char(to_upper_char(c)) == is_letter_char(c),
        is_letter_char(to_lower_char(c)) == is_letter_char(c),
        is_alnum_char(to_upper_char(c)) == is_alnum_char(c),
        is_alnum_char(to_lower_char(c)) == is_alnum_char(c),
        !is_lower_char(to_upper_char(c)) || !is_letter_char(c),
        !is_upper_char(to_lower_char(c)) || !is_letter_char(c),
{
}

/// Relies on `String::push`: appends exactly the given character at the end.
#[verifier::external_body]
pub fn push_char(s: &mut String, c: char)
    ensures
        final(s)@ == old(s)@.push(c),
{
    s.push(c)
}

} // verus!
