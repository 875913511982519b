//! Fresh identifiers.

use vstd::prelude::*;

use crate::text::chars_of;

verus! {

/// A character of Crockford's base 32 alphabet.
pub open spec fn crockford(c: char) -> bool {
    ||| '0' <= c <= '9'
    ||| 'A' <= c <= 'Z' && c != 'I' && c != 'L' && c != 'O' && c != 'U'
}

/// The shape of a ULID written out.
pub open spec fn ulid_shaped(text: Seq<char>) -> bool {
    &&& text.len() == 26
    &&& forall|i: int| 0 <= i < text.len() ==> crockford(#[trigger] text[i])
}

/// `ulid::Ulid::new`, written out by its `Display`: 26 characters of Crockford's
/// base 32 alphabet. Which ones they are depends on the clock and on chance.
#[verifier::external_body]
pub(crate) fn fresh_ulid() -> (text: String)
    ensures
        ulid_shaped(text@),
{
    ulid::Ulid::new().to_string()
}

pub open spec fn lower(c: char) -> char {
    if 'A' <= c <= 'Z' {
        ((c as u8 + 32) as u8) as char
    } else {
        c
    }
}

/// The last six characters, the last one first, in lower case.
pub open spec fn token(text: Seq<char>) -> Seq<char> {
    Seq::new(
        if text.len() < 6 {
            text.len()
        } else {
            6
        },
        |i: int| lower(text[text.len() - 1 - i]),
    )
}

fn lower_case(c: char) -> (lowered: char)
    ensures
        lowered == lower(c),
{
    if 'A' <= c && c <= 'Z' {
        (c as u8 + 32) as char
    } else {
        c
    }
}

/// The short token of an identifier: the last six characters, the last one
/// first, in lower case.
pub fn token_of(text: &str) -> (short: String)
    ensures
        short@ == token(text@),
{
    let chars = chars_of(text);
    let mut short = String::new();
    let mut index: usize = 0;
    while index < 6 && index < chars.len()
        invariant
            index <= 6,
            index <= chars@.len(),
            chars@ == text@,
            short@.len() == index,
            forall|i: int|
                0 <= i < index ==> #[trigger] short@[i] == lower(chars@[chars@.len() - 1 - i]),
        decreases 6 - index,
    {
        short.push(lower_case(chars[chars.len() - 1 - index]));
        index += 1;
    }
    assert(short@ =~= token(text@));
    short
}

/// A token that some ULID has.
pub open spec fn token_shaped(short: Seq<char>) -> bool {
    exists|text: Seq<char>| #[trigger] ulid_shaped(text) && short == token(text)
}

/// A random token.
pub fn random_token() -> (short: String)
    ensures
        token_shaped(short@),
{
    let text = fresh_ulid();
    token_of(text.as_str())
}

} // verus!
