use vstd::arithmetic::power2::pow2;
use vstd::prelude::*;

verus! {

/// The lower-case hexadecimal digit of a value below sixteen.
pub open spec fn hex_digit(n: int) -> char {
    if n < 10 {
        (48 + n) as char
    } else {
        (87 + n) as char
    }
}

/// The `i`-th of the thirty-two hexadecimal digits of an identifier, most significant first.
pub open spec fn id_nibble(id: u128, i: int) -> int {
    ((id as int) / (pow2((4 * (31 - i)) as nat) as int)) % 16
}

/// The character at position `j` of the hyphenated form `8-4-4-4-12`.
pub open spec fn id_char_at(id: u128, j: int) -> char {
    if j == 8 || j == 13 || j == 18 || j == 23 {
        '-'
    } else if j < 8 {
        hex_digit(id_nibble(id, j))
    } else if j < 13 {
        hex_digit(id_nibble(id, j - 1))
    } else if j < 18 {
        hex_digit(id_nibble(id, j - 2))
    } else if j < 23 {
        hex_digit(id_nibble(id, j - 3))
    } else {
        hex_digit(id_nibble(id, j - 4))
    }
}

/// The text of an identifier: thirty-six characters, lower-case hexadecimal digits in
/// groups of 8, 4, 4, 4 and 12, joined by hyphens.
pub open spec fn id_text(id: u128) -> Seq<char> {
    Seq::new(36, |j: int| id_char_at(id, j))
}

/// The identifier that `uuid::Uuid::parse_str` reads from a text, if it reads one.
pub uninterp spec fn parsed_id(text: Seq<char>) -> Option<u128>;

/// `uuid::Uuid::to_string` on the identifier with this value.
///
/// Trusted: the result is the hyphenated lower-case form (the crate's `Display`), and
/// `parse_str` reads that form back to the same identifier.
#[verifier::external_body]
pub(crate) fn id_to_string(id: u128) -> (r: String)
    ensures
        r@ == id_text(id),
        parsed_id(r@) == Some(id),
{
    uuid::Uuid::from_u128(id).to_string()
}

/// `uuid::Uuid::parse_str`, giving the identifier's value.
///
/// Trusted: the result is `parsed_id` of the text; nothing more is claimed about which
/// texts the crate accepts.
#[verifier::external_body]
pub(crate) fn parse_id(text: &str) -> (r: Option<u128>)
    ensures
        r == parsed_id(text@),
{
    match uuid::Uuid::parse_str(text) {
        Ok(id) => Some(id.as_u128()),
        Err(_) => None,
    }
}

} // verus!
