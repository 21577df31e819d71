//! Building the provider's update URL: the fixed endpoint with the host, the
//! domain and the password attached as form-urlencoded query parameters.

use vstd::prelude::*;

use crate::text::spec_digit_char;

verus! {

/// Whether a byte passes through the form-urlencoded serializer unchanged:
/// the ASCII alphanumerics and `*`, `-`, `.`, `_`.
pub open spec fn spec_byte_unchanged(b: u8) -> bool {
    b == ('*' as u8) || b == ('-' as u8) || b == ('.' as u8) || b == ('_' as u8) || (('0' as u8)
        <= b && b <= ('9' as u8)) || (('A' as u8) <= b && b <= ('Z' as u8)) || (('a' as u8) <= b
        && b <= ('z' as u8))
}

/// The character spelling one hexadecimal digit, upper case.
pub open spec fn spec_hex_digit(d: nat) -> char {
    if d < 10 {
        spec_digit_char(d)
    } else if d == 10 {
        'A'
    } else if d == 11 {
        'B'
    } else if d == 12 {
        'C'
    } else if d == 13 {
        'D'
    } else if d == 14 {
        'E'
    } else {
        'F'
    }
}

/// The form-urlencoded spelling of one byte: itself when it passes unchanged,
/// `+` for a space, and `%` with two uppercase hexadecimal digits otherwise.
pub open spec fn spec_encode_byte(b: u8) -> Seq<char> {
    if spec_byte_unchanged(b) {
        seq![b as char]
    } else if b == (' ' as u8) {
        seq!['+']
    } else {
        seq!['%', spec_hex_digit((b / 16) as nat), spec_hex_digit((b % 16) as nat)]
    }
}

/// The form-urlencoded spelling of a byte string, byte by byte.
pub open spec fn spec_encode_bytes(bs: Seq<u8>) -> Seq<char>
    decreases bs.len(),
{
    if bs.len() == 0 {
        Seq::empty()
    } else {
        spec_encode_byte(bs[0]) + spec_encode_bytes(bs.drop_first())
    }
}

/// The form-urlencoded spelling of a text: its UTF-8 bytes, each spelled.
pub open spec fn spec_urlencoded(s: Seq<char>) -> Seq<char> {
    spec_encode_bytes(vstd::utf8::encode_utf8(s))
}

/// Relies on url's `form_urlencoded::byte_serialize`, the serializer behind
/// `Url::query_pairs_mut`: over the text's UTF-8 bytes, ASCII alphanumerics
/// and `*-._` pass unchanged, a space becomes `+`, and every other byte
/// becomes `%` and two uppercase hexadecimal digits.
#[verifier::external_body]
fn urlencode(value: &str) -> (r: String)
    ensures
        r@ == spec_urlencoded(value@),
{
    url::form_urlencoded::byte_serialize(value.as_bytes()).collect()
}

/// The provider's fixed update endpoint.
pub open spec fn spec_endpoint() -> Seq<char> {
    "https://dynamicdns.park-your-domain.com/update"@
}

/// The update URL for one configuration: the fixed endpoint, then the host,
/// the domain and the password, in that order, each form-urlencoded.
pub open spec fn spec_update_url(
    host: Seq<char>,
    domain: Seq<char>,
    password: Seq<char>,
) -> Seq<char> {
    spec_endpoint() + "?host="@ + spec_urlencoded(host) + "&domain="@ + spec_urlencoded(domain)
        + "&password="@ + spec_urlencoded(password)
}

/// Builds the update URL for one configuration.
pub fn build_url(host: &str, domain: &str, password: &str) -> (r: String)
    ensures
        r@ == spec_update_url(host@, domain@, password@),
{
    let mut s = String::from_str("https://dynamicdns.park-your-domain.com/update");
    s.append("?host=");
    s.append(urlencode(host).as_str());
    s.append("&domain=");
    s.append(urlencode(domain).as_str());
    s.append("&password=");
    s.append(urlencode(password).as_str());
    proof {
        assert(s@ =~= spec_update_url(host@, domain@, password@));
    }
    s
}

} // verus!
