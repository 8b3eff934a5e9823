//! What a served file's response carries besides its bytes: its media type
//! (`mime_guess`) and its weak ETag (`sha2`, `hex`).

use vstd::prelude::*;
use sha2::Digest;
use crate::text::{append_str, push_char};

verus! {

/// The SHA-256 digest that `sha2` computes for `data`.
pub uninterp spec fn sha256(data: Seq<u8>) -> Seq<u8>;

/// `sha2::Sha256::digest(data)` as bytes. Trusted: the result is the digest
/// that `sha2` computes for `data`, 32 bytes long.
#[verifier::external_body]
fn sha256_digest(data: &[u8]) -> (r: Vec<u8>)
    ensures
        r@ == sha256(data@),
        r@.len() == 32,
{
    sha2::Sha256::digest(data).to_vec()
}

/// The lowercase hexadecimal digit of `n` (`0 <= n < 16`).
pub open spec fn hex_digit(n: int) -> char {
    if n < 10 {
        (48 + n) as char
    } else {
        (87 + n) as char
    }
}

/// Lowercase hexadecimal text of `data`, two digits per byte, high nibble
/// first.
pub open spec fn hex_lower(data: Seq<u8>) -> Seq<char>
    decreases data.len(),
{
    if data.len() == 0 {
        Seq::empty()
    } else {
        seq![hex_digit((data[0] / 16) as int), hex_digit((data[0] % 16) as int)] + hex_lower(data.drop_first())
    }
}

/// `hex::encode(data)`. Trusted: lowercase hexadecimal, two digits per byte,
/// high nibble first (the documented behaviour of `hex::encode`).
#[verifier::external_body]
fn hex_encode(data: &[u8]) -> (r: String)
    ensures
        r@ == hex_lower(data@),
{
    hex::encode(data)
}

/// The decimal digit character of `d` (`0 <= d < 10`).
pub open spec fn decimal_digit(d: int) -> char {
    (48 + d) as char
}

/// The decimal text of `n`, without leading zeros.
pub open spec fn decimal(n: nat) -> Seq<char>
    decreases n,
{
    if n < 10 {
        seq![decimal_digit(n as int)]
    } else {
        decimal(n / 10).push(decimal_digit((n % 10) as int))
    }
}

fn digit_char(d: usize) -> (c: char)
    requires
        d < 10,
    ensures
        c == decimal_digit(d as int),
{
    match d {
        0 => '0',
        1 => '1',
        2 => '2',
        3 => '3',
        4 => '4',
        5 => '5',
        6 => '6',
        7 => '7',
        8 => '8',
        _ => '9',
    }
}

/// Appends the decimal text of `n` to `s`.
pub fn push_decimal(s: &mut String, n: usize)
    ensures
        final(s)@ == old(s)@ + decimal(n as nat),
    decreases n,
{
    if n >= 10 {
        push_decimal(s, n / 10);
    }
    push_char(s, digit_char(n % 10));
    assert(n < 10 ==> decimal(n as nat) =~= seq![decimal_digit(n as int)]);
}

/// The weak ETag of a file with bytes `data`: `W/"<length>-<sha256 in hex>"`.
pub open spec fn etag_of(data: Seq<u8>) -> Seq<char> {
    "W/\""@ + decimal(data.len()) + seq!['-'] + hex_lower(sha256(data)) + "\""@
}

/// The weak ETag of `data`.
pub fn weak_etag(data: &[u8]) -> (r: String)
    ensures
        r@ == etag_of(data@),
{
    let digest = sha256_digest(data);
    let hex = hex_encode(digest.as_slice());
    let mut r = String::new();
    append_str(&mut r, "W/\"");
    push_decimal(&mut r, data.len());
    push_char(&mut r, '-');
    append_str(&mut r, hex.as_str());
    append_str(&mut r, "\"");
    r
}

/// The media type that `mime_guess` gives a file `path` by its extension,
/// `application/octet-stream` where it knows none.
pub uninterp spec fn mime_type_of(path: Seq<char>) -> Seq<char>;

/// `mime_guess::from_path(path).first_or_octet_stream()` as text. Trusted:
/// the result is the media type `mime_guess` gives this path.
#[verifier::external_body]
fn guess_mime(path: &str) -> (r: String)
    ensures
        r@ == mime_type_of(path@),
{
    mime_guess::from_path(path).first_or_octet_stream().as_ref().to_string()
}

/// The media type under which the file at `path` is served.
pub fn content_type_for(path: &str) -> (r: String)
    ensures
        r@ == mime_type_of(path@),
{
    guess_mime(path)
}

} // verus!
