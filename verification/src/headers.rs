//! Which configured headers and statuses HTTP (the `http` types that `axum`
//! re-exports) accepts.

use vstd::prelude::*;
use crate::config::Header;

verus! {

/// A byte that a header name may hold: a letter, a digit, or one of
/// `` !#$%&'*+-.^_`|~ ``.
pub open spec fn header_name_byte_ok(b: u8) -> bool {
    ||| b == 33
    ||| 35 <= b <= 39
    ||| b == 42 || b == 43 || b == 45 || b == 46
    ||| 48 <= b <= 57
    ||| 65 <= b <= 90
    ||| 94 <= b <= 122
    ||| b == 124 || b == 126
}

/// Whether `http::HeaderName::from_bytes` accepts `key`: its UTF-8 encoding
/// is 1 to 65535 bytes long and every byte may stand in a header name.
pub open spec fn header_name_accepted(key: Seq<char>) -> bool {
    let b = vstd::utf8::encode_utf8(key);
    &&& 1 <= b.len() <= 65535
    &&& forall|i: int| 0 <= i < b.len() ==> header_name_byte_ok(#[trigger] b[i])
}

/// `HeaderName::from_bytes(key.as_bytes()).is_ok()`. Trusted: true exactly
/// when the bytes of `key` are 1 to 65535 token characters (the table and the
/// length limit in `http`'s source).
#[verifier::external_body]
fn header_name_ok(key: &str) -> (b: bool)
    ensures
        b == header_name_accepted(key@),
{
    axum::http::HeaderName::from_bytes(key.as_bytes()).is_ok()
}

/// A byte that a header value may hold: a visible or non-ASCII byte, a space
/// or a tab; not another control byte nor DEL.
pub open spec fn header_value_byte_ok(b: u8) -> bool {
    (b >= 32 && b != 127) || b == 9
}

/// Whether `http::HeaderValue::from_str` accepts `value`: every byte of its
/// UTF-8 encoding may stand in a header value.
pub open spec fn header_value_accepted(value: Seq<char>) -> bool {
    forall|i: int| 0 <= i < vstd::utf8::encode_utf8(value).len() ==> header_value_byte_ok(
        #[trigger] vstd::utf8::encode_utf8(value)[i],
    )
}

/// `HeaderValue::from_str(value).is_ok()`. Trusted: true exactly when every
/// byte of `value` is a tab, or at least 32 and not 127 (the check in
/// `http`'s source).
#[verifier::external_body]
fn header_value_ok(value: &str) -> (b: bool)
    ensures
        b == header_value_accepted(value@),
{
    axum::http::HeaderValue::from_str(value).is_ok()
}

/// A configured header can be sent: `http` accepts its name and its value.
pub open spec fn header_sendable(h: Header) -> bool {
    header_name_accepted(h.key@) && header_value_accepted(h.value@)
}

/// Whether the configured header `h` can be sent.
pub fn sendable(h: &Header) -> (b: bool)
    ensures
        b == header_sendable(*h),
{
    header_name_ok(h.key.as_str()) && header_value_ok(h.value.as_str())
}

/// `StatusCode::from_u16(code)` as its number. Trusted: `http` accepts
/// exactly the codes from 100 to 999.
#[verifier::external_body]
fn status_from_u16(code: u16) -> (r: Option<u16>)
    ensures
        r == (if 100 <= code <= 999 { Some(code) } else { None::<u16> }),
{
    axum::http::StatusCode::from_u16(code).ok().map(|s| s.as_u16())
}

/// The status of a redirect whose configured type is `ty`: the type when it
/// is a valid status code, else 301.
pub open spec fn redirect_status(ty: Option<u16>) -> u16 {
    let code: u16 = match ty { Some(c) => c, None => 301 };
    if 100 <= code <= 999 { code } else { 301 }
}

/// The status code sent for a redirect of type `ty`.
pub fn redirect_status_for(ty: Option<u16>) -> (s: u16)
    ensures
        s == redirect_status(ty),
{
    let code: u16 = match ty {
        Some(c) => c,
        None => 301,
    };
    match status_from_u16(code) {
        Some(s) => s,
        None => 301,
    }
}

} // verus!
