//! Signing up: reading the registration form.

use vstd::prelude::*;
use vstd::utf8::{decode_utf8, valid_utf8};
use super::validation::{parse_signin_info, signin_fields_spec, username_byte};

verus! {

/// Whether a byte may stand in the name of a new user: a letter, a digit,
/// `_` or a space.
pub fn is_byte_allowed(byte: u8) -> (ok: bool)
    ensures
        ok == username_byte(byte),
{
    (65u8 <= byte && byte <= 90u8) || (97u8 <= byte && byte <= 122u8) || (48u8 <= byte && byte <= 57u8)
        || byte == 95u8 || byte == 32u8
}

/// The name and password of a registration form body, which has the shape
/// of a sign-in form: the decoded fields of [`signin_fields_spec`], where
/// both are valid UTF-8; `None` where the request is to be refused.
pub fn validate_body(body: &[u8]) -> (r: Option<(String, String)>)
    ensures
        match signin_fields_spec(body@) {
            None => r is None,
            Some((u, p)) => if valid_utf8(u) && valid_utf8(p) {
                r matches Some((us, ps)) && us@ == decode_utf8(u) && ps@ == decode_utf8(p)
            } else {
                r is None
            },
        },
{
    parse_signin_info(body)
}

} // verus!
