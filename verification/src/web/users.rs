//! The users' pages.

use vstd::prelude::*;
use vstd::utf8::{decode_utf8, valid_utf8};
use super::utils::utf8_string;

verus! {

/// The user name in a page's path, where it is valid UTF-8.
pub fn username(value: &[u8]) -> (r: Option<String>)
    ensures
        r is Some <==> valid_utf8(value@),
        r matches Some(s) ==> s@ == decode_utf8(value@),
{
    utf8_string(vstd::slice::slice_to_vec(value))
}

} // verus!
