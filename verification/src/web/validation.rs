//! Reading the sign-in form: `username=...&password=...`.

use vstd::prelude::*;
use vstd::utf8::{decode_utf8, valid_utf8};
use super::utils::{bytes_equal, find_byte, lemma_find_byte_at, spec_find_byte, undo_urlencoding, url_decode, utf8_string};

verus! {

/// The bytes of `username`.
pub open spec fn username_key() -> Seq<u8> {
    seq![117u8, 115u8, 101u8, 114u8, 110u8, 97u8, 109u8, 101u8]
}

/// The bytes of `password`.
pub open spec fn password_key() -> Seq<u8> {
    seq![112u8, 97u8, 115u8, 115u8, 119u8, 111u8, 114u8, 100u8]
}

/// The bytes allowed in a user name: letters, digits, `_` and space.
pub open spec fn username_byte(b: u8) -> bool {
    (65 <= b <= 90) || (97 <= b <= 122) || (48 <= b <= 57) || b == 95 || b == 32
}

/// A decoded user name is allowed: 1 to 16 allowed bytes.
pub open spec fn username_ok(u: Seq<u8>) -> bool {
    &&& 0 < u.len() <= 16
    &&& forall|i: int| 0 <= i < u.len() ==> username_byte(u[i])
}

/// A decoded password is allowed: 1 to 256 bytes.
pub open spec fn password_ok(p: Seq<u8>) -> bool {
    0 < p.len() <= 256
}

/// The decoded user name and password of a sign-in form body, where the
/// body is `username=<name>&password=<password>` with both values well
/// encoded and allowed; `None` otherwise.
pub open spec fn signin_fields_spec(body: Seq<u8>) -> Option<(Seq<u8>, Seq<u8>)> {
    match spec_find_byte(body, 61u8) {
        None => None,
        Some(e1) => {
            let rest = body.subrange(e1 + 1, body.len() as int);
            if body.subrange(0, e1) != username_key() {
                None
            } else {
                match spec_find_byte(rest, 38u8) {
                    None => None,
                    Some(a1) => match url_decode(rest.subrange(0, a1)) {
                        None => None,
                        Some(u) => {
                            let rest2 = rest.subrange(a1 + 1, rest.len() as int);
                            if !username_ok(u) {
                                None
                            } else {
                                match spec_find_byte(rest2, 61u8) {
                                    None => None,
                                    Some(e2) => {
                                        if rest2.subrange(0, e2) != password_key() {
                                            None
                                        } else {
                                            match url_decode(rest2.subrange(e2 + 1, rest2.len() as int)) {
                                                None => None,
                                                Some(p) => if password_ok(p) { Some((u, p)) } else { None },
                                            }
                                        }
                                    },
                                }
                            }
                        },
                    },
                }
            }
        },
    }
}

/// The user name and password of a sign-in form body, as text: the
/// decoded fields of [`signin_fields_spec`], where both are valid UTF-8.
pub open spec fn signin_text(body: Seq<u8>) -> Option<(Seq<char>, Seq<char>)> {
    match signin_fields_spec(body) {
        None => None,
        Some((u, p)) => if valid_utf8(u) && valid_utf8(p) {
            Some((decode_utf8(u), decode_utf8(p)))
        } else {
            None
        },
    }
}

/// Whether a byte may stand in a user name.
pub fn is_byte_allowed_in_username(byte: u8) -> (ok: bool)
    ensures
        ok == username_byte(byte),
{
    (65u8 <= byte && byte <= 90u8) || (97u8 <= byte && byte <= 122u8) || (48u8 <= byte && byte <= 57u8) || byte == 95u8
        || byte == 32u8
}

/// Whether every byte may stand in a user name.
fn all_bytes_allowed(u: &Vec<u8>) -> (ok: bool)
    ensures
        ok == forall|i: int| 0 <= i < u@.len() ==> username_byte(u@[i]),
{
    let mut i: usize = 0;
    while i < u.len()
        invariant
            i <= u@.len(),
            forall|j: int| 0 <= j < i ==> username_byte(u@[j]),
        decreases u@.len() - i,
    {
        if !is_byte_allowed_in_username(u[i]) {
            return false;
        }
        i = i + 1;
    }
    true
}

/// The decoded user name and password of a sign-in form body; see
/// [`signin_fields_spec`].
pub fn signin_fields(body: &[u8]) -> (r: Option<(Vec<u8>, Vec<u8>)>)
    ensures
        match r {
            Some((u, p)) => signin_fields_spec(body@) == Some((u@, p@)),
            None => signin_fields_spec(body@) is None,
        },
{
    let equ1 = match find_byte(body, 61u8) {
        Some(i) => i,
        None => { return None; },
    };
    let key1 = vstd::slice::slice_subrange(body, 0, equ1);
    let username_text: Vec<u8> = vec![117u8, 115u8, 101u8, 114u8, 110u8, 97u8, 109u8, 101u8];
    assert(username_text@ =~= username_key());
    if !bytes_equal(key1, username_text.as_slice()) {
        return None;
    }
    let body = vstd::slice::slice_subrange(body, equ1 + 1, body.len());
    let amp1 = match find_byte(body, 38u8) {
        Some(i) => i,
        None => { return None; },
    };
    let value1 = vstd::slice::slice_subrange(body, 0, amp1);
    let username = match undo_urlencoding(value1) {
        Some(u) => u,
        None => { return None; },
    };
    if username.len() == 0 || username.len() > 16 || !all_bytes_allowed(&username) {
        return None;
    }
    let body = vstd::slice::slice_subrange(body, amp1 + 1, body.len());
    let equ2 = match find_byte(body, 61u8) {
        Some(i) => i,
        None => { return None; },
    };
    let key2 = vstd::slice::slice_subrange(body, 0, equ2);
    let password_text: Vec<u8> = vec![112u8, 97u8, 115u8, 115u8, 119u8, 111u8, 114u8, 100u8];
    assert(password_text@ =~= password_key());
    if !bytes_equal(key2, password_text.as_slice()) {
        return None;
    }
    let value2 = vstd::slice::slice_subrange(body, equ2 + 1, body.len());
    let password = match undo_urlencoding(value2) {
        Some(p) => p,
        None => { return None; },
    };
    if password.len() == 0 || password.len() > 256 {
        return None;
    }
    Some((username, password))
}

/// The user name and password of a sign-in form body, as text: the
/// decoded fields of [`signin_fields_spec`], where both are valid UTF-8.
pub fn parse_signin_info(body: &[u8]) -> (r: Option<(String, String)>)
    ensures
        match signin_fields_spec(body@) {
            None => r is None,
            Some((u, p)) => if valid_utf8(u) && valid_utf8(p) {
                r matches Some((us, ps)) && us@ == decode_utf8(u) && ps@ == decode_utf8(p)
            } else {
                r is None
            },
        },
{
    let (username, password) = match signin_fields(body) {
        Some(fields) => fields,
        None => { return None; },
    };
    let username = match utf8_string(username) {
        Some(u) => u,
        None => { return None; },
    };
    let password = match utf8_string(password) {
        Some(p) => p,
        None => { return None; },
    };
    Some((username, password))
}

/// Whatever a sign-in form yields is allowed: a user name of 1 to 16
/// letters, digits, `_` or spaces, and a password of 1 to 256 bytes.
pub proof fn lemma_signin_fields_allowed(body: Seq<u8>)
    ensures
        signin_fields_spec(body) matches Some((u, p)) ==> username_ok(u) && password_ok(p),
{
}

/// The shape of a sign-in form: a body `username=<name>&password=<password>`,
/// whose encoded name holds no `&`, is read as the decoded name and
/// password, where both decode and are allowed, and is refused otherwise.
pub proof fn lemma_signin_form_shape(name: Seq<u8>, password: Seq<u8>)
    requires
        !name.contains(38u8),
    ensures
        signin_fields_spec(username_key() + seq![61u8] + name + seq![38u8] + password_key() + seq![61u8] + password)
            == match (url_decode(name), url_decode(password)) {
                (Some(u), Some(p)) => if username_ok(u) && password_ok(p) { Some((u, p)) } else { None },
                _ => None,
            },
{
    let body = username_key() + seq![61u8] + name + seq![38u8] + password_key() + seq![61u8] + password;
    let uk = username_key();
    let pk = password_key();
    assert(body.subrange(0, 8) =~= uk);
    lemma_find_byte_at(body, 61u8, 8);
    let rest = body.subrange(9, body.len() as int);
    assert(rest =~= name + seq![38u8] + pk + seq![61u8] + password);
    let n = name.len() as int;
    assert forall|j: int| 0 <= j < n implies rest[j] != 38u8 by {
        assert(rest[j] == name[j]);
        if name[j] == 38u8 {
            assert(name.contains(38u8));
        }
    }
    lemma_find_byte_at(rest, 38u8, n);
    assert(rest.subrange(0, n) =~= name);
    let rest2 = rest.subrange(n + 1, rest.len() as int);
    assert(rest2 =~= pk + seq![61u8] + password);
    lemma_find_byte_at(rest2, 61u8, 8);
    assert(rest2.subrange(0, 8) =~= pk);
    assert(rest2.subrange(9, rest2.len() as int) =~= password);
}

} // verus!
