//! Signing in and out: checking passwords, reading and setting the session
//! cookie.

use vstd::prelude::*;
use vstd::utf8::{decode_utf8, encode_utf8, valid_utf8};
use super::response::{internal_server_error, is_empty_response, see_other, Header, Response, Status};
use super::utils::utf8_string;

verus! {

/// The session token in a `Cookie` field of the form `token=<token>`: what
/// follows its first six bytes, where that is valid UTF-8.
pub fn session_token(cookie: &[u8]) -> (r: Option<String>)
    requires
        cookie@.len() >= 6,
    ensures
        r is Some <==> valid_utf8(cookie@.subrange(6, cookie@.len() as int)),
        r matches Some(t) ==> t@ == decode_utf8(cookie@.subrange(6, cookie@.len() as int)),
{
    let token = vstd::slice::slice_subrange(cookie, 6, cookie.len());
    utf8_string(vstd::slice::slice_to_vec(token))
}

/// The session token of a user who gave `password`, where `stored` is the
/// password on record for that user: the user's name, where the two are
/// the same; `None` otherwise.
pub fn check_login(username: String, password: String, stored: Option<String>) -> (r: Option<String>)
    ensures
        match stored {
            Some(s) if s@ == password@ => r matches Some(t) && t@ == username@,
            _ => r is None,
        },
{
    match stored {
        Some(s) => if s == password { Some(username) } else { None },
        None => None,
    }
}

/// `303 See Other` to the page of `username`, setting the session cookie
/// to `token`.
pub fn login_redirect(username: &String, token: &String) -> (r: Response)
    ensures
        r.status == Status::SeeOther,
        r.headers@.len() == 3,
        r.headers@[0] is ConnectionClose,
        r.headers@[1] matches Header::Custom(name, value) && name@ == "Location"@ && value@ == "/users/"@ + username@,
        r.headers@[2] matches Header::Custom(name, value) && name@ == "Set-Cookie"@
            && value@ == "token="@ + token@ + "; HttpOnly; SameSite=Lax; Path=/"@,
        r.body@.len() == 0,
{
    let mut location = String::from_str("/users/");
    location.append(username.as_str());
    let mut cookie = String::from_str("token=");
    cookie.append(token.as_str());
    cookie.append("; HttpOnly; SameSite=Lax; Path=/");
    let r = see_other(location, vec![Header::Custom(String::from_str("Set-Cookie"), cookie)]);
    assert(r.headers@[2] == r.headers@.subrange(2, r.headers@.len() as int)[0]);
    r
}

/// The answer to a sign-in by `username`, given the token that the
/// database gave for it, if any: a redirection that sets the cookie, or
/// `500 Internal Server Error`.
pub fn login_response(username: &String, token: Option<String>) -> (r: Response)
    ensures
        match token {
            Some(t) => {
                &&& r.status == Status::SeeOther
                &&& r.headers@.len() == 3
                &&& r.headers@[0] is ConnectionClose
                &&& r.headers@[1] matches Header::Custom(name, value) && name@ == "Location"@ && value@ == "/users/"@ + username@
                &&& r.headers@[2] matches Header::Custom(name, value) && name@ == "Set-Cookie"@
                    && value@ == "token="@ + t@ + "; HttpOnly; SameSite=Lax; Path=/"@
                &&& r.body@.len() == 0
            },
            None => {
                &&& r.status == Status::InternalServerError
                &&& r.headers@.len() == 1
                &&& r.headers@[0] is ConnectionClose
                &&& r.body@.len() == 0
            },
        },
{
    match token {
        Some(t) => login_redirect(username, &t),
        None => internal_server_error(),
    }
}

/// `r` redirects to the page of `username` and sets the session cookie to
/// `token`.
pub open spec fn is_login_redirect(r: Response, username: Seq<char>, token: Seq<char>) -> bool {
    &&& r.status == Status::SeeOther
    &&& r.headers@.len() == 3
    &&& r.headers@[0] is ConnectionClose
    &&& r.headers@[1] matches Header::Custom(name, value) && name@ == "Location"@ && value@ == "/users/"@ + username
    &&& r.headers@[2] matches Header::Custom(name, value) && name@ == "Set-Cookie"@
        && value@ == "token="@ + token + "; HttpOnly; SameSite=Lax; Path=/"@
    &&& r.body@.len() == 0
}

/// The answer to a sign-in by `username` with `password`, given what the
/// database gave as the password on record: `None` where the database
/// failed, `Some(None)` where there is no such user. Only the password on
/// record signs the user in: the answer is then a redirection that sets the
/// session cookie to the user's name, and `500 Internal Server Error`, with
/// no cookie, in every other case.
pub fn login_answer(username: String, password: String, stored: Option<Option<String>>) -> (r: Response)
    ensures
        match stored {
            Some(Some(s)) if s@ == password@ => is_login_redirect(r, username@, username@),
            _ => is_empty_response(r, Status::InternalServerError),
        },
{
    match stored {
        None => internal_server_error(),
        Some(s) => {
            let token = check_login(username.clone(), password, s);
            login_response(&username, token)
        },
    }
}

/// The answer to signing out: `303 See Other` to the home page, expiring
/// the session cookie.
pub fn remove_cookie() -> (r: Response)
    ensures
        r.status == Status::SeeOther,
        r.headers@.len() == 3,
        r.headers@[0] is ConnectionClose,
        r.headers@[1] matches Header::Custom(name, value) && name@ == "Location"@ && value@ == "/"@,
        r.headers@[2] matches Header::Custom(name, value) && name@ == "Set-Cookie"@
            && value@ == "token=; Max-Age=0; HttpOnly; SameSite=Lax; Path=/"@,
        r.body@.len() == 0,
{
    let r = see_other(
        String::from_str("/"),
        vec![Header::Custom(String::from_str("Set-Cookie"), String::from_str("token=; Max-Age=0; HttpOnly; SameSite=Lax; Path=/"))],
    );
    assert(r.headers@[2] == r.headers@.subrange(2, r.headers@.len() as int)[0]);
    r
}

/// The encoding of two texts one after the other is the encoding of the
/// first followed by that of the second.
pub(crate) proof fn lemma_encode_utf8_concat(a: Seq<char>, b: Seq<char>)
    ensures
        encode_utf8(a + b) == encode_utf8(a) + encode_utf8(b),
    decreases a.len(),
{
    if a.len() == 0 {
        assert(a + b =~= b);
        assert(encode_utf8(a) + encode_utf8(b) =~= encode_utf8(b));
    } else {
        assert((a + b).drop_first() =~= a.drop_first() + b);
        assert((a + b)[0] == a[0]);
        lemma_encode_utf8_concat(a.drop_first(), b);
        assert(encode_utf8(a + b) =~= encode_utf8(a) + encode_utf8(b));
    }
}

/// The cookie that a browser sends back after a log-in, `token=` and the
/// token that [`login_redirect`] set, is read by [`session_token`] as that
/// same token.
pub proof fn lemma_session_cookie_roundtrip(token: Seq<char>)
    ensures
        ({
            let cookie = encode_utf8("token="@ + token);
            &&& cookie.len() >= 6
            &&& valid_utf8(cookie.subrange(6, cookie.len() as int))
            &&& decode_utf8(cookie.subrange(6, cookie.len() as int)) == token
        }),
{
    reveal_strlit("token=");
    let prefix = "token="@;
    assert(vstd::utf8::is_ascii_chars(prefix));
    vstd::utf8::is_ascii_chars_encode_utf8(prefix);
    lemma_encode_utf8_concat(prefix, token);
    let cookie = encode_utf8(prefix + token);
    assert(cookie.subrange(6, cookie.len() as int) =~= encode_utf8(token));
    vstd::utf8::encode_utf8_valid_utf8(token);
    vstd::utf8::encode_utf8_decode_utf8(token);
}

} // verus!
