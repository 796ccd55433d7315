//! Choosing what to answer to a request.

use vstd::prelude::*;
use vstd::string::StringSliceAdditionalSpecFns;
use vstd::utf8::{decode_utf8, valid_utf8};
use super::request::{has_header, parse_request, Request};
use super::users::username;
use super::utils::bytes_equal;

verus! {

/// What a `GET` request asks for.
#[derive(Debug)]
pub enum GetRoute {
    /// The style sheet.
    Stylesheet,
    /// The site's icon.
    Favicon,
    /// The home page.
    Home,
    /// The list of users.
    Users,
    /// The registration page.
    Register,
    /// The log-in page.
    Login,
    /// The page of the named user.
    User(String),
    NotFound,
}

/// What a `POST` request asks for.
#[derive(Clone, Copy, Debug, PartialEq, Eq)]
pub enum PostRoute {
    Register,
    Login,
    Logout,
    NotFound,
}

/// What the server is to do with a request.
#[derive(Debug)]
pub enum Route {
    /// The request is malformed.
    BadRequest,
    /// The request is not of HTTP version 1.1.
    HttpVersionNotSupported,
    /// The method is neither `GET` nor `POST`.
    NotImplemented,
    /// A `GET` request, with the value of its `Cookie` field, if any.
    Get { target: GetRoute, cookie: Option<Vec<u8>> },
    /// A `POST` request, with its body.
    Post { action: PostRoute, body: Vec<u8> },
}

/// `p` starts with `prefix`.
pub open spec fn starts_with(p: Seq<u8>, prefix: Seq<u8>) -> bool {
    p.len() >= prefix.len() && p.subrange(0, prefix.len() as int) == prefix
}

/// The paths of `GET` requests that name a fixed resource.
pub open spec fn fixed_get_path(p: Seq<u8>) -> bool {
    ||| p == "/assets/stylesheets/main.css".spec_bytes()
    ||| p == "/assets/icons/favicon.ico".spec_bytes()
    ||| p == "/".spec_bytes()
    ||| p == "/users".spec_bytes()
    ||| p == "/users/".spec_bytes()
    ||| p == "/register".spec_bytes()
    ||| p == "/register/".spec_bytes()
    ||| p == "/login".spec_bytes()
    ||| p == "/login/".spec_bytes()
}

/// What follows `/users/` in a path.
pub open spec fn user_part(p: Seq<u8>) -> Seq<u8> {
    p.subrange("/users/".spec_bytes().len() as int, p.len() as int)
}

/// `r` is what a `GET` of `p` asks for: a fixed resource by its path;
/// otherwise, under `/users/`, the page of the user named by the rest of
/// the path, where that is valid UTF-8; otherwise nothing.
pub open spec fn get_route_of(p: Seq<u8>, r: GetRoute) -> bool {
    match r {
        GetRoute::Stylesheet => p == "/assets/stylesheets/main.css".spec_bytes(),
        GetRoute::Favicon => p == "/assets/icons/favicon.ico".spec_bytes(),
        GetRoute::Home => p == "/".spec_bytes(),
        GetRoute::Users => p == "/users".spec_bytes() || p == "/users/".spec_bytes(),
        GetRoute::Register => p == "/register".spec_bytes() || p == "/register/".spec_bytes(),
        GetRoute::Login => p == "/login".spec_bytes() || p == "/login/".spec_bytes(),
        GetRoute::User(name) => {
            &&& !fixed_get_path(p)
            &&& starts_with(p, "/users/".spec_bytes())
            &&& valid_utf8(user_part(p))
            &&& name@ == decode_utf8(user_part(p))
        },
        GetRoute::NotFound => !fixed_get_path(p) && !(starts_with(p, "/users/".spec_bytes()) && valid_utf8(user_part(p))),
    }
}

/// What a `GET` of `path` asks for; see [`get_route_of`].
pub fn get_route(path: &[u8]) -> (r: GetRoute)
    ensures
        get_route_of(path@, r),
{
    if bytes_equal(path, "/assets/stylesheets/main.css".as_bytes()) {
        GetRoute::Stylesheet
    } else if bytes_equal(path, "/assets/icons/favicon.ico".as_bytes()) {
        GetRoute::Favicon
    } else if bytes_equal(path, "/".as_bytes()) {
        GetRoute::Home
    } else if bytes_equal(path, "/users".as_bytes()) || bytes_equal(path, "/users/".as_bytes()) {
        GetRoute::Users
    } else if bytes_equal(path, "/register".as_bytes()) || bytes_equal(path, "/register/".as_bytes()) {
        GetRoute::Register
    } else if bytes_equal(path, "/login".as_bytes()) || bytes_equal(path, "/login/".as_bytes()) {
        GetRoute::Login
    } else {
        let prefix = "/users/".as_bytes();
        if path.len() >= prefix.len() && bytes_equal(vstd::slice::slice_subrange(path, 0, prefix.len()), prefix) {
            let rest = vstd::slice::slice_subrange(path, prefix.len(), path.len());
            if let Some(user_info) = username(rest) {
                return GetRoute::User(user_info);
            }
        }
        GetRoute::NotFound
    }
}

/// `r` is what a `POST` to `p` asks for.
pub open spec fn post_route_of(p: Seq<u8>) -> PostRoute {
    if p == "/register".spec_bytes() {
        PostRoute::Register
    } else if p == "/login".spec_bytes() {
        PostRoute::Login
    } else if p == "/logout".spec_bytes() {
        PostRoute::Logout
    } else {
        PostRoute::NotFound
    }
}

/// What a `POST` to `path` asks for.
pub fn post_route(path: &[u8]) -> (r: PostRoute)
    ensures
        r == post_route_of(path@),
{
    if bytes_equal(path, "/register".as_bytes()) {
        PostRoute::Register
    } else if bytes_equal(path, "/login".as_bytes()) {
        PostRoute::Login
    } else if bytes_equal(path, "/logout".as_bytes()) {
        PostRoute::Logout
    } else {
        PostRoute::NotFound
    }
}

/// `r` is what is to be done with the request `data`: a malformed request
/// is refused, then one of another version than `HTTP/1.1`; a `GET` is
/// routed by its path and carries its `Cookie` field, a `POST` is routed
/// by its path and carries its body; any other method is not implemented.
pub open spec fn route_of(data: Seq<u8>, r: Route) -> bool {
    match parse_request(data) {
        None => r is BadRequest,
        Some(parts) => if parts.version != "HTTP/1.1".spec_bytes() {
            r is HttpVersionNotSupported
        } else if parts.method == "GET".spec_bytes() {
            match r {
                Route::Get { target, cookie } => {
                    &&& get_route_of(parts.path, target)
                    &&& match cookie {
                        Some(c) => exists|i: int| 0 <= i < parts.headers.len() && parts.headers[i] == ("Cookie".spec_bytes(), c@),
                        None => !has_header(parts.headers, "Cookie".spec_bytes()),
                    }
                },
                _ => false,
            }
        } else if parts.method == "POST".spec_bytes() {
            match r {
                Route::Post { action, body } => action == post_route_of(parts.path) && body@ == parts.body,
                _ => false,
            }
        } else {
            r is NotImplemented
        },
    }
}

/// What is to be done with the request `data`; see [`route_of`].
pub fn handle_request(data: &[u8]) -> (r: Route)
    ensures
        route_of(data@, r),
{
    let request = match Request::parse(data) {
        Some(req) => req,
        None => { return Route::BadRequest; },
    };
    if !bytes_equal(request.version, "HTTP/1.1".as_bytes()) {
        return Route::HttpVersionNotSupported;
    }
    if bytes_equal(request.method, "GET".as_bytes()) {
        let name = "Cookie".as_bytes();
        let cookie = match request.header(name) {
            Some(c) => {
                proof {
                    let i = choose|i: int| 0 <= i < request.headers@.len() && request.headers@[i].0@ == name@ && request.headers@[i].1@ == c@;
                    assert(request.parts().headers[i] == (name@, c@));
                }
                Some(vstd::slice::slice_to_vec(c))
            },
            None => None,
        };
        Route::Get { target: get_route(request.path), cookie }
    } else if bytes_equal(request.method, "POST".as_bytes()) {
        Route::Post { action: post_route(request.path), body: vstd::slice::slice_to_vec(request.body) }
    } else {
        Route::NotImplemented
    }
}

/// A trailing slash does not change what a `GET` of the list of users,
/// the registration page or the log-in page asks for.
pub proof fn lemma_trailing_slash_same_route(r: GetRoute)
    ensures
        "/users/".spec_bytes() == "/users".spec_bytes() + seq![47u8],
        "/register/".spec_bytes() == "/register".spec_bytes() + seq![47u8],
        "/login/".spec_bytes() == "/login".spec_bytes() + seq![47u8],
        get_route_of("/users/".spec_bytes(), r) <==> get_route_of("/users".spec_bytes(), r),
        get_route_of("/register/".spec_bytes(), r) <==> get_route_of("/register".spec_bytes(), r),
        get_route_of("/login/".spec_bytes(), r) <==> get_route_of("/login".spec_bytes(), r),
{
    broadcast use vstd::utf8::group_utf8_lib;
    reveal_strlit("/assets/stylesheets/main.css");
    reveal_strlit("/assets/icons/favicon.ico");
    reveal_strlit("/");
    reveal_strlit("/users");
    reveal_strlit("/users/");
    reveal_strlit("/register");
    reveal_strlit("/register/");
    reveal_strlit("/login");
    reveal_strlit("/login/");
    let css = "/assets/stylesheets/main.css"@;
    let icon = "/assets/icons/favicon.ico"@;
    let home = "/"@;
    let users = "/users"@;
    let users_s = "/users/"@;
    let register = "/register"@;
    let register_s = "/register/"@;
    let login = "/login"@;
    let login_s = "/login/"@;
    let all = seq![css, icon, home, users, users_s, register, register_s, login, login_s];
    assert forall|i: int, j: int| 0 <= i < 9 && 0 <= j < 9 && i != j implies
        vstd::utf8::encode_utf8(#[trigger] all[i]) != vstd::utf8::encode_utf8(#[trigger] all[j]) by {
        assert(css.len() == 28 && icon.len() == 25 && home.len() == 1);
        assert(users.len() == 6 && users_s.len() == 7 && register.len() == 9 && register_s.len() == 10);
        assert(login.len() == 6 && login_s.len() == 7);
        assert(users[1] == 'u' && users_s[1] == 'u' && login[1] == 'l' && login_s[1] == 'l');
        assert(all[i].len() != all[j].len() || all[i][1] != all[j][1]);
        assert(all[i] != all[j]);
        if vstd::utf8::encode_utf8(all[i]) == vstd::utf8::encode_utf8(all[j]) {
            assert(vstd::utf8::decode_utf8(vstd::utf8::encode_utf8(all[i])) == all[i]);
            assert(vstd::utf8::decode_utf8(vstd::utf8::encode_utf8(all[j])) == all[j]);
        }
    }
    assert(users_s =~= users + seq!['/']);
    assert(register_s =~= register + seq!['/']);
    assert(login_s =~= login + seq!['/']);
    assert(vstd::utf8::encode_utf8(seq!['/']) =~= seq![47u8]) by {
        vstd::utf8::is_ascii_chars_encode_utf8(seq!['/']);
    }
    super::session::lemma_encode_utf8_concat(users, seq!['/']);
    super::session::lemma_encode_utf8_concat(register, seq!['/']);
    super::session::lemma_encode_utf8_concat(login, seq!['/']);
    assert(all[0] == css && all[1] == icon && all[2] == home && all[3] == users && all[4] == users_s);
    assert(all[5] == register && all[6] == register_s && all[7] == login && all[8] == login_s);
}

} // verus!
