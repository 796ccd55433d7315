use game::web::response::{bad_request, http_version_not_supported, internal_server_error, not_found, not_implemented, ok, see_other, Header, MediaType, Status};
use game::web::session::{check_login, login_answer, login_redirect, login_response, remove_cookie, session_token};

fn custom(h: &Header) -> Option<(&str, &str)> {
    match h {
        Header::Custom(n, v) => Some((n.as_str(), v.as_str())),
        _ => None,
    }
}

#[test]
fn ok_response_describes_body() {
    let r = ok(MediaType::Html, b"<p>hi</p>".to_vec());
    assert_eq!(r.status, Status::Success);
    assert_eq!(r.headers.len(), 3);
    assert!(matches!(r.headers[0], Header::ConnectionClose));
    assert!(matches!(r.headers[1], Header::ContentType(MediaType::Html)));
    assert!(matches!(r.headers[2], Header::ContentLength(9)));
    assert_eq!(r.body, b"<p>hi</p>".to_vec());
}

#[test]
fn error_responses_are_empty() {
    for (r, s) in [
        (bad_request(), Status::BadRequest),
        (not_found(), Status::NotFound),
        (not_implemented(), Status::NotImplemented),
        (internal_server_error(), Status::InternalServerError),
        (http_version_not_supported(), Status::HttpVersionNotSupported),
    ] {
        assert_eq!(r.status, s);
        assert_eq!(r.headers.len(), 1);
        assert!(matches!(r.headers[0], Header::ConnectionClose));
        assert!(r.body.is_empty());
    }
}

#[test]
fn see_other_puts_location_first() {
    let r = see_other(String::from("/x"), vec![Header::Custom(String::from("A"), String::from("b"))]);
    assert_eq!(r.status, Status::SeeOther);
    assert_eq!(r.headers.len(), 3);
    assert!(matches!(r.headers[0], Header::ConnectionClose));
    assert_eq!(custom(&r.headers[1]), Some(("Location", "/x")));
    assert_eq!(custom(&r.headers[2]), Some(("A", "b")));
    assert!(r.body.is_empty());
}

#[test]
fn session_token_skips_cookie_name() {
    assert_eq!(session_token(b"token=bob"), Some(String::from("bob")));
    assert_eq!(session_token(b"token="), Some(String::new()));
    assert_eq!(session_token(&[b't', b'o', b'k', b'e', b'n', b'=', 0xff]), None);
}

#[test]
fn check_login_compares_passwords() {
    assert_eq!(
        check_login(String::from("bob"), String::from("pw"), Some(String::from("pw"))),
        Some(String::from("bob"))
    );
    assert_eq!(check_login(String::from("bob"), String::from("pw"), Some(String::from("other"))), None);
    assert_eq!(check_login(String::from("bob"), String::from("pw"), None), None);
}

#[test]
fn login_sets_cookie_and_redirects() {
    let r = login_redirect(&String::from("bob"), &String::from("bob"));
    assert_eq!(r.status, Status::SeeOther);
    assert_eq!(custom(&r.headers[1]), Some(("Location", "/users/bob")));
    assert_eq!(custom(&r.headers[2]), Some(("Set-Cookie", "token=bob; HttpOnly; SameSite=Lax; Path=/")));
    let r = login_response(&String::from("bob"), Some(String::from("t0k")));
    assert_eq!(custom(&r.headers[2]), Some(("Set-Cookie", "token=t0k; HttpOnly; SameSite=Lax; Path=/")));
    let r = login_response(&String::from("bob"), None);
    assert_eq!(r.status, Status::InternalServerError);
}

#[test]
fn logout_expires_cookie() {
    let r = remove_cookie();
    assert_eq!(r.status, Status::SeeOther);
    assert_eq!(r.headers.len(), 3);
    assert_eq!(custom(&r.headers[1]), Some(("Location", "/")));
    assert_eq!(custom(&r.headers[2]), Some(("Set-Cookie", "token=; Max-Age=0; HttpOnly; SameSite=Lax; Path=/")));
}

#[test]
fn login_failure_sets_no_cookie() {
    let r = login_answer(String::from("bob"), String::from("pw"), Some(Some(String::from("other"))));
    assert_eq!(r.status, Status::InternalServerError);
    assert_eq!(r.headers.len(), 1);
    assert!(matches!(r.headers[0], Header::ConnectionClose));
    let r = login_answer(String::from("bob"), String::from("pw"), Some(None));
    assert_eq!(r.status, Status::InternalServerError);
    assert_eq!(r.headers.len(), 1);
    let r = login_answer(String::from("bob"), String::from("pw"), None);
    assert_eq!(r.status, Status::InternalServerError);
    assert_eq!(r.headers.len(), 1);
    let r = login_response(&String::from("bob"), None);
    assert_eq!(r.headers.len(), 1);
    assert!(r.body.is_empty());
}

#[test]
fn login_success_sets_cookie() {
    let r = login_answer(String::from("bob"), String::from("pw"), Some(Some(String::from("pw"))));
    assert_eq!(r.status, Status::SeeOther);
    assert!(matches!(r.headers[0], Header::ConnectionClose));
    assert_eq!(custom(&r.headers[1]), Some(("Location", "/users/bob")));
    assert_eq!(custom(&r.headers[2]), Some(("Set-Cookie", "token=bob; HttpOnly; SameSite=Lax; Path=/")));
    assert!(r.body.is_empty());
}
