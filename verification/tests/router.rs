use game::web::router::{get_route, handle_request, post_route, GetRoute, PostRoute, Route};

#[test]
fn get_routes_by_path() {
    assert!(matches!(get_route(b"/assets/stylesheets/main.css"), GetRoute::Stylesheet));
    assert!(matches!(get_route(b"/assets/icons/favicon.ico"), GetRoute::Favicon));
    assert!(matches!(get_route(b"/"), GetRoute::Home));
    assert!(matches!(get_route(b"/users"), GetRoute::Users));
    assert!(matches!(get_route(b"/users/"), GetRoute::Users));
    assert!(matches!(get_route(b"/register"), GetRoute::Register));
    assert!(matches!(get_route(b"/register/"), GetRoute::Register));
    assert!(matches!(get_route(b"/login/"), GetRoute::Login));
    assert!(matches!(get_route(b"/nowhere"), GetRoute::NotFound));
}

#[test]
fn get_user_page() {
    match get_route(b"/users/alice") {
        GetRoute::User(name) => assert_eq!(name, "alice"),
        other => panic!("unexpected route {other:?}"),
    }
    assert!(matches!(get_route(&[b'/', b'u', b's', b'e', b'r', b's', b'/', 0xff]), GetRoute::NotFound));
}

#[test]
fn post_routes_by_path() {
    assert_eq!(post_route(b"/register"), PostRoute::Register);
    assert_eq!(post_route(b"/login"), PostRoute::Login);
    assert_eq!(post_route(b"/logout"), PostRoute::Logout);
    assert_eq!(post_route(b"/login/"), PostRoute::NotFound);
}

#[test]
fn malformed_request_is_bad() {
    assert!(matches!(handle_request(b"nonsense"), Route::BadRequest));
}

#[test]
fn other_version_is_refused() {
    assert!(matches!(handle_request(b"GET / HTTP/1.0\r\nHost: x\r\n\r\n"), Route::HttpVersionNotSupported));
}

#[test]
fn other_method_not_implemented() {
    assert!(matches!(handle_request(b"PUT / HTTP/1.1\r\nHost: x\r\n\r\n"), Route::NotImplemented));
}

#[test]
fn get_carries_cookie() {
    match handle_request(b"GET /users HTTP/1.1\r\nCookie: token=bob\r\n\r\n") {
        Route::Get { target, cookie } => {
            assert!(matches!(target, GetRoute::Users));
            assert_eq!(cookie, Some(b"token=bob".to_vec()));
        },
        other => panic!("unexpected route {other:?}"),
    }
    match handle_request(b"GET / HTTP/1.1\r\nHost: x\r\n\r\n") {
        Route::Get { target, cookie } => {
            assert!(matches!(target, GetRoute::Home));
            assert_eq!(cookie, None);
        },
        other => panic!("unexpected route {other:?}"),
    }
}

#[test]
fn post_carries_body() {
    match handle_request(b"POST /login HTTP/1.1\r\nHost: x\r\n\r\nusername=a&password=b") {
        Route::Post { action, body } => {
            assert_eq!(action, PostRoute::Login);
            assert_eq!(body, b"username=a&password=b".to_vec());
        },
        other => panic!("unexpected route {other:?}"),
    }
}

#[test]
fn trailing_slash_same_route() {
    assert!(matches!(get_route(b"/users/"), GetRoute::Users));
    assert!(matches!(get_route(b"/register/"), GetRoute::Register));
    assert!(matches!(get_route(b"/login/"), GetRoute::Login));
}
