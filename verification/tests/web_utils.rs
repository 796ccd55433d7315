use game::web::register::{is_byte_allowed, validate_body};
use game::web::users::username;
use game::web::utils::{bytes_equal, find_byte, find_bytes, undo_urlencoding};
use game::web::validation::{is_byte_allowed_in_username, parse_signin_info, signin_fields};

#[test]
fn find_byte_first_match() {
    assert_eq!(find_byte(b"a=b=c", b'='), Some(1));
    assert_eq!(find_byte(b"abc", b'='), None);
    assert_eq!(find_byte(b"", b'='), None);
}

#[test]
fn find_bytes_first_window() {
    assert_eq!(find_bytes(b"GET / HTTP/1.1\r\n\r\n", b"\r\n"), Some(14));
    assert_eq!(find_bytes(b"ab\r\ncd\r\n\r\n", b"\r\n\r\n"), Some(6));
    assert_eq!(find_bytes(b"\r\n", b"\r\n\r\n"), None);
    assert_eq!(find_bytes(b"", b"x"), None);
    assert_eq!(find_bytes(b"xyz", b"xyz"), Some(0));
}

#[test]
fn undo_urlencoding_plus_is_space() {
    assert_eq!(undo_urlencoding(b"a+b"), Some(b"a b".to_vec()));
    assert_eq!(undo_urlencoding(b"plain"), Some(b"plain".to_vec()));
    assert_eq!(undo_urlencoding(b""), Some(vec![]));
}

#[test]
fn undo_urlencoding_escape_reads_decimal_values_as_hex() {
    // The two bytes after `%` are written out as decimal numbers and the
    // text read as a hexadecimal number.
    assert_eq!(undo_urlencoding(&[b'%', 1, 2]), Some(vec![0x12]));
    assert_eq!(undo_urlencoding(&[b'%', 0, 99]), Some(vec![0x99]));
    assert_eq!(undo_urlencoding(&[b'x', b'%', 0, 0, b'+']), Some(vec![b'x', 0, b' ']));
    // `%41` reads as "5249", too large for a byte.
    assert_eq!(undo_urlencoding(b"%41"), None);
}

#[test]
fn undo_urlencoding_cut_short_escape() {
    assert_eq!(undo_urlencoding(b"%"), None);
    assert_eq!(undo_urlencoding(&[b'a', b'%', 1]), None);
}

#[test]
fn bytes_equal_compares_contents() {
    assert!(bytes_equal(b"abc", b"abc"));
    assert!(!bytes_equal(b"abc", b"abd"));
    assert!(!bytes_equal(b"abc", b"ab"));
    assert!(bytes_equal(b"", b""));
}

#[test]
fn username_bytes() {
    for b in [b'A', b'Z', b'a', b'z', b'0', b'9', b'_', b' '] {
        assert!(is_byte_allowed_in_username(b));
        assert!(is_byte_allowed(b));
    }
    for b in [b'-', b'@', b'%', b'+', 0u8, 200u8] {
        assert!(!is_byte_allowed_in_username(b));
        assert!(!is_byte_allowed(b));
    }
}

#[test]
fn signin_info_parsed() {
    assert_eq!(
        parse_signin_info(b"username=bob+s&password=secret"),
        Some((String::from("bob s"), String::from("secret")))
    );
    assert_eq!(
        signin_fields(b"username=ann&password=p+w"),
        Some((b"ann".to_vec(), b"p w".to_vec()))
    );
}

#[test]
fn signin_info_refused() {
    // wrong keys
    assert_eq!(parse_signin_info(b"user=bob&password=x"), None);
    assert_eq!(parse_signin_info(b"username=bob&pass=x"), None);
    // no `&`
    assert_eq!(parse_signin_info(b"username=bob"), None);
    // empty name or password
    assert_eq!(parse_signin_info(b"username=&password=x"), None);
    assert_eq!(parse_signin_info(b"username=bob&password="), None);
    // a name of 17 bytes
    assert_eq!(parse_signin_info(b"username=aaaaaaaaaaaaaaaaa&password=x"), None);
    // a byte not allowed in a name
    assert_eq!(parse_signin_info(b"username=bob-1&password=x"), None);
    // a password of 257 bytes
    let mut body = b"username=bob&password=".to_vec();
    body.extend(vec![b'p'; 257]);
    assert_eq!(parse_signin_info(&body), None);
    // a password that is not UTF-8
    assert_eq!(parse_signin_info(&[b"username=bob&password=".as_slice(), &[b'%', 0, 99]].concat()), None);
}

#[test]
fn signin_limits_accepted() {
    assert_eq!(
        parse_signin_info(b"username=aaaaaaaaaaaaaaaa&password=x"),
        Some((String::from("aaaaaaaaaaaaaaaa"), String::from("x")))
    );
    let mut body = b"username=bob&password=".to_vec();
    body.extend(vec![b'p'; 256]);
    assert_eq!(parse_signin_info(&body).map(|(_, p)| p.len()), Some(256));
}

#[test]
fn registration_body_like_signin() {
    assert_eq!(
        validate_body(b"username=new_user&password=pw"),
        Some((String::from("new_user"), String::from("pw")))
    );
    assert_eq!(validate_body(b"username=new.user&password=pw"), None);
}

#[test]
fn username_from_path() {
    assert_eq!(username(b"alice"), Some(String::from("alice")));
    assert_eq!(username(&[0xff, 0xfe]), None);
    assert_eq!(username(b""), Some(String::new()));
}
