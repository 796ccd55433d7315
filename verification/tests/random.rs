use game::random::csprng;

#[test]
fn csprng_gives_requested_length() {
    let a: Option<[u8; 32]> = csprng();
    let b: Option<[u8; 32]> = csprng();
    let a = a.expect("the system has a source of randomness");
    let b = b.expect("the system has a source of randomness");
    assert_eq!(a.len(), 32);
    assert_ne!(a, b);
    let n: Option<[u8; 16]> = csprng();
    assert_eq!(n.unwrap().len(), 16);
}

#[test]
fn csprng_of_nothing_succeeds() {
    let r: Option<[u8; 0]> = csprng();
    assert_eq!(r, Some([]));
}
