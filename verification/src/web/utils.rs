//! Byte-string helpers: searching, and undoing the encoding of form values.

use vstd::prelude::*;

verus! {

/// An optional position, as an integer.
pub open spec fn as_position(r: Option<usize>) -> Option<int> {
    match r {
        Some(i) => Some(i as int),
        None => None,
    }
}

/// `i` is the first position of `b` in `s`.
pub open spec fn is_first_byte(s: Seq<u8>, b: u8, i: int) -> bool {
    &&& 0 <= i < s.len()
    &&& s[i] == b
    &&& forall|j: int| 0 <= j < i ==> s[j] != b
}

/// The first position of `b` in `s`, if it occurs.
pub open spec fn spec_find_byte(s: Seq<u8>, b: u8) -> Option<int> {
    if exists|i: int| is_first_byte(s, b, i) {
        Some(choose|i: int| is_first_byte(s, b, i))
    } else {
        None
    }
}

/// The position of the first occurrence of `pattern` in `bytes`, if any.
pub fn find_byte(bytes: &[u8], pattern: u8) -> (r: Option<usize>)
    ensures
        r matches Some(i) ==> is_first_byte(bytes@, pattern, i as int),
        r is None ==> forall|j: int| 0 <= j < bytes@.len() ==> bytes@[j] != pattern,
        spec_find_byte(bytes@, pattern) == as_position(r),
{
    let mut i: usize = 0;
    while i < bytes.len()
        invariant
            i <= bytes@.len(),
            forall|j: int| 0 <= j < i ==> bytes@[j] != pattern,
        decreases bytes@.len() - i,
    {
        if bytes[i] == pattern {
            proof {
                assert(is_first_byte(bytes@, pattern, i as int));
                let k = choose|k: int| is_first_byte(bytes@, pattern, k);
                assert(k == i as int) by {
                    if k < i { assert(bytes@[k] != pattern); }
                    if k > i { assert(bytes@[i as int] != pattern); }
                }
            }
            return Some(i);
        }
        i = i + 1;
    }
    proof {
        assert(!exists|k: int| is_first_byte(bytes@, pattern, k)) by {
            if exists|k: int| is_first_byte(bytes@, pattern, k) {
                let k = choose|k: int| is_first_byte(bytes@, pattern, k);
                assert(bytes@[k] != pattern);
            }
        }
    }
    None
}

/// `pattern` occurs in `s` starting at `i`.
pub open spec fn matches_at(s: Seq<u8>, pattern: Seq<u8>, i: int) -> bool {
    &&& 0 <= i
    &&& i + pattern.len() <= s.len()
    &&& s.subrange(i, i + pattern.len()) == pattern
}

/// `i` is the first position where `pattern` occurs in `s`.
pub open spec fn is_first_match(s: Seq<u8>, pattern: Seq<u8>, i: int) -> bool {
    &&& matches_at(s, pattern, i)
    &&& forall|j: int| 0 <= j < i ==> !matches_at(s, pattern, j)
}

/// The first position where `pattern` occurs in `s`, if it occurs.
pub open spec fn spec_find_bytes(s: Seq<u8>, pattern: Seq<u8>) -> Option<int> {
    if exists|i: int| is_first_match(s, pattern, i) {
        Some(choose|i: int| is_first_match(s, pattern, i))
    } else {
        None
    }
}

/// The first position of `b` in `s` is `i` where `s` holds `b` there and
/// nowhere before.
pub proof fn lemma_find_byte_at(s: Seq<u8>, b: u8, i: int)
    requires
        0 <= i < s.len(),
        s[i] == b,
        forall|j: int| 0 <= j < i ==> s[j] != b,
    ensures
        spec_find_byte(s, b) == Some(i),
{
    assert(is_first_byte(s, b, i));
    let k = choose|k: int| is_first_byte(s, b, k);
    assert(k == i) by {
        if k < i {
            assert(s[k] != b);
        }
        if k > i {
            assert(s[i] != b);
        }
    }
}

/// The first position of `pattern` in `s` is `i` where it occurs there and
/// nowhere before.
pub proof fn lemma_find_bytes_at(s: Seq<u8>, pattern: Seq<u8>, i: int)
    requires
        matches_at(s, pattern, i),
        forall|j: int| 0 <= j < i ==> !matches_at(s, pattern, j),
    ensures
        spec_find_bytes(s, pattern) == Some(i),
{
    assert(is_first_match(s, pattern, i));
    let k = choose|k: int| is_first_match(s, pattern, k);
    assert(k == i) by {
        if k < i {
            assert(!matches_at(s, pattern, k));
        }
        if k > i {
            assert(!matches_at(s, pattern, i));
        }
    }
}

/// Whether the `len` bytes of `bytes` from `start` are those of `pattern`.
fn window_eq(bytes: &[u8], start: usize, pattern: &[u8]) -> (eq: bool)
    requires
        start + pattern@.len() <= bytes@.len(),
    ensures
        eq == (bytes@.subrange(start as int, start + pattern@.len()) == pattern@),
{
    let n = bytes.len();
    let mut k: usize = 0;
    while k < pattern.len()
        invariant
            n == bytes@.len(),
            start + pattern@.len() <= bytes@.len(),
            k <= pattern@.len(),
            forall|j: int| 0 <= j < k ==> bytes@[start + j] == pattern@[j],
        decreases pattern@.len() - k,
    {
        if bytes[start + k] != pattern[k] {
            assert(bytes@.subrange(start as int, start + pattern@.len())[k as int] != pattern@[k as int]);
            return false;
        }
        k = k + 1;
    }
    assert(bytes@.subrange(start as int, start + pattern@.len()) =~= pattern@);
    true
}

/// The position of the first occurrence of `pattern` in `bytes`, if any.
/// The pattern must not be empty.
pub fn find_bytes(bytes: &[u8], pattern: &[u8]) -> (r: Option<usize>)
    requires
        pattern@.len() > 0,
    ensures
        r matches Some(i) ==> is_first_match(bytes@, pattern@, i as int),
        r is None ==> forall|j: int| !matches_at(bytes@, pattern@, j),
        spec_find_bytes(bytes@, pattern@) == as_position(r),
{
    if pattern.len() > bytes.len() {
        proof {
            assert forall|j: int| !matches_at(bytes@, pattern@, j) by {}
            assert(!exists|k: int| is_first_match(bytes@, pattern@, k));
        }
        return None;
    }
    let n = bytes.len();
    let last = n - pattern.len();
    let mut i: usize = 0;
    while i <= last
        invariant
            n == bytes@.len(),
            pattern@.len() > 0,
            last == bytes@.len() - pattern@.len(),
            i <= last + 1,
            forall|j: int| 0 <= j < i ==> !matches_at(bytes@, pattern@, j),
        decreases last + 1 - i,
    {
        if window_eq(bytes, i, pattern) {
            proof {
                assert(is_first_match(bytes@, pattern@, i as int));
                let k = choose|k: int| is_first_match(bytes@, pattern@, k);
                assert(k == i as int) by {
                    if k < i { assert(!matches_at(bytes@, pattern@, k)); }
                    if k > i { assert(!matches_at(bytes@, pattern@, i as int)); }
                }
            }
            return Some(i);
        }
        i = i + 1;
    }
    proof {
        assert forall|j: int| !matches_at(bytes@, pattern@, j) by {
            if j > last { }
        }
        assert(!exists|k: int| is_first_match(bytes@, pattern@, k));
    }
    None
}

/// The ASCII decimal digits of `n`, without leading zeros.
pub open spec fn decimal_digits(n: u8) -> Seq<u8> {
    if n < 10 {
        seq![(48 + n) as u8]
    } else if n < 100 {
        seq![(48 + n / 10) as u8, (48 + n % 10) as u8]
    } else {
        seq![(48 + n / 100) as u8, (48 + (n / 10) % 10) as u8, (48 + n % 10) as u8]
    }
}

/// The number that the first `k` of the ASCII digits `d` stand for, read
/// in base 16.
pub open spec fn hex_prefix(d: Seq<u8>, k: int) -> int
    decreases k,
{
    if k <= 0 {
        0
    } else {
        hex_prefix(d, k - 1) * 16 + (d[k - 1] - 48)
    }
}

/// The byte that an escape `%` `a` `b` stands for: the text of `a` and then
/// of `b` as decimal numbers, read as one hexadecimal number, where it fits
/// in a byte.
pub open spec fn escape_value(a: u8, b: u8) -> Option<u8> {
    let d = decimal_digits(a) + decimal_digits(b);
    let v = hex_prefix(d, d.len() as int);
    if v < 256 {
        Some(v as u8)
    } else {
        None
    }
}

/// The bytes that a form value stands for: `%` and the two bytes after it
/// make one byte (see [`escape_value`]), `+` stands for a space, and any
/// other byte for itself; `None` where an escape is cut short or does not
/// fit in a byte.
pub open spec fn url_decode(s: Seq<u8>) -> Option<Seq<u8>>
    decreases s.len(),
{
    if s.len() == 0 {
        Some(Seq::empty())
    } else if s[0] == 37u8 {
        if s.len() < 3 {
            None
        } else {
            match escape_value(s[1], s[2]) {
                None => None,
                Some(v) => match url_decode(s.subrange(3, s.len() as int)) {
                    None => None,
                    Some(rest) => Some(seq![v] + rest),
                },
            }
        }
    } else {
        match url_decode(s.subrange(1, s.len() as int)) {
            None => None,
            Some(rest) => Some(seq![if s[0] == 43u8 { 32u8 } else { s[0] }] + rest),
        }
    }
}

/// Only two digits below ten, or a zero followed by a number below a
/// hundred, make an escape that fits in a byte.
pub proof fn lemma_escape_value(a: u8, b: u8)
    ensures
        escape_value(a, b) == (if a < 10 && b < 10 {
            Some((a * 16 + b) as u8)
        } else if a == 0 && b < 100 {
            Some(((b / 10) * 16 + b % 10) as u8)
        } else {
            None
        }),
{
    reveal_with_fuel(hex_prefix, 7);
    let d = decimal_digits(a) + decimal_digits(b);
    let da = decimal_digits(a);
    let db = decimal_digits(b);
    assert(d.len() == da.len() + db.len());
    assert forall|i: int| 0 <= i < da.len() implies d[i] == da[i] by {}
    assert forall|i: int| 0 <= i < db.len() implies d[da.len() + i] == db[i] by {}
    if a < 10 {
        if b < 10 {
        } else if b < 100 {
        } else {
        }
    } else if a < 100 {
        if b < 10 {
        } else if b < 100 {
        } else {
        }
    } else {
        if b < 10 {
        } else if b < 100 {
        } else {
        }
    }
}

/// The byte that the escape `%` `a` `b` stands for; see [`escape_value`].
fn decode_escape(a: u8, b: u8) -> (r: Option<u8>)
    ensures
        r == escape_value(a, b),
{
    proof { lemma_escape_value(a, b); }
    if a < 10 && b < 10 {
        Some(a * 16 + b)
    } else if a == 0 && b < 100 {
        Some((b / 10) * 16 + b % 10)
    } else {
        None
    }
}

/// Decoding a value that starts with a known prefix.
proof fn lemma_url_decode_step(s: Seq<u8>, i: int)
    requires
        0 <= i < s.len(),
    ensures
        s[i] == 37u8 ==> url_decode(s.subrange(i, s.len() as int)) == (if i + 3 > s.len() {
            None
        } else {
            match escape_value(s[i + 1], s[i + 2]) {
                None => None,
                Some(v) => match url_decode(s.subrange(i + 3, s.len() as int)) {
                    None => None,
                    Some(rest) => Some(seq![v] + rest),
                },
            }
        }),
        s[i] != 37u8 ==> url_decode(s.subrange(i, s.len() as int)) == (match url_decode(s.subrange(i + 1, s.len() as int)) {
            None => None,
            Some(rest) => Some(seq![if s[i] == 43u8 { 32u8 } else { s[i] }] + rest),
        }),
{
    let t = s.subrange(i, s.len() as int);
    assert(t[0] == s[i]);
    if t.len() >= 3 {
        assert(t.subrange(3, t.len() as int) =~= s.subrange(i + 3, s.len() as int));
        assert(t[1] == s[i + 1] && t[2] == s[i + 2]);
    }
    assert(t.subrange(1, t.len() as int) =~= s.subrange(i + 1, s.len() as int));
}

/// Prepends `out` to a decoded rest, where decoding worked.
pub open spec fn prefixed(out: Seq<u8>, rest: Option<Seq<u8>>) -> Option<Seq<u8>> {
    match rest {
        None => None,
        Some(r) => Some(out + r),
    }
}

/// The bytes that the form value `input` stands for, or `None` where it is
/// malformed; see [`url_decode`].
pub fn undo_urlencoding(input: &[u8]) -> (r: Option<Vec<u8>>)
    ensures
        match r {
            Some(v) => url_decode(input@) == Some(v@),
            None => url_decode(input@) is None,
        },
{
    let n = input.len();
    let mut bytes: Vec<u8> = Vec::new();
    let mut i: usize = 0;
    assert(input@.subrange(0, n as int) =~= input@);
    while i < n
        invariant
            n == input@.len(),
            i <= n,
            url_decode(input@) == prefixed(bytes@, url_decode(input@.subrange(i as int, n as int))),
        decreases n - i,
    {
        let c = input[i];
        proof { lemma_url_decode_step(input@, i as int); }
        if c == 37u8 {
            if n - i < 3 {
                return None;
            }
            let a = input[i + 1];
            let b = input[i + 2];
            match decode_escape(a, b) {
                None => { return None; },
                Some(v) => {
                    proof {
                        let rest = url_decode(input@.subrange(i + 3, n as int));
                        match rest {
                            None => {},
                            Some(r) => { assert(bytes@.push(v) + r =~= bytes@ + (seq![v] + r)); },
                        }
                    }
                    bytes.push(v);
                    i = i + 3;
                },
            }
        } else {
            let v = if c == 43u8 { 32u8 } else { c };
            proof {
                let rest = url_decode(input@.subrange(i + 1, n as int));
                match rest {
                    None => {},
                    Some(r) => { assert(bytes@.push(v) + r =~= bytes@ + (seq![v] + r)); },
                }
            }
            bytes.push(v);
            i = i + 1;
        }
    }
    proof {
        assert(input@.subrange(n as int, n as int) =~= Seq::<u8>::empty());
        assert(bytes@ + Seq::<u8>::empty() =~= bytes@);
    }
    Some(bytes)
}

/// Calls `String::from_utf8`, which gives back the text that `bytes`
/// encode where they are valid UTF-8, and fails otherwise; the contract
/// states this with vstd's UTF-8 specifications.
#[verifier::external_body]
pub(crate) fn utf8_string(bytes: Vec<u8>) -> (r: Option<String>)
    ensures
        r is Some <==> vstd::utf8::valid_utf8(bytes@),
        r matches Some(s) ==> s@ == vstd::utf8::decode_utf8(bytes@),
{
    String::from_utf8(bytes).ok()
}

/// Whether two byte strings are equal.
pub fn bytes_equal(a: &[u8], b: &[u8]) -> (eq: bool)
    ensures
        eq == (a@ == b@),
{
    if a.len() != b.len() {
        return false;
    }
    let n = a.len();
    let mut i: usize = 0;
    while i < n
        invariant
            n == a@.len(),
            n == b@.len(),
            i <= n,
            forall|j: int| 0 <= j < i ==> a@[j] == b@[j],
        decreases n - i,
    {
        if a[i] != b[i] {
            return false;
        }
        i = i + 1;
    }
    assert(a@ =~= b@);
    true
}

} // verus!
