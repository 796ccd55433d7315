//! Parsing an HTTP request: request line, headers, body.

use vstd::prelude::*;
use super::utils::{bytes_equal, find_byte, find_bytes, lemma_find_byte_at, lemma_find_bytes_at, matches_at, spec_find_byte, spec_find_bytes};

verus! {

/// The longest request that the server reads.
pub const MAX_LEN: usize = 2048;

/// Whether a read of `count` bytes holds a request that is served: not
/// empty, and shorter than [`MAX_LEN`], so that nothing unbounded is read.
pub fn request_length_ok(count: usize) -> (ok: bool)
    ensures
        ok == (0 < count < MAX_LEN),
{
    count != 0 && count < MAX_LEN
}

/// A parsed request; every part is a slice of the request's bytes.
pub struct Request<'a> {
    pub method: &'a [u8],
    pub path: &'a [u8],
    pub version: &'a [u8],
    /// The header fields, in order; no name occurs twice.
    pub headers: Vec<(&'a [u8], &'a [u8])>,
    pub body: &'a [u8],
}

/// The bytes `\r\n`.
pub open spec fn crlf() -> Seq<u8> {
    seq![13u8, 10u8]
}

/// The bytes `\r\n\r\n`.
pub open spec fn crlf2() -> Seq<u8> {
    seq![13u8, 10u8, 13u8, 10u8]
}

/// The bytes `: `.
pub open spec fn colon_space() -> Seq<u8> {
    seq![58u8, 32u8]
}

/// The parts of a request, as byte strings: method, path, version, header
/// fields and body.
pub struct RequestParts {
    pub method: Seq<u8>,
    pub path: Seq<u8>,
    pub version: Seq<u8>,
    pub headers: Seq<(Seq<u8>, Seq<u8>)>,
    pub body: Seq<u8>,
}

/// Some field of `headers` is named `name`.
pub open spec fn has_header(headers: Seq<(Seq<u8>, Seq<u8>)>, name: Seq<u8>) -> bool {
    exists|i: int| 0 <= i < headers.len() && headers[i].0 == name
}

/// The header fields in `range` after the fields `acc`: each line up to a
/// `\r\n` is a name, `: ` and a value; what follows the last `\r\n` is
/// ignored. `None` where a line has no `: ` or a name repeats.
pub open spec fn parse_headers(range: Seq<u8>, acc: Seq<(Seq<u8>, Seq<u8>)>) -> Option<Seq<(Seq<u8>, Seq<u8>)>>
    decreases range.len(),
{
    match spec_find_bytes(range, crlf()) {
        None => Some(acc),
        Some(i) => {
            let line = range.subrange(0, i);
            match spec_find_bytes(line, colon_space()) {
                None => None,
                Some(j) => {
                    let key = line.subrange(0, j);
                    let value = line.subrange(j + 2, line.len() as int);
                    if has_header(acc, key) || !(0 <= i && i + 2 <= range.len()) {
                        None
                    } else {
                        parse_headers(range.subrange(i + 2, range.len() as int), acc.push((key, value)))
                    }
                },
            }
        },
    }
}

/// The parts of the request `data`: the method up to the first space, the
/// path up to the next space, the version up to the next `\r\n`, the
/// header fields up to the first `\r\n\r\n`, and the body after it.
pub open spec fn parse_request(data: Seq<u8>) -> Option<RequestParts> {
    match spec_find_byte(data, 32u8) {
        None => None,
        Some(e1) => {
            let w1 = data.subrange(e1 + 1, data.len() as int);
            match spec_find_byte(w1, 32u8) {
                None => None,
                Some(e2) => {
                    let w2 = w1.subrange(e2 + 1, w1.len() as int);
                    match spec_find_bytes(w2, crlf()) {
                        None => None,
                        Some(e3) => {
                            let w3 = w2.subrange(e3 + 2, w2.len() as int);
                            match spec_find_bytes(w3, crlf2()) {
                                None => None,
                                Some(b) => match parse_headers(w3.subrange(0, b + 2), Seq::empty()) {
                                    None => None,
                                    Some(headers) => Some(RequestParts {
                                        method: data.subrange(0, e1),
                                        path: w1.subrange(0, e2),
                                        version: w2.subrange(0, e3),
                                        headers,
                                        body: w3.subrange(b + 4, w3.len() as int),
                                    }),
                                },
                            }
                        },
                    }
                },
            }
        },
    }
}

/// The header fields, as byte strings.
pub open spec fn headers_view<'a>(h: Seq<(&'a [u8], &'a [u8])>) -> Seq<(Seq<u8>, Seq<u8>)> {
    h.map_values(|f: (&'a [u8], &'a [u8])| (f.0@, f.1@))
}

/// Whether some field among `headers` is named `name`.
fn contains_header(headers: &Vec<(&[u8], &[u8])>, name: &[u8]) -> (r: bool)
    ensures
        r == has_header(headers_view(headers@), name@),
{
    let mut i: usize = 0;
    while i < headers.len()
        invariant
            i <= headers@.len(),
            forall|j: int| 0 <= j < i ==> headers@[j].0@ != name@,
        decreases headers@.len() - i,
    {
        if bytes_equal(headers[i].0, name) {
            assert(headers_view(headers@)[i as int].0 == name@);
            return true;
        }
        i = i + 1;
    }
    proof {
        if has_header(headers_view(headers@), name@) {
            let j = choose|j: int| 0 <= j < headers_view(headers@).len() && headers_view(headers@)[j].0 == name@;
            assert(headers@[j].0@ == name@);
        }
    }
    false
}

impl<'a> Request<'a> {
    /// The parts of this request, as byte strings.
    pub open spec fn parts(&self) -> RequestParts {
        RequestParts {
            method: self.method@,
            path: self.path@,
            version: self.version@,
            headers: headers_view(self.headers@),
            body: self.body@,
        }
    }

    /// Parses a request; `None` where it is malformed (see
    /// [`parse_request`]).
    pub fn parse(data: &'a [u8]) -> (r: Option<Request<'a>>)
        ensures
            match r {
                Some(req) => parse_request(data@) == Some(req.parts()),
                None => parse_request(data@) is None,
            },
    {
        let crlf_bytes: Vec<u8> = vec![13u8, 10u8];
        let crlf2_bytes: Vec<u8> = vec![13u8, 10u8, 13u8, 10u8];
        let colon_bytes: Vec<u8> = vec![58u8, 32u8];
        assert(crlf_bytes@ =~= crlf());
        assert(crlf2_bytes@ =~= crlf2());
        assert(colon_bytes@ =~= colon_space());

        let window = data;
        let end = match find_byte(window, 32u8) {
            Some(i) => i,
            None => { return None; },
        };
        let method = vstd::slice::slice_subrange(window, 0, end);
        let len = window.len();
        let window = vstd::slice::slice_subrange(window, end + 1, len);

        let end = match find_byte(window, 32u8) {
            Some(i) => i,
            None => { return None; },
        };
        let path = vstd::slice::slice_subrange(window, 0, end);
        let window = vstd::slice::slice_subrange(window, end + 1, window.len());

        let end = match find_bytes(window, crlf_bytes.as_slice()) {
            Some(i) => i,
            None => { return None; },
        };
        let version = vstd::slice::slice_subrange(window, 0, end);
        let window = vstd::slice::slice_subrange(window, end + 2, window.len());

        let body_start = match find_bytes(window, crlf2_bytes.as_slice()) {
            Some(i) => i,
            None => { return None; },
        };
        let mut header_range = vstd::slice::slice_subrange(window, 0, body_start + 2);
        let body = vstd::slice::slice_subrange(window, body_start + 4, window.len());
        let mut headers: Vec<(&'a [u8], &'a [u8])> = Vec::new();
        let ghost all = header_range@;
        assert(headers_view(headers@) =~= Seq::<(Seq<u8>, Seq<u8>)>::empty());
        let ghost result = match parse_headers(all, Seq::empty()) {
            None => None,
            Some(h) => Some(RequestParts { method: method@, path: path@, version: version@, headers: h, body: body@ }),
        };
        assert(parse_request(data@) == result);

        loop
            invariant
                parse_request(data@) == result,
                result == match parse_headers(all, Seq::empty()) {
                    None => None,
                    Some(h) => Some(RequestParts { method: method@, path: path@, version: version@, headers: h, body: body@ }),
                },
                crlf_bytes@ == crlf(),
                colon_bytes@ == colon_space(),
                parse_headers(all, Seq::empty()) == parse_headers(header_range@, headers_view(headers@)),
            ensures
                parse_request(data@) == result,
                result == match parse_headers(all, Seq::empty()) {
                    None => None,
                    Some(h) => Some(RequestParts { method: method@, path: path@, version: version@, headers: h, body: body@ }),
                },
                parse_headers(all, Seq::empty()) == Some(headers_view(headers@)),
            decreases header_range@.len(),
        {
            let i = match find_bytes(header_range, crlf_bytes.as_slice()) {
                Some(i) => i,
                None => {
                    assert(parse_headers(header_range@, headers_view(headers@)) == Some(headers_view(headers@)));
                    break;
                },
            };
            let line = vstd::slice::slice_subrange(header_range, 0, i);
            let j = match find_bytes(line, colon_bytes.as_slice()) {
                Some(j) => j,
                None => { return None; },
            };
            let key = vstd::slice::slice_subrange(line, 0, j);
            let value = vstd::slice::slice_subrange(line, j + 2, line.len());
            if contains_header(&headers, key) {
                return None;
            }
            proof {
                assert(headers_view(headers@.push((key, value))) =~= headers_view(headers@).push((key@, value@)));
            }
            headers.push((key, value));
            let len = header_range.len();
            header_range = vstd::slice::slice_subrange(header_range, i + 2, len);
        }
        let req = Request { method, path, version, headers, body };
        assert(req.parts() == RequestParts { method: method@, path: path@, version: version@, headers: headers_view(headers@), body: body@ });
        Some(req)
    }

    /// The value of the header field named `name`, if there is one.
    pub fn header(&self, name: &[u8]) -> (r: Option<&'a [u8]>)
        ensures
            match r {
                Some(v) => exists|i: int| 0 <= i < self.headers@.len() && self.headers@[i].0@ == name@ && self.headers@[i].1@ == v@,
                None => !has_header(headers_view(self.headers@), name@),
            },
    {
        let mut i: usize = 0;
        while i < self.headers.len()
            invariant
                i <= self.headers@.len(),
                forall|j: int| 0 <= j < i ==> self.headers@[j].0@ != name@,
            decreases self.headers@.len() - i,
        {
            if bytes_equal(self.headers[i].0, name) {
                return Some(self.headers[i].1);
            }
            i = i + 1;
        }
        proof {
            if has_header(headers_view(self.headers@), name@) {
                let j = choose|j: int| 0 <= j < headers_view(self.headers@).len() && headers_view(self.headers@)[j].0 == name@;
                assert(self.headers@[j].0@ == name@);
            }
        }
        None
    }
}

/// A header field on a line of its own: its name, `: `, its value, `\r\n`.
pub open spec fn header_line(f: (Seq<u8>, Seq<u8>)) -> Seq<u8> {
    f.0 + colon_space() + f.1 + crlf()
}

/// Header fields, one per line, in order.
pub open spec fn header_lines(fs: Seq<(Seq<u8>, Seq<u8>)>) -> Seq<u8>
    decreases fs.len(),
{
    if fs.len() == 0 {
        Seq::empty()
    } else {
        header_line(fs[0]) + header_lines(fs.drop_first())
    }
}

/// A header field whose name holds no `:` and no `\r`, and whose value
/// holds no `\r`.
pub open spec fn plain_field(f: (Seq<u8>, Seq<u8>)) -> bool {
    &&& !f.0.contains(58u8)
    &&& !f.0.contains(13u8)
    &&& !f.1.contains(13u8)
}

/// Every field of `fs` is plain.
pub open spec fn plain_fields(fs: Seq<(Seq<u8>, Seq<u8>)>) -> bool {
    forall|i: int| 0 <= i < fs.len() ==> #[trigger] plain_field(fs[i])
}

/// No two fields of `fs` have the same name.
pub open spec fn distinct_names(fs: Seq<(Seq<u8>, Seq<u8>)>) -> bool {
    forall|i: int, j: int| 0 <= i < j < fs.len() ==> #[trigger] fs[i].0 != #[trigger] fs[j].0
}

/// A plain field's line holds `\r` only just before its end.
proof fn lemma_header_line_cr(f: (Seq<u8>, Seq<u8>))
    requires
        plain_field(f),
    ensures
        ({
            let line = header_line(f);
            let i = f.0.len() + 2 + f.1.len() as int;
            &&& line.len() == i + 2
            &&& line[i] == 13u8
            &&& line[i + 1] == 10u8
            &&& line[0] != 13u8
            &&& forall|j: int| 0 <= j < i ==> line[j] != 13u8
            &&& line.subrange(0, i) == f.0 + colon_space() + f.1
        }),
{
    let line = header_line(f);
    let n = f.0.len() as int;
    let i = f.0.len() + 2 + f.1.len() as int;
    assert forall|j: int| 0 <= j < i implies line[j] != 13u8 by {
        if j < n {
            assert(line[j] == f.0[j]);
            if f.0[j] == 13u8 {
                assert(f.0.contains(13u8));
            }
        } else if j >= n + 2 {
            assert(line[j] == f.1[j - n - 2]);
            if f.1[j - n - 2] == 13u8 {
                assert(f.1.contains(13u8));
            }
        }
    }
    assert(line.subrange(0, i) =~= f.0 + colon_space() + f.1);
}

/// In the lines of plain fields, every `\r` is followed by `\n` and then by
/// the end or by a byte other than `\r`; the lines do not start with `\r`
/// and, where there is a field, end with `\r\n`.
proof fn lemma_header_lines_cr(fs: Seq<(Seq<u8>, Seq<u8>)>)
    requires
        plain_fields(fs),
    ensures
        ({
            let s = header_lines(fs);
            &&& forall|j: int| #![trigger s[j]] 0 <= j < s.len() && s[j] == 13u8
                ==> j + 1 < s.len() && s[j + 1] == 10u8 && (j + 2 == s.len() || s[j + 2] != 13u8)
            &&& s.len() > 0 ==> s[0] != 13u8
            &&& fs.len() > 0 ==> s.len() >= 4 && s[s.len() - 2] == 13u8 && s[s.len() - 1] == 10u8
        }),
    decreases fs.len(),
{
    if fs.len() > 0 {
        let f = fs[0];
        let rest_fs = fs.drop_first();
        assert(plain_field(fs[0]));
        assert forall|k: int| 0 <= k < rest_fs.len() implies #[trigger] plain_field(rest_fs[k]) by {
            assert(rest_fs[k] == fs[k + 1]);
            assert(plain_field(fs[k + 1]));
        }
        lemma_header_lines_cr(rest_fs);
        lemma_header_line_cr(f);
        let line = header_line(f);
        let rest = header_lines(rest_fs);
        let s = header_lines(fs);
        let i = f.0.len() + 2 + f.1.len() as int;
        assert(s == line + rest);
        assert forall|j: int| #![trigger s[j]] 0 <= j < s.len() && s[j] == 13u8
            implies j + 1 < s.len() && s[j + 1] == 10u8 && (j + 2 == s.len() || s[j + 2] != 13u8) by {
            if j < line.len() {
                assert(s[j] == line[j]);
                assert(j == i);
                if rest.len() > 0 {
                    assert(s[j + 2] == rest[0]);
                }
            } else {
                assert(s[j] == rest[j - line.len()]);
                assert(s[j + 1] == rest[j - line.len() + 1]);
                if j + 2 < s.len() {
                    assert(s[j + 2] == rest[j - line.len() + 2]);
                }
            }
        }
        if rest.len() > 0 {
            assert(s[s.len() - 2] == rest[rest.len() - 2]);
            assert(s[s.len() - 1] == rest[rest.len() - 1]);
        }
    }
}

/// Lines of plain fields with distinct names, none of them among the
/// fields `acc` read before, are read as exactly those fields, in order,
/// after `acc`. So a header block is refused as repeating a field only when
/// two names are equal.
pub proof fn lemma_parse_header_lines(fs: Seq<(Seq<u8>, Seq<u8>)>, acc: Seq<(Seq<u8>, Seq<u8>)>)
    requires
        plain_fields(fs),
        distinct_names(fs),
        forall|k: int, i: int| 0 <= k < acc.len() && 0 <= i < fs.len() ==> acc[k].0 != fs[i].0,
    ensures
        parse_headers(header_lines(fs), acc) == Some(acc + fs),
    decreases fs.len(),
{
    let range = header_lines(fs);
    if fs.len() == 0 {
        assert forall|j: int| !matches_at(range, crlf(), j) by {}
        assert(spec_find_bytes(range, crlf()) is None);
        assert(acc + fs =~= acc);
    } else {
        let f = fs[0];
        let rest_fs = fs.drop_first();
        assert(plain_field(fs[0]));
        lemma_header_line_cr(f);
        let line = header_line(f);
        let rest = header_lines(rest_fs);
        assert(range == line + rest);
        let n = f.0.len() as int;
        let i = n + 2 + f.1.len();
        assert(range.subrange(i, i + 2) =~= crlf()) by {
            assert(range[i] == line[i] && range[i + 1] == line[i + 1]);
        }
        assert forall|j: int| 0 <= j < i implies !matches_at(range, crlf(), j) by {
            assert(range[j] == line[j]);
            if matches_at(range, crlf(), j) {
                assert(range.subrange(j, j + 2)[0] == range[j]);
            }
        }
        lemma_find_bytes_at(range, crlf(), i);
        let l = range.subrange(0, i);
        assert(l =~= f.0 + colon_space() + f.1);
        assert(l.subrange(n, n + 2) =~= colon_space());
        assert forall|j: int| 0 <= j < n implies !matches_at(l, colon_space(), j) by {
            assert(l[j] == f.0[j]);
            if matches_at(l, colon_space(), j) {
                assert(l.subrange(j, j + 2)[0] == l[j]);
                assert(f.0.contains(58u8));
            }
        }
        lemma_find_bytes_at(l, colon_space(), n);
        assert(l.subrange(0, n) =~= f.0);
        assert(l.subrange(n + 2, l.len() as int) =~= f.1);
        assert(!has_header(acc, f.0)) by {
            if has_header(acc, f.0) {
                let k = choose|k: int| 0 <= k < acc.len() && acc[k].0 == f.0;
                assert(acc[k].0 != fs[0].0);
            }
        }
        assert(range.subrange(i + 2, range.len() as int) =~= rest);
        assert forall|k: int| 0 <= k < rest_fs.len() implies #[trigger] plain_field(rest_fs[k]) by {
            assert(rest_fs[k] == fs[k + 1]);
            assert(plain_field(fs[k + 1]));
        }
        assert forall|a: int, b: int| 0 <= a < b < rest_fs.len() implies #[trigger] rest_fs[a].0 != #[trigger] rest_fs[b].0 by {
            assert(fs[a + 1].0 != fs[b + 1].0);
        }
        let acc2 = acc.push(f);
        assert forall|k: int, m: int| 0 <= k < acc2.len() && 0 <= m < rest_fs.len() implies acc2[k].0 != rest_fs[m].0 by {
            assert(rest_fs[m] == fs[m + 1]);
            if k < acc.len() {
                assert(acc2[k] == acc[k]);
            } else {
                assert(fs[0].0 != fs[m + 1].0);
            }
        }
        lemma_parse_header_lines(rest_fs, acc2);
        assert(acc2 + rest_fs =~= acc + fs);
    }
}

/// A byte string that holds no `b`, followed by `b`, is split at that `b`.
proof fn lemma_split_at_byte(prefix: Seq<u8>, b: u8, rest: Seq<u8>)
    requires
        !prefix.contains(b),
    ensures
        spec_find_byte(prefix + seq![b] + rest, b) == Some(prefix.len() as int),
        (prefix + seq![b] + rest).subrange(0, prefix.len() as int) == prefix,
        (prefix + seq![b] + rest).subrange(prefix.len() as int + 1, (prefix + seq![b] + rest).len() as int) == rest,
{
    let s = prefix + seq![b] + rest;
    assert forall|j: int| 0 <= j < prefix.len() implies s[j] != b by {
        assert(s[j] == prefix[j]);
        if prefix[j] == b {
            assert(prefix.contains(b));
        }
    }
    lemma_find_byte_at(s, b, prefix.len() as int);
    assert(s.subrange(0, prefix.len() as int) =~= prefix);
    assert(s.subrange(prefix.len() as int + 1, s.len() as int) =~= rest);
}

/// A byte string that holds no `\r`, followed by `\r\n`, is split there.
proof fn lemma_split_at_crlf(prefix: Seq<u8>, rest: Seq<u8>)
    requires
        !prefix.contains(13u8),
    ensures
        spec_find_bytes(prefix + crlf() + rest, crlf()) == Some(prefix.len() as int),
        (prefix + crlf() + rest).subrange(0, prefix.len() as int) == prefix,
        (prefix + crlf() + rest).subrange(prefix.len() as int + 2, (prefix + crlf() + rest).len() as int) == rest,
{
    let s = prefix + crlf() + rest;
    let e = prefix.len() as int;
    assert(s.subrange(e, e + 2) =~= crlf());
    assert forall|j: int| 0 <= j < e implies !matches_at(s, crlf(), j) by {
        assert(s[j] == prefix[j]);
        if matches_at(s, crlf(), j) {
            assert(s.subrange(j, j + 2)[0] == s[j]);
            assert(prefix.contains(13u8));
        }
    }
    lemma_find_bytes_at(s, crlf(), e);
    assert(s.subrange(0, e) =~= prefix);
    assert(s.subrange(e + 2, s.len() as int) =~= rest);
}

/// The header block of one or more plain fields, then `\r\n`, ends at the
/// first `\r\n\r\n`: the block is the fields' lines, and the body follows.
proof fn lemma_header_block_end(fields: Seq<(Seq<u8>, Seq<u8>)>, body: Seq<u8>)
    requires
        fields.len() > 0,
        plain_fields(fields),
    ensures
        ({
            let h = header_lines(fields);
            let w = h + crlf() + body;
            &&& spec_find_bytes(w, crlf2()) == Some(h.len() - 2)
            &&& w.subrange(0, h.len() as int) == h
            &&& w.subrange(h.len() as int + 2, w.len() as int) == body
        }),
{
    let h = header_lines(fields);
    let w = h + crlf() + body;
    lemma_header_lines_cr(fields);
    let l = h.len() as int;
    let b = l - 2;
    assert(w.subrange(b, b + 4) =~= crlf2()) by {
        assert(w[b] == h[b] && w[b + 1] == h[b + 1]);
        assert(w[l] == 13u8 && w[l + 1] == 10u8);
    }
    assert forall|j: int| 0 <= j < b implies !matches_at(w, crlf2(), j) by {
        if matches_at(w, crlf2(), j) {
            assert(w.subrange(j, j + 4)[0] == w[j]);
            assert(w.subrange(j, j + 4)[2] == w[j + 2]);
            assert(w[j] == h[j] && w[j + 2] == h[j + 2]);
        }
    }
    lemma_find_bytes_at(w, crlf2(), b);
    assert(w.subrange(0, l) =~= h);
    assert(w.subrange(l + 2, w.len() as int) =~= body);
}

/// A request made of a method and a path without spaces, a version
/// without `\r`, one or more plain header fields with distinct names, and
/// any body, is read as exactly those parts.
pub proof fn lemma_parse_request_shape(
    method: Seq<u8>,
    path: Seq<u8>,
    version: Seq<u8>,
    fields: Seq<(Seq<u8>, Seq<u8>)>,
    body: Seq<u8>,
)
    requires
        !method.contains(32u8),
        !path.contains(32u8),
        !version.contains(13u8),
        fields.len() > 0,
        plain_fields(fields),
        distinct_names(fields),
    ensures
        parse_request(method + seq![32u8] + path + seq![32u8] + version + crlf() + header_lines(fields) + crlf() + body)
            == Some(RequestParts { method, path, version, headers: fields, body }),
{
    let h = header_lines(fields);
    let data = method + seq![32u8] + path + seq![32u8] + version + crlf() + h + crlf() + body;
    let w3 = h + crlf() + body;
    let w2 = version + crlf() + w3;
    let w1 = path + seq![32u8] + w2;
    assert(data =~= method + seq![32u8] + w1);
    let e1 = method.len() as int;
    let e2 = path.len() as int;
    let e3 = version.len() as int;
    let b = h.len() - 2;
    assert(spec_find_byte(data, 32u8) == Some(e1) && data.subrange(0, e1) == method
        && data.subrange(e1 + 1, data.len() as int) == w1) by {
        lemma_split_at_byte(method, 32u8, w1);
    }
    assert(spec_find_byte(w1, 32u8) == Some(e2) && w1.subrange(0, e2) == path
        && w1.subrange(e2 + 1, w1.len() as int) == w2) by {
        lemma_split_at_byte(path, 32u8, w2);
    }
    assert(spec_find_bytes(w2, crlf()) == Some(e3) && w2.subrange(0, e3) == version
        && w2.subrange(e3 + 2, w2.len() as int) == w3) by {
        lemma_split_at_crlf(version, w3);
    }
    assert(spec_find_bytes(w3, crlf2()) == Some(b) && w3.subrange(0, b + 2) == h
        && w3.subrange(b + 4, w3.len() as int) == body) by {
        lemma_header_block_end(fields, body);
    }
    assert(parse_headers(h, Seq::empty()) == Some(fields)) by {
        lemma_parse_header_lines(fields, Seq::empty());
        assert(Seq::<(Seq<u8>, Seq<u8>)>::empty() + fields =~= fields);
    }
}

} // verus!
