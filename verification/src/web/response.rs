//! The answers that the web server gives: HTTP/1.1 responses described as
//! a status, header fields and a body.

use vstd::prelude::*;

verus! {

/// The status of a response.
#[derive(Clone, Copy, Debug, PartialEq, Eq)]
pub enum Status {
    /// `200 OK`
    Success,
    SeeOther,
    BadRequest,
    NotFound,
    NotImplemented,
    InternalServerError,
    HttpVersionNotSupported,
}

/// The type of a response's body.
#[derive(Clone, Copy, Debug, PartialEq, Eq)]
pub enum MediaType {
    /// `text/html; charset=utf-8`
    Html,
    /// `text/css; charset=utf-8`
    Css,
    /// `image/x-icon`
    Icon,
}

/// A header field of a response.
#[derive(Debug)]
pub enum Header {
    /// `Connection: close`
    ConnectionClose,
    ContentType(MediaType),
    ContentLength(usize),
    /// A field with the given name and value.
    Custom(String, String),
}

/// A response of HTTP version 1.1.
#[derive(Debug)]
pub struct Response {
    pub status: Status,
    pub headers: Vec<Header>,
    pub body: Vec<u8>,
}

/// `r` is `200 OK`, closing the connection, with `body` of type `media_type`.
pub open spec fn is_ok_response(r: Response, media_type: MediaType, body: Seq<u8>) -> bool {
    &&& r.status == Status::Success
    &&& r.headers@.len() == 3
    &&& r.headers@[0] is ConnectionClose
    &&& r.headers@[1] == Header::ContentType(media_type)
    &&& r.headers@[2] == Header::ContentLength(body.len() as usize)
    &&& r.body@ == body
}

/// `r` has the status `status`, closes the connection, and has no other
/// header field and no body.
pub open spec fn is_empty_response(r: Response, status: Status) -> bool {
    &&& r.status == status
    &&& r.headers@.len() == 1
    &&& r.headers@[0] is ConnectionClose
    &&& r.body@.len() == 0
}

/// `200 OK`, closing the connection, with a body of the given type.
pub fn ok(media_type: MediaType, body: Vec<u8>) -> (r: Response)
    ensures
        r.status == Status::Success,
        r.headers@.len() == 3,
        r.headers@[0] is ConnectionClose,
        r.headers@[1] == Header::ContentType(media_type),
        r.headers@[2] == Header::ContentLength(body@.len() as usize),
        r.body@ == body@,
{
    let length = body.len();
    Response {
        status: Status::Success,
        headers: vec![Header::ConnectionClose, Header::ContentType(media_type), Header::ContentLength(length)],
        body,
    }
}

/// An empty response with the given status that closes the connection.
fn empty(status: Status) -> (r: Response)
    ensures
        r.status == status,
        r.headers@.len() == 1,
        r.headers@[0] is ConnectionClose,
        r.body@.len() == 0,
{
    Response { status, headers: vec![Header::ConnectionClose], body: Vec::new() }
}

/// `400 Bad Request`, empty, closing the connection.
pub fn bad_request() -> (r: Response)
    ensures
        r.status == Status::BadRequest,
        r.headers@.len() == 1,
        r.headers@[0] is ConnectionClose,
        r.body@.len() == 0,
{
    empty(Status::BadRequest)
}

/// `404 Not Found`, empty, closing the connection.
pub fn not_found() -> (r: Response)
    ensures
        r.status == Status::NotFound,
        r.headers@.len() == 1,
        r.headers@[0] is ConnectionClose,
        r.body@.len() == 0,
{
    empty(Status::NotFound)
}

/// `501 Not Implemented`, empty, closing the connection.
pub fn not_implemented() -> (r: Response)
    ensures
        r.status == Status::NotImplemented,
        r.headers@.len() == 1,
        r.headers@[0] is ConnectionClose,
        r.body@.len() == 0,
{
    empty(Status::NotImplemented)
}

/// `500 Internal Server Error`, empty, closing the connection.
pub fn internal_server_error() -> (r: Response)
    ensures
        r.status == Status::InternalServerError,
        r.headers@.len() == 1,
        r.headers@[0] is ConnectionClose,
        r.body@.len() == 0,
{
    empty(Status::InternalServerError)
}

/// `505 HTTP Version Not Supported`, empty, closing the connection.
pub fn http_version_not_supported() -> (r: Response)
    ensures
        r.status == Status::HttpVersionNotSupported,
        r.headers@.len() == 1,
        r.headers@[0] is ConnectionClose,
        r.body@.len() == 0,
{
    empty(Status::HttpVersionNotSupported)
}

/// `303 See Other` to `location`, closing the connection, with the given
/// header fields after `Location`.
pub fn see_other(location: String, appended_headers: Vec<Header>) -> (r: Response)
    ensures
        r.status == Status::SeeOther,
        r.headers@.len() == 2 + appended_headers@.len(),
        r.headers@[0] is ConnectionClose,
        r.headers@[1] matches Header::Custom(name, value) && name@ == "Location"@ && value@ == location@,
        r.headers@.subrange(2, r.headers@.len() as int) == appended_headers@,
        r.body@.len() == 0,
{
    let mut headers: Vec<Header> = Vec::new();
    headers.push(Header::ConnectionClose);
    headers.push(Header::Custom(String::from_str("Location"), location));
    let mut appended = appended_headers;
    let ghost appended0 = appended@;
    headers.append(&mut appended);
    assert(headers@.subrange(2, headers@.len() as int) =~= appended0);
    Response { status: Status::SeeOther, headers, body: Vec::new() }
}

} // verus!
