//! Turning a route, and what was fetched for it, into the answer.

use vstd::prelude::*;
use crate::frontend::{name_view, page_view, render, Document, Page};
use super::register::validate_body;
use super::response::{bad_request, internal_server_error, is_empty_response, is_ok_response, not_found, ok, MediaType, Response, Status};
use super::validation::{parse_signin_info, signin_text};
use super::router::GetRoute;

verus! {

/// What was fetched for a `GET` request: nothing, the bytes of a file, or
/// the names of all users; `None` where the fetch failed.
pub enum Fetched {
    Nothing,
    File(Option<Vec<u8>>),
    Users(Option<Vec<String>>),
}

/// The answer to a request: a response as it is, or a page to be written
/// out as HTML and sent as `200 OK`.
pub enum Answer {
    Respond(Response),
    Render(Document),
}

/// `a` is the page `page` as seen by the signed-in user `user`, if any.
pub open spec fn renders(a: Answer, user: Option<String>, page: Page) -> bool {
    a matches Answer::Render(d) && d.view() == page_view(name_view(user), page) && d.standard_head()
}

/// `a` is the response `200 OK` with `body` of type `media_type`.
pub open spec fn responds_ok(a: Answer, media_type: MediaType, body: Seq<u8>) -> bool {
    a matches Answer::Respond(r) && is_ok_response(r, media_type, body)
}

/// `a` is the empty response with status `status`.
pub open spec fn responds_empty(a: Answer, status: Status) -> bool {
    a matches Answer::Respond(r) && is_empty_response(r, status)
}

/// The answer to a file request, given the file's bytes where they could be
/// read.
pub open spec fn file_answer(a: Answer, media_type: MediaType, fetched: Fetched) -> bool {
    match fetched {
        Fetched::File(Some(bytes)) => responds_ok(a, media_type, bytes@),
        _ => responds_empty(a, Status::InternalServerError),
    }
}

/// The answer to a `GET` of `target` by the signed-in user `user`, if any,
/// with `fetched` what was fetched for it: the style sheet and the icon as
/// files, the list of users from the database, the home, registration,
/// log-in and user pages as pages; `500 Internal Server Error` where a
/// fetch failed, `404 Not Found` for any other path.
pub fn get_answer(target: GetRoute, user: Option<String>, fetched: Fetched) -> (a: Answer)
    ensures
        match target {
            GetRoute::Stylesheet => file_answer(a, MediaType::Css, fetched),
            GetRoute::Favicon => file_answer(a, MediaType::Icon, fetched),
            GetRoute::Home => renders(a, user, Page::Home),
            GetRoute::Users => match fetched {
                Fetched::Users(Some(users)) => renders(a, user, Page::Users(users)),
                _ => responds_empty(a, Status::InternalServerError),
            },
            GetRoute::Register => renders(a, user, Page::Register),
            GetRoute::Login => renders(a, user, Page::Login),
            GetRoute::User(name) => renders(a, user, Page::User(name)),
            GetRoute::NotFound => responds_empty(a, Status::NotFound),
        },
{
    match target {
        GetRoute::Stylesheet => file_response(MediaType::Css, fetched),
        GetRoute::Favicon => file_response(MediaType::Icon, fetched),
        GetRoute::Home => Answer::Render(render(user, Page::Home)),
        GetRoute::Users => match fetched {
            Fetched::Users(Some(users)) => Answer::Render(render(user, Page::Users(users))),
            _ => Answer::Respond(internal_server_error()),
        },
        GetRoute::Register => Answer::Render(render(user, Page::Register)),
        GetRoute::Login => Answer::Render(render(user, Page::Login)),
        GetRoute::User(name) => Answer::Render(render(user, Page::User(name))),
        GetRoute::NotFound => Answer::Respond(not_found()),
    }
}

/// The answer to a file request.
fn file_response(media_type: MediaType, fetched: Fetched) -> (a: Answer)
    ensures
        file_answer(a, media_type, fetched),
{
    match fetched {
        Fetched::File(Some(bytes)) => Answer::Respond(ok(media_type, bytes)),
        _ => Answer::Respond(internal_server_error()),
    }
}

/// The registration page after a sign-up by `username`, as seen by the new
/// user where the registration went through, and by nobody otherwise.
pub fn register_answer(username: String, worked: bool) -> (a: Answer)
    ensures
        renders(a, if worked { Some(username) } else { None }, Page::Register),
{
    let user = if worked { Some(username) } else { None };
    Answer::Render(render(user, Page::Register))
}

/// What to do with a sign-in or registration form: refuse it with the
/// given response, or go on with the user name and password it gives.
pub enum FormStep {
    Refuse(Response),
    Proceed(String, String),
}

/// `r` is what a form body is met with: `400 Bad Request` where it does not
/// give a user name and password (see [`signin_text`]), and otherwise
/// those two.
pub open spec fn form_step_of(body: Seq<u8>, r: FormStep) -> bool {
    match signin_text(body) {
        None => r matches FormStep::Refuse(x) && is_empty_response(x, Status::BadRequest),
        Some((u, p)) => r matches FormStep::Proceed(us, ps) && us@ == u && ps@ == p,
    }
}

/// What a log-in form body is met with; see [`form_step_of`].
pub fn login_form(body: &[u8]) -> (r: FormStep)
    ensures
        form_step_of(body@, r),
{
    match parse_signin_info(body) {
        Some((u, p)) => FormStep::Proceed(u, p),
        None => FormStep::Refuse(bad_request()),
    }
}

/// What a registration form body is met with; see [`form_step_of`].
pub fn registration_form(body: &[u8]) -> (r: FormStep)
    ensures
        form_step_of(body@, r),
{
    match validate_body(body) {
        Some((u, p)) => FormStep::Proceed(u, p),
        None => FormStep::Refuse(bad_request()),
    }
}

} // verus!
