use game::web::answer::{get_answer, login_form, register_answer, registration_form, Answer, Fetched, FormStep};
use game::web::response::{Header, MediaType, Status};
use game::web::router::GetRoute;

fn status(a: &Answer) -> Option<Status> {
    match a {
        Answer::Respond(r) => Some(r.status),
        Answer::Render(_) => None,
    }
}

fn title(a: &Answer) -> Option<String> {
    match a {
        Answer::Render(d) => Some(d.title.clone()),
        Answer::Respond(_) => None,
    }
}

#[test]
fn files_answered_or_failed() {
    match get_answer(GetRoute::Stylesheet, None, Fetched::File(Some(b"body{}".to_vec()))) {
        Answer::Respond(r) => {
            assert_eq!(r.status, Status::Success);
            assert!(matches!(r.headers[1], Header::ContentType(MediaType::Css)));
            assert_eq!(r.body, b"body{}".to_vec());
        },
        Answer::Render(_) => panic!("a file is not a page"),
    }
    match get_answer(GetRoute::Favicon, None, Fetched::File(Some(vec![1, 2]))) {
        Answer::Respond(r) => assert!(matches!(r.headers[1], Header::ContentType(MediaType::Icon))),
        Answer::Render(_) => panic!("a file is not a page"),
    }
    assert_eq!(status(&get_answer(GetRoute::Stylesheet, None, Fetched::File(None))), Some(Status::InternalServerError));
    assert_eq!(status(&get_answer(GetRoute::Favicon, None, Fetched::Nothing)), Some(Status::InternalServerError));
}

#[test]
fn pages_rendered() {
    assert_eq!(title(&get_answer(GetRoute::Home, None, Fetched::Nothing)), Some(String::from("home | game")));
    assert_eq!(title(&get_answer(GetRoute::Login, None, Fetched::Nothing)), Some(String::from("login | game")));
    assert_eq!(title(&get_answer(GetRoute::Register, None, Fetched::Nothing)), Some(String::from("register | game")));
    assert_eq!(
        title(&get_answer(GetRoute::User(String::from("ann")), None, Fetched::Nothing)),
        Some(String::from("ann - profile | game"))
    );
    assert_eq!(
        title(&get_answer(GetRoute::Users, None, Fetched::Users(Some(vec![String::from("ann")])))),
        Some(String::from("users | game"))
    );
    assert_eq!(status(&get_answer(GetRoute::Users, None, Fetched::Users(None))), Some(Status::InternalServerError));
    assert_eq!(status(&get_answer(GetRoute::NotFound, None, Fetched::Nothing)), Some(Status::NotFound));
}

#[test]
fn registration_page_seen_by_new_user() {
    match register_answer(String::from("ann"), true) {
        Answer::Render(d) => assert_eq!(d.title, "register | game"),
        Answer::Respond(_) => panic!("a page is expected"),
    }
    assert!(matches!(register_answer(String::from("ann"), false), Answer::Render(_)));
}

#[test]
fn unreadable_forms_refused() {
    match login_form(b"username=bob") {
        FormStep::Refuse(r) => {
            assert_eq!(r.status, Status::BadRequest);
            assert_eq!(r.headers.len(), 1);
        },
        FormStep::Proceed(..) => panic!("the form has no password"),
    }
    assert!(matches!(registration_form(b"username=bob-1&password=x"), FormStep::Refuse(_)));
    match registration_form(b"username=bob&password=p+w") {
        FormStep::Proceed(u, p) => {
            assert_eq!(u, "bob");
            assert_eq!(p, "p w");
        },
        FormStep::Refuse(_) => panic!("the form is well formed"),
    }
    assert!(matches!(login_form(b"username=ann&password=x"), FormStep::Proceed(..)));
}
