use game::frontend::navigation::{navigation, Nav};
use game::frontend::{render, Document, Node, Page};

fn show(n: &Node) -> String {
    match n {
        Node::Text(t) => t.clone(),
        Node::Element(e) => {
            let mut s = format!("<{}", e.name);
            for (k, v) in &e.attributes {
                s.push_str(&format!(" {k}=\"{v}\""));
            }
            s.push('>');
            for c in &e.children {
                s.push_str(&show(c));
            }
            s.push_str(&format!("</{}>", e.name));
            s
        },
    }
}

fn show_doc(d: &Document) -> String {
    d.body.iter().map(show).collect::<Vec<_>>().join("")
}

#[test]
fn navigation_marks_current_entry() {
    let n = show(&navigation(None, Nav::Users));
    assert_eq!(
        n,
        "<header><nav><div><a href=\"/\"><h3>home</h3></a><a href=\"/users\" id=\"nav-current\"><h3>users</h3></a></div>\
         <div><a href=\"/register\"><h3>register</h3></a><a href=\"/login\"><h3>login</h3></a></div></nav></header>"
    );
}

#[test]
fn navigation_for_signed_in_user() {
    let n = show(&navigation(Some(String::from("bob")), Nav::User(String::from("bob"))));
    assert!(n.contains("<a href=\"/users/bob\" id=\"nav-current\"><h3>bob</h3></a>"));
    assert!(n.contains("<form method=\"POST\" action=\"/logout\"><button type=\"submit\"><h3>logout</h3></button></form>"));
    assert!(!n.contains("/register"));
    assert!(!n.contains("/login"));
    assert_eq!(n.matches("nav-current").count(), 1);
}

#[test]
fn navigation_on_other_users_page_marks_nothing_of_own() {
    let n = show(&navigation(Some(String::from("bob")), Nav::User(String::from("ann"))));
    assert!(!n.contains("nav-current"));
}

#[test]
fn home_page() {
    let d = render(None, Page::Home);
    assert_eq!(d.title, "home | game");
    let s = show_doc(&d);
    assert!(s.ends_with("<hr></hr><main class=\"centered\"><p>welcome :D</p></main>"));
    assert!(s.contains("<a href=\"/\" id=\"nav-current\"><h3>home</h3></a>"));
}

#[test]
fn users_page_lists_users_in_order() {
    let d = render(None, Page::Users(vec![String::from("ann"), String::from("bob")]));
    assert_eq!(d.title, "users | game");
    let s = show_doc(&d);
    assert!(s.contains(
        "<main><table><tr><th>username</th></tr>\
         <tr><td><a href=\"/users/ann\">ann</a></td></tr>\
         <tr><td><a href=\"/users/bob\">bob</a></td></tr></table></main>"
    ));
}

#[test]
fn user_page() {
    let d = render(Some(String::from("ann")), Page::User(String::from("bob")));
    assert_eq!(d.title, "bob - profile | game");
    let s = show_doc(&d);
    assert!(s.ends_with("<main><h2>bob</h2></main>"));
}

#[test]
fn signin_pages() {
    let d = render(None, Page::Register);
    assert_eq!(d.title, "register | game");
    let s = show_doc(&d);
    assert!(s.contains("<a href=\"/register\" id=\"nav-current\">"));
    assert!(s.contains("<button type=\"submit\">register</button>"));
    assert!(s.contains("<input type=\"text\" maxlength=\"16\" pattern=\"[A-Za-z0-9_ ]{1,16}\" name=\"username\""));
    let d = render(None, Page::Login);
    assert_eq!(d.title, "login | game");
    let s = show_doc(&d);
    assert!(s.contains("<a href=\"/login\" id=\"nav-current\">"));
    assert!(s.contains("<button type=\"submit\">login</button>"));
}

#[test]
fn pages_have_standard_head() {
    for page in [Page::Home, Page::Login, Page::Register, Page::Users(vec![]), Page::User(String::from("x"))] {
        let d = render(Some(String::from("x")), page);
        assert_eq!(d.lang, "en");
        assert_eq!(d.charset, "UTF-8");
        assert_eq!(d.icon_type, "image/x-icon");
        assert_eq!(d.icon, "/assets/icons/favicon.ico");
        assert_eq!(d.stylesheet, "/assets/stylesheets/main.css");
    }
}
