//! The navigation bar at the top of every page.

use vstd::prelude::*;
use super::{nodes_view, attribute, attributes1, attributes2, attributes_view, el, element, element_plain, one, text, text_string, two, Html, Node};

verus! {

/// The entries of the navigation bar.
#[derive(Debug)]
pub enum Nav {
    Home,
    Users,
    Register,
    Login,
    User(String),
    Logout,
}

/// An entry of the navigation bar, with a user's name as text.
pub enum NavView {
    Home,
    Users,
    Register,
    Login,
    User(Seq<char>),
    Logout,
}

impl Nav {
    /// This entry, with a user's name as text.
    pub open spec fn view(&self) -> NavView {
        match self {
            Nav::Home => NavView::Home,
            Nav::Users => NavView::Users,
            Nav::Register => NavView::Register,
            Nav::Login => NavView::Login,
            Nav::User(name) => NavView::User(name@),
            Nav::Logout => NavView::Logout,
        }
    }

    /// Whether two entries are the same.
    pub fn same(&self, other: &Nav) -> (eq: bool)
        ensures
            eq == (self.view() == other.view()),
    {
        match (self, other) {
            (Nav::Home, Nav::Home) => true,
            (Nav::Users, Nav::Users) => true,
            (Nav::Register, Nav::Register) => true,
            (Nav::Login, Nav::Login) => true,
            (Nav::User(a), Nav::User(b)) => *a == *b,
            (Nav::Logout, Nav::Logout) => true,
            _ => false,
        }
    }

    /// This entry as a link, or as the logout button, marked where it is
    /// the entry of the current page.
    pub fn render(&self, current: &Nav) -> (n: Node)
        ensures
            n@ == nav_item_view(self.view(), current.view()),
    {
        match self {
            Nav::Home => link(self, current, String::from_str("/"), String::from_str("home")),
            Nav::Users => link(self, current, String::from_str("/users"), String::from_str("users")),
            Nav::Register => link(self, current, String::from_str("/register"), String::from_str("register")),
            Nav::Login => link(self, current, String::from_str("/login"), String::from_str("login")),
            Nav::User(username) => {
                let mut href = String::from_str("/users/");
                href.append(username.as_str());
                link(self, current, href, username.clone())
            },
            Nav::Logout => {
                let heading = element_plain("h3", one(text("logout")));
                let button = element("button", attributes1("type", "submit"), one(heading));
                element("form", attributes2("method", "POST", "action", "/logout"), one(button))
            },
        }
    }
}

/// A navigation link to `href` labelled `text`, as text.
pub open spec fn link_view(nav: NavView, current: NavView, href: Seq<char>, label: Seq<char>) -> Html {
    el(
        "a"@,
        if nav == current { seq![("href"@, href), ("id"@, "nav-current"@)] } else { seq![("href"@, href)] },
        seq![el("h3"@, seq![], seq![Html::Text(label)])],
    )
}

/// An entry of the navigation bar, as text.
pub open spec fn nav_item_view(nav: NavView, current: NavView) -> Html {
    match nav {
        NavView::Home => link_view(nav, current, "/"@, "home"@),
        NavView::Users => link_view(nav, current, "/users"@, "users"@),
        NavView::Register => link_view(nav, current, "/register"@, "register"@),
        NavView::Login => link_view(nav, current, "/login"@, "login"@),
        NavView::User(name) => link_view(nav, current, "/users/"@ + name, name),
        NavView::Logout => el(
            "form"@,
            seq![("method"@, "POST"@), ("action"@, "/logout"@)],
            seq![el("button"@, seq![("type"@, "submit"@)], seq![el("h3"@, seq![], seq![Html::Text("logout"@)])])],
        ),
    }
}

/// The right side of the navigation bar, as text.
pub open spec fn account_items(loginee: Option<Seq<char>>, current: NavView) -> Seq<Html> {
    match loginee {
        Some(name) => seq![nav_item_view(NavView::User(name), current), nav_item_view(NavView::Logout, current)],
        None => seq![nav_item_view(NavView::Register, current), nav_item_view(NavView::Login, current)],
    }
}

/// The navigation bar, as text: home and users on the left; on the right,
/// the signed-in user's page and the logout button, or registration and
/// log-in where nobody is signed in.
pub open spec fn navigation_view(loginee: Option<Seq<char>>, current: NavView) -> Html {
    el(
        "header"@,
        seq![],
        seq![
            el(
                "nav"@,
                seq![],
                seq![
                    el("div"@, seq![], seq![nav_item_view(NavView::Home, current), nav_item_view(NavView::Users, current)]),
                    el("div"@, seq![], account_items(loginee, current)),
                ],
            ),
        ],
    )
}

/// The navigation bar for the signed-in user `loginee`, if any, on the
/// page of `current`.
pub fn navigation(loginee: Option<String>, current: Nav) -> (n: Node)
    ensures
        n@ == navigation_view(super::name_view(loginee), current.view()),
{
    let left = element_plain("div", two(Nav::Home.render(&current), Nav::Users.render(&current)));
    let right_items = if let Some(username) = loginee {
        two(Nav::User(username).render(&current), Nav::Logout.render(&current))
    } else {
        two(Nav::Register.render(&current), Nav::Login.render(&current))
    };
    let ghost right_view = nodes_view(right_items@);
    assert(right_view == account_items(super::name_view(loginee), current.view()));
    let right = element_plain("div", right_items);
    element_plain("header", one(element_plain("nav", two(left, right))))
}

/// A navigation link to `href` labelled `label`, marked as the current
/// page's where `nav` is the entry of `current`.
fn link(nav: &Nav, current: &Nav, href: String, label: String) -> (n: Node)
    ensures
        n@ == link_view(nav.view(), current.view(), href@, label@),
{
    let ghost href_view = href@;
    let is_current = nav.same(current);
    let attributes = if is_current {
        vec![(String::from_str("href"), href), attribute("id", "nav-current")]
    } else {
        vec![(String::from_str("href"), href)]
    };
    proof {
        if is_current {
            assert(attributes_view(attributes@) =~= seq![("href"@, href_view), ("id"@, "nav-current"@)]);
        } else {
            assert(attributes_view(attributes@) =~= seq![("href"@, href_view)]);
        }
    }
    element("a", attributes, one(element_plain("h3", one(text_string(label)))))
}

} // verus!
