//! The web site's pages, described as trees of HTML elements and text.

pub mod navigation;
pub mod home;
pub mod users;
pub mod signin;
pub mod register;
pub mod login;
pub mod user;

use vstd::prelude::*;

verus! {

/// An HTML element: its name, its attributes in order, its children.
pub struct Element {
    pub name: String,
    pub attributes: Vec<(String, String)>,
    pub children: Vec<Node>,
}

/// A node of an HTML tree.
pub enum Node {
    Element(Element),
    Text(String),
}

/// An HTML tree, as text.
pub enum Html {
    Element(Seq<char>, Seq<(Seq<char>, Seq<char>)>, Seq<Html>),
    Text(Seq<char>),
}

/// Attributes, as text.
pub open spec fn attributes_view(a: Seq<(String, String)>) -> Seq<(Seq<char>, Seq<char>)> {
    a.map_values(|p: (String, String)| (p.0@, p.1@))
}

/// The tree that a node stands for.
pub open spec fn node_view(n: Node) -> Html
    decreases n,
{
    match n {
        Node::Text(s) => Html::Text(s@),
        Node::Element(e) => Html::Element(
            e.name@,
            attributes_view(e.attributes@),
            Seq::new(
                e.children@.len(),
                |i: int|
                    if 0 <= i < e.children@.len() {
                        proof {
                            assert(decreases_to!(e.children => e.children@));
                            assert(decreases_to!(e.children@ => e.children@[i]));
                        }
                        node_view(e.children@[i])
                    } else {
                        Html::Text(Seq::empty())
                    },
            ),
        ),
    }
}

/// The trees that a list of nodes stands for.
pub open spec fn nodes_view(s: Seq<Node>) -> Seq<Html> {
    Seq::new(s.len(), |i: int| node_view(s[i]))
}

impl View for Node {
    type V = Html;

    open spec fn view(&self) -> Html {
        node_view(*self)
    }
}

/// An element with the given name, attributes and children, as text.
pub open spec fn el(name: Seq<char>, attributes: Seq<(Seq<char>, Seq<char>)>, children: Seq<Html>) -> Html {
    Html::Element(name, attributes, children)
}

/// A node for an element with the given name, attributes and children.
pub fn element(name: &str, attributes: Vec<(String, String)>, children: Vec<Node>) -> (n: Node)
    ensures
        n@ == el(name@, attributes_view(attributes@), nodes_view(children@)),
{
    let ghost cs = children@;
    let n = Node::Element(Element { name: String::from_str(name), attributes, children });
    proof {
        let v = node_view(n);
        assert(v->2 =~= nodes_view(cs));
    }
    n
}

/// A node for an element with no attributes and the given children.
pub fn element_plain(name: &str, children: Vec<Node>) -> (n: Node)
    ensures
        n@ == el(name@, seq![], nodes_view(children@)),
{
    let attributes: Vec<(String, String)> = Vec::new();
    assert(attributes_view(attributes@) =~= seq![]);
    element(name, attributes, children)
}

/// A node for an element with no attributes and no children.
pub fn empty_element(name: &str) -> (n: Node)
    ensures
        n@ == el(name@, seq![], seq![]),
{
    let children: Vec<Node> = Vec::new();
    assert(nodes_view(children@) =~= seq![]);
    element_plain(name, children)
}

/// The list of one node.
pub fn one(a: Node) -> (v: Vec<Node>)
    ensures
        nodes_view(v@) == seq![a@],
{
    let v = vec![a];
    assert(nodes_view(v@) =~= seq![a@]);
    v
}

/// The list of two nodes.
pub fn two(a: Node, b: Node) -> (v: Vec<Node>)
    ensures
        nodes_view(v@) == seq![a@, b@],
{
    let v = vec![a, b];
    assert(nodes_view(v@) =~= seq![a@, b@]);
    v
}

/// The list of three nodes.
pub fn three(a: Node, b: Node, c: Node) -> (v: Vec<Node>)
    ensures
        nodes_view(v@) == seq![a@, b@, c@],
{
    let v = vec![a, b, c];
    assert(nodes_view(v@) =~= seq![a@, b@, c@]);
    v
}

/// A single attribute.
pub fn attributes1(name: &str, value: &str) -> (a: Vec<(String, String)>)
    ensures
        attributes_view(a@) == seq![(name@, value@)],
{
    let a = vec![attribute(name, value)];
    assert(attributes_view(a@) =~= seq![(name@, value@)]);
    a
}

/// Two attributes.
pub fn attributes2(name1: &str, value1: &str, name2: &str, value2: &str) -> (a: Vec<(String, String)>)
    ensures
        attributes_view(a@) == seq![(name1@, value1@), (name2@, value2@)],
{
    let a = vec![attribute(name1, value1), attribute(name2, value2)];
    assert(attributes_view(a@) =~= seq![(name1@, value1@), (name2@, value2@)]);
    a
}

/// A node for a piece of text.
pub fn text(s: &str) -> (n: Node)
    ensures
        n@ == Html::Text(s@),
{
    Node::Text(String::from_str(s))
}

/// A node for a piece of text.
pub fn text_string(s: String) -> (n: Node)
    ensures
        n@ == Html::Text(s@),
{
    Node::Text(s)
}

/// An attribute.
pub fn attribute(name: &str, value: &str) -> (a: (String, String))
    ensures
        a.0@ == name@,
        a.1@ == value@,
{
    (String::from_str(name), String::from_str(value))
}

/// A whole page: its language and encoding, its title, the site's icon
/// (its media type and path) and style sheet, and the children of its
/// body. The page fits the device's width.
pub struct Document {
    pub lang: String,
    pub charset: String,
    pub title: String,
    pub icon_type: String,
    pub icon: String,
    pub stylesheet: String,
    pub body: Vec<Node>,
}

/// The page titled `title` (followed by ` | game`) with the given body.
pub open spec fn page(title: Seq<char>, body: Seq<Html>) -> (Seq<char>, Seq<Html>) {
    (title + " | game"@, body)
}

impl Document {
    /// The page is in English, encoded in UTF-8, and links the site's icon
    /// and style sheet.
    pub open spec fn standard_head(&self) -> bool {
        &&& self.lang@ == "en"@
        &&& self.charset@ == "UTF-8"@
        &&& self.icon_type@ == "image/x-icon"@
        &&& self.icon@ == "/assets/icons/favicon.ico"@
        &&& self.stylesheet@ == "/assets/stylesheets/main.css"@
    }

    /// The title and the body, as text.
    pub open spec fn view(&self) -> (Seq<char>, Seq<Html>) {
        (self.title@, nodes_view(self.body@))
    }
}

/// The page titled `title` with the given body.
pub fn base(title: &str, children: Vec<Node>) -> (d: Document)
    ensures
        d.view() == page(title@, nodes_view(children@)),
        d.standard_head(),
{
    let mut t = String::from_str(title);
    t.append(" | game");
    Document {
        lang: String::from_str("en"),
        charset: String::from_str("UTF-8"),
        title: t,
        icon_type: String::from_str("image/x-icon"),
        icon: String::from_str("/assets/icons/favicon.ico"),
        stylesheet: String::from_str("/assets/stylesheets/main.css"),
        body: children,
    }
}

/// The main content of a page, as text.
pub open spec fn content_view(children: Seq<Html>) -> Html {
    el("main"@, seq![], children)
}

/// The main content of a page, as text, centered.
pub open spec fn content_centered_view(children: Seq<Html>) -> Html {
    el("main"@, seq![("class"@, "centered"@)], children)
}

/// The main content of a page.
pub fn content(children: Vec<Node>) -> (n: Node)
    ensures
        n@ == content_view(nodes_view(children@)),
{
    element_plain("main", children)
}

/// The main content of a page, centered.
pub fn content_centered(children: Vec<Node>) -> (n: Node)
    ensures
        n@ == content_centered_view(nodes_view(children@)),
{
    element("main", attributes1("class", "centered"), children)
}

/// The pages of the site.
pub enum Page {
    Home,
    Users(Vec<String>),
    Register,
    Login,
    User(String),
}

/// The page `page` as seen by the signed-in user `loginee`, if any.
pub open spec fn page_view(loginee: Option<Seq<char>>, p: Page) -> (Seq<char>, Seq<Html>) {
    match p {
        Page::Home => home::home_view(loginee),
        Page::Users(users) => users::users_view(loginee, users@.map_values(|u: String| u@)),
        Page::Register => signin::signin_view("register"@, loginee, navigation::NavView::Register, "register"@),
        Page::Login => signin::signin_view("login"@, loginee, navigation::NavView::Login, "login"@),
        Page::User(name) => user::user_view(loginee, name@),
    }
}

/// The text of an optional name.
pub open spec fn name_view(n: Option<String>) -> Option<Seq<char>> {
    match n {
        Some(s) => Some(s@),
        None => None,
    }
}

/// The page `page` as seen by the signed-in user `loginee`, if any.
pub fn render(loginee: Option<String>, page: Page) -> (d: Document)
    ensures
        d.view() == page_view(name_view(loginee), page),
        d.standard_head(),
{
    match page {
        Page::Home => home::render(loginee),
        Page::Users(users) => users::render(loginee, users),
        Page::Register => register::render(loginee),
        Page::Login => login::render(loginee),
        Page::User(username) => user::render(loginee, username),
    }
}

/// The children of an element; nothing for a text.
pub open spec fn children_of(h: Html) -> Seq<Html> {
    match h {
        Html::Element(_, _, c) => c,
        Html::Text(_) => Seq::empty(),
    }
}

/// Where `h` is a link (an `a` element whose first attribute is `href`),
/// what it links to.
pub open spec fn link_target(h: Html) -> Option<Seq<char>> {
    match h {
        Html::Element(n, a, _) => if n == "a"@ && a.len() > 0 && a[0].0 == "href"@ {
            Some(a[0].1)
        } else {
            None
        },
        Html::Text(_) => None,
    }
}

/// `h` is the button that signs the user out: a form that posts to
/// `/logout`.
pub open spec fn is_logout_form(h: Html) -> bool {
    h matches Html::Element(n, a, _) && n == "form"@ && a == seq![("method"@, "POST"@), ("action"@, "/logout"@)]
}

/// The entry of the navigation bar that belongs to a page.
pub open spec fn nav_entry(p: Page) -> navigation::NavView {
    match p {
        Page::Home => navigation::NavView::Home,
        Page::Users(_) => navigation::NavView::Users,
        Page::Register => navigation::NavView::Register,
        Page::Login => navigation::NavView::Login,
        Page::User(name) => navigation::NavView::User(name@),
    }
}

/// Every page opens with the navigation bar for the signed-in user
/// `loginee`, at the page's own entry, followed by a rule and the page's
/// content; the bar links home and to the list of users, and on its right
/// side to the signed-in user's page and the logout button, or, where
/// nobody is signed in, to the registration and log-in pages.
pub proof fn lemma_pages_navigate_for_loginee(loginee: Option<Seq<char>>, p: Page)
    ensures
        ({
            let body = page_view(loginee, p).1;
            let nav = children_of(children_of(body[0])[0]);
            &&& body.len() == 3
            &&& body[0] == navigation::navigation_view(loginee, nav_entry(p))
            &&& link_target(children_of(nav[0])[0]) == Some("/"@)
            &&& link_target(children_of(nav[0])[1]) == Some("/users"@)
            &&& match loginee {
                Some(u) => {
                    &&& link_target(children_of(nav[1])[0]) == Some("/users/"@ + u)
                    &&& is_logout_form(children_of(nav[1])[1])
                },
                None => {
                    &&& link_target(children_of(nav[1])[0]) == Some("/register"@)
                    &&& link_target(children_of(nav[1])[1]) == Some("/login"@)
                },
            }
        }),
{
    reveal_strlit("a");
    reveal_strlit("href");
    reveal_strlit("form");
}

/// The log-in and registration pages hold the sign-in form as their
/// content, with a button labelled `login` and `register`.
pub proof fn lemma_signin_pages_hold_the_form(loginee: Option<Seq<char>>)
    ensures
        children_of(page_view(loginee, Page::Login).1[2]) == seq![signin::form_view("login"@)],
        children_of(page_view(loginee, Page::Register).1[2]) == seq![signin::form_view("register"@)],
{
}

} // verus!
