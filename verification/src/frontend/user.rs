//! A user's profile page.

use vstd::prelude::*;
use super::{base, content, content_view, el, element_plain, empty_element, one, page, text_string, three, Document, Html};
use super::navigation::{navigation, navigation_view, Nav, NavView};

verus! {

/// The profile page of `user`, as text.
pub open spec fn user_view(loginee: Option<Seq<char>>, user: Seq<char>) -> (Seq<char>, Seq<Html>) {
    page(
        user + " - profile"@,
        seq![
            navigation_view(loginee, NavView::User(user)),
            el("hr"@, seq![], seq![]),
            content_view(seq![el("h2"@, seq![], seq![Html::Text(user)])]),
        ],
    )
}

/// The profile page of `user`, for the signed-in user `loginee`, if any.
pub fn render(loginee: Option<String>, user: String) -> (d: Document)
    ensures
        d.view() == user_view(super::name_view(loginee), user@),
        d.standard_head(),
{
    let mut title = user.clone();
    title.append(" - profile");
    let nav = navigation(loginee, Nav::User(user.clone()));
    base(
        title.as_str(),
        three(nav, empty_element("hr"), content(one(element_plain("h2", one(text_string(user)))))),
    )
}

} // verus!
