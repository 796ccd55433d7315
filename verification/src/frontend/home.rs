//! The home page.

use vstd::prelude::*;
use super::{base, content_centered, content_centered_view, el, element_plain, empty_element, one, page, text, three, Document, Html};
use super::navigation::{navigation, navigation_view, Nav, NavView};

verus! {

/// The home page, as text.
pub open spec fn home_view(loginee: Option<Seq<char>>) -> (Seq<char>, Seq<Html>) {
    page(
        "home"@,
        seq![
            navigation_view(loginee, NavView::Home),
            el("hr"@, seq![], seq![]),
            content_centered_view(seq![el("p"@, seq![], seq![Html::Text("welcome :D"@)])]),
        ],
    )
}

/// The home page, for the signed-in user `loginee`, if any.
pub fn render(loginee: Option<String>) -> (d: Document)
    ensures
        d.view() == home_view(super::name_view(loginee)),
        d.standard_head(),
{
    base(
        "home",
        three(
            navigation(loginee, Nav::Home),
            empty_element("hr"),
            content_centered(one(element_plain("p", one(text("welcome :D"))))),
        ),
    )
}

} // verus!
