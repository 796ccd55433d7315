//! The log-in page.

use vstd::prelude::*;
use super::Document;
use super::navigation::{Nav, NavView};
use super::signin::signin_view;

verus! {

/// The log-in page, for the signed-in user `loginee`, if any.
pub fn render(loginee: Option<String>) -> (d: Document)
    ensures
        d.view() == signin_view("login"@, super::name_view(loginee), NavView::Login, "login"@),
        d.standard_head(),
{
    super::signin::render("login", loginee, Nav::Login, "login")
}

} // verus!
