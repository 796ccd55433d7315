//! The registration page.

use vstd::prelude::*;
use super::Document;
use super::navigation::{Nav, NavView};
use super::signin::signin_view;

verus! {

/// The registration page, for the signed-in user `loginee`, if any.
pub fn render(loginee: Option<String>) -> (d: Document)
    ensures
        d.view() == signin_view("register"@, super::name_view(loginee), NavView::Register, "register"@),
        d.standard_head(),
{
    super::signin::render("register", loginee, Nav::Register, "register")
}

} // verus!
