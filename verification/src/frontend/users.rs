//! The list of users.

use vstd::prelude::*;
use super::{base, content, content_view, el, element, element_plain, empty_element, nodes_view, one, page, text, text_string, three, Document, Html, Node};
use super::navigation::{navigation, navigation_view, Nav, NavView};

verus! {

/// The row of the table for the user `name`: a link to its page.
pub open spec fn user_row(name: Seq<char>) -> Html {
    el("tr"@, seq![], seq![el("td"@, seq![], seq![el("a"@, seq![("href"@, "/users/"@ + name)], seq![Html::Text(name)])])])
}

/// The list of users, as text: a table with a heading row, then one row
/// per user, in the given order.
pub open spec fn users_view(loginee: Option<Seq<char>>, users: Seq<Seq<char>>) -> (Seq<char>, Seq<Html>) {
    page(
        "users"@,
        seq![
            navigation_view(loginee, NavView::Users),
            el("hr"@, seq![], seq![]),
            content_view(seq![el(
                "table"@,
                seq![],
                seq![el("tr"@, seq![], seq![el("th"@, seq![], seq![Html::Text("username"@)])])] + users.map_values(|n: Seq<char>| user_row(n)),
            )]),
        ],
    )
}

/// The row for `name`.
fn row(name: String) -> (n: Node)
    ensures
        n@ == user_row(name@),
{
    let mut href = String::from_str("/users/");
    href.append(name.as_str());
    let ghost href_view = href@;
    let attrs = vec![(String::from_str("href"), href)];
    assert(super::attributes_view(attrs@) =~= seq![("href"@, href_view)]);
    let a = element("a", attrs, one(text_string(name)));
    element_plain("tr", one(element_plain("td", one(a))))
}

/// The list of `users`, for the signed-in user `loginee`, if any.
pub fn render(loginee: Option<String>, users: Vec<String>) -> (d: Document)
    ensures
        d.view() == users_view(super::name_view(loginee), users@.map_values(|u: String| u@)),
        d.standard_head(),
{
    let ghost names = users@.map_values(|u: String| u@);
    let mut rows = one(element_plain("tr", one(element_plain("th", one(text("username"))))));
    let ghost head_rows = nodes_view(rows@);
    let mut users = users;
    let n = users.len();
    let mut i: usize = 0;
    while i < n
        invariant
            n == names.len(),
            i <= n,
            users@.len() == n - i,
            forall|j: int| 0 <= j < n - i ==> (#[trigger] users@[j])@ == names[i + j],
            nodes_view(rows@) =~= head_rows + names.subrange(0, i as int).map_values(|m: Seq<char>| user_row(m)),
        decreases n - i,
    {
        let ghost old_users = users@;
        let name = users.remove(0);
        proof {
            assert(name@ == names[i as int]);
            assert forall|j: int| 0 <= j < n - i - 1 implies (#[trigger] users@[j])@ == names[i + 1 + j] by {
                assert(users@[j] == old_users[j + 1]);
            }
        }
        let r = row(name);
        let ghost old_rows = nodes_view(rows@);
        rows.push(r);
        proof {
            assert(nodes_view(rows@) =~= old_rows.push(r@));
            assert(names.subrange(0, i + 1).map_values(|m: Seq<char>| user_row(m)) =~= names.subrange(0, i as int).map_values(|m: Seq<char>| user_row(m)).push(user_row(names[i as int])));
        }
        i = i + 1;
    }
    assert(names.subrange(0, n as int) =~= names);
    let table = element_plain("table", rows);
    base("users", three(navigation(loginee, Nav::Users), empty_element("hr"), content(one(table))))
}

} // verus!
