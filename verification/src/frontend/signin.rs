//! The sign-in form, shared by the registration and log-in pages.

use vstd::prelude::*;
use super::{attribute, attributes1, base, content_centered, content_centered_view, el, element, empty_element, nodes_view, one, page, text, text_string, three, Document, Html, Node};
use super::navigation::{navigation, navigation_view, Nav, NavView};
use vstd::utf8::encode_utf8;
use crate::web::utils::url_decode;
use crate::web::validation::{lemma_signin_form_shape, password_key, password_ok, signin_fields_spec, username_key, username_ok};

verus! {

/// The empty `br` element.
pub open spec fn br() -> Html {
    el("br"@, seq![], seq![])
}

/// The sign-in form with a button labelled `button`, as text: a user name
/// field of 1 to 16 letters, digits, `_` or spaces and a password field of
/// 1 to 256 characters, each with its label.
pub open spec fn form_view(button: Seq<char>) -> Html {
    el(
        "form"@,
        seq![("method"@, "POST"@)],
        seq![
            el("label"@, seq![("for"@, "username"@)], seq![Html::Text("username "@ + "[A-Za-z0-9_ ]{1,16}"@)]),
            br(),
            el(
                "input"@,
                seq![
                    ("type"@, "text"@),
                    ("maxlength"@, "16"@),
                    ("pattern"@, "[A-Za-z0-9_ ]{1,16}"@),
                    ("name"@, "username"@),
                    ("placeholder"@, "DookieFartPoopyShart"@),
                ],
                seq![],
            ),
            br(),
            el("label"@, seq![("for"@, "password"@)], seq![Html::Text("password "@ + "^.{1,256}"@)]),
            br(),
            el(
                "input"@,
                seq![
                    ("type"@, "password"@),
                    ("maxlength"@, "256"@),
                    ("pattern"@, "^.{1,256}"@),
                    ("name"@, "password"@),
                    ("placeholder"@, "six seven"@),
                ],
                seq![],
            ),
            br(),
            br(),
            el("button"@, seq![("type"@, "submit"@)], seq![Html::Text(button)]),
        ],
    )
}

/// A sign-in page, as text.
pub open spec fn signin_view(title: Seq<char>, loginee: Option<Seq<char>>, nav: NavView, button: Seq<char>) -> (Seq<char>, Seq<Html>) {
    page(
        title,
        seq![navigation_view(loginee, nav), el("hr"@, seq![], seq![]), content_centered_view(seq![form_view(button)])],
    )
}

/// A label for the field `field`, reading `name` and then `pattern`.
fn label(field: &str, name: &str, pattern: &str) -> (n: Node)
    ensures
        n@ == el("label"@, seq![("for"@, field@)], seq![Html::Text(name@ + pattern@)]),
{
    let mut t = String::from_str(name);
    t.append(pattern);
    element("label", attributes1("for", field), one(text_string(t)))
}

/// An input field.
fn input(kind: &str, max_length: &str, pattern: &str, name: &str, placeholder: &str) -> (n: Node)
    ensures
        n@ == el(
            "input"@,
            seq![("type"@, kind@), ("maxlength"@, max_length@), ("pattern"@, pattern@), ("name"@, name@), ("placeholder"@, placeholder@)],
            seq![],
        ),
{
    let attrs = vec![
        attribute("type", kind),
        attribute("maxlength", max_length),
        attribute("pattern", pattern),
        attribute("name", name),
        attribute("placeholder", placeholder),
    ];
    assert(super::attributes_view(attrs@) =~= seq![("type"@, kind@), ("maxlength"@, max_length@), ("pattern"@, pattern@), ("name"@, name@), ("placeholder"@, placeholder@)]);
    let children: Vec<Node> = Vec::new();
    assert(nodes_view(children@) =~= seq![]);
    element("input", attrs, children)
}

/// The sign-in form with a button labelled `button`.
fn form(button: &str) -> (n: Node)
    ensures
        n@ == form_view(button@),
{
    let username_regex = "[A-Za-z0-9_ ]{1,16}";
    let password_regex = "^.{1,256}";
    let mut fields: Vec<Node> = Vec::new();
    fields.push(label("username", "username ", username_regex));
    fields.push(empty_element("br"));
    fields.push(input("text", "16", username_regex, "username", "DookieFartPoopyShart"));
    fields.push(empty_element("br"));
    fields.push(label("password", "password ", password_regex));
    fields.push(empty_element("br"));
    fields.push(input("password", "256", password_regex, "password", "six seven"));
    fields.push(empty_element("br"));
    fields.push(empty_element("br"));
    fields.push(element("button", attributes1("type", "submit"), one(text(button))));
    let ghost fv = nodes_view(fields@);
    assert(fv =~= seq![
        el("label"@, seq![("for"@, "username"@)], seq![Html::Text("username "@ + "[A-Za-z0-9_ ]{1,16}"@)]),
        br(),
        el(
            "input"@,
            seq![
                ("type"@, "text"@),
                ("maxlength"@, "16"@),
                ("pattern"@, "[A-Za-z0-9_ ]{1,16}"@),
                ("name"@, "username"@),
                ("placeholder"@, "DookieFartPoopyShart"@),
            ],
            seq![],
        ),
        br(),
        el("label"@, seq![("for"@, "password"@)], seq![Html::Text("password "@ + "^.{1,256}"@)]),
        br(),
        el(
            "input"@,
            seq![
                ("type"@, "password"@),
                ("maxlength"@, "256"@),
                ("pattern"@, "^.{1,256}"@),
                ("name"@, "password"@),
                ("placeholder"@, "six seven"@),
            ],
            seq![],
        ),
        br(),
        br(),
        el("button"@, seq![("type"@, "submit"@)], seq![Html::Text(button@)]),
    ]);
    element("form", attributes1("method", "POST"), fields)
}

/// A sign-in page titled `title`, for the signed-in user `loginee`, if
/// any, at the navigation entry `nav`, with a button labelled `button`.
pub fn render(title: &str, loginee: Option<String>, nav: Nav, button: &str) -> (d: Document)
    ensures
        d.view() == signin_view(title@, super::name_view(loginee), nav.view(), button@),
        d.standard_head(),
{
    let ghost nav_entry = nav.view();
    let navigation_node = navigation(loginee, nav);
    base(title, three(navigation_node, empty_element("hr"), content_centered(one(form(button)))))
}

/// The value of the first attribute named `key`, if any.
pub open spec fn attribute_value(attrs: Seq<(Seq<char>, Seq<char>)>, key: Seq<char>) -> Option<Seq<char>>
    decreases attrs.len(),
{
    if attrs.len() == 0 {
        None
    } else if attrs[0].0 == key {
        Some(attrs[0].1)
    } else {
        attribute_value(attrs.drop_first(), key)
    }
}

/// The names of the input fields among `children`, in order.
pub open spec fn input_names(children: Seq<Html>) -> Seq<Option<Seq<char>>>
    decreases children.len(),
{
    if children.len() == 0 {
        Seq::empty()
    } else {
        let rest = input_names(children.drop_first());
        match children[0] {
            Html::Element(n, a, _) => if n == "input"@ {
                seq![attribute_value(a, "name"@)] + rest
            } else {
                rest
            },
            Html::Text(_) => rest,
        }
    }
}

/// The body that a browser posts for a form whose fields are named `names`
/// and hold the encoded values `values`: the pairs `name=value`, in order,
/// joined by `&`.
pub open spec fn posted_body(names: Seq<Seq<char>>, values: Seq<Seq<u8>>) -> Seq<u8>
    decreases names.len(),
{
    if names.len() == 0 {
        Seq::empty()
    } else if names.len() == 1 {
        encode_utf8(names[0]) + seq![61u8] + values[0]
    } else {
        encode_utf8(names[0]) + seq![61u8] + values[0] + seq![38u8] + posted_body(names.drop_first(), values.drop_first())
    }
}

/// The sign-in form posts what the server reads: its input fields are,
/// in order, one named `username` and one named `password`, and the body
/// that a browser posts for them, filled with the encoded values `name`
/// (holding no `&`) and `password`, is read by the server as the decoded
/// name and password, where both decode and are allowed.
pub proof fn lemma_signin_form_posts_what_server_reads(button: Seq<char>, name: Seq<u8>, password: Seq<u8>)
    requires
        !name.contains(38u8),
    ensures
        ({
            let fields = input_names(super::children_of(form_view(button)));
            &&& fields == seq![Some("username"@), Some("password"@)]
            &&& signin_fields_spec(posted_body(seq![fields[0]->0, fields[1]->0], seq![name, password]))
                == match (url_decode(name), url_decode(password)) {
                    (Some(u), Some(p)) => if username_ok(u) && password_ok(p) { Some((u, p)) } else { None },
                    _ => None,
                }
        }),
{
    reveal_strlit("form");
    reveal_strlit("label");
    reveal_strlit("br");
    reveal_strlit("input");
    reveal_strlit("button");
    reveal_strlit("type");
    reveal_strlit("maxlength");
    reveal_strlit("pattern");
    reveal_strlit("name");
    reveal_strlit("placeholder");
    reveal_strlit("username");
    reveal_strlit("password");
    let children = super::children_of(form_view(button));
    assert(children.len() == 10);
    reveal_with_fuel(input_names, 11);
    reveal_with_fuel(attribute_value, 5);
    let c1 = children.drop_first();
    let c2 = c1.drop_first();
    let c3 = c2.drop_first();
    let c4 = c3.drop_first();
    let c5 = c4.drop_first();
    let c6 = c5.drop_first();
    let c7 = c6.drop_first();
    let c8 = c7.drop_first();
    let c9 = c8.drop_first();
    let c10 = c9.drop_first();
    assert(c9.len() == 1 && c9[0] == children[9]);
    assert(c8.len() == 2 && c8[0] == children[8]);
    assert(c7[0] == children[7] && c6[0] == children[6] && c2[0] == children[2]);
    assert("button"@.len() == 6 && "input"@.len() == 5 && "br"@.len() == 2);
    assert(children[9] matches Html::Element(n, _, _) && n == "button"@);
    assert(input_names(c10) =~= Seq::<Option<Seq<char>>>::empty());
    assert(input_names(c9) =~= Seq::<Option<Seq<char>>>::empty());
    assert(input_names(c8) =~= Seq::<Option<Seq<char>>>::empty());
    assert(input_names(c7) =~= Seq::<Option<Seq<char>>>::empty());
    assert("type"@[0] == 't' && "name"@[0] == 'n' && "maxlength"@.len() == 9 && "pattern"@.len() == 7 && "name"@.len() == 4);
    let a2 = seq![("type"@, "text"@), ("maxlength"@, "16"@), ("pattern"@, "[A-Za-z0-9_ ]{1,16}"@), ("name"@, "username"@), ("placeholder"@, "DookieFartPoopyShart"@)];
    let a6 = seq![("type"@, "password"@), ("maxlength"@, "256"@), ("pattern"@, "^.{1,256}"@), ("name"@, "password"@), ("placeholder"@, "six seven"@)];
    assert(children[2] == el("input"@, a2, seq![]));
    assert(children[6] == el("input"@, a6, seq![]));
    assert(attribute_value(a2.drop_first().drop_first().drop_first(), "name"@) == Some("username"@));
    assert(attribute_value(a2, "name"@) == Some("username"@));
    assert(attribute_value(a6.drop_first().drop_first().drop_first(), "name"@) == Some("password"@));
    assert(attribute_value(a6, "name"@) == Some("password"@));
    assert(input_names(c6) =~= seq![Some("password"@)]);
    assert("label"@[0] == 'l' && "input"@[0] == 'i');
    assert(c5[0] == children[5] && c4[0] == children[4] && c3[0] == children[3]);
    assert(input_names(c5) == input_names(c6));
    assert(input_names(c4) == input_names(c5));
    assert(input_names(c3) == input_names(c4));
    assert(input_names(c2) =~= seq![Some("username"@), Some("password"@)]);
    assert(input_names(children) =~= seq![Some("username"@), Some("password"@)]);
    vstd::utf8::is_ascii_chars_encode_utf8("username"@);
    vstd::utf8::is_ascii_chars_encode_utf8("password"@);
    assert(encode_utf8("username"@) =~= username_key());
    assert(encode_utf8("password"@) =~= password_key());
    reveal_with_fuel(posted_body, 3);
    let names = seq!["username"@, "password"@];
    let values = seq![name, password];
    assert(names.drop_first() =~= seq!["password"@]);
    assert(values.drop_first() =~= seq![password]);
    assert(posted_body(names, values) =~= username_key() + seq![61u8] + name + seq![38u8] + password_key() + seq![61u8] + password);
    lemma_signin_form_shape(name, password);
}

} // verus!
