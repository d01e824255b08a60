//! Discord message components (layout version 2) as JSON values: buttons,
//! action rows, text displays, separators and the accent container.

use vstd::prelude::*;
use crate::json::{entry, jarr, jnum, jobj, jstr, jstring, num_view, JsonNode, JsonView};

verus! {

/// Message flag for layout-version-2 components.
pub const COMPONENTS_V2_FLAG: u64 = 32768;
/// Accent colour of the bot's panels and DMs.
pub const ACCENT_GOLD: u64 = 0xC8A86B;

/// A button: type 2 with style, label and custom id.
pub open spec fn button_view(style: int, label: Seq<char>, custom_id: Seq<char>) -> JsonView {
    JsonView::Object(
        seq![
            ("type"@, num_view(2)),
            ("style"@, num_view(style)),
            ("label"@, JsonView::Str(label)),
            ("custom_id"@, JsonView::Str(custom_id)),
        ],
    )
}

/// A server emoji by name and id.
pub open spec fn emoji_view(name: Seq<char>, id: Seq<char>) -> JsonView {
    JsonView::Object(seq![("name"@, JsonView::Str(name)), ("id"@, JsonView::Str(id))])
}

/// A button that also shows a server emoji.
pub open spec fn emoji_button_view(
    style: int,
    label: Seq<char>,
    custom_id: Seq<char>,
    emoji_name: Seq<char>,
    emoji_id: Seq<char>,
) -> JsonView {
    JsonView::Object(
        seq![
            ("type"@, num_view(2)),
            ("style"@, num_view(style)),
            ("label"@, JsonView::Str(label)),
            ("custom_id"@, JsonView::Str(custom_id)),
            ("emoji"@, emoji_view(emoji_name, emoji_id)),
        ],
    )
}

/// An action row (type 1) holding the given components.
pub open spec fn action_row_view(items: Seq<JsonView>) -> JsonView {
    JsonView::Object(seq![("type"@, num_view(1)), ("components"@, JsonView::Array(items))])
}

/// A text display (type 10).
pub open spec fn text_display_view(content: Seq<char>) -> JsonView {
    JsonView::Object(seq![("type"@, num_view(10)), ("content"@, JsonView::Str(content))])
}

/// A separator (type 14).
pub open spec fn separator_view(divider: bool, spacing: int) -> JsonView {
    JsonView::Object(
        seq![
            ("type"@, num_view(14)),
            ("divider"@, JsonView::Bool(divider)),
            ("spacing"@, num_view(spacing)),
        ],
    )
}

/// A container (type 17) with an accent colour around the given components.
pub open spec fn container_view(accent: int, items: Seq<JsonView>) -> JsonView {
    JsonView::Object(
        seq![
            ("type"@, num_view(17)),
            ("accent_color"@, num_view(accent)),
            ("components"@, JsonView::Array(items)),
        ],
    )
}

/// `allowed_mentions` that pings nobody.
pub open spec fn no_mentions_view() -> JsonView {
    JsonView::Object(seq![("parse"@, JsonView::Array(Seq::empty()))])
}

pub fn button(style: u64, label: &str, custom_id: &str) -> (r: JsonNode)
    ensures
        r@ == button_view(style as int, label@, custom_id@),
{
    let r = jobj(
        vec![
            entry("type", jnum(2)),
            entry("style", jnum(style)),
            entry("label", jstr(label)),
            entry("custom_id", jstr(custom_id)),
        ],
    );
    assert(r@->Object_0 =~= button_view(style as int, label@, custom_id@)->Object_0);
    r
}

pub fn emoji(name: &str, id: &str) -> (r: JsonNode)
    ensures
        r@ == emoji_view(name@, id@),
{
    let r = jobj(vec![entry("name", jstr(name)), entry("id", jstr(id))]);
    assert(r@->Object_0 =~= emoji_view(name@, id@)->Object_0);
    r
}

pub fn emoji_button(style: u64, label: &str, custom_id: &str, emoji_pair: (&str, &str)) -> (r:
    JsonNode)
    ensures
        r@ == emoji_button_view(style as int, label@, custom_id@, emoji_pair.0@, emoji_pair.1@),
{
    let r = jobj(
        vec![
            entry("type", jnum(2)),
            entry("style", jnum(style)),
            entry("label", jstr(label)),
            entry("custom_id", jstr(custom_id)),
            entry("emoji", emoji(emoji_pair.0, emoji_pair.1)),
        ],
    );
    assert(r@->Object_0 =~= emoji_button_view(
        style as int,
        label@,
        custom_id@,
        emoji_pair.0@,
        emoji_pair.1@,
    )->Object_0);
    r
}

/// Views of a list of values.
pub open spec fn views_of(items: Seq<JsonNode>) -> Seq<JsonView> {
    Seq::new(items.len(), |i: int| items[i]@)
}

pub fn action_row(items: Vec<JsonNode>) -> (r: JsonNode)
    ensures
        r@ == action_row_view(views_of(items@)),
{
    let ghost v = views_of(items@);
    let r = jobj(vec![entry("type", jnum(1)), entry("components", jarr(items))]);
    assert(r@->Object_0 =~= action_row_view(v)->Object_0);
    r
}

pub fn text_display(content: String) -> (r: JsonNode)
    ensures
        r@ == text_display_view(content@),
{
    let ghost c = content@;
    let r = jobj(vec![entry("type", jnum(10)), entry("content", jstring(content))]);
    assert(r@->Object_0 =~= text_display_view(c)->Object_0);
    r
}

pub fn separator(divider: bool, spacing: u64) -> (r: JsonNode)
    ensures
        r@ == separator_view(divider, spacing as int),
{
    let r = jobj(
        vec![
            entry("type", jnum(14)),
            entry("divider", JsonNode::Bool(divider)),
            entry("spacing", jnum(spacing)),
        ],
    );
    assert(r@->Object_0 =~= separator_view(divider, spacing as int)->Object_0);
    r
}

pub fn container(accent: u64, items: Vec<JsonNode>) -> (r: JsonNode)
    ensures
        r@ == container_view(accent as int, views_of(items@)),
{
    let ghost v = views_of(items@);
    let r = jobj(
        vec![
            entry("type", jnum(17)),
            entry("accent_color", jnum(accent)),
            entry("components", jarr(items)),
        ],
    );
    assert(r@->Object_0 =~= container_view(accent as int, v)->Object_0);
    r
}

pub fn no_mentions() -> (r: JsonNode)
    ensures
        r@ == no_mentions_view(),
{
    let empty: Vec<JsonNode> = Vec::new();
    let list = jarr(empty);
    assert(list@->Array_0 =~= Seq::<JsonView>::empty());
    let r = jobj(vec![entry("parse", list)]);
    assert(r@->Object_0 =~= no_mentions_view()->Object_0);
    r
}

} // verus!
