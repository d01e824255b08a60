//! Components of the LFG dialogs: the mode buttons, the rank, slot and time
//! selects of a draft, the watch builder, and the button under a new post.
//! A select marks as default exactly the option that the draft holds.

use vstd::prelude::*;
use crate::components::{
    action_row, action_row_view, button, button_view, emoji, emoji_button, emoji_button_view,
    emoji_view, views_of,
};
use crate::json::{entry, jarr, jnum, jobj, jstr, jstring, num_view, JsonNode, JsonView};
use crate::lfg::{
    lfg_open_lane_custom_id, lfg_post_custom_id, mode_str, rank_option_label, slot_cap_spec,
    slot_select_cap, window_emoji, window_label, window_str, LfgDraft, LfgMode, LfgPlayWindow,
    LfgWatchDraft, LFG_CREATE_MODE_PREFIX, LFG_OPEN_LANE_PREFIX, LFG_POST_PREFIX,
    LFG_RANK_ANY_LABEL, LFG_RANK_ANY_VALUE, LFG_WATCH_MODE_PREFIX,
};
use crate::lfg_flow::{
    LFG_RANK_FROM_SELECT_CUSTOM_ID, LFG_RANK_TO_SELECT_CUSTOM_ID, LFG_SLOTS_SELECT_CUSTOM_ID,
    LFG_WATCH_ACTIVATE_CUSTOM_ID, LFG_WATCH_RANK_FROM_SELECT_CUSTOM_ID,
    LFG_WATCH_RANK_TO_SELECT_CUSTOM_ID, LFG_WATCH_WINDOW_SELECT_CUSTOM_ID,
    LFG_WHEN_SELECT_CUSTOM_ID,
};
use crate::lfg_watch::{watch_window_str, LfgWatchWindow};
use crate::text::{append_str, chars_of, int_dec, push_u64, str_eq, string_of, u64_to_string};

verus! {

pub const LFG_MODE_BUTTON_CASUAL: &'static str = "Normale Lane";
pub const LFG_MODE_BUTTON_RANKED: &'static str = "Ranked";
pub const LFG_MODE_BUTTON_STREET_BRAWL: &'static str = "Street Brawl";
pub const LFG_RANK_FROM_PLACEHOLDER: &'static str = "Von welchem Rang? (optional)";
pub const LFG_RANK_TO_PLACEHOLDER: &'static str = "Bis welchem Rang? (optional)";
pub const LFG_SLOTS_PLACEHOLDER: &'static str = "Wie viele Plätze frei?";
pub const LFG_WHEN_PLACEHOLDER: &'static str = "Wann willst du spielen? (optional)";
pub const LFG_WATCH_WINDOW_PLACEHOLDER: &'static str = "Wie lange soll ich Ausschau halten?";
pub const LFG_BTN_POSTEN: &'static str = "Suche veröffentlichen";
pub const LFG_BTN_LANE_AUFMACHEN: &'static str = "🚀 Lane gleich aufmachen";
pub const LFG_WATCH_BTN_AKTIVIEREN: &'static str = "🔔 Aktivieren";
/// Server emoji of the "any rank" option: name and id.
pub const LFG_RANK_ANY_EMOJI: (&'static str, &'static str) = ("dl_rang_egal", "1522801043803472064");

// ── Selects ─────────────────────────────────────────────────────────────────

/// A select option.
pub open spec fn option_view(label: Seq<char>, value: Seq<char>, selected: bool) -> JsonView {
    JsonView::Object(
        seq![
            ("label"@, JsonView::Str(label)),
            ("value"@, JsonView::Str(value)),
            ("default"@, JsonView::Bool(selected)),
        ],
    )
}

/// A select option with a server emoji.
pub open spec fn emoji_option_view(
    label: Seq<char>,
    value: Seq<char>,
    selected: bool,
    emoji_name: Seq<char>,
    emoji_id: Seq<char>,
) -> JsonView {
    JsonView::Object(
        seq![
            ("label"@, JsonView::Str(label)),
            ("value"@, JsonView::Str(value)),
            ("default"@, JsonView::Bool(selected)),
            ("emoji"@, emoji_view(emoji_name, emoji_id)),
        ],
    )
}

/// An action row with one single-choice string select (type 3).
pub open spec fn select_row_view(
    custom_id: Seq<char>,
    placeholder: Seq<char>,
    options: Seq<JsonView>,
) -> JsonView {
    action_row_view(
        seq![
            JsonView::Object(
                seq![
                    ("type"@, num_view(3)),
                    ("custom_id"@, JsonView::Str(custom_id)),
                    ("placeholder"@, JsonView::Str(placeholder)),
                    ("min_values"@, num_view(1)),
                    ("max_values"@, num_view(1)),
                    ("options"@, JsonView::Array(options)),
                ],
            ),
        ],
    )
}

fn option(label: String, value: String, selected: bool) -> (r: JsonNode)
    ensures
        r@ == option_view(label@, value@, selected),
{
    let ghost (l, v) = (label@, value@);
    let r = jobj(
        vec![
            entry("label", jstring(label)),
            entry("value", jstring(value)),
            entry("default", JsonNode::Bool(selected)),
        ],
    );
    assert(r@->Object_0 =~= option_view(l, v, selected)->Object_0);
    r
}

fn emoji_option(label: &str, value: &str, selected: bool, emoji_pair: (&str, &str)) -> (r:
    JsonNode)
    ensures
        r@ == emoji_option_view(label@, value@, selected, emoji_pair.0@, emoji_pair.1@),
{
    let r = jobj(
        vec![
            entry("label", jstr(label)),
            entry("value", jstr(value)),
            entry("default", JsonNode::Bool(selected)),
            entry("emoji", emoji(emoji_pair.0, emoji_pair.1)),
        ],
    );
    assert(r@->Object_0 =~= emoji_option_view(
        label@,
        value@,
        selected,
        emoji_pair.0@,
        emoji_pair.1@,
    )->Object_0);
    r
}

fn select_row(custom_id: &str, placeholder: &str, options: Vec<JsonNode>) -> (r: JsonNode)
    ensures
        r@ == select_row_view(custom_id@, placeholder@, views_of(options@)),
{
    let ghost ov = views_of(options@);
    let list = jarr(options);
    let select = jobj(
        vec![
            entry("type", jnum(3)),
            entry("custom_id", jstr(custom_id)),
            entry("placeholder", jstr(placeholder)),
            entry("min_values", jnum(1)),
            entry("max_values", jnum(1)),
            entry("options", list),
        ],
    );
    let ghost sv = select@;
    assert(sv->Object_0 =~= select_row_view(custom_id@, placeholder@, ov)->Object_0[1].1->Array_0[
        0
    ]->Object_0);
    let items = vec![select];
    assert(views_of(items@) =~= seq![sv]);
    action_row(items)
}

// ── Rank select ─────────────────────────────────────────────────────────────

/// Value (and emoji name) of the rank option of index `i` (1..=11).
pub open spec fn rank_option_value(i: int) -> Seq<char> {
    if i == 1 {
        "initiate"@
    } else if i == 2 {
        "seeker"@
    } else if i == 3 {
        "acolyte"@
    } else if i == 4 {
        "sentinel"@
    } else if i == 5 {
        "mystic"@
    } else if i == 6 {
        "ritualist"@
    } else if i == 7 {
        "emissary"@
    } else if i == 8 {
        "oracle"@
    } else if i == 9 {
        "phantom"@
    } else if i == 10 {
        "ascendant"@
    } else {
        "eternus"@
    }
}

/// Server emoji id of the rank option of index `i` (1..=11).
pub open spec fn rank_option_emoji_id(i: int) -> Seq<char> {
    if i == 1 {
        "1316457822518775869"@
    } else if i == 2 {
        "1316458138886475876"@
    } else if i == 3 {
        "1316455291629342750"@
    } else if i == 4 {
        "1316455305315352587"@
    } else if i == 5 {
        "1316458203298660533"@
    } else if i == 6 {
        "1316457650367496306"@
    } else if i == 7 {
        "1397687455313952918"@
    } else if i == 8 {
        "1316457885743579317"@
    } else if i == 9 {
        "1316457982363701278"@
    } else if i == 10 {
        "1316457367818338385"@
    } else {
        "1316457737621868574"@
    }
}

/// Label, value and emoji id of the rank option of index `i`.
fn rank_option_entry(i: usize) -> (r: (&'static str, &'static str, &'static str))
    requires
        1 <= i <= 11,
    ensures
        r.0@ == rank_option_label(i as int),
        r.1@ == rank_option_value(i as int),
        r.2@ == rank_option_emoji_id(i as int),
{
    match i {
        1 => ("Initiate", "initiate", "1316457822518775869"),
        2 => ("Seeker", "seeker", "1316458138886475876"),
        3 => ("Acolyte", "acolyte", "1316455291629342750"),
        4 => ("Sentinel", "sentinel", "1316455305315352587"),
        5 => ("Mystic", "mystic", "1316458203298660533"),
        6 => ("Ritualist", "ritualist", "1316457650367496306"),
        7 => ("Emissary", "emissary", "1397687455313952918"),
        8 => ("Oracle", "oracle", "1316457885743579317"),
        9 => ("Phantom", "phantom", "1316457982363701278"),
        10 => ("Ascendant", "ascendant", "1316457367818338385"),
        _ => ("Eternus", "eternus", "1316457737621868574"),
    }
}

/// The rank options: "any rank" (never preselected), then the eleven ranks
/// from Initiate to Eternus, the one whose value the draft holds selected.
pub open spec fn rank_options_view(current: Option<Seq<char>>) -> Seq<JsonView> {
    seq![
        emoji_option_view(
            LFG_RANK_ANY_LABEL@,
            LFG_RANK_ANY_VALUE@,
            false,
            LFG_RANK_ANY_EMOJI.0@,
            LFG_RANK_ANY_EMOJI.1@,
        ),
    ] + Seq::new(
        11,
        |k: int|
            emoji_option_view(
                rank_option_label(k + 1),
                rank_option_value(k + 1),
                current == Some(rank_option_value(k + 1)),
                rank_option_value(k + 1),
                rank_option_emoji_id(k + 1),
            ),
    )
}

pub open spec fn opt_view(s: Option<&str>) -> Option<Seq<char>> {
    match s {
        Some(t) => Some(t@),
        None => None,
    }
}

/// The rank select with the given custom id and placeholder.
pub fn lfg_rank_select(custom_id: &str, placeholder: &str, current: Option<&str>) -> (r: JsonNode)
    ensures
        r@ == select_row_view(custom_id@, placeholder@, rank_options_view(opt_view(current))),
{
    let ghost cur = opt_view(current);
    let mut options: Vec<JsonNode> = Vec::new();
    options.push(emoji_option(LFG_RANK_ANY_LABEL, LFG_RANK_ANY_VALUE, false, LFG_RANK_ANY_EMOJI));
    let mut i: usize = 1;
    while i <= 11
        invariant
            1 <= i <= 12,
            cur == opt_view(current),
            views_of(options@) =~= rank_options_view(cur).take(i as int),
        decreases 12 - i,
    {
        let (label, value, emoji_id) = rank_option_entry(i);
        let selected = match current {
            Some(c) => str_eq(c, value),
            None => false,
        };
        let node = emoji_option(label, value, selected, (value, emoji_id));
        assert(node@ == rank_options_view(cur)[i as int]);
        let ghost before = options@;
        options.push(node);
        assert(views_of(options@) =~= views_of(before).push(node@));
        assert(rank_options_view(cur).take(i + 1) =~= rank_options_view(cur).take(i as int).push(
            node@,
        ));
        i += 1;
    }
    assert(rank_options_view(cur).take(12) =~= rank_options_view(cur));
    select_row(custom_id, placeholder, options)
}

// ── Slots, time and watch window ────────────────────────────────────────────

/// Label of the slot option `n`: "1 Platz", otherwise "n Plätze".
pub open spec fn slots_label(n: int) -> Seq<char> {
    if n == 1 {
        "1 Platz"@
    } else {
        int_dec(n) + " Plätze"@
    }
}

/// One option per slot count from 1 to the mode's cap.
pub open spec fn slot_options_view(mode: LfgMode, current: Option<i32>) -> Seq<JsonView> {
    Seq::new(
        slot_cap_spec(mode) as nat,
        |k: int| option_view(slots_label(k + 1), int_dec(k + 1), current == Some((k + 1) as i32)),
    )
}

pub fn lfg_slots_select(mode: LfgMode, current: Option<i32>) -> (r: JsonNode)
    ensures
        r@ == select_row_view(
            LFG_SLOTS_SELECT_CUSTOM_ID@,
            LFG_SLOTS_PLACEHOLDER@,
            slot_options_view(mode, current),
        ),
{
    let cap = slot_select_cap(mode);
    let mut options: Vec<JsonNode> = Vec::new();
    let mut n: i32 = 1;
    while n <= cap
        invariant
            1 <= n <= cap + 1,
            cap == slot_cap_spec(mode),
            1 <= cap <= 5,
            views_of(options@) =~= slot_options_view(mode, current).take(n - 1),
        decreases cap + 1 - n,
    {
        let label = if n == 1 {
            jstr_owned("1 Platz")
        } else {
            let mut v: Vec<char> = Vec::new();
            push_u64(&mut v, n as u64);
            append_str(&mut v, " Plätze");
            string_of(&v)
        };
        let selected = match current {
            Some(c) => c == n,
            None => false,
        };
        let node = option(label, u64_to_string(n as u64), selected);
        assert(node@ == slot_options_view(mode, current)[n - 1]);
        let ghost before = options@;
        options.push(node);
        assert(views_of(options@) =~= views_of(before).push(node@));
        assert(slot_options_view(mode, current).take(n as int) =~= slot_options_view(
            mode,
            current,
        ).take(n - 1).push(node@));
        n += 1;
    }
    assert(slot_options_view(mode, current).take(cap as int) =~= slot_options_view(mode, current));
    select_row(LFG_SLOTS_SELECT_CUSTOM_ID, LFG_SLOTS_PLACEHOLDER, options)
}

/// The play windows in select order.
pub open spec fn play_window_at(k: int) -> LfgPlayWindow {
    if k == 0 {
        LfgPlayWindow::Jetzt
    } else if k == 1 {
        LfgPlayWindow::HeuteAbend
    } else if k == 2 {
        LfgPlayWindow::Wochenende
    } else {
        LfgPlayWindow::Flexibel
    }
}

/// One option per play window: emoji and label, the stored name as value.
pub open spec fn when_options_view(current: Option<LfgPlayWindow>) -> Seq<JsonView> {
    Seq::new(
        4,
        |k: int|
            option_view(
                window_emoji(play_window_at(k)) + " "@ + window_label(play_window_at(k)),
                window_str(play_window_at(k)),
                current == Some(play_window_at(k)),
            ),
    )
}

fn play_window_exec(k: usize) -> (r: LfgPlayWindow)
    requires
        k < 4,
    ensures
        r == play_window_at(k as int),
{
    match k {
        0 => LfgPlayWindow::Jetzt,
        1 => LfgPlayWindow::HeuteAbend,
        2 => LfgPlayWindow::Wochenende,
        _ => LfgPlayWindow::Flexibel,
    }
}

pub fn lfg_when_select(current: Option<LfgPlayWindow>) -> (r: JsonNode)
    ensures
        r@ == select_row_view(
            LFG_WHEN_SELECT_CUSTOM_ID@,
            LFG_WHEN_PLACEHOLDER@,
            when_options_view(current),
        ),
{
    let mut options: Vec<JsonNode> = Vec::new();
    let mut k: usize = 0;
    while k < 4
        invariant
            k <= 4,
            views_of(options@) =~= when_options_view(current).take(k as int),
        decreases 4 - k,
    {
        let w = play_window_exec(k);
        let mut label = chars_of(w.emoji());
        append_str(&mut label, " ");
        append_str(&mut label, w.label());
        let selected = match current {
            Some(c) => c == w,
            None => false,
        };
        let node = option(string_of(&label), jstr_owned(w.as_str()), selected);
        assert(node@ == when_options_view(current)[k as int]);
        let ghost before = options@;
        options.push(node);
        assert(views_of(options@) =~= views_of(before).push(node@));
        assert(when_options_view(current).take(k + 1) =~= when_options_view(current).take(
            k as int,
        ).push(node@));
        k += 1;
    }
    assert(when_options_view(current).take(4) =~= when_options_view(current));
    select_row(LFG_WHEN_SELECT_CUSTOM_ID, LFG_WHEN_PLACEHOLDER, options)
}

fn jstr_owned(s: &str) -> (r: String)
    ensures
        r@ == s@,
{
    let v = chars_of(s);
    string_of(&v)
}

/// The watch windows in select order, with their labels.
pub open spec fn watch_window_at(k: int) -> (LfgWatchWindow, Seq<char>) {
    if k == 0 {
        (LfgWatchWindow::Now3h, "⚡ Die nächsten 3 Stunden"@)
    } else if k == 1 {
        (LfgWatchWindow::Today, "🌙 Heute"@)
    } else if k == 2 {
        (LfgWatchWindow::Weekend, "📅 Dieses Wochenende"@)
    } else {
        (LfgWatchWindow::Week, "🗓️ Diese Woche"@)
    }
}

pub open spec fn watch_window_options_view(current: Option<LfgWatchWindow>) -> Seq<JsonView> {
    Seq::new(
        4,
        |k: int|
            option_view(
                watch_window_at(k).1,
                watch_window_str(watch_window_at(k).0),
                current == Some(watch_window_at(k).0),
            ),
    )
}

fn watch_window_exec(k: usize) -> (r: (LfgWatchWindow, &'static str))
    requires
        k < 4,
    ensures
        r.0 == watch_window_at(k as int).0,
        r.1@ == watch_window_at(k as int).1,
{
    match k {
        0 => (LfgWatchWindow::Now3h, "⚡ Die nächsten 3 Stunden"),
        1 => (LfgWatchWindow::Today, "🌙 Heute"),
        2 => (LfgWatchWindow::Weekend, "📅 Dieses Wochenende"),
        _ => (LfgWatchWindow::Week, "🗓️ Diese Woche"),
    }
}

pub fn lfg_watch_window_select(current: Option<LfgWatchWindow>) -> (r: JsonNode)
    ensures
        r@ == select_row_view(
            LFG_WATCH_WINDOW_SELECT_CUSTOM_ID@,
            LFG_WATCH_WINDOW_PLACEHOLDER@,
            watch_window_options_view(current),
        ),
{
    let mut options: Vec<JsonNode> = Vec::new();
    let mut k: usize = 0;
    while k < 4
        invariant
            k <= 4,
            views_of(options@) =~= watch_window_options_view(current).take(k as int),
        decreases 4 - k,
    {
        let (w, label) = watch_window_exec(k);
        let selected = match current {
            Some(c) => c == w,
            None => false,
        };
        let node = option(jstr_owned(label), jstr_owned(w.as_str()), selected);
        assert(node@ == watch_window_options_view(current)[k as int]);
        let ghost before = options@;
        options.push(node);
        assert(views_of(options@) =~= views_of(before).push(node@));
        assert(watch_window_options_view(current).take(k + 1) =~= watch_window_options_view(
            current,
        ).take(k as int).push(node@));
        k += 1;
    }
    assert(watch_window_options_view(current).take(4) =~= watch_window_options_view(current));
    select_row(LFG_WATCH_WINDOW_SELECT_CUSTOM_ID, LFG_WATCH_WINDOW_PLACEHOLDER, options)
}

// ── Dialogs ─────────────────────────────────────────────────────────────────

/// The three mode buttons (casual, ranked, street brawl) with their server
/// emojis; ranked is the primary button. `prefix` starts their custom ids.
pub open spec fn mode_buttons_view(
    prefix: Seq<char>,
    casual: (Seq<char>, Seq<char>),
    ranked: (Seq<char>, Seq<char>),
    brawl: (Seq<char>, Seq<char>),
) -> Seq<JsonView> {
    seq![
        emoji_button_view(
            2,
            LFG_MODE_BUTTON_CASUAL@,
            prefix + mode_str(LfgMode::Casual),
            casual.0,
            casual.1,
        ),
        emoji_button_view(
            1,
            LFG_MODE_BUTTON_RANKED@,
            prefix + mode_str(LfgMode::Ranked),
            ranked.0,
            ranked.1,
        ),
        emoji_button_view(
            2,
            LFG_MODE_BUTTON_STREET_BRAWL@,
            prefix + mode_str(LfgMode::StreetBrawl),
            brawl.0,
            brawl.1,
        ),
    ]
}

pub open spec fn pair_view(p: (&str, &str)) -> (Seq<char>, Seq<char>) {
    (p.0@, p.1@)
}

fn mode_buttons(
    watch: bool,
    casual: (&str, &str),
    ranked: (&str, &str),
    brawl: (&str, &str),
) -> (r: Vec<JsonNode>)
    ensures
        views_of(r@) == mode_buttons_view(
            if watch {
                LFG_WATCH_MODE_PREFIX@
            } else {
                LFG_CREATE_MODE_PREFIX@
            },
            pair_view(casual),
            pair_view(ranked),
            pair_view(brawl),
        ),
{
    let (c, k, b) = if watch {
        (
            LfgMode::Casual.watch_mode_custom_id(),
            LfgMode::Ranked.watch_mode_custom_id(),
            LfgMode::StreetBrawl.watch_mode_custom_id(),
        )
    } else {
        (
            LfgMode::Casual.mode_custom_id(),
            LfgMode::Ranked.mode_custom_id(),
            LfgMode::StreetBrawl.mode_custom_id(),
        )
    };
    let r = vec![
        emoji_button(2, LFG_MODE_BUTTON_CASUAL, c.as_str(), casual),
        emoji_button(1, LFG_MODE_BUTTON_RANKED, k.as_str(), ranked),
        emoji_button(2, LFG_MODE_BUTTON_STREET_BRAWL, b.as_str(), brawl),
    ];
    assert(views_of(r@) =~= mode_buttons_view(
        if watch {
            LFG_WATCH_MODE_PREFIX@
        } else {
            LFG_CREATE_MODE_PREFIX@
        },
        pair_view(casual),
        pair_view(ranked),
        pair_view(brawl),
    ));
    r
}

/// The mode choice of the create flow: one row of mode buttons.
pub fn lfg_mode_selection_components(
    casual: (&str, &str),
    ranked: (&str, &str),
    brawl: (&str, &str),
) -> (r: JsonNode)
    ensures
        r@ == JsonView::Array(
            seq![
                action_row_view(
                    mode_buttons_view(
                        LFG_CREATE_MODE_PREFIX@,
                        pair_view(casual),
                        pair_view(ranked),
                        pair_view(brawl),
                    ),
                ),
            ],
        ),
{
    let row = action_row(mode_buttons(false, casual, ranked, brawl));
    let ghost rv = row@;
    let r = jarr(vec![row]);
    assert(r@->Array_0 =~= seq![rv]);
    r
}

/// The mode row of the watch builder.
pub fn lfg_watch_mode_components(
    casual: (&str, &str),
    ranked: (&str, &str),
    brawl: (&str, &str),
) -> (r: JsonNode)
    ensures
        r@ == action_row_view(
            mode_buttons_view(
                LFG_WATCH_MODE_PREFIX@,
                pair_view(casual),
                pair_view(ranked),
                pair_view(brawl),
            ),
        ),
{
    action_row(mode_buttons(true, casual, ranked, brawl))
}

/// The button under a new post that opens a lane for it.
pub fn lfg_success_components(post_id: i64) -> (r: JsonNode)
    ensures
        r@ == JsonView::Array(
            seq![
                action_row_view(
                    seq![
                        button_view(
                            1,
                            LFG_BTN_LANE_AUFMACHEN@,
                            LFG_OPEN_LANE_PREFIX@ + int_dec(post_id as int),
                        ),
                    ],
                ),
            ],
        ),
{
    let id = lfg_open_lane_custom_id(post_id);
    let b = button(1, LFG_BTN_LANE_AUFMACHEN, id.as_str());
    let ghost bv = b@;
    let items = vec![b];
    assert(views_of(items@) =~= seq![bv]);
    let row = action_row(items);
    let ghost rv = row@;
    let r = jarr(vec![row]);
    assert(r@->Array_0 =~= seq![rv]);
    r
}

/// The selects of a draft: rank from, rank to, slots, time, then the post
/// button of the draft's mode; each select preselects the draft's value.
pub open spec fn draft_components_view(
    mode: LfgMode,
    rank_from: Option<Seq<char>>,
    rank_to: Option<Seq<char>>,
    slots: Option<i32>,
    play_window: Option<LfgPlayWindow>,
) -> JsonView {
    JsonView::Array(
        seq![
            select_row_view(
                LFG_RANK_FROM_SELECT_CUSTOM_ID@,
                LFG_RANK_FROM_PLACEHOLDER@,
                rank_options_view(rank_from),
            ),
            select_row_view(
                LFG_RANK_TO_SELECT_CUSTOM_ID@,
                LFG_RANK_TO_PLACEHOLDER@,
                rank_options_view(rank_to),
            ),
            select_row_view(
                LFG_SLOTS_SELECT_CUSTOM_ID@,
                LFG_SLOTS_PLACEHOLDER@,
                slot_options_view(mode, slots),
            ),
            select_row_view(
                LFG_WHEN_SELECT_CUSTOM_ID@,
                LFG_WHEN_PLACEHOLDER@,
                when_options_view(play_window),
            ),
            action_row_view(seq![button_view(1, LFG_BTN_POSTEN@, LFG_POST_PREFIX@ + mode_str(mode))]),
        ],
    )
}

pub open spec fn opt_string_view(s: Option<String>) -> Option<Seq<char>> {
    match s {
        Some(t) => Some(t@),
        None => None,
    }
}

fn opt_as_str(s: &Option<String>) -> (r: Option<&str>)
    ensures
        opt_view(r) == opt_string_view(*s),
{
    match s {
        Some(t) => Some(t.as_str()),
        None => None,
    }
}

pub fn lfg_draft_components(draft: &LfgDraft) -> (r: JsonNode)
    ensures
        r@ == draft_components_view(
            draft.mode,
            opt_string_view(draft.rank_from),
            opt_string_view(draft.rank_to),
            draft.slots,
            draft.play_window,
        ),
{
    let from = lfg_rank_select(
        LFG_RANK_FROM_SELECT_CUSTOM_ID,
        LFG_RANK_FROM_PLACEHOLDER,
        opt_as_str(&draft.rank_from),
    );
    let to = lfg_rank_select(
        LFG_RANK_TO_SELECT_CUSTOM_ID,
        LFG_RANK_TO_PLACEHOLDER,
        opt_as_str(&draft.rank_to),
    );
    let slots = lfg_slots_select(draft.mode, draft.slots);
    let when = lfg_when_select(draft.play_window);
    let post_id = lfg_post_custom_id(draft.mode);
    let post = button(1, LFG_BTN_POSTEN, post_id.as_str());
    let ghost pv = post@;
    let post_items = vec![post];
    assert(views_of(post_items@) =~= seq![pv]);
    let row = action_row(post_items);
    let items = vec![from, to, slots, when, row];
    let ghost iv = views_of(items@);
    let r = jarr(items);
    assert(r@->Array_0 =~= draft_components_view(
        draft.mode,
        opt_string_view(draft.rank_from),
        opt_string_view(draft.rank_to),
        draft.slots,
        draft.play_window,
    )->Array_0);
    r
}

/// The watch builder: the mode row, rank from, rank to, the watch window,
/// then the activate button.
pub open spec fn watch_components_view(
    rank_from: Option<Seq<char>>,
    rank_to: Option<Seq<char>>,
    window: Option<LfgWatchWindow>,
    casual: (Seq<char>, Seq<char>),
    ranked: (Seq<char>, Seq<char>),
    brawl: (Seq<char>, Seq<char>),
) -> JsonView {
    JsonView::Array(
        seq![
            action_row_view(mode_buttons_view(LFG_WATCH_MODE_PREFIX@, casual, ranked, brawl)),
            select_row_view(
                LFG_WATCH_RANK_FROM_SELECT_CUSTOM_ID@,
                LFG_RANK_FROM_PLACEHOLDER@,
                rank_options_view(rank_from),
            ),
            select_row_view(
                LFG_WATCH_RANK_TO_SELECT_CUSTOM_ID@,
                LFG_RANK_TO_PLACEHOLDER@,
                rank_options_view(rank_to),
            ),
            select_row_view(
                LFG_WATCH_WINDOW_SELECT_CUSTOM_ID@,
                LFG_WATCH_WINDOW_PLACEHOLDER@,
                watch_window_options_view(window),
            ),
            action_row_view(
                seq![button_view(1, LFG_WATCH_BTN_AKTIVIEREN@, LFG_WATCH_ACTIVATE_CUSTOM_ID@)],
            ),
        ],
    )
}

pub fn lfg_watch_components(
    draft: &LfgWatchDraft,
    casual: (&str, &str),
    ranked: (&str, &str),
    brawl: (&str, &str),
) -> (r: JsonNode)
    ensures
        r@ == watch_components_view(
            opt_string_view(draft.rank_from),
            opt_string_view(draft.rank_to),
            draft.window,
            pair_view(casual),
            pair_view(ranked),
            pair_view(brawl),
        ),
{
    let modes = lfg_watch_mode_components(casual, ranked, brawl);
    let from = lfg_rank_select(
        LFG_WATCH_RANK_FROM_SELECT_CUSTOM_ID,
        LFG_RANK_FROM_PLACEHOLDER,
        opt_as_str(&draft.rank_from),
    );
    let to = lfg_rank_select(
        LFG_WATCH_RANK_TO_SELECT_CUSTOM_ID,
        LFG_RANK_TO_PLACEHOLDER,
        opt_as_str(&draft.rank_to),
    );
    let window = lfg_watch_window_select(draft.window);
    let activate = button(1, LFG_WATCH_BTN_AKTIVIEREN, LFG_WATCH_ACTIVATE_CUSTOM_ID);
    let ghost av = activate@;
    let activate_items = vec![activate];
    assert(views_of(activate_items@) =~= seq![av]);
    let row = action_row(activate_items);
    let items = vec![modes, from, to, window, row];
    let r = jarr(items);
    assert(r@->Array_0 =~= watch_components_view(
        opt_string_view(draft.rank_from),
        opt_string_view(draft.rank_to),
        draft.window,
        pair_view(casual),
        pair_view(ranked),
        pair_view(brawl),
    )->Array_0);
    r
}

// ── Laws ────────────────────────────────────────────────────────────────────

/// Whether a select option is preselected.
pub open spec fn is_default(option: JsonView) -> bool {
    option->Object_0[2].1 == JsonView::Bool(true)
}

proof fn lemma_rank_values_distinct(i: int, j: int)
    requires
        1 <= i <= 11,
        1 <= j <= 11,
        i != j,
    ensures
        rank_option_value(i) != rank_option_value(j),
{
    reveal_strlit("initiate");
    reveal_strlit("seeker");
    reveal_strlit("acolyte");
    reveal_strlit("sentinel");
    reveal_strlit("mystic");
    reveal_strlit("ritualist");
    reveal_strlit("emissary");
    reveal_strlit("oracle");
    reveal_strlit("phantom");
    reveal_strlit("ascendant");
    reveal_strlit("eternus");
    let a = rank_option_value(i);
    let b = rank_option_value(j);
    if a == b {
        assert(a.len() == b.len());
        assert(a[0] == b[0]);
        assert(a[1] == b[1]);
        assert(a[2] == b[2]);
    }
}

/// A rank select preselects at most one option, the rank that the draft
/// holds, and none when the draft holds no rank; "any rank" is never
/// preselected.
pub proof fn lemma_rank_select_one_default(current: Option<Seq<char>>)
    ensures
        forall|i: int, j: int|
            0 <= i < 12 && 0 <= j < 12 && is_default(#[trigger] rank_options_view(current)[i])
                && is_default(#[trigger] rank_options_view(current)[j]) ==> i == j,
        forall|i: int|
            0 <= i < 12 && is_default(#[trigger] rank_options_view(current)[i]) ==> i >= 1
                && current == Some(rank_option_value(i)),
        current is None ==> forall|i: int|
            0 <= i < 12 ==> !is_default(#[trigger] rank_options_view(current)[i]),
{
    let opts = rank_options_view(current);
    assert forall|i: int|
        0 <= i < 12 && is_default(#[trigger] opts[i]) implies i >= 1 && current == Some(
        rank_option_value(i),
    ) by {
        if i == 0 {
            assert(opts[0] == emoji_option_view(
                LFG_RANK_ANY_LABEL@,
                LFG_RANK_ANY_VALUE@,
                false,
                LFG_RANK_ANY_EMOJI.0@,
                LFG_RANK_ANY_EMOJI.1@,
            ));
        } else {
            assert(opts[i] == emoji_option_view(
                rank_option_label(i),
                rank_option_value(i),
                current == Some(rank_option_value(i)),
                rank_option_value(i),
                rank_option_emoji_id(i),
            ));
        }
    }
    assert forall|i: int, j: int|
        0 <= i < 12 && 0 <= j < 12 && is_default(#[trigger] opts[i]) && is_default(
            #[trigger] opts[j],
        ) implies i == j by {
        if i != j {
            lemma_rank_values_distinct(i, j);
        }
    }
}

/// The slot select preselects at most the slot count that the draft holds,
/// and nothing when it holds none.
pub proof fn lemma_slot_select_one_default(mode: LfgMode, current: Option<i32>)
    ensures
        forall|k: int|
            0 <= k < slot_cap_spec(mode) && is_default(#[trigger] slot_options_view(mode, current)[k])
                ==> current == Some((k + 1) as i32),
        forall|i: int, j: int|
            0 <= i < slot_cap_spec(mode) && 0 <= j < slot_cap_spec(mode) && is_default(
                #[trigger] slot_options_view(mode, current)[i],
            ) && is_default(#[trigger] slot_options_view(mode, current)[j]) ==> i == j,
{
}

/// The time and the watch-window selects preselect at most the window that
/// the draft holds.
pub proof fn lemma_window_selects_one_default(
    play: Option<LfgPlayWindow>,
    watch: Option<LfgWatchWindow>,
)
    ensures
        forall|i: int, j: int|
            0 <= i < 4 && 0 <= j < 4 && is_default(#[trigger] when_options_view(play)[i])
                && is_default(#[trigger] when_options_view(play)[j]) ==> i == j,
        forall|k: int|
            0 <= k < 4 && is_default(#[trigger] when_options_view(play)[k]) ==> play == Some(
                play_window_at(k),
            ),
        forall|i: int, j: int|
            0 <= i < 4 && 0 <= j < 4 && is_default(#[trigger] watch_window_options_view(watch)[i])
                && is_default(#[trigger] watch_window_options_view(watch)[j]) ==> i == j,
        forall|k: int|
            0 <= k < 4 && is_default(#[trigger] watch_window_options_view(watch)[k]) ==> watch
                == Some(watch_window_at(k).0),
{
}

} // verus!
