//! The `!rrang` admin command group of the rank-voice manager: which
//! subcommand a message asks for, the toggle decision and the reply texts.

use vstd::prelude::*;
use crate::rank::{
    channel_arg_spec, mention_spec, parse_channel, parse_mention, rank_name_from_value,
    rank_name_spec, Anchor,
};
use crate::json::{entry, jarr, jnum, jobj, jstr, jstring, num_view, JsonNode, JsonView};
use crate::components::views_of;
use crate::text::{
    append_str, ascii_lower, chars_of, int_dec, is_ascii_seq, lowercase_of, owned, push_i64,
    push_u64, split_whitespace_chars, split_ws_spec, str_eq, string_of, to_lowercase,
};

verus! {

pub const NOT_IN_VOICE_REPLY: &'static str = "❌ Du musst in einem Voice Channel sein.";
pub const USER_NOT_FOUND_REPLY: &'static str = "❌ Benutzer nicht gefunden.";
pub const FORCE_NEEDS_CHANNEL_REPLY: &'static str =
    "❌ In einem Sprachkanal sein oder Kanal angeben.";
pub const FORCE_NOT_MONITORED_REPLY: &'static str = "❌ Dieser Kanal wird nicht überwacht.";
pub const TOGGLE_USAGE_REPLY: &'static str = "❌ Verwende: `ein`/`on` oder `aus`/`off`";
pub const NO_ANCHOR_TEXT: &'static str = "Kein Anker gesetzt";
pub const SYSTEM_DISABLED_TEXT: &'static str = "System deaktiviert";

/// What the argument of `toggle` asks for.
#[derive(Debug, Clone, Copy, PartialEq, Eq, Structural)]
pub enum ToggleAction {
    On,
    Off,
    Other,
}

pub open spec fn toggle_action_spec(lower: Seq<char>) -> ToggleAction {
    if lower == "ein"@ || lower == "on"@ || lower == "aktivieren"@ || lower == "enable"@ {
        ToggleAction::On
    } else if lower == "aus"@ || lower == "off"@ || lower == "deaktivieren"@ || lower
        == "disable"@ {
        ToggleAction::Off
    } else {
        ToggleAction::Other
    }
}

fn toggle_action(arg: &str) -> (r: ToggleAction)
    ensures
        r == toggle_action_spec(lowercase_of(arg@)),
        is_ascii_seq(arg@) ==> r == toggle_action_spec(ascii_lower(arg@)),
{
    let lower = to_lowercase(arg);
    let l = lower.as_str();
    if str_eq(l, "ein") || str_eq(l, "on") || str_eq(l, "aktivieren") || str_eq(l, "enable") {
        ToggleAction::On
    } else if str_eq(l, "aus") || str_eq(l, "off") || str_eq(l, "deaktivieren") || str_eq(
        l,
        "disable",
    ) {
        ToggleAction::Off
    } else {
        ToggleAction::Other
    }
}

/// A `!rrang` subcommand with its parsed first argument.
#[derive(Debug, Clone, PartialEq, Eq)]
pub enum RrangCommand {
    Help,
    Toggle { action: Option<ToggleAction> },
    Anchors,
    VcStatus,
    Debug { target: Option<u64> },
    ForceUpdate { channel: Option<u64> },
    Roles,
    Channels,
    Status,
    Info { target: Option<u64> },
    Unknown { sub: String },
}

pub open spec fn opt_mention(arg: Option<Seq<char>>) -> Option<u64> {
    match arg {
        Some(a) => mention_spec(a),
        None => None,
    }
}

/// The command for a lowercased subcommand and the first argument.
pub open spec fn rrang_matches(cmd: RrangCommand, sub: Seq<char>, arg: Option<Seq<char>>) -> bool {
    if sub == ""@ {
        cmd == RrangCommand::Help
    } else if sub == "toggle"@ {
        cmd == RrangCommand::Toggle {
            action: match arg {
                Some(a) => Some(toggle_action_spec(lowercase_of(a))),
                None => None,
            },
        }
    } else if sub == "anker"@ {
        cmd == RrangCommand::Anchors
    } else if sub == "vcstatus"@ {
        cmd == RrangCommand::VcStatus
    } else if sub == "debug"@ {
        cmd == RrangCommand::Debug { target: opt_mention(arg) }
    } else if sub == "aktualisieren"@ {
        cmd == RrangCommand::ForceUpdate {
            channel: match arg {
                Some(a) => channel_arg_spec(a),
                None => None,
            },
        }
    } else if sub == "rollen"@ {
        cmd == RrangCommand::Roles
    } else if sub == "kanäle"@ || sub == "kanaele"@ || sub == "channels"@ {
        cmd == RrangCommand::Channels
    } else if sub == "status"@ {
        cmd == RrangCommand::Status
    } else if sub == "info"@ {
        cmd == RrangCommand::Info { target: opt_mention(arg) }
    } else {
        cmd matches RrangCommand::Unknown { sub: s } && s@ == sub
    }
}

/// The words of a message that is a `!rrang` command: its first word,
/// lowercased, is `!rrang`.
pub open spec fn is_rrang(words: Seq<Seq<char>>) -> bool {
    words.len() > 0 && lowercase_of(words[0]) == "!rrang"@
}

fn subcommand(sub: &str, arg: Option<&str>) -> (r: RrangCommand)
    ensures
        r matches RrangCommand::Toggle { action: Some(a) } ==> (arg matches Some(x) && (
        is_ascii_seq(x@) ==> a == toggle_action_spec(ascii_lower(x@)))),
        rrang_matches(
            r,
            sub@,
            match arg {
                Some(a) => Some(a@),
                None => None,
            },
        ),
{
    if str_eq(sub, "") {
        RrangCommand::Help
    } else if str_eq(sub, "toggle") {
        RrangCommand::Toggle {
            action: match arg {
                Some(a) => Some(toggle_action(a)),
                None => None,
            },
        }
    } else if str_eq(sub, "anker") {
        RrangCommand::Anchors
    } else if str_eq(sub, "vcstatus") {
        RrangCommand::VcStatus
    } else if str_eq(sub, "debug") {
        RrangCommand::Debug {
            target: match arg {
                Some(a) => parse_mention(a),
                None => None,
            },
        }
    } else if str_eq(sub, "aktualisieren") {
        RrangCommand::ForceUpdate {
            channel: match arg {
                Some(a) => parse_channel(a),
                None => None,
            },
        }
    } else if str_eq(sub, "rollen") {
        RrangCommand::Roles
    } else if str_eq(sub, "kanäle") || str_eq(sub, "kanaele") || str_eq(sub, "channels") {
        RrangCommand::Channels
    } else if str_eq(sub, "status") {
        RrangCommand::Status
    } else if str_eq(sub, "info") {
        RrangCommand::Info {
            target: match arg {
                Some(a) => parse_mention(a),
                None => None,
            },
        }
    } else {
        RrangCommand::Unknown { sub: owned(sub) }
    }
}

/// The `!rrang` command of a message; `None` when it is not one. The
/// subcommand is the second word lowercased (none: help), the argument the
/// third word.
pub fn parse_rrang(content: &str) -> (r: Option<RrangCommand>)
    ensures
        r matches Some(RrangCommand::Toggle { action: Some(a) }) ==> ({
            let words = split_ws_spec(content@);
            words.len() > 2 && (is_ascii_seq(words[2]) ==> a == toggle_action_spec(
                ascii_lower(words[2]),
            ))
        }),
        is_rrang(split_ws_spec(content@)) <==> r is Some,
        r matches Some(cmd) ==> ({
            let words = split_ws_spec(content@);
            rrang_matches(
                cmd,
                if words.len() > 1 {
                    lowercase_of(words[1])
                } else {
                    seq![]
                },
                if words.len() > 2 {
                    Some(words[2])
                } else {
                    None
                },
            )
        }),
{
    let v = chars_of(content);
    let words = split_whitespace_chars(&v);
    let ghost wv = words@.map_values(|w: Vec<char>| w@);
    if words.len() == 0 {
        return None;
    }
    assert(wv[0] == words@[0]@);
    let first = string_of(&words[0]);
    let root = to_lowercase(first.as_str());
    if !str_eq(root.as_str(), "!rrang") {
        return None;
    }
    let sub = if words.len() > 1 {
        assert(wv[1] == words@[1]@);
        let s = string_of(&words[1]);
        to_lowercase(s.as_str())
    } else {
        let e = owned("");
        proof {
            reveal_strlit("");
            assert(e@ =~= Seq::<char>::empty());
        }
        e
    };
    let ghost sub_view = if words.len() > 1 {
        lowercase_of(wv[1])
    } else {
        seq![]
    };
    assert(sub@ == sub_view);
    let arg = if words.len() > 2 {
        assert(wv[2] == words@[2]@);
        Some(string_of(&words[2]))
    } else {
        None
    };
    let cmd = match &arg {
        Some(a) => {
            assert(a@ == wv[2]);
            subcommand(sub.as_str(), Some(a.as_str()))
        },
        None => subcommand(sub.as_str(), None),
    };
    Some(cmd)
}

// ── toggle ─────────────────────────────────────────────────────────────────

/// What `toggle` does on a monitored channel.
#[derive(Debug, Clone, Copy, PartialEq, Eq, Structural)]
pub enum ToggleOutcome {
    /// No argument: show the current state.
    Report { enabled: bool },
    AlreadyEnabled,
    Enable,
    AlreadyDisabled,
    Disable,
    Usage,
}

pub fn toggle_outcome(enabled: bool, action: Option<ToggleAction>) -> (r: ToggleOutcome)
    ensures
        r == match action {
            None => ToggleOutcome::Report { enabled },
            Some(ToggleAction::On) => if enabled {
                ToggleOutcome::AlreadyEnabled
            } else {
                ToggleOutcome::Enable
            },
            Some(ToggleAction::Off) => if !enabled {
                ToggleOutcome::AlreadyDisabled
            } else {
                ToggleOutcome::Disable
            },
            Some(ToggleAction::Other) => ToggleOutcome::Usage,
        },
{
    match action {
        None => ToggleOutcome::Report { enabled },
        Some(ToggleAction::On) => if enabled {
            ToggleOutcome::AlreadyEnabled
        } else {
            ToggleOutcome::Enable
        },
        Some(ToggleAction::Off) => if !enabled {
            ToggleOutcome::AlreadyDisabled
        } else {
            ToggleOutcome::Disable
        },
        Some(ToggleAction::Other) => ToggleOutcome::Usage,
    }
}

pub open spec fn toggle_reply_spec(name: Seq<char>, outcome: ToggleOutcome) -> Seq<char> {
    match outcome {
        ToggleOutcome::Report { enabled } => "🔧 Rang-System für **"@ + name + "**: "@ + (if enabled {
            "✅ Aktiviert"@
        } else {
            "❌ Deaktiviert"@
        }),
        ToggleOutcome::AlreadyEnabled => "ℹ️ Bereits aktiviert für **"@ + name + "**."@,
        ToggleOutcome::Enable => "✅ Aktiviert: **"@ + name + "**"@,
        ToggleOutcome::AlreadyDisabled => "ℹ️ Bereits deaktiviert für **"@ + name + "**."@,
        ToggleOutcome::Disable => "❌ Deaktiviert: **"@ + name + "**"@,
        ToggleOutcome::Usage => TOGGLE_USAGE_REPLY@,
    }
}

fn around(pre: &str, name: &str, post: &str) -> (r: String)
    ensures
        r@ == pre@ + name@ + post@,
{
    let mut v = chars_of(pre);
    append_str(&mut v, name);
    append_str(&mut v, post);
    string_of(&v)
}

/// The reply of `toggle` for the channel's name.
pub fn toggle_reply(name: &str, outcome: ToggleOutcome) -> (r: String)
    ensures
        r@ == toggle_reply_spec(name@, outcome),
{
    match outcome {
        ToggleOutcome::Report { enabled } => {
            if enabled {
                let r = around("🔧 Rang-System für **", name, "**: ✅ Aktiviert");
                proof {
                    reveal_strlit("**: ✅ Aktiviert");
                    reveal_strlit("**: ");
                    reveal_strlit("✅ Aktiviert");
                    assert("**: ✅ Aktiviert"@ =~= "**: "@ + "✅ Aktiviert"@);
                }
                r
            } else {
                let r = around("🔧 Rang-System für **", name, "**: ❌ Deaktiviert");
                proof {
                    reveal_strlit("**: ❌ Deaktiviert");
                    reveal_strlit("**: ");
                    reveal_strlit("❌ Deaktiviert");
                    assert("**: ❌ Deaktiviert"@ =~= "**: "@ + "❌ Deaktiviert"@);
                }
                r
            }
        },
        ToggleOutcome::AlreadyEnabled => around("ℹ️ Bereits aktiviert für **", name, "**."),
        ToggleOutcome::Enable => around("✅ Aktiviert: **", name, "**"),
        ToggleOutcome::AlreadyDisabled => around("ℹ️ Bereits deaktiviert für **", name, "**."),
        ToggleOutcome::Disable => around("❌ Deaktiviert: **", name, "**"),
        ToggleOutcome::Usage => owned(TOGGLE_USAGE_REPLY),
    }
}

/// `toggle` on a channel that is not watched.
pub fn not_monitored_reply(name: &str) -> (r: String)
    ensures
        r@ == "❌ **"@ + name@ + "** wird nicht überwacht."@,
{
    around("❌ **", name, "** wird nicht überwacht.")
}

/// A subcommand that does not exist.
pub fn unknown_subcommand_reply(sub: &str) -> (r: String)
    ensures
        r@ == "❌ Unbekannter Subcommand `"@ + sub@ + "`."@,
{
    around("❌ Unbekannter Subcommand `", sub, "`.")
}

/// The reply of a forced update.
pub fn force_updated_reply(name: &str) -> (r: String)
    ensures
        r@ == "✅ Kanal **"@ + name@ + "** aktualisiert."@,
{
    around("✅ Kanal **", name, "** aktualisiert.")
}

// ── Anchor texts ───────────────────────────────────────────────────────────

/// One line of the anchor overview.
pub open spec fn anchor_line_spec(
    channel_name: Seq<char>,
    user_name: Seq<char>,
    a: Anchor,
    member_count: u64,
) -> Seq<char> {
    "**"@ + channel_name + "**\n🔗 Anker: "@ + user_name + " ("@ + a.rank_name@ + " "@ + int_dec(
        a.subrank as int,
    ) + ")\n📊 Tiers: "@ + rank_name_spec(a.allowed_min) + "–"@ + rank_name_spec(a.allowed_max)
        + " | Score: "@ + int_dec(a.score_min as int) + "–"@ + int_dec(a.score_max as int)
        + "\n👥 Aktuelle User: "@ + int_dec(member_count as int) + "\n"@
}

pub fn anchor_line(channel_name: &str, user_name: &str, a: &Anchor, member_count: u64) -> (r:
    String)
    ensures
        r@ == anchor_line_spec(channel_name@, user_name@, *a, member_count),
{
    let mut v = chars_of("**");
    append_str(&mut v, channel_name);
    append_str(&mut v, "**\n🔗 Anker: ");
    append_str(&mut v, user_name);
    append_str(&mut v, " (");
    append_str(&mut v, a.rank_name.as_str());
    append_str(&mut v, " ");
    push_i64(&mut v, a.subrank);
    append_str(&mut v, ")\n📊 Tiers: ");
    let lo = rank_name_from_value(a.allowed_min);
    append_str(&mut v, lo.as_str());
    append_str(&mut v, "–");
    let hi = rank_name_from_value(a.allowed_max);
    append_str(&mut v, hi.as_str());
    append_str(&mut v, " | Score: ");
    push_i64(&mut v, a.score_min);
    append_str(&mut v, "–");
    push_i64(&mut v, a.score_max);
    append_str(&mut v, "\n👥 Aktuelle User: ");
    push_u64(&mut v, member_count);
    append_str(&mut v, "\n");
    string_of(&v)
}

/// The overview line of an anchor whose channel or user is gone.
pub fn stale_anchor_line(channel_id: u64, user_id: u64) -> (r: String)
    ensures
        r@ == "❓ Veralteter Eintrag (Kanal "@ + int_dec(channel_id as int) + ", User "@ + int_dec(
            user_id as int,
        ) + ")"@,
{
    let mut v = chars_of("❓ Veralteter Eintrag (Kanal ");
    push_u64(&mut v, channel_id);
    append_str(&mut v, ", User ");
    push_u64(&mut v, user_id);
    append_str(&mut v, ")");
    string_of(&v)
}

/// The anchor field of `vcstatus`: the anchor while the system is on, else
/// why there is none.
pub open spec fn anchor_status_spec(anchor: Option<(Anchor, Seq<char>)>, enabled: bool) -> Seq<char> {
    if !enabled {
        SYSTEM_DISABLED_TEXT@
    } else {
        match anchor {
            Some((a, user)) => user + " ("@ + a.rank_name@ + " "@ + int_dec(a.subrank as int)
                + ")\nTiers: "@ + rank_name_spec(a.allowed_min) + "–"@ + rank_name_spec(
                a.allowed_max,
            ) + "\nScore: "@ + int_dec(a.score_min as int) + "–"@ + int_dec(a.score_max as int),
            None => NO_ANCHOR_TEXT@,
        }
    }
}

pub fn anchor_status_value(anchor: Option<(&Anchor, &str)>, enabled: bool) -> (r: String)
    ensures
        r@ == anchor_status_spec(
            match anchor {
                Some((a, u)) => Some((*a, u@)),
                None => None,
            },
            enabled,
        ),
{
    if !enabled {
        return owned(SYSTEM_DISABLED_TEXT);
    }
    match anchor {
        None => owned(NO_ANCHOR_TEXT),
        Some((a, user)) => {
            let mut v = chars_of(user);
            append_str(&mut v, " (");
            append_str(&mut v, a.rank_name.as_str());
            append_str(&mut v, " ");
            push_i64(&mut v, a.subrank);
            append_str(&mut v, ")\nTiers: ");
            let lo = rank_name_from_value(a.allowed_min);
            append_str(&mut v, lo.as_str());
            append_str(&mut v, "–");
            let hi = rank_name_from_value(a.allowed_max);
            append_str(&mut v, hi.as_str());
            append_str(&mut v, "\nScore: ");
            push_i64(&mut v, a.score_min);
            append_str(&mut v, "–");
            push_i64(&mut v, a.score_max);
            string_of(&v)
        },
    }
}

// ── vcstatus ────────────────────────────────────────────────────────────────

/// Embed colour of the status reply.
pub const VCSTATUS_COLOR: u64 = 0x3498DB;

/// An embed field.
pub open spec fn field_view(name: Seq<char>, value: Seq<char>, inline: bool) -> JsonView {
    JsonView::Object(
        seq![
            ("name"@, JsonView::Str(name)),
            ("value"@, JsonView::Str(value)),
            ("inline"@, JsonView::Bool(inline)),
        ],
    )
}

pub open spec fn opt_text(s: Option<&str>) -> Option<Seq<char>> {
    match s {
        Some(t) => Some(t@),
        None => None,
    }
}

pub open spec fn opt_anchor(anchor: Option<(&Anchor, &str)>) -> Option<(Anchor, Seq<char>)> {
    match anchor {
        Some((a, u)) => Some((*a, u@)),
        None => None,
    }
}

/// The `vcstatus` embed for the caller's voice channel: its name (the id
/// when unknown) in the title; the channel info (id, category or "–",
/// member count) and whether the channel is monitored; for a monitored
/// channel also whether the rank system is on and the anchor field.
pub open spec fn vcstatus_spec(
    channel_id: u64,
    name: Option<Seq<char>>,
    category: Option<Seq<char>>,
    member_count: usize,
    monitored: bool,
    enabled: bool,
    anchor: Option<(Anchor, Seq<char>)>,
) -> JsonView {
    let shown_name = match name {
        Some(n) => n,
        None => int_dec(channel_id as int),
    };
    let shown_category = match category {
        Some(c) => c,
        None => "–"@,
    };
    let base = seq![
        field_view(
            "📊 Kanal-Info"@,
            "ID: "@ + int_dec(channel_id as int) + "\nKategorie: "@ + shown_category
                + "\nMitglieder: "@ + int_dec(member_count as int),
            true,
        ),
        field_view(
            "👁️ Überwachung"@,
            if monitored {
                "✅ Überwacht"@
            } else {
                "❌ Nicht überwacht"@
            },
            true,
        ),
    ];
    let fields = if monitored {
        base + seq![
            field_view(
                "🔧 Rang-System"@,
                if enabled {
                    "✅ Aktiviert"@
                } else {
                    "❌ Deaktiviert"@
                },
                true,
            ),
            field_view("🔗 Anker"@, anchor_status_spec(anchor, enabled), false),
        ]
    } else {
        base
    };
    JsonView::Object(
        seq![
            ("title"@, JsonView::Str("🔊 Status: "@ + shown_name)),
            ("color"@, num_view(VCSTATUS_COLOR as int)),
            ("fields"@, JsonView::Array(fields)),
        ],
    )
}

fn field(name: &str, value: String, inline: bool) -> (r: JsonNode)
    ensures
        r@ == field_view(name@, value@, inline),
{
    let ghost v = value@;
    let r = jobj(
        vec![
            entry("name", jstr(name)),
            entry("value", jstring(value)),
            entry("inline", JsonNode::Bool(inline)),
        ],
    );
    assert(r@->Object_0 =~= field_view(name@, v, inline)->Object_0);
    r
}

/// The `vcstatus` reply embed (the caller is in `channel_id`; without a
/// voice channel the reply is `NOT_IN_VOICE_REPLY`). `enabled` and
/// `anchor` matter only for a monitored channel.
pub fn vcstatus_reply(
    channel_id: u64,
    name: Option<&str>,
    category: Option<&str>,
    member_count: usize,
    monitored: bool,
    enabled: bool,
    anchor: Option<(&Anchor, &str)>,
) -> (r: JsonNode)
    ensures
        r@ == vcstatus_spec(
            channel_id,
            opt_text(name),
            opt_text(category),
            member_count,
            monitored,
            enabled,
            opt_anchor(anchor),
        ),
{
    let ghost want = vcstatus_spec(
        channel_id,
        opt_text(name),
        opt_text(category),
        member_count,
        monitored,
        enabled,
        opt_anchor(anchor),
    );
    let mut info = chars_of("ID: ");
    push_u64(&mut info, channel_id);
    append_str(&mut info, "\nKategorie: ");
    match category {
        Some(c) => append_str(&mut info, c),
        None => append_str(&mut info, "–"),
    }
    append_str(&mut info, "\nMitglieder: ");
    push_u64(&mut info, member_count as u64);
    let mut fields: Vec<JsonNode> = Vec::new();
    fields.push(field("📊 Kanal-Info", string_of(&info), true));
    fields.push(
        field(
            "👁️ Überwachung",
            owned(
                if monitored {
                    "✅ Überwacht"
                } else {
                    "❌ Nicht überwacht"
                },
            ),
            true,
        ),
    );
    if monitored {
        fields.push(
            field(
                "🔧 Rang-System",
                owned(
                    if enabled {
                        "✅ Aktiviert"
                    } else {
                        "❌ Deaktiviert"
                    },
                ),
                true,
            ),
        );
        fields.push(field("🔗 Anker", anchor_status_value(anchor, enabled), false));
    }
    assert(views_of(fields@) =~= want->Object_0[2].1->Array_0);
    let mut title = chars_of("🔊 Status: ");
    match name {
        Some(n) => append_str(&mut title, n),
        None => push_u64(&mut title, channel_id),
    }
    let list = jarr(fields);
    let r = jobj(
        vec![
            entry("title", jstring(string_of(&title))),
            entry("color", jnum(VCSTATUS_COLOR)),
            entry("fields", list),
        ],
    );
    assert(r@->Object_0 =~= want->Object_0);
    r
}

/// The documented `toggle` words: `ein`, `on`, `aktivieren` and `enable`
/// switch the rank system on, `aus`, `off`, `deaktivieren` and `disable`
/// switch it off (each lowercased); any other word asks for the usage.
pub proof fn lemma_toggle_words(lower: Seq<char>)
    ensures
        toggle_action_spec(lower) == ToggleAction::On <==> (lower == "ein"@ || lower == "on"@
            || lower == "aktivieren"@ || lower == "enable"@),
        toggle_action_spec(lower) == ToggleAction::Off <==> (lower == "aus"@ || lower == "off"@
            || lower == "deaktivieren"@ || lower == "disable"@),
{
    reveal_strlit("ein");
    reveal_strlit("on");
    reveal_strlit("aktivieren");
    reveal_strlit("enable");
    reveal_strlit("aus");
    reveal_strlit("off");
    reveal_strlit("deaktivieren");
    reveal_strlit("disable");
    assert("ein"@[0] != "aus"@[0]);
    assert("ein"@ != "aus"@);
    assert("ein"@[0] != "off"@[0]);
    assert("ein"@ != "off"@);
    assert("ein"@.len() != "deaktivieren"@.len());
    assert("ein"@ != "deaktivieren"@);
    assert("ein"@.len() != "disable"@.len());
    assert("ein"@ != "disable"@);
    assert("on"@.len() != "aus"@.len());
    assert("on"@ != "aus"@);
    assert("on"@.len() != "off"@.len());
    assert("on"@ != "off"@);
    assert("on"@.len() != "deaktivieren"@.len());
    assert("on"@ != "deaktivieren"@);
    assert("on"@.len() != "disable"@.len());
    assert("on"@ != "disable"@);
    assert("aktivieren"@.len() != "aus"@.len());
    assert("aktivieren"@ != "aus"@);
    assert("aktivieren"@.len() != "off"@.len());
    assert("aktivieren"@ != "off"@);
    assert("aktivieren"@.len() != "deaktivieren"@.len());
    assert("aktivieren"@ != "deaktivieren"@);
    assert("aktivieren"@.len() != "disable"@.len());
    assert("aktivieren"@ != "disable"@);
    assert("enable"@.len() != "aus"@.len());
    assert("enable"@ != "aus"@);
    assert("enable"@.len() != "off"@.len());
    assert("enable"@ != "off"@);
    assert("enable"@.len() != "deaktivieren"@.len());
    assert("enable"@ != "deaktivieren"@);
    assert("enable"@.len() != "disable"@.len());
    assert("enable"@ != "disable"@);
}

} // verus!
