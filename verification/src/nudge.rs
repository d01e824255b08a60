//! Steam-link nudge: users without a linked Steam account get one DM after
//! 30 minutes in voice on their second voice day. The decisions of the join
//! handler, the admin test command and the refresh of a sent DM.

use vstd::prelude::*;
use crate::components::{action_row, action_row_view, views_of};
use crate::json::{entry, jarr, jnum, jobj, jstr, num_view, JsonNode, JsonView};
use crate::rank::{mention_spec, parse_mention};
use crate::text::{
    append_str, ascii_lower, is_ascii_seq, chars_of, int_dec, lowercase_of, owned, push_u64, split_whitespace_chars,
    split_ws_spec, str_eq, string_of, to_lowercase,
};

verus! {

pub const MIN_VOICE_MINUTES: u64 = 30;
/// Seconds between two voice checks of the 30-minute watch.
pub const POLL_INTERVAL_SECONDS: u64 = 15;
pub const LOG_CHANNEL_ID: u64 = 1374364800817303632;
pub const NUDGE_VIEW_VERSION: i64 = 2;
pub const CLOSE_CUSTOM_ID: &'static str = "nudge_close";
pub const NUDGE_TEST_TARGET_REQUIRED_TEXT: &'static str = "Bitte Ziel angeben: `!nudgesend @user`";
/// Roles that are never nudged (English only).
pub const EXEMPT_ROLE_ID: u64 = 1309741866098491479;
pub const DM_TITLE: &'static str = "Steam-Verknüpfung empfohlen 🔗";
pub const DM_DESCRIPTION: &'static str = "**Was bringt das?**\n• Rang wird korrekt erkannt und auf dem Server zugeordnet\n• Live-Status in den Voice Lanes funktioniert\n• Spielersuche funktioniert richtig für dich\n\n**So funktioniert's:**\n1. Du meldest dich kurz bei Steam an (OpenID - kein Passwort nötig)\n2. Du gibst deinen Steam-Freundescode ein\n3. Wir schicken dir eine Freundschaftsanfrage - einfach annehmen\n4. Fertig! Du bist verifiziert\n\n**Was wir NICHT machen:**\n❌ Keine Passwörter oder Zugangsdaten\n❌ Keine Steam-Freundschaftsliste auslesen\n❌ Keine Spielstände oder Profile einsehen\n❌ Keine Daten an Dritte weitergeben\n❌ Keine Werbung oder Tracking\n\n**Was wir speichern:**\n✓ Discord-ID (damit wir dich zuordnen können)\n✓ SteamID64 (technische ID von Steam)\n✓ Rang-Daten (nur zur Server-Zuordnung)\n\n**Open Source:**\n<https://github.com/NaniDerEchte2/Deadlock-Bots>";
pub const DM_FOOTER: &'static str =
    "Kurzbefehle: /account_verknüpfen · /steam unlink · /steam setprimary";
/// Embed colour of the DM (Discord blurple).
pub const DM_COLOR: u64 = 0x5865F2;
pub const STEAM_BUTTON_LABEL: &'static str = "Mit Steam anmelden";
pub const STEAM_DISABLED_CUSTOM_ID: &'static str = "nudge_steam_disabled";
pub const LINK_SERVICE_DOWN_NOTE: &'static str =
    "\n\n_Heads-up:_ Der Link-Dienst ist gerade nicht verfügbar. Nutze vorerst **/account_verknüpfen**.";

pub open spec fn words_view(v: Seq<Vec<char>>) -> Seq<Seq<char>> {
    v.map_values(|w: Vec<char>| w@)
}

/// Whether a member has a role that is never nudged.
pub fn has_exempt_role(roles: &[u64]) -> (r: bool)
    ensures
        r == roles@.contains(EXEMPT_ROLE_ID),
{
    let mut i: usize = 0;
    while i < roles.len()
        invariant
            i <= roles.len(),
            forall|k: int| 0 <= k < i ==> roles@[k] != EXEMPT_ROLE_ID,
        decreases roles.len() - i,
    {
        if roles[i] == EXEMPT_ROLE_ID {
            return true;
        }
        i += 1;
    }
    false
}

/// What a voice join leads to.
#[derive(Debug, Clone, Copy, PartialEq, Eq, Structural)]
pub enum JoinStep {
    /// Nothing to do.
    Ignore,
    /// First voice day: remember today, nudge on a later day.
    RecordFirstSeen,
    /// A later voice day: start the 30-minute voice watch.
    StartWatch,
}

/// The join decision: opted-out users, exempt roles, linked or finished
/// users and users with an active nudge are left alone; on the first voice
/// day the day is remembered; on the same day nothing happens; on a later
/// day the watch starts.
pub open spec fn join_step_spec(
    opted_out: bool,
    exempt: bool,
    linked_or_done_or_active: bool,
    first_seen: Option<Seq<char>>,
    today: Seq<char>,
) -> JoinStep {
    if opted_out || exempt || linked_or_done_or_active {
        JoinStep::Ignore
    } else {
        match first_seen {
            None => JoinStep::RecordFirstSeen,
            Some(d) => if d == today {
                JoinStep::Ignore
            } else {
                JoinStep::StartWatch
            },
        }
    }
}

pub fn join_step(
    opted_out: bool,
    roles: &[u64],
    linked_or_done_or_active: bool,
    first_seen: Option<&str>,
    today: &str,
) -> (r: JoinStep)
    ensures
        r == join_step_spec(
            opted_out,
            roles@.contains(EXEMPT_ROLE_ID),
            linked_or_done_or_active,
            match first_seen {
                Some(d) => Some(d@),
                None => None,
            },
            today@,
        ),
{
    if opted_out || has_exempt_role(roles) || linked_or_done_or_active {
        return JoinStep::Ignore;
    }
    match first_seen {
        None => JoinStep::RecordFirstSeen,
        Some(d) => {
            if str_eq(d, today) {
                JoinStep::Ignore
            } else {
                JoinStep::StartWatch
            }
        },
    }
}

/// Voice checks the watch needs before the nudge goes out.
pub fn watch_polls() -> (r: u64)
    ensures
        r * POLL_INTERVAL_SECONDS == MIN_VOICE_MINUTES * 60,
{
    MIN_VOICE_MINUTES * 60 / POLL_INTERVAL_SECONDS
}

/// What the refresh of an already sent nudge DM does.
#[derive(Debug, Clone, Copy, PartialEq, Eq, Structural)]
pub enum RefreshStep {
    /// Done without touching Discord; the value says whether the nudge
    /// still counts as active.
    Settled(bool),
    /// Edit the DM to the current view.
    Edit { channel_id: u64, message_id: u64 },
}

/// Without a stored DM the nudge counts as active exactly when it was sent;
/// a DM of the current view is left alone unless forced; otherwise it is
/// edited.
pub fn refresh_step(
    message_id: Option<u64>,
    channel_id: Option<u64>,
    notified: bool,
    view_version: i64,
    force: bool,
) -> (r: RefreshStep)
    ensures
        message_id is None || channel_id is None ==> r == RefreshStep::Settled(notified),
        message_id is Some && channel_id is Some && !force && view_version >= NUDGE_VIEW_VERSION
            ==> r == RefreshStep::Settled(true),
        message_id is Some && channel_id is Some && (force || view_version < NUDGE_VIEW_VERSION)
            ==> r == (RefreshStep::Edit { channel_id: channel_id->0, message_id: message_id->0 }),
{
    match (message_id, channel_id) {
        (Some(m), Some(c)) => {
            if !force && view_version >= NUDGE_VIEW_VERSION {
                RefreshStep::Settled(true)
            } else {
                RefreshStep::Edit { channel_id: c, message_id: m }
            }
        },
        _ => RefreshStep::Settled(notified),
    }
}

/// The result of an edit: the DM exists (`Some(true)`, the nudge is active
/// and is marked again), is gone (`Some(false)`), or the edit failed for
/// another reason (`None`, counted as active).
pub fn edit_outcome(edited: Option<bool>) -> (r: bool)
    ensures
        r == (match edited {
            Some(found) => found,
            None => true,
        }),
{
    match edited {
        Some(found) => found,
        None => true,
    }
}

/// The target of the admin test command from its already lowercased first
/// word and the other words: `None` when it is not `!nudgesend` or `!t30`;
/// otherwise the first mentioned user, else the default (still `None` when
/// neither exists).
pub open spec fn first_mention(words: Seq<Seq<char>>) -> Option<u64>
    decreases words.len(),
{
    if words.len() == 0 {
        None
    } else {
        match mention_spec(words[0]) {
            Some(u) => Some(u),
            None => first_mention(words.drop_first()),
        }
    }
}

pub open spec fn command_target_spec(root_lower: Seq<char>, args: Seq<Seq<char>>, default_id: Option<u64>) -> Option<
    Option<u64>,
> {
    if root_lower != "!nudgesend"@ && root_lower != "!t30"@ {
        None
    } else {
        match first_mention(args) {
            Some(u) => Some(Some(u)),
            None => Some(default_id),
        }
    }
}

pub fn nudge_command_target(root_lower: &str, args: &[Vec<char>], default_id: Option<u64>) -> (r: Option<
    Option<u64>,
>)
    ensures
        r == command_target_spec(root_lower@, words_view(args@), default_id),
{
    if !str_eq(root_lower, "!nudgesend") && !str_eq(root_lower, "!t30") {
        return None;
    }
    let ghost words = words_view(args@);
    let mut i: usize = 0;
    assert(words.subrange(0, words.len() as int) == words);
    while i < args.len()
        invariant
            i <= args.len(),
            words == words_view(args@),
            root_lower@ == "!nudgesend"@ || root_lower@ == "!t30"@,
            first_mention(words) == first_mention(words.subrange(i as int, words.len() as int)),
        decreases args.len() - i,
    {
        let ghost rest = words.subrange(i as int, words.len() as int);
        assert(rest[0] == args@[i as int]@);
        assert(rest.drop_first() == words.subrange(i + 1, words.len() as int));
        let s = string_of(&args[i]);
        match parse_mention(s.as_str()) {
            Some(u) => {
                assert(s@ == rest[0]);
                assert(first_mention(rest) == Some(u));
                return Some(Some(u));
            },
            None => {},
        }
        i += 1;
    }
    Some(default_id)
}

/// The admin test command in a message: its first word lowercased decides
/// whether it is one (see `nudge_command_target`).
pub fn parse_nudgesend(content: &str, default_id: Option<u64>) -> (r: Option<Option<u64>>)
    ensures
        split_ws_spec(content@).len() == 0 ==> r is None,
        split_ws_spec(content@).len() > 0 ==> r == command_target_spec(
            lowercase_of(split_ws_spec(content@)[0]),
            split_ws_spec(content@).drop_first(),
            default_id,
        ),
        split_ws_spec(content@).len() > 0 && is_ascii_seq(split_ws_spec(content@)[0]) ==> r
            == command_target_spec(
            ascii_lower(split_ws_spec(content@)[0]),
            split_ws_spec(content@).drop_first(),
            default_id,
        ),
{
    let v = chars_of(content);
    let words = split_whitespace_chars(&v);
    if words.len() == 0 {
        return None;
    }
    let ghost wv = words@.map_values(|w: Vec<char>| w@);
    assert(wv[0] == words@[0]@);
    let first = string_of(&words[0]);
    let root = to_lowercase(first.as_str());
    let mut rest: Vec<Vec<char>> = Vec::new();
    let mut i: usize = 1;
    while i < words.len()
        invariant
            1 <= i <= words.len(),
            wv == words@.map_values(|w: Vec<char>| w@),
            rest@.map_values(|w: Vec<char>| w@) == wv.subrange(1, i as int),
        decreases words.len() - i,
    {
        let ghost before = rest@.map_values(|w: Vec<char>| w@);
        let w = crate::text::slice_chars(&words[i], 0, words[i].len());
        assert(w@ == words@[i as int]@);
        rest.push(w);
        assert(rest@.map_values(|w: Vec<char>| w@) =~= before.push(words@[i as int]@));
        assert(wv.subrange(1, i + 1) =~= wv.subrange(1, i as int).push(wv[i as int]));
        i += 1;
    }
    assert(wv.subrange(1, wv.len() as int) == wv.drop_first());
    nudge_command_target(root.as_str(), &rest, default_id)
}

/// The reply of the test command after a send attempt.
pub fn test_send_reply(sent: bool, target: u64) -> (r: String)
    ensures
        sent ==> r@ == "📨 Test-DM an <@"@ + int_dec(target as int) + "> gesendet."@,
        !sent ==> r@
            == "⚠️ Test-DM konnte nicht gesendet werden (DMs aus? oder bereits benachrichtigt)."@,
{
    if sent {
        let mut v = chars_of("📨 Test-DM an <@");
        push_u64(&mut v, target);
        append_str(&mut v, "> gesendet.");
        string_of(&v)
    } else {
        owned("⚠️ Test-DM konnte nicht gesendet werden (DMs aus? oder bereits benachrichtigt).")
    }
}

/// The log line of a sent nudge.
pub fn sent_log_text(user_id: u64) -> (r: String)
    ensures
        r@ == "📨 Steam-Nudge gesendet an <@"@ + int_dec(user_id as int) + ">"@,
{
    let mut v = chars_of("📨 Steam-Nudge gesendet an <@");
    push_u64(&mut v, user_id);
    append_str(&mut v, ">");
    string_of(&v)
}

/// The nudge watch never starts on a user's first voice day, nor for users
/// who opted out, carry an exempt role, are linked, were already nudged or
/// have a nudge running.
pub proof fn lemma_watch_starts_on_a_later_day(
    opted_out: bool,
    exempt: bool,
    linked_or_done_or_active: bool,
    first_seen: Option<Seq<char>>,
    today: Seq<char>,
)
    ensures
        join_step_spec(opted_out, exempt, linked_or_done_or_active, first_seen, today)
            == JoinStep::StartWatch ==> !opted_out && !exempt && !linked_or_done_or_active
            && first_seen is Some && first_seen->0 != today,
{
}

// ── DM payload ──────────────────────────────────────────────────────────────

/// A button with an emoji given by its character.
pub open spec fn glyph_view(glyph: Seq<char>) -> JsonView {
    JsonView::Object(seq![("name"@, JsonView::Str(glyph))])
}

/// The DM embed: title, the description (with a note that the link service
/// is down when there is no link), the colour and the command footer.
pub open spec fn nudge_embed_view(steam_url: Option<Seq<char>>) -> JsonView {
    let description = if steam_url is Some {
        DM_DESCRIPTION@
    } else {
        DM_DESCRIPTION@ + LINK_SERVICE_DOWN_NOTE@
    };
    JsonView::Object(
        seq![
            ("title"@, JsonView::Str(DM_TITLE@)),
            ("description"@, JsonView::Str(description)),
            ("color"@, num_view(DM_COLOR as int)),
            ("footer"@, JsonView::Object(seq![("text"@, JsonView::Str(DM_FOOTER@))])),
        ],
    )
}

/// The Steam button: a link button to the sign-in URL, or a disabled
/// button when the link service gave none.
pub open spec fn steam_button_view(steam_url: Option<Seq<char>>) -> JsonView {
    match steam_url {
        Some(url) => JsonView::Object(
            seq![
                ("type"@, num_view(2)),
                ("style"@, num_view(5)),
                ("label"@, JsonView::Str(STEAM_BUTTON_LABEL@)),
                ("emoji"@, glyph_view("🎮"@)),
                ("url"@, JsonView::Str(url)),
            ],
        ),
        None => JsonView::Object(
            seq![
                ("type"@, num_view(2)),
                ("style"@, num_view(2)),
                ("label"@, JsonView::Str(STEAM_BUTTON_LABEL@)),
                ("emoji"@, glyph_view("🎮"@)),
                ("disabled"@, JsonView::Bool(true)),
                ("custom_id"@, JsonView::Str(STEAM_DISABLED_CUSTOM_ID@)),
            ],
        ),
    }
}

/// The close button.
pub open spec fn close_button_view() -> JsonView {
    JsonView::Object(
        seq![
            ("type"@, num_view(2)),
            ("style"@, num_view(2)),
            ("label"@, JsonView::Str("Schließen"@)),
            ("emoji"@, glyph_view("❌"@)),
            ("custom_id"@, JsonView::Str(CLOSE_CUSTOM_ID@)),
        ],
    )
}

/// The DM components: a row with the Steam button, a row with the close
/// button.
pub open spec fn nudge_components_view(steam_url: Option<Seq<char>>) -> JsonView {
    JsonView::Array(
        seq![
            action_row_view(seq![steam_button_view(steam_url)]),
            action_row_view(seq![close_button_view()]),
        ],
    )
}

fn glyph(g: &str) -> (r: JsonNode)
    ensures
        r@ == glyph_view(g@),
{
    let r = jobj(vec![entry("name", jstr(g))]);
    assert(r@->Object_0 =~= glyph_view(g@)->Object_0);
    r
}

fn single_row(item: JsonNode) -> (r: JsonNode)
    ensures
        r@ == action_row_view(seq![item@]),
{
    let ghost v = item@;
    let items = vec![item];
    assert(views_of(items@) =~= seq![v]);
    action_row(items)
}

/// Embed and components of the nudge DM; `steam_url` is the sign-in link
/// when the link service gave one.
pub fn nudge_dm_payload(steam_url: Option<&str>) -> (r: (JsonNode, JsonNode))
    ensures
        r.0@ == nudge_embed_view(
            match steam_url {
                Some(u) => Some(u@),
                None => None,
            },
        ),
        r.1@ == nudge_components_view(
            match steam_url {
                Some(u) => Some(u@),
                None => None,
            },
        ),
{
    let ghost url = match steam_url {
        Some(u) => Some(u@),
        None => None,
    };
    let mut description = chars_of(DM_DESCRIPTION);
    if steam_url.is_none() {
        append_str(&mut description, LINK_SERVICE_DOWN_NOTE);
    }
    let footer = jobj(vec![entry("text", jstr(DM_FOOTER))]);
    let ghost fv = footer@;
    assert(fv->Object_0 =~= seq![("text"@, JsonView::Str(DM_FOOTER@))]);
    let embed = jobj(
        vec![
            entry("title", jstr(DM_TITLE)),
            entry("description", JsonNode::Str(string_of(&description))),
            entry("color", jnum(DM_COLOR)),
            entry("footer", footer),
        ],
    );
    assert(embed@->Object_0 =~= nudge_embed_view(url)->Object_0);
    let steam = match steam_url {
        Some(u) => {
            let b = jobj(
                vec![
                    entry("type", jnum(2)),
                    entry("style", jnum(5)),
                    entry("label", jstr(STEAM_BUTTON_LABEL)),
                    entry("emoji", glyph("🎮")),
                    entry("url", jstr(u)),
                ],
            );
            assert(b@->Object_0 =~= steam_button_view(url)->Object_0);
            b
        },
        None => {
            let b = jobj(
                vec![
                    entry("type", jnum(2)),
                    entry("style", jnum(2)),
                    entry("label", jstr(STEAM_BUTTON_LABEL)),
                    entry("emoji", glyph("🎮")),
                    entry("disabled", JsonNode::Bool(true)),
                    entry("custom_id", jstr(STEAM_DISABLED_CUSTOM_ID)),
                ],
            );
            assert(b@->Object_0 =~= steam_button_view(url)->Object_0);
            b
        },
    };
    let close = jobj(
        vec![
            entry("type", jnum(2)),
            entry("style", jnum(2)),
            entry("label", jstr("Schließen")),
            entry("emoji", glyph("❌")),
            entry("custom_id", jstr(CLOSE_CUSTOM_ID)),
        ],
    );
    assert(close@->Object_0 =~= close_button_view()->Object_0);
    let first = single_row(steam);
    let second = single_row(close);
    let ghost (a, b) = (first@, second@);
    let components = jarr(vec![first, second]);
    assert(components@->Array_0 =~= seq![a, b]);
    (embed, components)
}

} // verus!
