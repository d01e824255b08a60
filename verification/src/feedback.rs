//! Voice feedback: after a first longer session with others, and once more
//! after several voice days, a user gets a DM asking for feedback; answers
//! are stored and forwarded to the owner.

use vstd::prelude::*;
use crate::interactions::{plain_field, plain_modal_field, ModalSpec};
use crate::components::{action_row, action_row_view, views_of};
use crate::json::{entry, jarr, jnum, jobj, jstr, num_view, JsonNode, JsonView};
use crate::lfg::first_n;
use crate::text::{
    append_str, chars_eq_str, has_prefix, chars_of, int_dec, join_spec, join_strings, owned, parse_i64,
    parse_int_spec, push_i64, push_u64, str_eq, string_of, strings_view, trim_spec, trim_str,
};

verus! {

/// A session must last this long (seconds) for the first request.
pub const MIN_SECONDS: i64 = 300;
/// Co-player names listed in the DM.
pub const MAX_NAMES: usize = 10;
/// Voice days before the second request.
pub const SECOND_MIN_DAYS: i64 = 4;
pub const FORWARD_USER_ID: u64 = 662995601738170389;
pub const START_CUSTOM_ID: &'static str = "voice_feedback:start";
pub const MODAL_CUSTOM_ID: &'static str = "voice_feedback:modal";
/// Answers are taken for this long after the request (seconds, 72 hours).
pub const RESPONSE_WINDOW_SECONDS: i64 = 259200;
pub const FEEDBACK_BUTTON_LABEL: &'static str = "Feedback ausfüllen";
pub const FEEDBACK_NOT_OPEN_TEXT: &'static str =
    "Diese Feedback-Anfrage ist nicht mehr offen — trotzdem danke!";
pub const FEEDBACK_ALREADY_RESPONDED_TEXT: &'static str =
    "Danke, dein Voice-Feedback ist schon angekommen. 👍";
pub const FEEDBACK_WINDOW_EXPIRED_TEXT: &'static str =
    "Dieses Feedback-Fenster ist abgelaufen. Schreib uns gern direkt, falls noch etwas offen ist.";

pub open spec fn intro_lines(display_name: Seq<char>, request_type: Seq<char>) -> Seq<Seq<char>> {
    if request_type == "second"@ {
        seq![
            "Hey "@ + display_name + ", danke für deine Voice-Runden."@,
            "Kurzes Update: Was läuft gut, was nervt, was sollen wir fixen?"@,
            "Button drücken und in 1-2 Sätzen Feedback dalassen."@,
        ]
    } else {
        seq![
            "Hey "@ + display_name + "!"@,
            "Wie waren deine ersten Runden bei uns? Wir würden mega gern wissen, wie's dir gefallen hat :)"@,
            "Hau einfach kurz auf den Button und lass uns wissen, was gut lief oder auch nicht und was vielleicht noch besser gehen könnte. Dauert nur ne Minute und wir freuen uns echt über deine Meinung ❤️"@,
        ]
    }
}

/// The co-player list of the DM: at most `MAX_NAMES` names, then how many
/// more there were.
pub open spec fn co_text_spec(names: Seq<Seq<char>>) -> Seq<char> {
    let shown = join_spec(first_n(names, MAX_NAMES as int), ", "@);
    if names.len() > MAX_NAMES {
        shown + " (+"@ + int_dec(names.len() - MAX_NAMES) + " weitere)"@
    } else {
        shown
    }
}

/// The request DM: the first or second greeting, and who was in the call.
pub open spec fn message_spec(display_name: Seq<char>, request_type: Seq<char>, names: Seq<Seq<char>>) -> Seq<char> {
    let lines = if names.len() > 0 {
        intro_lines(display_name, request_type).push("Mit im Call waren u.a.: "@ + co_text_spec(names))
    } else {
        intro_lines(display_name, request_type)
    };
    join_spec(lines, "\n\n"@)
}

fn first_names(names: &[String], n: usize) -> (r: Vec<String>)
    ensures
        strings_view(r@) == first_n(strings_view(names@), n as int),
{
    let mut out: Vec<String> = Vec::new();
    let mut i: usize = 0;
    while i < names.len() && i < n
        invariant
            i <= names.len(),
            i <= n,
            strings_view(out@) == strings_view(names@).take(i as int),
        decreases names.len() - i,
    {
        let ghost before = strings_view(out@);
        out.push(owned(names[i].as_str()));
        assert(strings_view(out@) =~= before.push(names@[i as int]@));
        assert(strings_view(names@).take(i + 1) =~= strings_view(names@).take(i as int).push(
            names@[i as int]@,
        ));
        i += 1;
    }
    assert(strings_view(names@).take(i as int) == first_n(strings_view(names@), n as int));
    out
}

pub fn build_message(display_name: &str, request_type: &str, co_player_names: &[String]) -> (r: String)
    ensures
        r@ == message_spec(display_name@, request_type@, strings_view(co_player_names@)),
{
    let mut lines: Vec<String> = Vec::new();
    if str_eq(request_type, "second") {
        let mut l = chars_of("Hey ");
        append_str(&mut l, display_name);
        append_str(&mut l, ", danke für deine Voice-Runden.");
        lines.push(string_of(&l));
        lines.push(owned("Kurzes Update: Was läuft gut, was nervt, was sollen wir fixen?"));
        lines.push(owned("Button drücken und in 1-2 Sätzen Feedback dalassen."));
    } else {
        let mut l = chars_of("Hey ");
        append_str(&mut l, display_name);
        append_str(&mut l, "!");
        lines.push(string_of(&l));
        lines.push(
            owned(
                "Wie waren deine ersten Runden bei uns? Wir würden mega gern wissen, wie's dir gefallen hat :)",
            ),
        );
        lines.push(
            owned(
                "Hau einfach kurz auf den Button und lass uns wissen, was gut lief oder auch nicht und was vielleicht noch besser gehen könnte. Dauert nur ne Minute und wir freuen uns echt über deine Meinung ❤️",
            ),
        );
    }
    assert(strings_view(lines@) =~= intro_lines(display_name@, request_type@));
    if co_player_names.len() > 0 {
        let shown = first_names(co_player_names, MAX_NAMES);
        let joined = join_strings(&shown, ", ");
        let mut m = chars_of("Mit im Call waren u.a.: ");
        append_str(&mut m, joined.as_str());
        if co_player_names.len() > MAX_NAMES {
            append_str(&mut m, " (+");
            push_u64(&mut m, (co_player_names.len() - MAX_NAMES) as u64);
            append_str(&mut m, " weitere)");
        }
        let ghost before = strings_view(lines@);
        assert(m@ == "Mit im Call waren u.a.: "@ + co_text_spec(strings_view(co_player_names@)));
        lines.push(string_of(&m));
        assert(strings_view(lines@) =~= before.push(m@));
    }
    join_strings(&lines, "\n\n")
}

/// The co-players close the DM: with co-players the message is the
/// greeting followed by a paragraph "Mit im Call waren u.a.: " and at most
/// ten names (then "(+n weitere)"); without co-players it is the greeting
/// alone. The greeting starts with "Hey " and the user's name.
pub proof fn lemma_message_ends_with_co_players(
    display_name: Seq<char>,
    request_type: Seq<char>,
    names: Seq<Seq<char>>,
)
    ensures
        names.len() > 0 ==> message_spec(display_name, request_type, names) == join_spec(
            intro_lines(display_name, request_type),
            "\n\n"@,
        ) + "\n\n"@ + ("Mit im Call waren u.a.: "@ + co_text_spec(names)),
        names.len() == 0 ==> message_spec(display_name, request_type, names) == join_spec(
            intro_lines(display_name, request_type),
            "\n\n"@,
        ),
        has_prefix(message_spec(display_name, request_type, names), "Hey "@ + display_name),
{
    let intro = intro_lines(display_name, request_type);
    let line = "Mit im Call waren u.a.: "@ + co_text_spec(names);
    let greeting = intro[0];
    assert(intro.len() == 3);
    assert(intro.drop_last().len() == 2);
    assert(intro.drop_last().drop_last().len() == 1);
    assert(intro.drop_last().drop_last()[0] == greeting);
    let joined = join_spec(intro, "\n\n"@);
    assert(join_spec(intro.drop_last().drop_last(), "\n\n"@) == greeting);
    assert(join_spec(intro.drop_last(), "\n\n"@) == greeting + "\n\n"@ + intro[1]);
    assert(joined == greeting + "\n\n"@ + intro[1] + "\n\n"@ + intro[2]);
    if names.len() > 0 {
        let lines = intro.push(line);
        assert(lines.drop_last() =~= intro);
        assert(lines.last() == line);
    }
    let hp = "Hey "@ + display_name;
    assert(has_prefix(greeting, hp)) by {
        if request_type == "second"@ {
            assert(greeting == hp + ", danke für deine Voice-Runden."@);
        } else {
            assert(greeting == hp + "!"@);
        }
        assert(greeting.subrange(0, hp.len() as int) =~= hp);
    }
    let m = message_spec(display_name, request_type, names);
    assert(m.subrange(0, hp.len() as int) =~= greeting.subrange(0, hp.len() as int));
}

/// The note forwarded to the owner for an answer.
pub open spec fn forward_spec(
    request_id: i64,
    author_name: Seq<char>,
    author_id: u64,
    content: Seq<char>,
    request_type: Seq<char>,
    co_players: Seq<char>,
    channel_name: Seq<char>,
    duration_min: Seq<char>,
) -> Seq<char> {
    "📩 Neues Voice-Feedback (Req #"@ + int_dec(request_id as int) + ", Typ: "@ + request_type
        + ")\nVon: "@ + author_name + " ("@ + int_dec(author_id as int) + ")\nKanal: "@ + channel_name
        + "\nDauer: "@ + duration_min + " Min\nMit im Call: "@ + co_players + "\n\nAntwort:\n"@
        + content
}

pub fn format_feedback_forward(
    request_id: i64,
    author_name: &str,
    author_id: u64,
    content: &str,
    request_type: &str,
    co_players: &str,
    channel_name: &str,
    duration_min: &str,
) -> (r: String)
    ensures
        r@ == forward_spec(
            request_id,
            author_name@,
            author_id,
            content@,
            request_type@,
            co_players@,
            channel_name@,
            duration_min@,
        ),
{
    let mut v = chars_of("📩 Neues Voice-Feedback (Req #");
    push_i64(&mut v, request_id);
    append_str(&mut v, ", Typ: ");
    append_str(&mut v, request_type);
    append_str(&mut v, ")\nVon: ");
    append_str(&mut v, author_name);
    append_str(&mut v, " (");
    push_u64(&mut v, author_id);
    append_str(&mut v, ")\nKanal: ");
    append_str(&mut v, channel_name);
    append_str(&mut v, "\nDauer: ");
    append_str(&mut v, duration_min);
    append_str(&mut v, " Min\nMit im Call: ");
    append_str(&mut v, co_players);
    append_str(&mut v, "\n\nAntwort:\n");
    append_str(&mut v, content);
    string_of(&v)
}

/// Which request a finished session asks for: the first one after a first
/// session of at least `MIN_SECONDS` with others; otherwise the second one,
/// once, after a first one and at least `SECOND_MIN_DAYS` voice days.
pub open spec fn request_kind_spec(
    was_first_session: bool,
    seconds: i64,
    has_co_players: bool,
    had_first: bool,
    had_second: bool,
    voice_days: i64,
) -> Option<Seq<char>> {
    if was_first_session && seconds >= MIN_SECONDS && has_co_players {
        Some("first"@)
    } else if !had_first || had_second {
        None
    } else if voice_days < SECOND_MIN_DAYS {
        None
    } else {
        Some("second"@)
    }
}

pub fn feedback_request_kind(
    was_first_session: bool,
    seconds: i64,
    has_co_players: bool,
    had_first: bool,
    had_second: bool,
    voice_days: i64,
) -> (r: Option<&'static str>)
    ensures
        match (r, request_kind_spec(was_first_session, seconds, has_co_players, had_first, had_second, voice_days)) {
            (Some(a), Some(b)) => a@ == b,
            (None, None) => true,
            _ => false,
        },
{
    if was_first_session && seconds >= MIN_SECONDS && has_co_players {
        Some("first")
    } else if !had_first || had_second {
        None
    } else if voice_days < SECOND_MIN_DAYS {
        None
    } else {
        Some("second")
    }
}

/// The name a request greets: the display name, or `User <id>`.
pub fn greeting_name(display_name: Option<&str>, user_id: u64) -> (r: String)
    ensures
        r@ == match display_name {
            Some(d) => d@,
            None => "User "@ + int_dec(user_id as int),
        },
{
    match display_name {
        Some(d) => owned(d),
        None => {
            let mut v = chars_of("User ");
            push_u64(&mut v, user_id);
            string_of(&v)
        },
    }
}

/// The stored co-player list of a request: the names joined, `-` when none.
pub fn stored_co_names(names: &[String]) -> (r: String)
    ensures
        r@ == if names@.len() == 0 {
            "-"@
        } else {
            join_spec(strings_view(names@), ", "@)
        },
{
    if names.len() == 0 {
        owned("-")
    } else {
        join_strings(names, ", ")
    }
}

/// Whether an answer still counts: a request without a send time always
/// does, otherwise within `RESPONSE_WINDOW_SECONDS` of it.
pub open spec fn window_open_spec(sent_at_ts: i64, now: i64) -> bool {
    !(sent_at_ts > 0 && now - sent_at_ts > RESPONSE_WINDOW_SECONDS)
}

pub fn response_window_open(sent_at_ts: i64, now: i64) -> (r: bool)
    ensures
        r == window_open_spec(sent_at_ts, now),
{
    if sent_at_ts > 0 {
        let diff: i128 = now as i128 - sent_at_ts as i128;
        !(diff > RESPONSE_WINDOW_SECONDS as i128)
    } else {
        true
    }
}

/// What the feedback button does for the user's newest request.
#[derive(Debug, Clone, Copy, PartialEq, Eq, Structural)]
pub enum StartButton {
    NotOpen,
    AlreadyResponded,
    Expired,
    OpenModal { request_id: i64 },
}

/// The button on the newest request (id, send time, status): no request or
/// a status other than sent/pending is no longer open; a responded one is
/// thanked for; an expired one is turned away; otherwise the form opens.
pub fn start_button(request: Option<(i64, i64, &str)>, now: i64) -> (r: StartButton)
    ensures
        match request {
            None => r == StartButton::NotOpen,
            Some((id, sent, status)) => if status@ == "responded"@ {
                r == StartButton::AlreadyResponded
            } else if !window_open_spec(sent, now) {
                r == StartButton::Expired
            } else if status@ != "sent"@ && status@ != "pending"@ {
                r == StartButton::NotOpen
            } else {
                r == StartButton::OpenModal { request_id: id }
            },
        },
{
    match request {
        None => StartButton::NotOpen,
        Some((id, sent, status)) => {
            if str_eq(status, "responded") {
                StartButton::AlreadyResponded
            } else if !response_window_open(sent, now) {
                StartButton::Expired
            } else if !str_eq(status, "sent") && !str_eq(status, "pending") {
                StartButton::NotOpen
            } else {
                StartButton::OpenModal { request_id: id }
            }
        },
    }
}

/// The ephemeral reply to the feedback button: a text for every outcome
/// but the open form, which is answered with the modal instead (`None`).
pub fn start_button_reply(outcome: StartButton) -> (r: Option<&'static str>)
    ensures
        match outcome {
            StartButton::NotOpen => r matches Some(t) && t@ == FEEDBACK_NOT_OPEN_TEXT@,
            StartButton::AlreadyResponded => r matches Some(t) && t@
                == FEEDBACK_ALREADY_RESPONDED_TEXT@,
            StartButton::Expired => r matches Some(t) && t@ == FEEDBACK_WINDOW_EXPIRED_TEXT@,
            StartButton::OpenModal { .. } => r is None,
        },
{
    match outcome {
        StartButton::NotOpen => Some(FEEDBACK_NOT_OPEN_TEXT),
        StartButton::AlreadyResponded => Some(FEEDBACK_ALREADY_RESPONDED_TEXT),
        StartButton::Expired => Some(FEEDBACK_WINDOW_EXPIRED_TEXT),
        StartButton::OpenModal { .. } => None,
    }
}

/// Minutes of a session as the forward shows them: at least 1, `?` unknown.
pub open spec fn duration_min_spec(duration_seconds: i64) -> Seq<char> {
    if duration_seconds > 0 {
        int_dec(if duration_seconds / 60 < 1 {
            1
        } else {
            duration_seconds / 60
        })
    } else {
        "?"@
    }
}

pub fn duration_min_text(duration_seconds: i64) -> (r: String)
    ensures
        r@ == duration_min_spec(duration_seconds),
{
    if duration_seconds > 0 {
        let m = duration_seconds / 60;
        let mut v: Vec<char> = Vec::new();
        push_i64(&mut v, if m < 1 {
            1
        } else {
            m
        });
        string_of(&v)
    } else {
        owned("?")
    }
}

/// The co-player line of a forward: the stored list, `—` when blank.
pub fn forward_co_players(stored: &str) -> (r: String)
    ensures
        r@ == if trim_spec(stored@).len() == 0 {
            "—"@
        } else {
            stored@
        },
{
    let t = trim_str(stored);
    if t.len() == 0 {
        owned("—")
    } else {
        owned(stored)
    }
}

/// The request id of a form submit: the last `:`-separated part of its
/// custom id as an integer, 0 otherwise.
pub open spec fn modal_request_id_spec(custom_id: Seq<char>) -> i64 {
    let parts = crate::text::split_on_spec(custom_id, ':');
    match parse_int_spec(parts.last(), i64::MIN as int, i64::MAX as int) {
        Some(n) => n as i64,
        None => 0,
    }
}

pub fn modal_request_id(custom_id: &str) -> (r: i64)
    ensures
        r == modal_request_id_spec(custom_id@),
{
    let v = chars_of(custom_id);
    let parts = crate::text::split_on_char(&v, ':');
    proof {
        crate::text::lemma_split_on_nonempty(v@, ':');
        assert(parts@.map_values(|w: Vec<char>| w@)[parts@.len() - 1] == parts@[parts@.len() - 1]@);
    }
    match parse_i64(&parts[parts.len() - 1]) {
        Some(n) => n,
        None => 0,
    }
}

pub open spec fn answer_line(index: int, answer: Option<Seq<char>>) -> Seq<char> {
    let value = match answer {
        Some(a) => trim_spec(a),
        None => Seq::empty(),
    };
    if value.len() == 0 {
        int_dec(index) + ") —"@
    } else {
        int_dec(index) + ") "@ + value
    }
}

fn push_answer(v: &mut Vec<char>, index: u64, answer: Option<&str>)
    ensures
        final(v)@ == old(v)@ + answer_line(
            index as int,
            match answer {
                Some(a) => Some(a@),
                None => None,
            },
        ),
{
    let value = match answer {
        Some(a) => trim_str(a),
        None => Vec::new(),
    };
    push_u64(v, index);
    if value.len() == 0 {
        append_str(v, ") —");
    } else {
        append_str(v, ") ");
        crate::text::append_chars(v, &value);
    }
}

/// The four answers of the form, one numbered line each, `—` when blank.
pub fn combine_answers(q1: Option<&str>, q2: Option<&str>, q3: Option<&str>, q4: Option<&str>) -> (r: String)
    ensures
        r@ == answer_line(1, match q1 {
            Some(a) => Some(a@),
            None => None,
        }) + "\n"@ + answer_line(2, match q2 {
            Some(a) => Some(a@),
            None => None,
        }) + "\n"@ + answer_line(3, match q3 {
            Some(a) => Some(a@),
            None => None,
        }) + "\n"@ + answer_line(4, match q4 {
            Some(a) => Some(a@),
            None => None,
        }),
{
    let mut v: Vec<char> = Vec::new();
    push_answer(&mut v, 1, q1);
    append_str(&mut v, "\n");
    push_answer(&mut v, 2, q2);
    append_str(&mut v, "\n");
    push_answer(&mut v, 3, q3);
    append_str(&mut v, "\n");
    push_answer(&mut v, 4, q4);
    string_of(&v)
}

/// What a DM answer does: `None` when it is ignored (a guild message, a
/// blank text, or outside the window), otherwise whether to thank (not yet
/// responded).
pub fn dm_answer_action(
    in_guild: bool,
    content: &str,
    sent_at_ts: i64,
    status: &str,
    now: i64,
) -> (r: Option<bool>)
    ensures
        r == if in_guild || trim_spec(content@).len() == 0 || !window_open_spec(sent_at_ts, now) {
            None
        } else {
            Some(status@ != "responded"@)
        },
{
    if in_guild {
        return None;
    }
    let t = trim_str(content);
    if t.len() == 0 {
        return None;
    }
    if !response_window_open(sent_at_ts, now) {
        return None;
    }
    Some(!str_eq(status, "responded"))
}

// ── Feedback form ──────────────────────────────────────────────────────────

/// The four-question form that the start button opens for a request; the
/// request id travels in the modal's id.
pub fn feedback_modal(request_id: i64) -> (m: ModalSpec)
    ensures
        m.custom_id@ == MODAL_CUSTOM_ID@ + ":"@ + int_dec(request_id as int),
        m.title@ == "Kurzes Voice-Feedback"@,
        m.fields@.len() == 4,
        plain_field(
            m.fields@[0],
            "q1"@,
            "Wie war dein Eindruck?"@,
            "Kurz bewerten (1-10) und warum: Stimmung, Ablauf, Technik"@,
            true,
            0,
            500,
            true,
        ),
        plain_field(
            m.fields@[1],
            "q2"@,
            "Was sollen wir verbessern?"@,
            "1-2 klare Punkte: Moderation, Themen, Ablauf, Technik, Verhalten"@,
            false,
            0,
            900,
            true,
        ),
        plain_field(
            m.fields@[2],
            "q3"@,
            "Wie lief es mit den anderen?"@,
            "Highlights oder Probleme im Miteinander (gern mit Namen, falls relevant)"@,
            false,
            0,
            900,
            true,
        ),
        plain_field(
            m.fields@[3],
            "q4"@,
            "Noch etwas, das wir wissen sollten?"@,
            "Wünsche, Probleme, Ideen, was dir aufgefallen ist"@,
            false,
            0,
            900,
            true,
        ),
{
    let mut id = chars_of(MODAL_CUSTOM_ID);
    id.push(':');
    proof {
        reveal_strlit(":");
        assert(id@ == MODAL_CUSTOM_ID@ + ":"@);
    }
    push_i64(&mut id, request_id);
    let mut fields = Vec::new();
    fields.push(
        plain_modal_field(
            "q1",
            "Wie war dein Eindruck?",
            "Kurz bewerten (1-10) und warum: Stimmung, Ablauf, Technik",
            true,
            0,
            500,
            true,
        ),
    );
    fields.push(
        plain_modal_field(
            "q2",
            "Was sollen wir verbessern?",
            "1-2 klare Punkte: Moderation, Themen, Ablauf, Technik, Verhalten",
            false,
            0,
            900,
            true,
        ),
    );
    fields.push(
        plain_modal_field(
            "q3",
            "Wie lief es mit den anderen?",
            "Highlights oder Probleme im Miteinander (gern mit Namen, falls relevant)",
            false,
            0,
            900,
            true,
        ),
    );
    fields.push(
        plain_modal_field(
            "q4",
            "Noch etwas, das wir wissen sollten?",
            "Wünsche, Probleme, Ideen, was dir aufgefallen ist",
            false,
            0,
            900,
            true,
        ),
    );
    ModalSpec { custom_id: string_of(&id), title: owned("Kurzes Voice-Feedback"), fields }
}

/// The second request comes once: only after a first one, never after a
/// second one, and only from the required number of voice days on.
pub proof fn lemma_second_request_once(
    was_first_session: bool,
    seconds: i64,
    has_co_players: bool,
    had_first: bool,
    had_second: bool,
    voice_days: i64,
)
    ensures
        request_kind_spec(was_first_session, seconds, has_co_players, had_first, had_second, voice_days)
            == Some("second"@) ==> had_first && !had_second && voice_days >= SECOND_MIN_DAYS,
{
    reveal_strlit("first");
    reveal_strlit("second");
    assert("first"@.len() != "second"@.len());
}

// ── Payload ─────────────────────────────────────────────────────────────────

/// The button under a feedback DM: primary style, the label and a memo
/// emoji; it starts the feedback.
pub open spec fn feedback_button_view() -> JsonView {
    JsonView::Object(
        seq![
            ("type"@, num_view(2)),
            ("style"@, num_view(1)),
            ("label"@, JsonView::Str(FEEDBACK_BUTTON_LABEL@)),
            ("emoji"@, JsonView::Object(seq![("name"@, JsonView::Str("📝"@))])),
            ("custom_id"@, JsonView::Str(START_CUSTOM_ID@)),
        ],
    )
}

/// The components of a feedback DM: one action row with that button.
pub fn feedback_button_components() -> (r: JsonNode)
    ensures
        r@ == JsonView::Array(seq![action_row_view(seq![feedback_button_view()])]),
{
    let memo = jobj(vec![entry("name", jstr("📝"))]);
    assert(memo@->Object_0 =~= seq![("name"@, JsonView::Str("📝"@))]);
    let button = jobj(
        vec![
            entry("type", jnum(2)),
            entry("style", jnum(1)),
            entry("label", jstr(FEEDBACK_BUTTON_LABEL)),
            entry("emoji", memo),
            entry("custom_id", jstr(START_CUSTOM_ID)),
        ],
    );
    assert(button@->Object_0 =~= feedback_button_view()->Object_0);
    let items = vec![button];
    assert(views_of(items@) =~= seq![feedback_button_view()]);
    let row = action_row(items);
    let r = jarr(vec![row]);
    assert(r@->Array_0 =~= seq![action_row_view(seq![feedback_button_view()])]);
    r
}

/// Which request a session gives: the first request exactly after a first
/// session of at least `MIN_SECONDS` with co-players; otherwise the second
/// request exactly when the user had a first and no second request and has
/// at least `SECOND_MIN_DAYS` voice days; otherwise none.
pub proof fn lemma_request_kind_conditions(
    was_first_session: bool,
    seconds: i64,
    has_co_players: bool,
    had_first: bool,
    had_second: bool,
    voice_days: i64,
)
    ensures
        ({
            let k = request_kind_spec(
                was_first_session,
                seconds,
                has_co_players,
                had_first,
                had_second,
                voice_days,
            );
            let first = was_first_session && seconds >= MIN_SECONDS && has_co_players;
            &&& k == Some("first"@) <==> first
            &&& k == Some("second"@) <==> !first && had_first && !had_second && voice_days
                >= SECOND_MIN_DAYS
            &&& k is None <==> !first && (!had_first || had_second || voice_days < SECOND_MIN_DAYS)
        }),
{
    reveal_strlit("first");
    reveal_strlit("second");
    assert("first"@[0] != "second"@[0]);
}

} // verus!
