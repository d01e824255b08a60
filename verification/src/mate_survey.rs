//! The co-player survey after a voice session: whom to ask about, whether to
//! ask at all, the button ids of the survey DM and the replies.

use vstd::prelude::*;
use crate::components::{
    action_row, action_row_view, button, button_view, container, container_view, emoji_button,
    emoji_button_view, no_mentions, no_mentions_view, separator, separator_view, text_display,
    text_display_view, views_of, ACCENT_GOLD, COMPONENTS_V2_FLAG,
};
use crate::interactions::{plain_field, plain_modal_field, ModalField, ModalSpec};
use crate::json::{entry, jarr, jnum, jobj, num_view, JsonNode, JsonView};
use crate::text::{
    append_chars, append_str, chars_eq_str, chars_of, has_prefix, int_dec, owned, parse_i64,
    parse_int_spec, parse_u64, push_i64, push_u64, u64_to_string, slice_chars, split_on_char, split_on_spec,
    starts_with_str, str_eq, string_of, trim_spec, trim_str,
};

verus! {

/// A session must last this long (seconds) before anyone is asked.
pub const MIN_SECONDS: i64 = 1200;
/// At most one survey per person in this window (seconds, 48 hours).
pub const ASK_COOLDOWN_SECONDS: i64 = 172800;
/// The same pair is asked about at most once in this window (seconds, 30 days).
pub const PAIR_COOLDOWN_SECONDS: i64 = 2592000;

pub const CUSTOM_ID_PREFIX: &'static str = "voice_mate:";
pub const COMMENT_MODAL_ID: &'static str = "voice_mate_comment";
pub const COMMENT_FIELD: &'static str = "comment";

pub const RATING_AGAIN: &'static str = "again";
pub const RATING_OK: &'static str = "ok";
pub const RATING_RATHER_NOT: &'static str = "rather_not";

pub const THANKS_AGAIN: &'static str =
    "Danke dir. Ich merk mir das und bring euch künftig lieber wieder zusammen.";
pub const THANKS_OK: &'static str = "Danke dir, ist notiert.";
pub const THANKS_RATHER_NOT: &'static str =
    "Danke für die Ehrlichkeit. Ich schlag euch nicht mehr als Paarung vor.";
pub const THANKS_COMMENT: &'static str =
    "Angekommen, danke dir. Das liest nur das Team, dein Mitspieler sieht davon nichts.";
pub const NEVER_REPLY: &'static str = "Erledigt, ich frag dich nicht mehr nach deinen Mitspielern.";
pub const SAVE_FAILED_REPLY: &'static str =
    "Das konnte ich gerade nicht speichern. Probier es gleich nochmal.";
pub const INVALID_REPLY: &'static str = "Diese Umfrage ist abgelaufen.";

/// Whether a survey may be sent, or why not.
#[derive(Debug, Clone, Copy, PartialEq, Eq, Structural)]
pub enum AskDecision {
    Ask,
    TooShort,
    NoMate,
    OptedOut,
    NeverAsk,
    UserCooldown,
    PairCooldown,
}

/// A stored rating.
#[derive(Debug, Clone, PartialEq, Eq)]
pub struct MateRating {
    pub rater_id: u64,
    pub mate_id: u64,
    pub rating: String,
    pub comment: Option<String>,
    pub channel_id: u64,
    pub session_seconds: i64,
}

/// Whether `m` is the smallest co-player id other than the user.
pub open spec fn is_min_mate(user_id: u64, co: Seq<u64>, m: u64) -> bool {
    &&& m != user_id
    &&& co.contains(m)
    &&& forall|i: int| 0 <= i < co.len() && co[i] != user_id ==> m <= #[trigger] co[i]
}

/// The co-player to ask about: the smallest id other than the user's own, so
/// that a repeated session end asks about the same person.
pub fn pick_mate(user_id: u64, co_player_ids: &[u64]) -> (r: Option<u64>)
    ensures
        match r {
            Some(m) => is_min_mate(user_id, co_player_ids@, m),
            None => forall|i: int| 0 <= i < co_player_ids@.len() ==> co_player_ids@[i] == user_id,
        },
{
    let mut best: Option<u64> = None;
    let mut i: usize = 0;
    while i < co_player_ids.len()
        invariant
            i <= co_player_ids.len(),
            match best {
                Some(m) => is_min_mate(user_id, co_player_ids@.take(i as int), m),
                None => forall|k: int| 0 <= k < i ==> co_player_ids@[k] == user_id,
            },
        decreases co_player_ids.len() - i,
    {
        let c = co_player_ids[i];
        let ghost pre = co_player_ids@.take(i as int);
        let ghost next = co_player_ids@.take(i + 1);
        assert(next == pre.push(c));
        if c != user_id {
            match best {
                Some(m) => {
                    if c < m {
                        best = Some(c);
                        assert(next[i as int] == c);
                    } else {
                        let ghost k = choose|k: int| 0 <= k < pre.len() && pre[k] == m;
                        assert(next[k] == m);
                    }
                },
                None => {
                    best = Some(c);
                    assert(next[i as int] == c);
                },
            }
        } else {
            match best {
                Some(m) => {
                    let ghost k = choose|k: int| 0 <= k < pre.len() && pre[k] == m;
                    assert(next[k] == m);
                },
                None => {},
            }
        }
        i += 1;
    }
    assert(co_player_ids@.take(co_player_ids@.len() as int) == co_player_ids@);
    best
}

/// Whom to ask about after a session of `seconds`: nobody for sessions
/// shorter than `MIN_SECONDS`, otherwise `pick_mate`.
pub fn session_survey_target(user_id: u64, co_player_ids: &[u64], seconds: i64) -> (r: Option<u64>)
    ensures
        seconds < MIN_SECONDS ==> r is None,
        seconds >= MIN_SECONDS ==> match r {
            Some(m) => is_min_mate(user_id, co_player_ids@, m),
            None => forall|i: int| 0 <= i < co_player_ids@.len() ==> co_player_ids@[i] == user_id,
        },
{
    if seconds < MIN_SECONDS {
        None
    } else {
        pick_mate(user_id, co_player_ids)
    }
}

/// The decision of a survey claim, in order: privacy opt-out, "never ask",
/// the user's 48-hour cooldown, the pair's 30-day cooldown; otherwise ask.
/// Times are Unix seconds.
pub open spec fn ask_decision_spec(
    opted_out: bool,
    never_ask: bool,
    last_ask: Option<i64>,
    last_pair_ask: Option<i64>,
    now: i64,
) -> AskDecision {
    if opted_out {
        AskDecision::OptedOut
    } else if never_ask {
        AskDecision::NeverAsk
    } else if last_ask is Some && now - last_ask->0 < ASK_COOLDOWN_SECONDS {
        AskDecision::UserCooldown
    } else if last_pair_ask is Some && now - last_pair_ask->0 < PAIR_COOLDOWN_SECONDS {
        AskDecision::PairCooldown
    } else {
        AskDecision::Ask
    }
}

pub fn ask_decision(
    opted_out: bool,
    never_ask: bool,
    last_ask: Option<i64>,
    last_pair_ask: Option<i64>,
    now: i64,
) -> (r: AskDecision)
    ensures
        r == ask_decision_spec(opted_out, never_ask, last_ask, last_pair_ask, now),
{
    if opted_out {
        return AskDecision::OptedOut;
    }
    if never_ask {
        return AskDecision::NeverAsk;
    }
    match last_ask {
        Some(last) => {
            if (now as i128) - (last as i128) < ASK_COOLDOWN_SECONDS as i128 {
                return AskDecision::UserCooldown;
            }
        },
        None => {},
    }
    match last_pair_ask {
        Some(last) => {
            if (now as i128) - (last as i128) < PAIR_COOLDOWN_SECONDS as i128 {
                return AskDecision::PairCooldown;
            }
        },
        None => {},
    }
    AskDecision::Ask
}

/// The decision log entry of a claim that did not ask: `None` for the
/// decisions that are not logged.
pub fn skipped_decision_reason(decision: AskDecision) -> (r: Option<&'static str>)
    ensures
        match decision {
            AskDecision::OptedOut => r == Some("privacy_opt_out"),
            AskDecision::NeverAsk => r == Some("nie_fragen"),
            AskDecision::UserCooldown => r == Some("user_cooldown"),
            AskDecision::PairCooldown => r == Some("paar_cooldown"),
            _ => r is None,
        },
{
    match decision {
        AskDecision::OptedOut => Some("privacy_opt_out"),
        AskDecision::NeverAsk => Some("nie_fragen"),
        AskDecision::UserCooldown => Some("user_cooldown"),
        AskDecision::PairCooldown => Some("paar_cooldown"),
        _ => None,
    }
}

pub open spec fn thanks_spec(rating: Seq<char>) -> Seq<char> {
    if rating == RATING_AGAIN@ {
        THANKS_AGAIN@
    } else if rating == RATING_RATHER_NOT@ {
        THANKS_RATHER_NOT@
    } else {
        THANKS_OK@
    }
}

/// The reply to a rating.
pub fn rating_thanks(rating: &str) -> (r: &'static str)
    ensures
        r@ == thanks_spec(rating@),
{
    if str_eq(rating, RATING_AGAIN) {
        THANKS_AGAIN
    } else if str_eq(rating, RATING_RATHER_NOT) {
        THANKS_RATHER_NOT
    } else {
        THANKS_OK
    }
}

pub open spec fn reason_spec(rating: Seq<char>) -> Seq<char> {
    if rating == RATING_AGAIN@ {
        "gerne_wieder"@
    } else if rating == RATING_RATHER_NOT@ {
        "lieber_nicht"@
    } else {
        "war_okay"@
    }
}

/// The decision-log reason of a rating.
pub fn rating_reason(rating: &str) -> (r: &'static str)
    ensures
        r@ == reason_spec(rating@),
{
    if str_eq(rating, RATING_AGAIN) {
        "gerne_wieder"
    } else if str_eq(rating, RATING_RATHER_NOT) {
        "lieber_nicht"
    } else {
        "war_okay"
    }
}

/// A button of the survey DM.
#[derive(Debug, Clone, PartialEq, Eq)]
pub enum SurveyAction {
    Rate { mate_id: u64, rating: &'static str, channel_id: u64, seconds: i64 },
    Comment { mate_id: u64 },
    Never,
}

pub open spec fn parse_u64_spec(s: Seq<char>) -> Option<u64> {
    match parse_int_spec(s, 0, u64::MAX as int) {
        Some(n) => Some(n as u64),
        None => None,
    }
}

pub open spec fn parse_i64_spec(s: Seq<char>) -> Option<i64> {
    match parse_int_spec(s, i64::MIN as int, i64::MAX as int) {
        Some(n) => Some(n as i64),
        None => None,
    }
}

pub open spec fn rating_of(s: Seq<char>) -> Option<Seq<char>> {
    if s == RATING_AGAIN@ || s == RATING_OK@ || s == RATING_RATHER_NOT@ {
        Some(s)
    } else {
        None
    }
}

/// The button of a custom id, read from its `:`-separated parts after the
/// prefix (parts beyond the needed ones are ignored):
/// `voice_mate:rate:<rating>:<mate>:<channel>:<seconds>`,
/// `voice_mate:comment:<mate>`, `voice_mate:never`.
pub open spec fn survey_action_spec(custom_id: Seq<char>) -> Option<SurveyAction> {
    if !has_prefix(custom_id, CUSTOM_ID_PREFIX@) {
        None
    } else {
        let parts = split_on_spec(
            custom_id.subrange(CUSTOM_ID_PREFIX@.len() as int, custom_id.len() as int),
            ':',
        );
        if parts[0] == "never"@ {
            Some(SurveyAction::Never)
        } else if parts[0] == "comment"@ {
            if parts.len() < 2 {
                None
            } else {
                match parse_u64_spec(parts[1]) {
                    Some(m) => Some(SurveyAction::Comment { mate_id: m }),
                    None => None,
                }
            }
        } else if parts[0] == "rate"@ {
            if parts.len() < 2 || rating_of(parts[1]) is None || parts.len() < 3 {
                None
            } else {
                match parse_u64_spec(parts[2]) {
                    None => None,
                    Some(m) => if parts.len() < 4 {
                        None
                    } else {
                        match parse_u64_spec(parts[3]) {
                            None => None,
                            Some(c) => if parts.len() < 5 {
                                None
                            } else {
                                match parse_i64_spec(parts[4]) {
                                    None => None,
                                    Some(secs) => Some(
                                        SurveyAction::Rate {
                                            mate_id: m,
                                            rating: arbitrary(),
                                            channel_id: c,
                                            seconds: secs,
                                        },
                                    ),
                                }
                            },
                        }
                    },
                }
            }
        } else {
            None
        }
    }
}

/// Whether `a` is the action that `survey_action_spec` gives, with the rating
/// text of a rate button equal to the part it was read from.
pub open spec fn is_survey_action(custom_id: Seq<char>, a: Option<SurveyAction>) -> bool {
    match (a, survey_action_spec(custom_id)) {
        (None, None) => true,
        (Some(SurveyAction::Never), Some(SurveyAction::Never)) => true,
        (Some(SurveyAction::Comment { mate_id: x }), Some(SurveyAction::Comment { mate_id: y })) => x
            == y,
        (
            Some(SurveyAction::Rate { mate_id: m1, rating: r1, channel_id: c1, seconds: s1 }),
            Some(SurveyAction::Rate { mate_id: m2, channel_id: c2, seconds: s2, .. }),
        ) => m1 == m2 && c1 == c2 && s1 == s2 && Some(r1@) == rating_of(
            split_on_spec(
                custom_id.subrange(CUSTOM_ID_PREFIX@.len() as int, custom_id.len() as int),
                ':',
            )[1],
        ),
        _ => false,
    }
}

fn part_u64(parts: &Vec<Vec<char>>, k: usize) -> (r: Option<u64>)
    requires
        k < parts@.len(),
    ensures
        r == parse_u64_spec(parts@[k as int]@),
{
    parse_u64(&parts[k])
}

pub fn parse_custom_id(custom_id: &str) -> (r: Option<SurveyAction>)
    ensures
        is_survey_action(custom_id@, r),
{
    let v = chars_of(custom_id);
    let prefix = chars_of(CUSTOM_ID_PREFIX);
    if !crate::text::starts_with_chars(&v, &prefix) {
        return None;
    }
    let rest = slice_chars(&v, prefix.len(), v.len());
    let parts = split_on_char(&rest, ':');
    let ghost pv = parts@.map_values(|w: Vec<char>| w@);
    proof {
        crate::text::lemma_split_on_nonempty(rest@, ':');
        assert forall|k: int| 0 <= k < parts@.len() implies pv[k] == parts@[k]@ by {}
    }
    if chars_eq_str(&parts[0], "never") {
        return Some(SurveyAction::Never);
    }
    if chars_eq_str(&parts[0], "comment") {
        if parts.len() < 2 {
            return None;
        }
        return match part_u64(&parts, 1) {
            Some(m) => Some(SurveyAction::Comment { mate_id: m }),
            None => None,
        };
    }
    if chars_eq_str(&parts[0], "rate") {
        if parts.len() < 2 {
            return None;
        }
        let rating: &'static str = if chars_eq_str(&parts[1], RATING_AGAIN) {
            RATING_AGAIN
        } else if chars_eq_str(&parts[1], RATING_OK) {
            RATING_OK
        } else if chars_eq_str(&parts[1], RATING_RATHER_NOT) {
            RATING_RATHER_NOT
        } else {
            return None;
        };
        if parts.len() < 3 {
            return None;
        }
        let mate_id = match part_u64(&parts, 2) {
            Some(m) => m,
            None => return None,
        };
        if parts.len() < 4 {
            return None;
        }
        let channel_id = match part_u64(&parts, 3) {
            Some(c) => c,
            None => return None,
        };
        if parts.len() < 5 {
            return None;
        }
        let seconds = match parse_i64(&parts[4]) {
            Some(s) => s,
            None => return None,
        };
        return Some(SurveyAction::Rate { mate_id, rating, channel_id, seconds });
    }
    None
}

pub open spec fn rate_id_spec(rating: Seq<char>, mate_id: u64, channel_id: u64, seconds: i64) -> Seq<char> {
    CUSTOM_ID_PREFIX@ + "rate:"@ + rating + ":"@ + int_dec(mate_id as int) + ":"@ + int_dec(
        channel_id as int,
    ) + ":"@ + int_dec(seconds as int)
}

pub fn rate_custom_id(rating: &str, mate_id: u64, channel_id: u64, seconds: i64) -> (r: String)
    ensures
        r@ == rate_id_spec(rating@, mate_id, channel_id, seconds),
{
    let mut v = chars_of(CUSTOM_ID_PREFIX);
    append_str(&mut v, "rate:");
    append_str(&mut v, rating);
    append_str(&mut v, ":");
    push_u64(&mut v, mate_id);
    append_str(&mut v, ":");
    push_u64(&mut v, channel_id);
    append_str(&mut v, ":");
    push_i64(&mut v, seconds);
    string_of(&v)
}

pub fn comment_custom_id(mate_id: u64) -> (r: String)
    ensures
        r@ == CUSTOM_ID_PREFIX@ + "comment:"@ + int_dec(mate_id as int),
{
    let mut v = chars_of(CUSTOM_ID_PREFIX);
    append_str(&mut v, "comment:");
    push_u64(&mut v, mate_id);
    string_of(&v)
}

pub fn never_custom_id() -> (r: String)
    ensures
        r@ == CUSTOM_ID_PREFIX@ + "never"@,
{
    let mut v = chars_of(CUSTOM_ID_PREFIX);
    append_str(&mut v, "never");
    string_of(&v)
}

/// A server emoji as a Discord tag `<:name:id>`.
pub fn emoji_tag(emoji: (&str, &str)) -> (r: String)
    ensures
        r@ == "<:"@ + emoji.0@ + ":"@ + emoji.1@ + ">"@,
{
    let mut v = chars_of("<:");
    append_str(&mut v, emoji.0);
    append_str(&mut v, ":");
    append_str(&mut v, emoji.1);
    append_str(&mut v, ">");
    string_of(&v)
}

/// Whole minutes of a session, at least one.
pub open spec fn session_minutes(seconds: i64) -> int {
    if seconds < 60 {
        1
    } else {
        seconds / 60
    }
}

/// `N Minuten` below 90 minutes, `H Stunden` or `H Stunden und M Minuten`
/// from there on.
pub open spec fn minutes_label_spec(seconds: i64) -> Seq<char> {
    let m = session_minutes(seconds);
    if m >= 90 {
        if m % 60 == 0 {
            int_dec(m / 60) + " Stunden"@
        } else {
            int_dec(m / 60) + " Stunden und "@ + int_dec(m % 60) + " Minuten"@
        }
    } else {
        int_dec(m) + " Minuten"@
    }
}

pub fn minutes_label(seconds: i64) -> (r: String)
    ensures
        r@ == minutes_label_spec(seconds),
{
    let minutes: i64 = if seconds < 60 {
        1
    } else {
        seconds / 60
    };
    let mut v: Vec<char> = Vec::new();
    if minutes >= 90 {
        let hours = minutes / 60;
        let rest = minutes % 60;
        push_i64(&mut v, hours);
        if rest == 0 {
            append_str(&mut v, " Stunden");
        } else {
            append_str(&mut v, " Stunden und ");
            push_i64(&mut v, rest);
            append_str(&mut v, " Minuten");
        }
    } else {
        push_i64(&mut v, minutes);
        append_str(&mut v, " Minuten");
    }
    string_of(&v)
}

/// The question of the survey DM: how long the session in the channel was,
/// whether the user would play with the mate again, and that the answer
/// stays private. Mentions only, nobody is pinged.
pub open spec fn survey_text_spec(mate_id: u64, channel_id: u64, seconds: i64) -> Seq<char> {
    "Ihr wart gerade "@ + minutes_label_spec(seconds) + " zusammen in <#"@ + int_dec(channel_id as int)
        + "> unterwegs.\n\n**Würdest du wieder mit <@"@ + int_dec(mate_id as int)
        + "> spielen?**\nSagst du Ja, setze ich euch öfter zusammen in eine Lane.\n\n🔒 **Deine Antwort bleibt privat.** <@"@
        + int_dec(mate_id as int) + "> erfährt nie, was du hier klickst."@
}

pub fn survey_text(mate_id: u64, channel_id: u64, seconds: i64) -> (r: String)
    ensures
        r@ == survey_text_spec(mate_id, channel_id, seconds),
{
    let mut v = chars_of("Ihr wart gerade ");
    let label = minutes_label(seconds);
    append_str(&mut v, label.as_str());
    append_str(&mut v, " zusammen in <#");
    push_u64(&mut v, channel_id);
    append_str(&mut v, "> unterwegs.\n\n**Würdest du wieder mit <@");
    push_u64(&mut v, mate_id);
    append_str(
        &mut v,
        "> spielen?**\nSagst du Ja, setze ich euch öfter zusammen in eine Lane.\n\n🔒 **Deine Antwort bleibt privat.** <@",
    );
    push_u64(&mut v, mate_id);
    append_str(&mut v, "> erfährt nie, was du hier klickst.");
    string_of(&v)
}

/// The survey DM: a gold container with the header (the ranked server emoji
/// and "Kurz gefragt"), a divider, the question, the three rating buttons
/// (the first with the casual server emoji), a thin separator and a row
/// with the comment and the never-ask-again button. Nobody is pinged.
pub open spec fn dm_body_view(
    mate_id: u64,
    channel_id: u64,
    seconds: i64,
    ranked_emoji: (Seq<char>, Seq<char>),
    casual_emoji: (Seq<char>, Seq<char>),
) -> JsonView {
    let header = "## "@ + ("<:"@ + ranked_emoji.0 + ":"@ + ranked_emoji.1 + ">"@) + " Kurz gefragt"@;
    let ratings = seq![
        emoji_button_view(
            3,
            "Gerne wieder"@,
            rate_id_spec(RATING_AGAIN@, mate_id, channel_id, seconds),
            casual_emoji.0,
            casual_emoji.1,
        ),
        button_view(2, "War okay"@, rate_id_spec(RATING_OK@, mate_id, channel_id, seconds)),
        button_view(
            4,
            "Lieber nicht"@,
            rate_id_spec(RATING_RATHER_NOT@, mate_id, channel_id, seconds),
        ),
    ];
    let others = seq![
        button_view(2, "Kommentar dazu"@, CUSTOM_ID_PREFIX@ + "comment:"@ + int_dec(mate_id as int)),
        button_view(2, "Nicht mehr fragen"@, CUSTOM_ID_PREFIX@ + "never"@),
    ];
    JsonView::Object(
        seq![
            ("flags"@, num_view(COMPONENTS_V2_FLAG as int)),
            ("allowed_mentions"@, no_mentions_view()),
            (
                "components"@,
                JsonView::Array(
                    seq![
                        container_view(
                            ACCENT_GOLD as int,
                            seq![
                                text_display_view(header),
                                separator_view(true, 2),
                                text_display_view(survey_text_spec(mate_id, channel_id, seconds)),
                                action_row_view(ratings),
                                separator_view(false, 1),
                                action_row_view(others),
                            ],
                        ),
                    ],
                ),
            ),
        ],
    )
}

/// The survey DM about `mate_id` after a session of `seconds` in
/// `channel_id`; the two server emojis are given by name and id.
pub fn dm_body(
    mate_id: u64,
    channel_id: u64,
    seconds: i64,
    ranked_emoji: (&str, &str),
    casual_emoji: (&str, &str),
) -> (r: JsonNode)
    ensures
        r@ == dm_body_view(
            mate_id,
            channel_id,
            seconds,
            (ranked_emoji.0@, ranked_emoji.1@),
            (casual_emoji.0@, casual_emoji.1@),
        ),
{
    let ghost want = dm_body_view(
        mate_id,
        channel_id,
        seconds,
        (ranked_emoji.0@, ranked_emoji.1@),
        (casual_emoji.0@, casual_emoji.1@),
    );
    let mut header = chars_of("## ");
    let tag = emoji_tag(ranked_emoji);
    append_str(&mut header, tag.as_str());
    append_str(&mut header, " Kurz gefragt");
    let again = rate_custom_id(RATING_AGAIN, mate_id, channel_id, seconds);
    let ok = rate_custom_id(RATING_OK, mate_id, channel_id, seconds);
    let rather_not = rate_custom_id(RATING_RATHER_NOT, mate_id, channel_id, seconds);
    let ratings = vec![
        emoji_button(3, "Gerne wieder", again.as_str(), casual_emoji),
        button(2, "War okay", ok.as_str()),
        button(4, "Lieber nicht", rather_not.as_str()),
    ];
    let comment = comment_custom_id(mate_id);
    let never = never_custom_id();
    let others = vec![
        button(2, "Kommentar dazu", comment.as_str()),
        button(2, "Nicht mehr fragen", never.as_str()),
    ];
    let ghost items_want = want->Object_0[2].1->Array_0[0]->Object_0[2].1->Array_0;
    assert(views_of(ratings@) =~= items_want[3]->Object_0[1].1->Array_0);
    assert(views_of(others@) =~= items_want[5]->Object_0[1].1->Array_0);
    let items = vec![
        text_display(string_of(&header)),
        separator(true, 2),
        text_display(survey_text(mate_id, channel_id, seconds)),
        action_row(ratings),
        separator(false, 1),
        action_row(others),
    ];
    assert(views_of(items@) =~= items_want);
    let boxed = container(ACCENT_GOLD, items);
    let ghost bv = boxed@;
    let components = jarr(vec![boxed]);
    assert(components@->Array_0 =~= seq![bv]);
    let r = jobj(
        vec![
            entry("flags", jnum(COMPONENTS_V2_FLAG)),
            entry("allowed_mentions", no_mentions()),
            entry("components", components),
        ],
    );
    assert(r@->Object_0 =~= want->Object_0);
    r
}

/// What to do with a submitted comment form.
#[derive(Debug, Clone, PartialEq, Eq)]
pub enum CommentStep {
    /// Nothing was written: thank without storing.
    ThankOnly,
    /// The form lost its mate id.
    Invalid,
    /// Store the (trimmed) comment on the rating of this mate.
    Attach { mate_id: u64, comment: String },
}

/// The comment form's fields: an empty (trimmed) comment is only thanked
/// for; otherwise the mate id field must hold an id.
pub fn comment_step(mate_id_field: Option<&str>, comment_field: Option<&str>) -> (r: CommentStep)
    ensures
        ({
            let comment = match comment_field {
                Some(c) => trim_spec(c@),
                None => Seq::<char>::empty(),
            };
            let mate = match mate_id_field {
                Some(m) => parse_u64_spec(m@),
                None => None,
            };
            if comment.len() == 0 {
                r == CommentStep::ThankOnly
            } else {
                match mate {
                    None => r == CommentStep::Invalid,
                    Some(m) => r matches CommentStep::Attach { mate_id, comment: c } && mate_id == m
                        && c@ == comment,
                }
            }
        }),
{
    let comment = match comment_field {
        Some(c) => trim_str(c),
        None => Vec::new(),
    };
    if comment.len() == 0 {
        return CommentStep::ThankOnly;
    }
    let mate = match mate_id_field {
        Some(m) => {
            let mv = chars_of(m);
            parse_u64(&mv)
        },
        None => None,
    };
    match mate {
        None => CommentStep::Invalid,
        Some(m) => CommentStep::Attach { mate_id: m, comment: string_of(&comment) },
    }
}

/// The key of a pair, the same in both directions: `<lower>:<higher>`.
pub open spec fn pair_key_spec(one: u64, other: u64) -> Seq<char> {
    let (low, high) = if one <= other {
        (one, other)
    } else {
        (other, one)
    };
    int_dec(low as int) + ":"@ + int_dec(high as int)
}

pub fn pair_key(one: u64, other: u64) -> (r: String)
    ensures
        r@ == pair_key_spec(one, other),
{
    let (low, high) = if one <= other {
        (one, other)
    } else {
        (other, one)
    };
    let mut v: Vec<char> = Vec::new();
    push_u64(&mut v, low);
    append_str(&mut v, ":");
    push_u64(&mut v, high);
    string_of(&v)
}

// ── Laws ────────────────────────────────────────────────────────────────────

proof fn lemma_rest_of_id(prefix: Seq<char>, rest: Seq<char>)
    ensures
        has_prefix(prefix + rest, prefix),
        (prefix + rest).subrange(prefix.len() as int, (prefix + rest).len() as int) == rest,
{
    assert((prefix + rest).subrange(0, prefix.len() as int) =~= prefix);
    assert((prefix + rest).subrange(prefix.len() as int, (prefix + rest).len() as int) =~= rest);
}

proof fn lemma_dec_no_colon(n: int)
    ensures
        !int_dec(n).contains(':'),
{
    crate::text::lemma_int_dec_chars(n, ':');
}

/// A rate button reads back as itself: whatever `parse_custom_id` returns
/// for the custom id of a rating (again, ok, rather not) of a mate in a
/// channel after a session is that rating of that mate, channel and session.
pub proof fn lemma_rate_custom_id_round_trip(
    rating: Seq<char>,
    mate_id: u64,
    channel_id: u64,
    seconds: i64,
    parsed: Option<SurveyAction>,
)
    requires
        rating == RATING_AGAIN@ || rating == RATING_OK@ || rating == RATING_RATHER_NOT@,
        is_survey_action(rate_id_spec(rating, mate_id, channel_id, seconds), parsed),
    ensures
        parsed matches Some(SurveyAction::Rate { mate_id: m, rating: r, channel_id: c, seconds: t })
            && m == mate_id && r@ == rating && c == channel_id && t == seconds,
{
    reveal_strlit("voice_mate:");
    reveal_strlit("rate:");
    reveal_strlit("rate");
    reveal_strlit(":");
    reveal_strlit("never");
    reveal_strlit("comment");
    reveal_strlit("again");
    reveal_strlit("ok");
    reveal_strlit("rather_not");
    let dm = int_dec(mate_id as int);
    let dc = int_dec(channel_id as int);
    let ds = int_dec(seconds as int);
    let rest = "rate:"@ + rating + ":"@ + dm + ":"@ + dc + ":"@ + ds;
    let id = rate_id_spec(rating, mate_id, channel_id, seconds);
    assert(id =~= CUSTOM_ID_PREFIX@ + rest);
    lemma_rest_of_id(CUSTOM_ID_PREFIX@, rest);
    let t3 = dc + seq![':'] + ds;
    let t2 = dm + seq![':'] + t3;
    let t1 = rating + seq![':'] + t2;
    assert(rest =~= "rate"@ + seq![':'] + t1);
    lemma_dec_no_colon(mate_id as int);
    lemma_dec_no_colon(channel_id as int);
    lemma_dec_no_colon(seconds as int);
    assert(!"rate"@.contains(':'));
    assert(!rating.contains(':'));
    crate::text::lemma_split_on_concat("rate"@, t1, ':');
    crate::text::lemma_split_on_concat(rating, t2, ':');
    crate::text::lemma_split_on_concat(dm, t3, ':');
    crate::text::lemma_split_on_concat(dc, ds, ':');
    crate::text::lemma_split_on_no_sep(ds, ':');
    let parts = split_on_spec(rest, ':');
    assert(parts =~= seq!["rate"@, rating, dm, dc, ds]);
    crate::text::lemma_parse_int_dec(mate_id as int, 0, u64::MAX as int);
    crate::text::lemma_parse_int_dec(channel_id as int, 0, u64::MAX as int);
    crate::text::lemma_parse_int_dec(seconds as int, i64::MIN as int, i64::MAX as int);
}

/// A comment button reads back as the comment button of that mate.
pub proof fn lemma_comment_custom_id_round_trip(mate_id: u64, parsed: Option<SurveyAction>)
    requires
        is_survey_action(CUSTOM_ID_PREFIX@ + "comment:"@ + int_dec(mate_id as int), parsed),
    ensures
        parsed == Some(SurveyAction::Comment { mate_id }),
{
    reveal_strlit("voice_mate:");
    reveal_strlit("comment:");
    reveal_strlit("comment");
    reveal_strlit("never");
    let dm = int_dec(mate_id as int);
    let rest = "comment:"@ + dm;
    assert(CUSTOM_ID_PREFIX@ + "comment:"@ + dm =~= CUSTOM_ID_PREFIX@ + rest);
    lemma_rest_of_id(CUSTOM_ID_PREFIX@, rest);
    assert(rest =~= "comment"@ + seq![':'] + dm);
    lemma_dec_no_colon(mate_id as int);
    assert(!"comment"@.contains(':'));
    crate::text::lemma_split_on_concat("comment"@, dm, ':');
    crate::text::lemma_split_on_no_sep(dm, ':');
    let parts = split_on_spec(rest, ':');
    assert(parts =~= seq!["comment"@, dm]);
    crate::text::lemma_parse_int_dec(mate_id as int, 0, u64::MAX as int);
}

/// The "never ask" button reads back as itself.
pub proof fn lemma_never_custom_id_round_trip(parsed: Option<SurveyAction>)
    requires
        is_survey_action(CUSTOM_ID_PREFIX@ + "never"@, parsed),
    ensures
        parsed == Some(SurveyAction::Never),
{
    reveal_strlit("voice_mate:");
    reveal_strlit("never");
    lemma_rest_of_id(CUSTOM_ID_PREFIX@, "never"@);
    assert(!"never"@.contains(':'));
    crate::text::lemma_split_on_no_sep("never"@, ':');
}

/// The pair key does not depend on the order of the two users.
pub proof fn lemma_pair_key_symmetric(one: u64, other: u64)
    ensures
        pair_key_spec(one, other) == pair_key_spec(other, one),
{
}

// ── Comment form ───────────────────────────────────────────────────────────

/// The comment form about a co-player. A modal submit does not carry the
/// button's id, so the co-player's id travels as a prefilled field.
pub fn comment_modal(mate_id: u64) -> (m: ModalSpec)
    ensures
        m.custom_id@ == COMMENT_MODAL_ID@,
        m.title@ == "Kommentar zur Runde"@,
        m.fields@.len() == 2,
        plain_field(
            m.fields@[0],
            COMMENT_FIELD@,
            "Was möchtest du uns mitgeben?"@,
            "Alles, was für dich zählt. Liest nur das Team."@,
            false,
            0,
            1000,
            true,
        ),
        m.fields@[1].custom_id@ == "mate_id"@,
        m.fields@[1].label@ == "Bezug (bitte stehen lassen)"@,
        m.fields@[1].placeholder@ == Seq::<char>::empty(),
        m.fields@[1].value matches Some(v) && v@ == int_dec(mate_id as int),
        m.fields@[1].required,
        m.fields@[1].min_length == 1,
        m.fields@[1].max_length == 32,
        !m.fields@[1].paragraph,
{
    let mut fields = Vec::new();
    fields.push(
        plain_modal_field(
            COMMENT_FIELD,
            "Was möchtest du uns mitgeben?",
            "Alles, was für dich zählt. Liest nur das Team.",
            false,
            0,
            1000,
            true,
        ),
    );
    fields.push(
        ModalField {
            custom_id: owned("mate_id"),
            label: owned("Bezug (bitte stehen lassen)"),
            placeholder: String::new(),
            value: Some(u64_to_string(mate_id)),
            required: true,
            min_length: 1,
            max_length: 32,
            paragraph: false,
        },
    );
    ModalSpec {
        custom_id: owned(COMMENT_MODAL_ID),
        title: owned("Kommentar zur Runde"),
        fields,
    }
}

/// Restraint of the survey: nobody is asked who opted out of tracking or
/// pressed "don't ask again", nobody twice within the personal cooldown, no
/// pair twice within the pair cooldown.
pub proof fn lemma_survey_is_restrained(
    opted_out: bool,
    never_ask: bool,
    last_ask: Option<i64>,
    last_pair_ask: Option<i64>,
    now: i64,
)
    ensures
        ask_decision_spec(opted_out, never_ask, last_ask, last_pair_ask, now) == AskDecision::Ask
            ==> {
            &&& !opted_out
            &&& !never_ask
            &&& (last_ask matches Some(t) ==> now - t >= ASK_COOLDOWN_SECONDS)
            &&& (last_pair_ask matches Some(t) ==> now - t >= PAIR_COOLDOWN_SECONDS)
        },
{
}

} // verus!
