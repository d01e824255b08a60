//! Lane pairing: two lanes that have sat alone in the same mode for a while
//! are asked whether they want to play together. One yes is enough: the
//! lane that says yes moves over to the other one.

use vstd::prelude::*;
use crate::components::{no_mentions, no_mentions_view};
use crate::json::{entry, jobj, jstring, JsonNode, JsonView};
use crate::mate_survey::{pair_key_spec, parse_u64_spec};
use crate::sorting::{isort, stable_sort, total_preorder, SortKey};
use crate::text::{
    append_str, chars_eq_str, chars_of, has_prefix, int_dec, owned, parse_u64, push_u64,
    slice_chars, split_on_char, split_on_spec, starts_with_chars, string_of,
};

verus! {

/// A lane must have sat unchanged this long (seconds) before it is asked.
pub const MIN_ALONE_SECONDS: i64 = 180;
/// No new pairing question to a user for this long (seconds, two hours).
pub const ASK_COOLDOWN_SECONDS: i64 = 7200;
/// The same two are not brought together again for this long (seconds, a day).
pub const PAIR_COOLDOWN_SECONDS: i64 = 86400;
/// After "maybe later" the bot may ask again this soon (seconds, 45 minutes).
pub const LATER_RETRY_SECONDS: i64 = 2700;
/// Largest group that is still asked.
pub const MAX_GROUP_SIZE: usize = 4;
/// Most members a lane takes.
pub const MAX_LANE_MEMBERS: usize = 6;

pub const CUSTOM_ID_PREFIX: &'static str = "voice_pair:";
pub const YES_ACTION: &'static str = "yes";
pub const NO_ACTION: &'static str = "no";
pub const LATER_ACTION: &'static str = "later";
pub const NEVER_ACTION: &'static str = "never";

pub const MOVED_REPLY: &'static str = "Ihr seid zusammen in einer Lane. Viel Spaß euch beiden.";
pub const TOO_FULL_REPLY: &'static str =
    "Inzwischen seid ihr zusammen zu viele für eine Lane. Beim nächsten Mal klappt es.";
pub const MOVE_PARTIAL_REPLY: &'static str =
    "Fast alle sind drüben, bei einem hat es nicht geklappt. Der kann einfach selbst rüberspringen.";
pub const MOVE_FAILED_REPLY: &'static str =
    "Das Verschieben hat gerade nicht geklappt. Spring einfach selbst rüber, die Lane steht.";
pub const GONE_REPLY: &'static str =
    "Knapp verpasst, die Lane ist schon leer. Ich sag dir Bescheid, sobald wieder jemand allein sitzt.";
pub const ALREADY_TOGETHER_REPLY: &'static str = "Ihr sitzt doch schon zusammen. Viel Spaß euch.";
pub const NOT_IN_LANE_REPLY: &'static str =
    "Du sitzt gerade nicht mehr in deiner Lane. Spring wieder rein, dann klappt es.";
pub const NO_REPLY: &'static str = "Alles gut, dann zockst du in Ruhe für dich. Viel Spaß.";
pub const LATER_REPLY: &'static str = "Passt, ich frag später nochmal.";
pub const NEVER_REPLY: &'static str =
    "Erledigt, ich frag dich nicht mehr wegen Mitspielern. Über die Mitspieler-Suche findest du trotzdem jederzeit Leute.";
pub const NEVER_FAILED_REPLY: &'static str =
    "Das konnte ich gerade nicht speichern. Probier es gleich nochmal.";
pub const INVALID_REPLY: &'static str = "Diese Anfrage ist abgelaufen.";

/// A lane as the watcher sees it: its router mode (`casual`, `ranked`,
/// `street_brawl`), members and owner when known.
#[derive(Debug, Clone, PartialEq, Eq)]
pub struct LaneView {
    pub channel_id: u64,
    pub mode: String,
    pub members: Vec<u64>,
    pub owner_id: Option<u64>,
}

/// A small lane the watcher has observed; `speaker_id` is the one asked (the
/// owner, otherwise the first member); `since` is when this line-up began
/// (Unix seconds).
#[derive(Debug, Clone, PartialEq, Eq)]
pub struct LaneSeat {
    pub speaker_id: u64,
    pub channel_id: u64,
    pub mode: String,
    pub members: Vec<u64>,
    pub since: i64,
}

/// Members of a seat, at least one.
pub open spec fn seat_size(s: LaneSeat) -> int {
    if s.members@.len() == 0 {
        1
    } else {
        s.members@.len() as int
    }
}

impl LaneSeat {
    pub fn size(&self) -> (r: usize)
        ensures
            r == seat_size(*self),
    {
        if self.members.len() == 0 {
            1
        } else {
            self.members.len()
        }
    }
}

/// Whether a pairing question may be sent, or why not.
#[derive(Debug, Clone, Copy, PartialEq, Eq, Structural)]
pub enum AskDecision {
    Ask,
    OptedOut,
    NeverAsk,
    UserCooldown,
    PairCooldown,
    /// One of the two turned the other down in the co-player survey.
    Unwanted,
}

/// What is known of one user when a question is claimed.
#[derive(Debug, Clone, Copy, PartialEq, Eq, Structural)]
pub struct UserAskState {
    pub opted_out: bool,
    pub never_ask: bool,
    /// Unix seconds of the last question.
    pub last_ask: Option<i64>,
}

pub open spec fn user_block(u: UserAskState, now: i64) -> Option<AskDecision> {
    if u.opted_out {
        Some(AskDecision::OptedOut)
    } else if u.never_ask {
        Some(AskDecision::NeverAsk)
    } else if u.last_ask is Some && now - u.last_ask->0 < ASK_COOLDOWN_SECONDS {
        Some(AskDecision::UserCooldown)
    } else {
        None
    }
}

/// The claim of a pairing question, in order: the first user's opt-out,
/// "never ask" and cooldown, the same for the second, the pair's cooldown,
/// a survey refusal between the two; otherwise ask.
pub open spec fn pair_ask_decision_spec(
    first: UserAskState,
    second: UserAskState,
    last_pair_ask: Option<i64>,
    unwanted: bool,
    now: i64,
) -> AskDecision {
    match user_block(first, now) {
        Some(d) => d,
        None => match user_block(second, now) {
            Some(d) => d,
            None => if last_pair_ask is Some && now - last_pair_ask->0 < PAIR_COOLDOWN_SECONDS {
                AskDecision::PairCooldown
            } else if unwanted {
                AskDecision::Unwanted
            } else {
                AskDecision::Ask
            },
        },
    }
}

fn user_block_exec(u: UserAskState, now: i64) -> (r: Option<AskDecision>)
    ensures
        r == user_block(u, now),
{
    if u.opted_out {
        Some(AskDecision::OptedOut)
    } else if u.never_ask {
        Some(AskDecision::NeverAsk)
    } else {
        match u.last_ask {
            Some(last) => {
                if (now as i128) - (last as i128) < ASK_COOLDOWN_SECONDS as i128 {
                    Some(AskDecision::UserCooldown)
                } else {
                    None
                }
            },
            None => None,
        }
    }
}

pub fn pair_ask_decision(
    first: UserAskState,
    second: UserAskState,
    last_pair_ask: Option<i64>,
    unwanted: bool,
    now: i64,
) -> (r: AskDecision)
    ensures
        r == pair_ask_decision_spec(first, second, last_pair_ask, unwanted, now),
{
    match user_block_exec(first, now) {
        Some(d) => return d,
        None => {},
    }
    match user_block_exec(second, now) {
        Some(d) => return d,
        None => {},
    }
    match last_pair_ask {
        Some(last) => {
            if (now as i128) - (last as i128) < PAIR_COOLDOWN_SECONDS as i128 {
                return AskDecision::PairCooldown;
            }
        },
        None => {},
    }
    if unwanted {
        AskDecision::Unwanted
    } else {
        AskDecision::Ask
    }
}

/// The decision-log reason of a claim that did not ask.
pub fn skipped_decision_reason(decision: AskDecision) -> (r: Option<&'static str>)
    ensures
        match decision {
            AskDecision::Ask => r is None,
            AskDecision::OptedOut => r == Some("privacy_opt_out"),
            AskDecision::NeverAsk => r == Some("nie_fragen"),
            AskDecision::UserCooldown => r == Some("user_cooldown"),
            AskDecision::PairCooldown => r == Some("paar_cooldown"),
            AskDecision::Unwanted => r == Some("paarung_abgelehnt"),
        },
{
    match decision {
        AskDecision::Ask => None,
        AskDecision::OptedOut => Some("privacy_opt_out"),
        AskDecision::NeverAsk => Some("nie_fragen"),
        AskDecision::UserCooldown => Some("user_cooldown"),
        AskDecision::PairCooldown => Some("paar_cooldown"),
        AskDecision::Unwanted => Some("paarung_abgelehnt"),
    }
}

/// The stamps "maybe later" writes so that both blocks run out in
/// `LATER_RETRY_SECONDS`: (each user's last-ask stamp, the pair's stamp).
pub fn softened_stamps(now: i64) -> (r: (i64, i64))
    requires
        now >= i64::MIN + PAIR_COOLDOWN_SECONDS,
    ensures
        r.0 == now - ASK_COOLDOWN_SECONDS + LATER_RETRY_SECONDS,
        r.1 == now - PAIR_COOLDOWN_SECONDS + LATER_RETRY_SECONDS,
{
    (now - ASK_COOLDOWN_SECONDS + LATER_RETRY_SECONDS, now - PAIR_COOLDOWN_SECONDS + LATER_RETRY_SECONDS)
}

/// The pair key, the same in both directions: `<lower>:<higher>`.
pub fn pair_key(one: u64, other: u64) -> (r: String)
    ensures
        r@ == pair_key_spec(one, other),
{
    crate::mate_survey::pair_key(one, other)
}

/// A button of the pairing DM.
#[derive(Debug, Clone, Copy, PartialEq, Eq, Structural)]
pub enum PairAction {
    Yes { guild_id: u64, own_lane: u64, other_lane: u64, other_user: u64 },
    No { other_user: u64 },
    /// Not now, but ask again soon.
    Later { other_user: u64 },
    Never,
}

pub open spec fn user_action(parts: Seq<Seq<char>>, later: bool) -> Option<PairAction> {
    if parts.len() < 2 {
        None
    } else {
        match parse_u64_spec(parts[1]) {
            Some(u) => Some(
                if later {
                    PairAction::Later { other_user: u }
                } else {
                    PairAction::No { other_user: u }
                },
            ),
            None => None,
        }
    }
}

/// The button of a custom id, read from its `:`-separated parts after the
/// prefix (further parts are ignored):
/// `voice_pair:yes:<guild>:<own_lane>:<other_lane>:<other_user>`,
/// `voice_pair:no:<other_user>`, `voice_pair:later:<other_user>`,
/// `voice_pair:never`.
pub open spec fn pair_action_spec(custom_id: Seq<char>) -> Option<PairAction> {
    if !has_prefix(custom_id, CUSTOM_ID_PREFIX@) {
        None
    } else {
        let parts = split_on_spec(
            custom_id.subrange(CUSTOM_ID_PREFIX@.len() as int, custom_id.len() as int),
            ':',
        );
        if parts[0] == NEVER_ACTION@ {
            Some(PairAction::Never)
        } else if parts[0] == NO_ACTION@ {
            user_action(parts, false)
        } else if parts[0] == LATER_ACTION@ {
            user_action(parts, true)
        } else if parts[0] == YES_ACTION@ {
            if parts.len() < 5 {
                None
            } else {
                match (
                    parse_u64_spec(parts[1]),
                    parse_u64_spec(parts[2]),
                    parse_u64_spec(parts[3]),
                    parse_u64_spec(parts[4]),
                ) {
                    (Some(g), Some(o), Some(l), Some(u)) => Some(
                        PairAction::Yes { guild_id: g, own_lane: o, other_lane: l, other_user: u },
                    ),
                    _ => None,
                }
            }
        } else {
            None
        }
    }
}

fn part_u64(parts: &Vec<Vec<char>>, k: usize) -> (r: Option<u64>)
    requires
        k < parts@.len(),
    ensures
        r == parse_u64_spec(parts@[k as int]@),
{
    parse_u64(&parts[k])
}

pub fn parse_custom_id(custom_id: &str) -> (r: Option<PairAction>)
    ensures
        r == pair_action_spec(custom_id@),
{
    let v = chars_of(custom_id);
    let prefix = chars_of(CUSTOM_ID_PREFIX);
    if !starts_with_chars(&v, &prefix) {
        return None;
    }
    let rest = slice_chars(&v, prefix.len(), v.len());
    let parts = split_on_char(&rest, ':');
    let ghost pv = parts@.map_values(|w: Vec<char>| w@);
    proof {
        crate::text::lemma_split_on_nonempty(rest@, ':');
        assert forall|k: int| 0 <= k < parts@.len() implies pv[k] == parts@[k]@ by {}
    }
    if chars_eq_str(&parts[0], NEVER_ACTION) {
        return Some(PairAction::Never);
    }
    if chars_eq_str(&parts[0], NO_ACTION) {
        if parts.len() < 2 {
            return None;
        }
        return match part_u64(&parts, 1) {
            Some(u) => Some(PairAction::No { other_user: u }),
            None => None,
        };
    }
    if chars_eq_str(&parts[0], LATER_ACTION) {
        if parts.len() < 2 {
            return None;
        }
        return match part_u64(&parts, 1) {
            Some(u) => Some(PairAction::Later { other_user: u }),
            None => None,
        };
    }
    if chars_eq_str(&parts[0], YES_ACTION) {
        if parts.len() < 5 {
            return None;
        }
        let g = part_u64(&parts, 1);
        let o = part_u64(&parts, 2);
        let l = part_u64(&parts, 3);
        let u = part_u64(&parts, 4);
        return match (g, o, l, u) {
            (Some(g), Some(o), Some(l), Some(u)) => Some(
                PairAction::Yes { guild_id: g, own_lane: o, other_lane: l, other_user: u },
            ),
            _ => None,
        };
    }
    None
}

pub fn yes_custom_id(guild_id: u64, own_lane: u64, other_lane: u64, other_user: u64) -> (r: String)
    ensures
        r@ == CUSTOM_ID_PREFIX@ + YES_ACTION@ + ":"@ + int_dec(guild_id as int) + ":"@ + int_dec(
            own_lane as int,
        ) + ":"@ + int_dec(other_lane as int) + ":"@ + int_dec(other_user as int),
{
    let mut v = chars_of(CUSTOM_ID_PREFIX);
    append_str(&mut v, YES_ACTION);
    append_str(&mut v, ":");
    push_u64(&mut v, guild_id);
    append_str(&mut v, ":");
    push_u64(&mut v, own_lane);
    append_str(&mut v, ":");
    push_u64(&mut v, other_lane);
    append_str(&mut v, ":");
    push_u64(&mut v, other_user);
    string_of(&v)
}

fn user_id_button(action: &str, other_user: u64) -> (r: String)
    ensures
        r@ == CUSTOM_ID_PREFIX@ + action@ + ":"@ + int_dec(other_user as int),
{
    let mut v = chars_of(CUSTOM_ID_PREFIX);
    append_str(&mut v, action);
    append_str(&mut v, ":");
    push_u64(&mut v, other_user);
    string_of(&v)
}

pub fn no_custom_id(other_user: u64) -> (r: String)
    ensures
        r@ == CUSTOM_ID_PREFIX@ + NO_ACTION@ + ":"@ + int_dec(other_user as int),
{
    user_id_button(NO_ACTION, other_user)
}

pub fn later_custom_id(other_user: u64) -> (r: String)
    ensures
        r@ == CUSTOM_ID_PREFIX@ + LATER_ACTION@ + ":"@ + int_dec(other_user as int),
{
    user_id_button(LATER_ACTION, other_user)
}

pub fn never_custom_id() -> (r: String)
    ensures
        r@ == CUSTOM_ID_PREFIX@ + NEVER_ACTION@,
{
    let mut v = chars_of(CUSTOM_ID_PREFIX);
    append_str(&mut v, NEVER_ACTION);
    string_of(&v)
}

/// Small ordinal words so that the DM does not read like a table.
pub open spec fn count_word_spec(count: int) -> Seq<char> {
    if count == 2 {
        "zweit"@
    } else if count == 3 {
        "dritt"@
    } else if count == 4 {
        "viert"@
    } else if count == 5 {
        "fünft"@
    } else if count == 6 {
        "sechst"@
    } else {
        "mehreren"@
    }
}

pub fn count_word(count: usize) -> (r: &'static str)
    ensures
        r@ == count_word_spec(count as int),
{
    match count {
        2 => "zweit",
        3 => "dritt",
        4 => "viert",
        5 => "fünft",
        6 => "sechst",
        _ => "mehreren",
    }
}

/// How the other side is named: one person by name, two or more as a group.
pub open spec fn other_side_label_spec(speaker_id: u64, size: int) -> Seq<char> {
    if size == 1 {
        "sitzt <@"@ + int_dec(speaker_id as int) + "> auch allein"@
    } else if size == 2 {
        "sitzen <@"@ + int_dec(speaker_id as int) + "> und noch jemand"@
    } else {
        "sitzen <@"@ + int_dec(speaker_id as int) + "> und "@ + int_dec(size - 1) + " weitere"@
    }
}

pub fn other_side_label(other: &LaneSeat) -> (r: String)
    ensures
        r@ == other_side_label_spec(other.speaker_id, seat_size(*other)),
{
    let size = other.size();
    let mut v: Vec<char> = Vec::new();
    if size == 1 {
        append_str(&mut v, "sitzt <@");
        push_u64(&mut v, other.speaker_id);
        append_str(&mut v, "> auch allein");
    } else if size == 2 {
        append_str(&mut v, "sitzen <@");
        push_u64(&mut v, other.speaker_id);
        append_str(&mut v, "> und noch jemand");
    } else {
        append_str(&mut v, "sitzen <@");
        push_u64(&mut v, other.speaker_id);
        append_str(&mut v, "> und ");
        push_u64(&mut v, (size - 1) as u64);
        append_str(&mut v, " weitere");
    }
    string_of(&v)
}

/// Headline and question of the pairing DM: a single user is asked whether
/// they want to play with the other side, a group is told how many they are
/// and would be together.
pub open spec fn pairing_text_spec(seat: LaneSeat, other: LaneSeat) -> (Seq<char>, Seq<char>) {
    if seat_size(seat) == 1 {
        (
            "Du sitzt gerade allein"@,
            "Hey, ein paar Kanäle weiter "@ + other_side_label_spec(other.speaker_id, seat_size(other))
                + ". Möchtet ihr zusammen spielen?"@,
        )
    } else {
        (
            "Ihr könntet mehr sein"@,
            "Hey, ihr seid zu "@ + count_word_spec(seat_size(seat)) + " in eurer Lane, und ein paar Kanäle weiter "@
                + other_side_label_spec(other.speaker_id, seat_size(other)) + ". Zusammen wärt ihr zu "@
                + count_word_spec(seat_size(seat) + seat_size(other)) + ". Wollt ihr euch zusammentun?"@,
        )
    }
}

pub fn pairing_text(seat: &LaneSeat, other: &LaneSeat) -> (r: (&'static str, String))
    ensures
        r.0@ == pairing_text_spec(*seat, *other).0,
        r.1@ == pairing_text_spec(*seat, *other).1,
{
    let label = other_side_label(other);
    if seat.size() == 1 {
        let mut v = chars_of("Hey, ein paar Kanäle weiter ");
        append_str(&mut v, label.as_str());
        append_str(&mut v, ". Möchtet ihr zusammen spielen?");
        ("Du sitzt gerade allein", string_of(&v))
    } else {
        let mut v = chars_of("Hey, ihr seid zu ");
        append_str(&mut v, count_word(seat.size()));
        append_str(&mut v, " in eurer Lane, und ein paar Kanäle weiter ");
        append_str(&mut v, label.as_str());
        append_str(&mut v, ". Zusammen wärt ihr zu ");
        let total = if seat.size() <= usize::MAX - other.size() {
            seat.size() + other.size()
        } else {
            usize::MAX
        };
        proof {
            assert(seat.members@.len() <= usize::MAX && other.members@.len() <= usize::MAX);
        }
        append_str(&mut v, count_word(total));
        append_str(&mut v, ". Wollt ihr euch zusammentun?");
        ("Ihr könntet mehr sein", string_of(&v))
    }
}

/// The notice for the lane that gets company.
pub open spec fn merged_text_spec(joining: int, lane_id: u64) -> Seq<char> {
    (if joining == 1 {
        "Da kommt jemand zu euch"@
    } else {
        "Da kommen "@ + int_dec(joining) + " Leute zu euch"@
    }) + " in <#"@ + int_dec(lane_id as int) + ">. Viel Spaß zusammen."@
}

pub fn merged_text(joining: usize, lane_id: u64) -> (r: String)
    ensures
        r@ == merged_text_spec(joining as int, lane_id),
{
    let mut v: Vec<char> = Vec::new();
    if joining == 1 {
        append_str(&mut v, "Da kommt jemand zu euch");
    } else {
        append_str(&mut v, "Da kommen ");
        push_u64(&mut v, joining as u64);
        append_str(&mut v, " Leute zu euch");
    }
    append_str(&mut v, " in <#");
    push_u64(&mut v, lane_id);
    append_str(&mut v, ">. Viel Spaß zusammen.");
    string_of(&v)
}

/// The announcement to the lane that gets visitors, as a message body that
/// pings nobody.
pub fn merged_dm_body(joining: usize, lane_id: u64) -> (r: JsonNode)
    ensures
        r@ == JsonView::Object(
            seq![
                ("allowed_mentions"@, no_mentions_view()),
                ("content"@, JsonView::Str(merged_text_spec(joining as int, lane_id))),
            ],
        ),
{
    let r = jobj(
        vec![
            entry("allowed_mentions", no_mentions()),
            entry("content", jstring(merged_text(joining, lane_id))),
        ],
    );
    assert(r@->Object_0 =~= seq![
        ("allowed_mentions"@, no_mentions_view()),
        ("content"@, JsonView::Str(merged_text_spec(joining as int, lane_id))),
    ]);
    r
}

/// The first check of a yes: where the user sits now.
#[derive(Debug, Clone, Copy, PartialEq, Eq, Structural)]
pub enum YesCheck {
    /// Already in the other lane.
    AlreadyTogether,
    /// Not in the own lane (any more).
    NotInLane,
    /// In the own lane: go on.
    Proceed,
}

pub fn yes_check(current_channel: Option<u64>, own_lane: u64, other_lane: u64) -> (r: YesCheck)
    ensures
        current_channel == Some(other_lane) ==> r == YesCheck::AlreadyTogether,
        current_channel != Some(other_lane) && current_channel == Some(own_lane) ==> r
            == YesCheck::Proceed,
        current_channel != Some(other_lane) && current_channel != Some(own_lane) ==> r
            == YesCheck::NotInLane,
{
    match current_channel {
        Some(c) => {
            if c == other_lane {
                YesCheck::AlreadyTogether
            } else if c == own_lane {
                YesCheck::Proceed
            } else {
                YesCheck::NotInLane
            }
        },
        None => YesCheck::NotInLane,
    }
}

/// The second check of a yes: the other lane must still have someone and
/// both groups must fit into one lane.
#[derive(Debug, Clone, Copy, PartialEq, Eq, Structural)]
pub enum MergeCheck {
    Gone,
    TooFull,
    Move,
}

pub fn merge_check(own_group: usize, other_group: usize) -> (r: MergeCheck)
    ensures
        other_group == 0 ==> r == MergeCheck::Gone,
        other_group > 0 && own_group + other_group > MAX_LANE_MEMBERS ==> r == MergeCheck::TooFull,
        other_group > 0 && own_group + other_group <= MAX_LANE_MEMBERS ==> r == MergeCheck::Move,
{
    if other_group == 0 {
        MergeCheck::Gone
    } else if own_group > MAX_LANE_MEMBERS || other_group > MAX_LANE_MEMBERS - own_group {
        MergeCheck::TooFull
    } else {
        MergeCheck::Move
    }
}

/// The reply after moving the own group: failed when nobody moved, partial
/// when someone could not be moved, otherwise done.
pub fn move_reply(moved: usize, failed: usize) -> (r: &'static str)
    ensures
        moved == 0 ==> r@ == MOVE_FAILED_REPLY@,
        moved > 0 && failed > 0 ==> r@ == MOVE_PARTIAL_REPLY@,
        moved > 0 && failed == 0 ==> r@ == MOVED_REPLY@,
{
    if moved == 0 {
        MOVE_FAILED_REPLY
    } else if failed > 0 {
        MOVE_PARTIAL_REPLY
    } else {
        MOVED_REPLY
    }
}

// ── Picking a pair ──────────────────────────────────────────────────────────

/// A ripe seat by waiting order: when its line-up began, then its lane id.
#[derive(Debug, Clone, Copy, PartialEq, Eq, Structural)]
pub struct RipeKey {
    pub since: i64,
    pub channel_id: u64,
    pub index: usize,
}

impl SortKey for RipeKey {
    open spec fn key_le(self, other: Self) -> bool {
        self.since < other.since || (self.since == other.since && self.channel_id <= other.channel_id)
    }

    fn key_le_exec(&self, other: &Self) -> (r: bool) {
        self.since < other.since || (self.since == other.since && self.channel_id <= other.channel_id)
    }
}

/// A seat that has waited long enough and is small enough to be asked.
pub open spec fn is_ripe(s: LaneSeat, now: i64) -> bool {
    now - s.since >= MIN_ALONE_SECONDS && seat_size(s) <= MAX_GROUP_SIZE
}

/// The ripe seats in their input order, as keys.
pub open spec fn ripe_keys(seats: Seq<LaneSeat>, now: i64) -> Seq<RipeKey>
    decreases seats.len(),
{
    if seats.len() == 0 {
        Seq::empty()
    } else {
        let prev = ripe_keys(seats.drop_last(), now);
        let s = seats.last();
        if is_ripe(s, now) {
            prev.push(RipeKey { since: s.since, channel_id: s.channel_id, index: (seats.len() - 1) as usize })
        } else {
            prev
        }
    }
}

/// Two seats that may be brought together: same mode, different lanes, and
/// together no more than a lane takes.
pub open spec fn compatible(a: LaneSeat, b: LaneSeat) -> bool {
    a.mode@ == b.mode@ && a.channel_id != b.channel_id && seat_size(a) + seat_size(b) <= MAX_LANE_MEMBERS
}

/// The first compatible pair `(i, j)`, `i < j`, of the sorted keys, by `i`
/// then `j`, searching from `(i, j)` on.
pub open spec fn pair_search(keys: Seq<RipeKey>, seats: Seq<LaneSeat>, i: int, j: int) -> Option<(int, int)>
    decreases keys.len() - i, keys.len() - j,
{
    if i < 0 || i >= keys.len() {
        None
    } else if j < 0 || j >= keys.len() {
        pair_search(keys, seats, i + 1, i + 2)
    } else if compatible(seats[keys[i].index as int], seats[keys[j].index as int]) {
        Some((i, j))
    } else {
        pair_search(keys, seats, i, j + 1)
    }
}

/// The pair to ask: among the ripe seats ordered by waiting time (then lane
/// id), the first seat that has a compatible later seat, with the first such.
pub open spec fn pick_pair_spec(seats: Seq<LaneSeat>, now: i64) -> Option<(int, int)> {
    let keys = isort(ripe_keys(seats, now));
    match pair_search(keys, seats, 0, 1) {
        Some((i, j)) => Some((keys[i].index as int, keys[j].index as int)),
        None => None,
    }
}

pub open spec fn same_seat(a: LaneSeat, b: LaneSeat) -> bool {
    a.speaker_id == b.speaker_id && a.channel_id == b.channel_id && a.mode@ == b.mode@
        && a.members@ == b.members@ && a.since == b.since
}

fn copy_u64s(v: &Vec<u64>) -> (r: Vec<u64>)
    ensures
        r@ == v@,
{
    let mut r: Vec<u64> = Vec::new();
    let mut i: usize = 0;
    while i < v.len()
        invariant
            i <= v.len(),
            r@ == v@.take(i as int),
        decreases v.len() - i,
    {
        r.push(v[i]);
        assert(v@.take(i + 1) == v@.take(i as int).push(v@[i as int]));
        i += 1;
    }
    assert(v@.take(v@.len() as int) == v@);
    r
}

/// A copy of a seat.
pub fn copy_seat(s: &LaneSeat) -> (r: LaneSeat)
    ensures
        same_seat(r, *s),
{
    LaneSeat {
        speaker_id: s.speaker_id,
        channel_id: s.channel_id,
        mode: owned(s.mode.as_str()),
        members: copy_u64s(&s.members),
        since: s.since,
    }
}

fn compatible_exec(a: &LaneSeat, b: &LaneSeat) -> (r: bool)
    ensures
        r == compatible(*a, *b),
{
    crate::text::str_eq(a.mode.as_str(), b.mode.as_str()) && a.channel_id != b.channel_id && a.size()
        <= MAX_LANE_MEMBERS && b.size() <= MAX_LANE_MEMBERS - a.size()
}

proof fn lemma_ripe_keys_index(seats: Seq<LaneSeat>, now: i64)
    ensures
        forall|k: int|
            0 <= k < ripe_keys(seats, now).len() ==> (#[trigger] ripe_keys(seats, now)[k]).index
                < seats.len(),
    decreases seats.len(),
{
    if seats.len() > 0 {
        lemma_ripe_keys_index(seats.drop_last(), now);
        let prev = ripe_keys(seats.drop_last(), now);
        assert forall|k: int| 0 <= k < ripe_keys(seats, now).len() implies (
        #[trigger] ripe_keys(seats, now)[k]).index < seats.len() by {
            if k < prev.len() {
                assert(ripe_keys(seats, now)[k] == prev[k]);
            }
        }
    }
}

/// At most one pair per round: see `pick_pair_spec`. Returns copies of the
/// two seats, the longer-waiting one first.
pub fn pick_pair(seats: &[LaneSeat], now: i64) -> (r: Option<(LaneSeat, LaneSeat)>)
    ensures
        match (r, pick_pair_spec(seats@, now)) {
            (None, None) => true,
            (Some((a, b)), Some((i, j))) => 0 <= i < seats@.len() && 0 <= j < seats@.len()
                && same_seat(a, seats@[i]) && same_seat(b, seats@[j]),
            _ => false,
        },
{
    let mut keys: Vec<RipeKey> = Vec::new();
    let mut k: usize = 0;
    while k < seats.len()
        invariant
            k <= seats.len(),
            keys@ == ripe_keys(seats@.take(k as int), now),
        decreases seats.len() - k,
    {
        let ghost next = seats@.take(k + 1);
        assert(next.drop_last() == seats@.take(k as int));
        assert(next.last() == seats@[k as int]);
        let s = &seats[k];
        if (now as i128) - (s.since as i128) >= MIN_ALONE_SECONDS as i128 && s.size() <= MAX_GROUP_SIZE {
            keys.push(RipeKey { since: s.since, channel_id: s.channel_id, index: k });
        }
        k += 1;
    }
    assert(seats@.take(seats@.len() as int) == seats@);
    let sorted = stable_sort(&keys);
    let ghost sk = sorted@;
    proof {
        lemma_ripe_keys_index(seats@, now);
        crate::sorting::lemma_isort_len(keys@);
        crate::sorting::lemma_isort_multiset(keys@);
        assert forall|q: int| 0 <= q < sk.len() implies (#[trigger] sk[q]).index < seats@.len() by {
            broadcast use vstd::seq_lib::group_to_multiset_ensures;
            assert(sk.to_multiset().count(sk[q]) > 0);
            assert(keys@.to_multiset().count(sk[q]) > 0);
            let w = choose|w: int| 0 <= w < keys@.len() && keys@[w] == sk[q];
        }
    }
    let n = sorted.len();
    let mut i: usize = 0;
    while i < n
        invariant
            n == sorted@.len(),
            sorted@ == sk,
            sk == isort(ripe_keys(seats@, now)),
            forall|q: int| 0 <= q < sk.len() ==> (#[trigger] sk[q]).index < seats@.len(),
            i <= n,
            pair_search(sk, seats@, 0, 1) == pair_search(sk, seats@, i as int, i + 1),
        decreases n - i,
    {
        let mut j: usize = i + 1;
        while j < n
            invariant
                n == sorted@.len(),
                sorted@ == sk,
                sk == isort(ripe_keys(seats@, now)),
                forall|q: int| 0 <= q < sk.len() ==> (#[trigger] sk[q]).index < seats@.len(),
                i < n,
                i < j <= n,
                pair_search(sk, seats@, 0, 1) == pair_search(sk, seats@, i as int, j as int),
            decreases n - j,
        {
            let a = &seats[sorted[i].index];
            let b = &seats[sorted[j].index];
            if compatible_exec(a, b) {
                assert(pair_search(sk, seats@, i as int, j as int) == Some((i as int, j as int)));
                return Some((copy_seat(a), copy_seat(b)));
            }
            j += 1;
        }
        i += 1;
    }
    None
}

// ── Watching lanes ──────────────────────────────────────────────────────────

/// The line-up of a watched lane (members ascending) and since when it sits
/// so (Unix seconds).
#[derive(Debug, Clone, PartialEq, Eq)]
pub struct Watched {
    pub members: Vec<u64>,
    pub since: i64,
}

pub open spec fn watched_view(m: Map<u64, Watched>) -> Map<u64, (Seq<u64>, i64)> {
    Map::new(|k: u64| m.dom().contains(k), |k: u64| (m[k].members@, m[k].since))
}

/// A lane the watcher follows: one to `MAX_GROUP_SIZE` members.
pub open spec fn watchable(l: LaneView) -> bool {
    1 <= l.members@.len() <= MAX_GROUP_SIZE
}

/// The one asked for a lane: its owner when the owner sits in it, otherwise
/// the member with the smallest id.
pub open spec fn speaker_spec(owner: Option<u64>, sorted: Seq<u64>) -> u64 {
    if owner is Some && sorted.contains(owner->0) {
        owner->0
    } else {
        sorted[0]
    }
}

/// A seat by its parts: speaker, lane, mode, sorted members, since.
pub type SeatParts = (u64, u64, Seq<char>, Seq<u64>, i64);

pub open spec fn seat_parts(s: LaneSeat) -> SeatParts {
    (s.speaker_id, s.channel_id, s.mode@, s.members@, s.since)
}

/// One round of watching, lane by lane: a watchable lane keeps its `since`
/// while its sorted line-up is the one watched, otherwise it starts anew at
/// `now`; each watchable lane gives a seat.
pub open spec fn watch_fold(
    state: Map<u64, (Seq<u64>, i64)>,
    lanes: Seq<LaneView>,
    now: i64,
) -> (Map<u64, (Seq<u64>, i64)>, Seq<SeatParts>)
    decreases lanes.len(),
{
    if lanes.len() == 0 {
        (state, Seq::empty())
    } else {
        let (st, seats) = watch_fold(state, lanes.drop_last(), now);
        let lane = lanes.last();
        if !watchable(lane) {
            (st, seats)
        } else {
            let m = isort(lane.members@);
            let since = if st.contains_key(lane.channel_id) && st[lane.channel_id].0 == m {
                st[lane.channel_id].1
            } else {
                now
            };
            (
                st.insert(lane.channel_id, (m, since)),
                seats.push((speaker_spec(lane.owner_id, m), lane.channel_id, lane.mode@, m, since)),
            )
        }
    }
}

/// Whether `id` is the lane of a watchable lane of this round.
pub open spec fn seen_in(lanes: Seq<LaneView>, id: u64) -> bool {
    exists|i: int| 0 <= i < lanes.len() && watchable(lanes[i]) && #[trigger] lanes[i].channel_id == id
}

fn u64s_eq(a: &Vec<u64>, b: &Vec<u64>) -> (r: bool)
    ensures
        r == (a@ == b@),
{
    if a.len() != b.len() {
        return false;
    }
    let mut i: usize = 0;
    while i < a.len()
        invariant
            i <= a.len(),
            a.len() == b.len(),
            forall|k: int| 0 <= k < i ==> a@[k] == b@[k],
        decreases a.len() - i,
    {
        if a[i] != b[i] {
            return false;
        }
        i += 1;
    }
    assert(a@ =~= b@);
    true
}

fn contains_u64(v: &Vec<u64>, x: u64) -> (r: bool)
    ensures
        r == v@.contains(x),
{
    let mut i: usize = 0;
    while i < v.len()
        invariant
            i <= v.len(),
            forall|k: int| 0 <= k < i ==> v@[k] != x,
        decreases v.len() - i,
    {
        if v[i] == x {
            return true;
        }
        i += 1;
    }
    false
}

proof fn lemma_fold_keeps_keys(state: Map<u64, (Seq<u64>, i64)>, lanes: Seq<LaneView>, now: i64)
    ensures
        forall|id: u64|
            #![trigger watch_fold(state, lanes, now).0.dom().contains(id)]
            watch_fold(state, lanes, now).0.dom().contains(id) <==> (state.dom().contains(id)
                || seen_in(lanes, id)),
    decreases lanes.len(),
{
    if lanes.len() > 0 {
        let pre = lanes.drop_last();
        lemma_fold_keeps_keys(state, pre, now);
        let last = lanes.last();
        let prev_st = watch_fold(state, pre, now).0;
        assert forall|id: u64|
            watch_fold(state, lanes, now).0.dom().contains(id) <==> (prev_st.dom().contains(id) || (
            watchable(last) && last.channel_id == id)) by {}
        assert forall|id: u64| seen_in(lanes, id) <==> (seen_in(pre, id) || (watchable(lanes.last())
            && lanes.last().channel_id == id)) by {
            if seen_in(lanes, id) {
                let i = choose|i: int|
                    0 <= i < lanes.len() && watchable(lanes[i]) && #[trigger] lanes[i].channel_id == id;
                if i < pre.len() {
                    assert(pre[i] == lanes[i]);
                }
            }
            if seen_in(pre, id) {
                let i = choose|i: int|
                    0 <= i < pre.len() && watchable(pre[i]) && #[trigger] pre[i].channel_id == id;
                assert(lanes[i] == pre[i]);
            }
        }
    }
}

/// One round of watching: the seats of the watchable lanes (see
/// `watch_fold`), and the watched state afterwards holds exactly the lanes
/// seen this round, each with its line-up and since.
pub fn update_watched(watched: &mut std::collections::HashMap<u64, Watched>, lanes: &[LaneView], now: i64) -> (r:
    Vec<LaneSeat>)
    ensures
        ({
            let fold = watch_fold(watched_view(old(watched)@), lanes@, now);
            &&& r@.len() == fold.1.len()
            &&& forall|k: int| 0 <= k < r@.len() ==> #[trigger] seat_parts(r@[k]) == fold.1[k]
            &&& forall|id: u64| final(watched)@.dom().contains(id) <==> seen_in(lanes@, id)
            &&& forall|id: u64|
                #![trigger final(watched)@[id]]
                final(watched)@.dom().contains(id) ==> (final(watched)@[id].members@,
                final(watched)@[id].since) == fold.0[id]
        }),
{
    broadcast use vstd::std_specs::hash::group_hash_axioms;

    let ghost start = watched_view(watched@);
    let mut seats: Vec<LaneSeat> = Vec::new();
    let mut seen: Vec<u64> = Vec::new();
    let mut i: usize = 0;
    while i < lanes.len()
        invariant
            i <= lanes.len(),
            watched_view(watched@) == watch_fold(start, lanes@.take(i as int), now).0,
            seats@.len() == watch_fold(start, lanes@.take(i as int), now).1.len(),
            forall|k: int|
                0 <= k < seats@.len() ==> #[trigger] seat_parts(seats@[k]) == watch_fold(
                    start,
                    lanes@.take(i as int),
                    now,
                ).1[k],
            forall|id: u64| seen@.contains(id) <==> seen_in(lanes@.take(i as int), id),
        decreases lanes.len() - i,
    {
        let ghost pre = lanes@.take(i as int);
        let ghost next = lanes@.take(i + 1);
        assert(next.drop_last() == pre);
        assert(next.last() == lanes@[i as int]);
        let ghost old_seen = seen@;
        assert(forall|id: u64| old_seen.contains(id) <==> seen_in(pre, id));
        let lane = &lanes[i];
        proof {
            assert forall|id: u64| seen_in(next, id) <==> (seen_in(pre, id) || (watchable(*lane)
                && lane.channel_id == id)) by {
                if seen_in(next, id) {
                    let q = choose|q: int|
                        0 <= q < next.len() && watchable(next[q]) && #[trigger] next[q].channel_id == id;
                    if q < pre.len() {
                        assert(pre[q] == next[q]);
                    }
                }
                if seen_in(pre, id) {
                    let q = choose|q: int|
                        0 <= q < pre.len() && watchable(pre[q]) && #[trigger] pre[q].channel_id == id;
                    assert(next[q] == pre[q]);
                }
                if watchable(*lane) && lane.channel_id == id {
                    assert(next[i as int] == *lane);
                }
            }
        }
        if lane.members.len() == 0 || lane.members.len() > MAX_GROUP_SIZE {
            assert forall|id: u64| seen@.contains(id) <==> seen_in(next, id) by {}
            i += 1;
            continue;
        }
        seen.push(lane.channel_id);
        proof {
            assert forall|id: u64| seen@.contains(id) <==> (old_seen.contains(id) || id == lane.channel_id) by {
                if seen@.contains(id) {
                    let q = choose|q: int| 0 <= q < seen@.len() && seen@[q] == id;
                    if q < old_seen.len() {
                        assert(old_seen[q] == id);
                    }
                }
                if old_seen.contains(id) {
                    let q = choose|q: int| 0 <= q < old_seen.len() && old_seen[q] == id;
                    assert(seen@[q] == id);
                }
                if id == lane.channel_id {
                    assert(seen@[old_seen.len() as int] == id);
                }
            }
        }
        let members = stable_sort(lane.members.as_slice());
        let ghost before = watched@;
        let kept_since: Option<i64> = match watched.get(&lane.channel_id) {
            Some(state) => {
                if u64s_eq(&state.members, &members) {
                    Some(state.since)
                } else {
                    None
                }
            },
            None => None,
        };
        let since = match kept_since {
            Some(s) => s,
            None => now,
        };
        watched.insert(lane.channel_id, Watched { members: copy_u64s(&members), since });
        proof {
            crate::sorting::lemma_isort_len(lane.members@);
            assert(watched_view(watched@) =~= watched_view(before).insert(
                lane.channel_id,
                (members@, since),
            ));
        }
        let owner_ok = match lane.owner_id {
            Some(o) => contains_u64(&members, o),
            None => false,
        };
        let speaker = if owner_ok {
            match lane.owner_id {
                Some(o) => o,
                None => members[0],
            }
        } else {
            members[0]
        };
        seats.push(
            LaneSeat {
                speaker_id: speaker,
                channel_id: lane.channel_id,
                mode: owned(lane.mode.as_str()),
                members: members,
                since,
            },
        );
        assert(watchable(*lane));
        assert forall|id: u64| seen@.contains(id) <==> seen_in(next, id) by {
            assert(seen@.contains(id) <==> (old_seen.contains(id) || id == lane.channel_id));
            assert(old_seen.contains(id) <==> seen_in(pre, id));
            assert(seen_in(next, id) <==> (seen_in(pre, id) || (watchable(*lane) && lane.channel_id
                == id)));
        }
        i += 1;
    }
    assert(lanes@.take(lanes@.len() as int) == lanes@);
    let ghost final_state = watched_view(watched@);
    proof {
        lemma_fold_keeps_keys(start, lanes@, now);
        assert forall|id: u64| seen@.contains(id) implies watched@.dom().contains(id) by {
            assert(seen_in(lanes@, id));
            assert(final_state.dom().contains(id));
        }
    }
    let mut kept: std::collections::HashMap<u64, Watched> = std::collections::HashMap::new();
    let mut j: usize = 0;
    while j < seen.len()
        invariant
            j <= seen.len(),
            watched_view(watched@) == final_state,
            forall|id: u64| seen@.contains(id) ==> watched@.dom().contains(id),
            forall|id: u64| kept@.dom().contains(id) <==> seen@.take(j as int).contains(id),
            forall|id: u64|
                #![trigger kept@[id]]
                kept@.dom().contains(id) ==> (kept@[id].members@, kept@[id].since) == final_state[id],
        decreases seen.len() - j,
    {
        let id = seen[j];
        proof {
            let pre = seen@.take(j as int);
            let next = seen@.take(j + 1);
            assert(next == pre.push(id));
            assert forall|y: u64| next.contains(y) <==> (pre.contains(y) || y == id) by {
                if next.contains(y) {
                    let q = choose|q: int| 0 <= q < next.len() && next[q] == y;
                    if q < pre.len() {
                        assert(pre[q] == y);
                    }
                }
                if pre.contains(y) {
                    let q = choose|q: int| 0 <= q < pre.len() && pre[q] == y;
                    assert(next[q] == y);
                }
                if y == id {
                    assert(next[j as int] == y);
                }
            }
            assert(seen@.contains(id));
        }
        match watched.get(&id) {
            Some(w) => {
                let copy = Watched { members: copy_u64s(&w.members), since: w.since };
                kept.insert(id, copy);
                proof {
                    assert(final_state[id] == (w.members@, w.since));
                }
            },
            None => {},
        }
        j += 1;
    }
    assert(seen@.take(seen@.len() as int) == seen@);
    *watched = kept;
    proof {
        lemma_fold_keeps_keys(start, lanes@, now);
    }
    seats
}

// ── Laws ────────────────────────────────────────────────────────────────────

proof fn lemma_rest_of_id(prefix: Seq<char>, rest: Seq<char>)
    ensures
        has_prefix(prefix + rest, prefix),
        (prefix + rest).subrange(prefix.len() as int, (prefix + rest).len() as int) == rest,
{
    assert((prefix + rest).subrange(0, prefix.len() as int) =~= prefix);
    assert((prefix + rest).subrange(prefix.len() as int, (prefix + rest).len() as int) =~= rest);
}

/// A yes button reads back as itself: guild, own lane, other lane and the
/// other user.
#[verifier::spinoff_prover]
#[verifier::rlimit(30)]
pub proof fn lemma_yes_custom_id_round_trip(guild_id: u64, own_lane: u64, other_lane: u64, other_user: u64)
    ensures
        pair_action_spec(
            CUSTOM_ID_PREFIX@ + YES_ACTION@ + ":"@ + int_dec(guild_id as int) + ":"@ + int_dec(
                own_lane as int,
            ) + ":"@ + int_dec(other_lane as int) + ":"@ + int_dec(other_user as int),
        ) == Some(PairAction::Yes { guild_id, own_lane, other_lane, other_user }),
{
    reveal_strlit("voice_pair:");
    reveal_strlit("yes");
    reveal_strlit(":");
    reveal_strlit("never");
    reveal_strlit("no");
    reveal_strlit("later");
    let dg = int_dec(guild_id as int);
    let d1 = int_dec(own_lane as int);
    let d2 = int_dec(other_lane as int);
    let du = int_dec(other_user as int);
    let rest = YES_ACTION@ + ":"@ + dg + ":"@ + d1 + ":"@ + d2 + ":"@ + du;
    let id = CUSTOM_ID_PREFIX@ + YES_ACTION@ + ":"@ + dg + ":"@ + d1 + ":"@ + d2 + ":"@ + du;
    assert(id =~= CUSTOM_ID_PREFIX@ + rest);
    lemma_rest_of_id(CUSTOM_ID_PREFIX@, rest);
    let t3 = d2 + seq![':'] + du;
    let t2 = d1 + seq![':'] + t3;
    let t1 = dg + seq![':'] + t2;
    assert(rest =~= "yes"@ + seq![':'] + t1);
    crate::text::lemma_int_dec_chars(guild_id as int, ':');
    crate::text::lemma_int_dec_chars(own_lane as int, ':');
    crate::text::lemma_int_dec_chars(other_lane as int, ':');
    crate::text::lemma_int_dec_chars(other_user as int, ':');
    assert(!"yes"@.contains(':'));
    crate::text::lemma_split_on_concat("yes"@, t1, ':');
    crate::text::lemma_split_on_concat(dg, t2, ':');
    crate::text::lemma_split_on_concat(d1, t3, ':');
    crate::text::lemma_split_on_concat(d2, du, ':');
    crate::text::lemma_split_on_no_sep(du, ':');
    assert(split_on_spec(rest, ':') =~= seq!["yes"@, dg, d1, d2, du]);
    crate::text::lemma_parse_int_dec(guild_id as int, 0, u64::MAX as int);
    crate::text::lemma_parse_int_dec(own_lane as int, 0, u64::MAX as int);
    crate::text::lemma_parse_int_dec(other_lane as int, 0, u64::MAX as int);
    crate::text::lemma_parse_int_dec(other_user as int, 0, u64::MAX as int);
}

/// A no or later button reads back as itself, with the other user.
pub proof fn lemma_user_button_round_trip(other_user: u64)
    ensures
        pair_action_spec(CUSTOM_ID_PREFIX@ + NO_ACTION@ + ":"@ + int_dec(other_user as int)) == Some(
            PairAction::No { other_user },
        ),
        pair_action_spec(CUSTOM_ID_PREFIX@ + LATER_ACTION@ + ":"@ + int_dec(other_user as int))
            == Some(PairAction::Later { other_user }),
{
    reveal_strlit("voice_pair:");
    reveal_strlit(":");
    reveal_strlit("never");
    reveal_strlit("no");
    reveal_strlit("later");
    let du = int_dec(other_user as int);
    crate::text::lemma_int_dec_chars(other_user as int, ':');
    crate::text::lemma_split_on_no_sep(du, ':');
    crate::text::lemma_parse_int_dec(other_user as int, 0, u64::MAX as int);
    let rest_no = NO_ACTION@ + ":"@ + du;
    assert(CUSTOM_ID_PREFIX@ + NO_ACTION@ + ":"@ + du =~= CUSTOM_ID_PREFIX@ + rest_no);
    lemma_rest_of_id(CUSTOM_ID_PREFIX@, rest_no);
    assert(rest_no =~= "no"@ + seq![':'] + du);
    assert(!"no"@.contains(':'));
    crate::text::lemma_split_on_concat("no"@, du, ':');
    assert(split_on_spec(rest_no, ':') =~= seq!["no"@, du]);
    assert("later"@ != "no"@);
    assert("later"@[0] != "never"@[0]);
    let rest_later = LATER_ACTION@ + ":"@ + du;
    assert(CUSTOM_ID_PREFIX@ + LATER_ACTION@ + ":"@ + du =~= CUSTOM_ID_PREFIX@ + rest_later);
    lemma_rest_of_id(CUSTOM_ID_PREFIX@, rest_later);
    assert(rest_later =~= "later"@ + seq![':'] + du);
    assert(!"later"@.contains(':'));
    crate::text::lemma_split_on_concat("later"@, du, ':');
    assert(split_on_spec(rest_later, ':') =~= seq!["later"@, du]);
}

/// The "never ask" button reads back as itself.
pub proof fn lemma_never_button_round_trip()
    ensures
        pair_action_spec(CUSTOM_ID_PREFIX@ + NEVER_ACTION@) == Some(PairAction::Never),
{
    reveal_strlit("voice_pair:");
    reveal_strlit("never");
    lemma_rest_of_id(CUSTOM_ID_PREFIX@, NEVER_ACTION@);
    assert(!"never"@.contains(':'));
    crate::text::lemma_split_on_no_sep("never"@, ':');
}

proof fn lemma_isort_contains<T: SortKey>(s: Seq<T>, x: T)
    ensures
        isort(s).contains(x) ==> s.contains(x),
{
    broadcast use vstd::seq_lib::group_to_multiset_ensures;

    crate::sorting::lemma_isort_multiset(s);
    if isort(s).contains(x) {
        assert(isort(s).to_multiset().count(x) > 0);
        assert(s.to_multiset().count(x) > 0);
    }
}

proof fn lemma_ripe_keys_are_ripe(seats: Seq<LaneSeat>, now: i64, k: RipeKey)
    requires
        seats.len() <= usize::MAX,
        ripe_keys(seats, now).contains(k),
    ensures
        0 <= k.index < seats.len(),
        is_ripe(seats[k.index as int], now),
        k.since == seats[k.index as int].since,
        k.channel_id == seats[k.index as int].channel_id,
    decreases seats.len(),
{
    let prev = ripe_keys(seats.drop_last(), now);
    if seats.len() > 0 {
        if prev.contains(k) {
            lemma_ripe_keys_are_ripe(seats.drop_last(), now, k);
            assert(seats.drop_last()[k.index as int] == seats[k.index as int]);
        } else {
            let last = seats.last();
            if is_ripe(last, now) {
                let nk = RipeKey { since: last.since, channel_id: last.channel_id, index: (seats.len() - 1) as usize };
                assert(ripe_keys(seats, now) == prev.push(nk));
                let q = choose|q: int| 0 <= q < ripe_keys(seats, now).len() && ripe_keys(seats, now)[q] == k;
                if q < prev.len() {
                    assert(prev[q] == k);
                }
                assert(k == nk);
            } else {
                assert(ripe_keys(seats, now) == prev);
            }
        }
    }
}

proof fn lemma_search_compatible(keys: Seq<RipeKey>, seats: Seq<LaneSeat>, i: int, j: int)
    requires
        0 <= i,
        i < j,
        forall|q: int| 0 <= q < keys.len() ==> (#[trigger] keys[q]).index < seats.len(),
    ensures
        match pair_search(keys, seats, i, j) {
            Some((a, b)) => 0 <= a < b < keys.len() && compatible(
                seats[keys[a].index as int],
                seats[keys[b].index as int],
            ),
            None => true,
        },
    decreases keys.len() - i, keys.len() - j,
{
    if i >= keys.len() {
    } else if j >= keys.len() {
        lemma_search_compatible(keys, seats, i + 1, i + 2);
    } else if compatible(seats[keys[i].index as int], seats[keys[j].index as int]) {
    } else {
        lemma_search_compatible(keys, seats, i, j + 1);
    }
}

/// A picked pair is two different ripe seats that may be brought together:
/// both waited long enough and are small enough, same mode, different
/// lanes, and together they fit into one lane.
pub proof fn lemma_picked_pair_is_sound(seats: Seq<LaneSeat>, now: i64)
    requires
        seats.len() <= usize::MAX,
    ensures
        match pick_pair_spec(seats, now) {
            Some((i, j)) => 0 <= i < seats.len() && 0 <= j < seats.len() && i != j && is_ripe(
                seats[i],
                now,
            ) && is_ripe(seats[j], now) && compatible(seats[i], seats[j]),
            None => true,
        },
{
    let keys = isort(ripe_keys(seats, now));
    lemma_ripe_keys_index(seats, now);
    crate::sorting::lemma_isort_len(ripe_keys(seats, now));
    assert forall|q: int| 0 <= q < keys.len() implies (#[trigger] keys[q]).index < seats.len() by {
        lemma_isort_contains(ripe_keys(seats, now), keys[q]);
        lemma_ripe_keys_are_ripe(seats, now, keys[q]);
    }
    lemma_search_compatible(keys, seats, 0, 1);
    match pair_search(keys, seats, 0, 1) {
        Some((a, b)) => {
            lemma_isort_contains(ripe_keys(seats, now), keys[a]);
            lemma_isort_contains(ripe_keys(seats, now), keys[b]);
            lemma_ripe_keys_are_ripe(seats, now, keys[a]);
            lemma_ripe_keys_are_ripe(seats, now, keys[b]);
        },
        None => {},
    }
}

/// Waiting order of two seats: when their line-up began, then lane id.
pub open spec fn waits_no_longer_than(a: LaneSeat, b: LaneSeat) -> bool {
    a.since < b.since || (a.since == b.since && a.channel_id <= b.channel_id)
}

/// Seats `i` and `j` could be asked together this round.
pub open spec fn askable_pair(seats: Seq<LaneSeat>, now: i64, i: int, j: int) -> bool {
    &&& 0 <= i < seats.len()
    &&& 0 <= j < seats.len()
    &&& is_ripe(seats[i], now)
    &&& is_ripe(seats[j], now)
    &&& compatible(seats[i], seats[j])
}

spec fn keys_compatible(keys: Seq<RipeKey>, seats: Seq<LaneSeat>, p: int, q: int) -> bool {
    compatible(seats[keys[p].index as int], seats[keys[q].index as int])
}

proof fn lemma_search_first(keys: Seq<RipeKey>, seats: Seq<LaneSeat>, i: int, j: int)
    requires
        0 <= i < j,
        forall|p: int, q: int|
            0 <= p < i && p < q < keys.len() ==> !#[trigger] keys_compatible(keys, seats, p, q),
        forall|q: int| i < q < j && q < keys.len() ==> !#[trigger] keys_compatible(keys, seats, i, q),
    ensures
        match pair_search(keys, seats, i, j) {
            Some((a, b)) => {
                &&& 0 <= a < b < keys.len()
                &&& keys_compatible(keys, seats, a, b)
                &&& forall|p: int, q: int|
                    0 <= p < a && p < q < keys.len() ==> !#[trigger] keys_compatible(keys, seats, p, q)
                &&& forall|q: int| a < q < b ==> !#[trigger] keys_compatible(keys, seats, a, q)
            },
            None => forall|p: int, q: int|
                0 <= p < q < keys.len() ==> !#[trigger] keys_compatible(keys, seats, p, q),
        },
    decreases keys.len() - i, keys.len() - j,
{
    if i >= keys.len() {
    } else if j >= keys.len() {
        lemma_search_first(keys, seats, i + 1, i + 2);
    } else if compatible(seats[keys[i].index as int], seats[keys[j].index as int]) {
        assert(keys_compatible(keys, seats, i, j));
    } else {
        assert(!keys_compatible(keys, seats, i, j));
        lemma_search_first(keys, seats, i, j + 1);
    }
}

proof fn lemma_ripe_seat_has_key(seats: Seq<LaneSeat>, now: i64, i: int)
    requires
        seats.len() <= usize::MAX,
        0 <= i < seats.len(),
        is_ripe(seats[i], now),
    ensures
        ripe_keys(seats, now).contains(
            RipeKey { since: seats[i].since, channel_id: seats[i].channel_id, index: i as usize },
        ),
    decreases seats.len(),
{
    let prev = ripe_keys(seats.drop_last(), now);
    let k = RipeKey { since: seats[i].since, channel_id: seats[i].channel_id, index: i as usize };
    if i == seats.len() - 1 {
        assert(ripe_keys(seats, now) == prev.push(k));
        assert(ripe_keys(seats, now)[prev.len() as int] == k);
    } else {
        assert(seats.drop_last()[i] == seats[i]);
        lemma_ripe_seat_has_key(seats.drop_last(), now, i);
        let q = choose|q: int| 0 <= q < prev.len() && prev[q] == k;
        if is_ripe(seats.last(), now) {
            let nk = RipeKey {
                since: seats.last().since,
                channel_id: seats.last().channel_id,
                index: (seats.len() - 1) as usize,
            };
            assert(ripe_keys(seats, now) == prev.push(nk));
            assert(ripe_keys(seats, now)[q] == k);
        } else {
            assert(ripe_keys(seats, now) == prev);
        }
    }
}

proof fn lemma_isort_keeps<T: SortKey>(s: Seq<T>, x: T)
    ensures
        s.contains(x) ==> isort(s).contains(x),
{
    broadcast use vstd::seq_lib::group_to_multiset_ensures;

    crate::sorting::lemma_isort_multiset(s);
    if s.contains(x) {
        assert(s.to_multiset().count(x) > 0);
        assert(isort(s).to_multiset().count(x) > 0);
    }
}

/// The position in the sorted ripe keys of ripe seat `i`.
proof fn lemma_seat_position(seats: Seq<LaneSeat>, now: i64, i: int) -> (p: int)
    requires
        seats.len() <= usize::MAX,
        0 <= i < seats.len(),
        is_ripe(seats[i], now),
    ensures
        0 <= p < isort(ripe_keys(seats, now)).len(),
        isort(ripe_keys(seats, now))[p].index == i,
        isort(ripe_keys(seats, now))[p].since == seats[i].since,
        isort(ripe_keys(seats, now))[p].channel_id == seats[i].channel_id,
{
    let k = RipeKey { since: seats[i].since, channel_id: seats[i].channel_id, index: i as usize };
    lemma_ripe_seat_has_key(seats, now, i);
    lemma_isort_keeps(ripe_keys(seats, now), k);
    let keys = isort(ripe_keys(seats, now));
    choose|p: int| 0 <= p < keys.len() && keys[p] == k
}

/// The pair asked is the one that has waited longest: a pair is picked
/// exactly when two seats could be asked together; the first seat picked
/// waits no shorter (by line-up start, then lane id) than any seat of any
/// askable pair, and the second waits no shorter than any seat that could be
/// asked together with the first.
#[verifier::rlimit(40)]
#[verifier::spinoff_prover]
pub proof fn lemma_pick_pair_longest_waiting(seats: Seq<LaneSeat>, now: i64)
    requires
        seats.len() <= usize::MAX,
    ensures
        pick_pair_spec(seats, now) is None <==> !exists|i: int, j: int|
            #[trigger] askable_pair(seats, now, i, j),
        match pick_pair_spec(seats, now) {
            Some((a, b)) => {
                &&& askable_pair(seats, now, a, b)
                &&& waits_no_longer_than(seats[a], seats[b])
                &&& forall|i: int, j: int|
                    #[trigger] askable_pair(seats, now, i, j) ==> waits_no_longer_than(seats[a], seats[i])
                        && waits_no_longer_than(seats[a], seats[j])
                &&& forall|y: int|
                    #[trigger] askable_pair(seats, now, a, y) ==> waits_no_longer_than(seats[b], seats[y])
            },
            None => true,
        },
{
    let rk = ripe_keys(seats, now);
    let keys = isort(rk);
    lemma_picked_pair_is_sound(seats, now);
    lemma_ripe_keys_index(seats, now);
    crate::sorting::lemma_isort_len(rk);
    assert(total_preorder::<RipeKey>());
    crate::sorting::lemma_isort_ascending(rk);
    assert forall|q: int| 0 <= q < keys.len() implies {
        &&& 0 <= (#[trigger] keys[q]).index < seats.len()
        &&& keys[q].since == seats[keys[q].index as int].since
        &&& keys[q].channel_id == seats[keys[q].index as int].channel_id
    } by {
        lemma_isort_contains(rk, keys[q]);
        lemma_ripe_keys_are_ripe(seats, now, keys[q]);
    }
    lemma_search_first(keys, seats, 0, 1);
    assert forall|i: int, j: int| #[trigger] askable_pair(seats, now, i, j) implies (exists|p: int, q: int|
        0 <= p < q < keys.len() && #[trigger] keys_compatible(keys, seats, p, q) && (
        (keys[p].index == i && keys[q].index == j) || (keys[p].index == j && keys[q].index == i)))
        by {
        let pi = lemma_seat_position(seats, now, i);
        let pj = lemma_seat_position(seats, now, j);
        assert(pi != pj);
        if pi < pj {
            assert(keys_compatible(keys, seats, pi, pj));
        } else {
            assert(keys_compatible(keys, seats, pj, pi));
        }
    }
    match pair_search(keys, seats, 0, 1) {
        Some((a, b)) => {
            let sa = keys[a].index as int;
            let sb = keys[b].index as int;
            assert(askable_pair(seats, now, sa, sb));
            assert(keys[a].key_le(keys[b]));
            assert forall|i: int, j: int| #[trigger] askable_pair(seats, now, i, j) implies
                waits_no_longer_than(seats[sa], seats[i]) && waits_no_longer_than(seats[sa], seats[j]) by {
                let (p, q) = choose|p: int, q: int|
                    0 <= p < q < keys.len() && #[trigger] keys_compatible(keys, seats, p, q) && (
                    (keys[p].index == i && keys[q].index == j) || (keys[p].index == j && keys[q].index
                        == i));
                assert(a <= p);
                if a < p {
                    assert(keys[a].key_le(keys[p]));
                }
                assert(keys[a].key_le(keys[q]));
            }
            assert forall|y: int| #[trigger] askable_pair(seats, now, sa, y) implies waits_no_longer_than(
                seats[sb],
                seats[y],
            ) by {
                let py = lemma_seat_position(seats, now, y);
                assert(py != a);
                if py < a {
                    assert(keys_compatible(keys, seats, py, a));
                }
                assert(a < py);
                if py < b {
                    assert(keys_compatible(keys, seats, a, py));
                }
                if b < py {
                    assert(keys[b].key_le(keys[py]));
                }
            }
        },
        None => {
            assert forall|i: int, j: int| !#[trigger] askable_pair(seats, now, i, j) by {
                if askable_pair(seats, now, i, j) {
                    let (p, q) = choose|p: int, q: int|
                        0 <= p < q < keys.len() && #[trigger] keys_compatible(keys, seats, p, q) && (
                        (keys[p].index == i && keys[q].index == j) || (keys[p].index == j
                            && keys[q].index == i));
                    assert(!keys_compatible(keys, seats, p, q));
                }
            }
        },
    }
}

/// Watching keeps the waiting time of a lane whose line-up did not change
/// and starts it anew at `now` for a changed or new line-up.
pub proof fn lemma_watch_since(state: Map<u64, (Seq<u64>, i64)>, lane: LaneView, now: i64)
    requires
        watchable(lane),
    ensures
        ({
            let (st, seats) = watch_fold(state, seq![lane], now);
            let m = isort(lane.members@);
            &&& seats.len() == 1
            &&& seats[0].4 == (if state.contains_key(lane.channel_id) && state[lane.channel_id].0 == m {
                state[lane.channel_id].1
            } else {
                now
            })
            &&& st[lane.channel_id] == (m, seats[0].4)
        }),
{
    assert(seq![lane].drop_last() =~= Seq::<LaneView>::empty());
    assert(seq![lane].last() == lane);
    assert(watch_fold(state, Seq::<LaneView>::empty(), now) == (state, Seq::<SeatParts>::empty()));
}

/// Restraint of pairing: a pair is only asked when neither of the two opted
/// out or pressed "don't ask again", both are out of their own cooldown,
/// the pair is out of its cooldown, and neither turned the other down.
pub proof fn lemma_pair_ask_is_restrained(
    first: UserAskState,
    second: UserAskState,
    last_pair_ask: Option<i64>,
    unwanted: bool,
    now: i64,
)
    ensures
        pair_ask_decision_spec(first, second, last_pair_ask, unwanted, now) == AskDecision::Ask
            ==> {
            &&& !first.opted_out && !second.opted_out
            &&& !first.never_ask && !second.never_ask
            &&& (first.last_ask matches Some(t) ==> now - t >= ASK_COOLDOWN_SECONDS)
            &&& (second.last_ask matches Some(t) ==> now - t >= ASK_COOLDOWN_SECONDS)
            &&& (last_pair_ask matches Some(t) ==> now - t >= PAIR_COOLDOWN_SECONDS)
            &&& !unwanted
        },
{
}

/// Liveness of pairing: a pair is asked whenever neither of the two opted
/// out or pressed "don't ask again", each was last asked at least
/// `ASK_COOLDOWN_SECONDS` ago (or never), the pair was last asked at least
/// `PAIR_COOLDOWN_SECONDS` ago (or never), and neither turned the other down.
pub proof fn lemma_pair_ask_when_free(
    first: UserAskState,
    second: UserAskState,
    last_pair_ask: Option<i64>,
    unwanted: bool,
    now: i64,
)
    requires
        !first.opted_out && !second.opted_out,
        !first.never_ask && !second.never_ask,
        first.last_ask matches Some(t) ==> now - t >= ASK_COOLDOWN_SECONDS,
        second.last_ask matches Some(t) ==> now - t >= ASK_COOLDOWN_SECONDS,
        last_pair_ask matches Some(t) ==> now - t >= PAIR_COOLDOWN_SECONDS,
        !unwanted,
    ensures
        pair_ask_decision_spec(first, second, last_pair_ask, unwanted, now) == AskDecision::Ask,
{
}

/// Each refusal names a cause that holds: an opt-out, a "don't ask again",
/// a user asked less than `ASK_COOLDOWN_SECONDS` ago, the pair asked less
/// than `PAIR_COOLDOWN_SECONDS` ago, or a survey refusal.
pub proof fn lemma_pair_ask_refusal_reason(
    first: UserAskState,
    second: UserAskState,
    last_pair_ask: Option<i64>,
    unwanted: bool,
    now: i64,
)
    ensures
        ({
            let d = pair_ask_decision_spec(first, second, last_pair_ask, unwanted, now);
            &&& d == AskDecision::OptedOut ==> first.opted_out || second.opted_out
            &&& d == AskDecision::NeverAsk ==> first.never_ask || second.never_ask
            &&& d == AskDecision::UserCooldown ==> (first.last_ask matches Some(t) && now - t
                < ASK_COOLDOWN_SECONDS) || (second.last_ask matches Some(t) && now - t
                < ASK_COOLDOWN_SECONDS)
            &&& d == AskDecision::PairCooldown ==> (last_pair_ask matches Some(t) && now - t
                < PAIR_COOLDOWN_SECONDS)
            &&& d == AskDecision::Unwanted ==> unwanted
        }),
{
}

/// The causes are weighed in a fixed order: the first user's opt-out,
/// "don't ask again" and cooldown, then the same for the second user, then
/// the pair's cooldown, then a survey refusal.
pub proof fn lemma_pair_ask_precedence(
    first: UserAskState,
    second: UserAskState,
    last_pair_ask: Option<i64>,
    unwanted: bool,
    now: i64,
)
    ensures
        ({
            let d = pair_ask_decision_spec(first, second, last_pair_ask, unwanted, now);
            let first_cool = first.last_ask matches Some(t) && now - t < ASK_COOLDOWN_SECONDS;
            let second_cool = second.last_ask matches Some(t) && now - t < ASK_COOLDOWN_SECONDS;
            let first_free = !first.opted_out && !first.never_ask && !first_cool;
            let second_free = !second.opted_out && !second.never_ask && !second_cool;
            &&& first.opted_out ==> d == AskDecision::OptedOut
            &&& !first.opted_out && first.never_ask ==> d == AskDecision::NeverAsk
            &&& !first.opted_out && !first.never_ask && first_cool ==> d == AskDecision::UserCooldown
            &&& first_free && second.opted_out ==> d == AskDecision::OptedOut
            &&& first_free && !second.opted_out && second.never_ask ==> d == AskDecision::NeverAsk
            &&& first_free && !second.opted_out && !second.never_ask && second_cool ==> d
                == AskDecision::UserCooldown
            &&& first_free && second_free && (last_pair_ask matches Some(t) && now - t
                < PAIR_COOLDOWN_SECONDS) ==> d == AskDecision::PairCooldown
        }),
{
}

} // verus!
