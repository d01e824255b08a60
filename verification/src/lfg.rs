//! Looking-for-group posts: modes and play windows, rank ranges and their
//! labels, forum tags, the post text and the panel's custom ids.

use vstd::prelude::*;
use sha2::Digest;
use crate::components::{
    action_row, action_row_view, button, button_view, container, container_view, emoji_button,
    emoji_button_view, no_mentions, no_mentions_view, text_display, text_display_view, views_of,
    ACCENT_GOLD, COMPONENTS_V2_FLAG,
};
use crate::json::{entry, jarr, jnum, jobj, jstr, jstring, num_view, JsonNode, JsonView};
use crate::lfg_watch::{watch_window_str, LfgWatchWindow};
use crate::rank_catalog::{
    capitalize, capitalize_spec, rank_index, rank_index_chars, rank_index_spec, rank_order,
    rank_order_name,
};
use crate::text::{
    append_chars, append_str, ascii_lower, ascii_lowercase, is_ascii_seq, chars_eq_str, chars_of, contains_chars,
    has_infix, has_prefix, int_dec, is_ws, lowercase_of, owned, parse_i32, parse_i64, parse_int_spec,
    push_i64, push_u64, slice_chars, split_on_char, split_on_spec, split_whitespace_chars,
    split_ws_spec, starts_with_chars, starts_with_str, str_eq, string_of, to_lowercase, trim_chars,
    trim_spec, trim_str,
};

verus! {

pub const LFG_CREATE_START_CUSTOM_ID: &'static str = "lfg:create:start";
pub const LFG_CREATE_MODE_PREFIX: &'static str = "lfg:create:mode:";
pub const LFG_WATCH_START_CUSTOM_ID: &'static str = "lfg:watch:start";
pub const LFG_WATCH_MODE_PREFIX: &'static str = "lfg:watch:mode:";
pub const LFG_POST_PREFIX: &'static str = "lfg:post:";
pub const LFG_OPEN_LANE_PREFIX: &'static str = "lfg:open_lane:";
pub const LFG_JOIN_PREFIX: &'static str = "lfg:join:";
pub const LFG_BANNER_DIR: &'static str = "assets/welcome-banners";
pub const LFG_PANEL_BANNER_FILENAME: &'static str = "router-hero.png";
pub const LFG_PANEL_BODY: &'static str = "**Mitspieler finden**\nModus wählen, Rang-Bereich und Plätze angeben — fertig ist dein Gesuch als eigener Post. Der Post zeigt live, wie viele Plätze in der Lane frei sind, und mit **Beitreten** landest du direkt im Voice.\n\nGesuche räumen sich selbst weg, sobald die Lane schließt.\nWer regelmäßig dabei ist, taucht im [Rank-Leaderboard](https://deutsche-deadlock-community.de/aktivitaet/#rank-leaderboard-card) der Community auf.";
pub const LFG_PANEL_BUTTON: &'static str = "Mitspieler suchen";
pub const LFG_WATCH_PANEL_BUTTON: &'static str = "🔔 Benachrichtige mich";
/// Server emoji of the search button: name and id.
pub const LFG_EMOJI_SEARCH: (&'static str, &'static str) = ("dl_lfg_sucht", "1522801046509064263");
pub const LFG_RANK_ANY_LABEL: &'static str = "Rang egal";
pub const LFG_RANK_ANY_VALUE: &'static str = "egal";
pub const LFG_ERR_RANG_UNBEKANNT: &'static str =
    "Wähl deinen Rang oben aus der Liste — oder lass ihn auf „Rang egal“.";
pub const LFG_POST_TITEL_SCHEMA: &'static str = "LFG:";
pub const LFG_POST_BODY_HEADER: &'static str = "## Mitspieler gesucht";
pub const LFG_POST_BODY_VON: &'static str = "Suche von";
pub const LFG_POST_BODY_MODUS: &'static str = "Modus";
pub const LFG_POST_BODY_RANG: &'static str = "Rang";
pub const LFG_POST_BODY_PLAETZE: &'static str = "Plätze frei";
pub const LFG_POST_RANG_EGAL: &'static str = "Alle Ränge";
pub const LFG_POST_STATUS_OFFEN: &'static str =
    "Klick auf **Beitreten**, dann ziehen wir dich direkt in die Lane.";
pub const LFG_POST_STATUS_VOLL: &'static str =
    "Aktuell voll — schau später nochmal rein oder mach ein eigenes Gesuch auf.";
pub const LFG_EDIT_MIN_INTERVAL_SECONDS: i64 = 5;
pub const LFG_STREET_BRAWL_CAP: i64 = 4;
/// Lane size of a ranked lane: a Deadlock team has six players.
pub const DEFAULT_RANKED_CAP: i64 = 6;
/// Lane size of a casual lane.
pub const DEFAULT_CASUAL_CAP: i64 = 6;
pub const LFG_FORUM_MAX_APPLIED_TAGS: usize = 5;
pub const LFG_FORUM_TAG_MODE_CASUAL: u64 = 1522799471594045510;
pub const LFG_FORUM_TAG_MODE_RANKED: u64 = 1522799471594045511;
pub const LFG_FORUM_TAG_MODE_STREET_BRAWL: u64 = 1522799471594045512;
pub const LFG_FORUM_TAG_RANK_BEGINNER: u64 = 1522799471594045513;
pub const LFG_FORUM_TAG_RANK_ADVANCED: u64 = 1522799471594045514;
pub const LFG_FORUM_TAG_RANK_EXPERIENCED: u64 = 1522799471594045515;
pub const LFG_FORUM_TAG_RANK_ELITE: u64 = 1522799471594045516;
pub const LFG_FORUM_TAG_RANK_ANY: u64 = 1522799471594045517;
pub const LFG_FORUM_TAG_STATUS_ACTIVE: u64 = 1522799471594045518;
pub const LFG_FORUM_TAG_STATUS_LOOKING: u64 = 1522799471594045519;

// ── Modes ───────────────────────────────────────────────────────────────────

#[derive(Debug, Clone, Copy, PartialEq, Eq, Structural)]
pub enum LfgMode {
    Casual,
    Ranked,
    StreetBrawl,
}

pub open spec fn mode_str(m: LfgMode) -> Seq<char> {
    match m {
        LfgMode::Casual => "casual"@,
        LfgMode::Ranked => "ranked"@,
        LfgMode::StreetBrawl => "street_brawl"@,
    }
}

pub open spec fn mode_from_spec(raw: Seq<char>) -> Option<LfgMode> {
    if raw == "casual"@ {
        Some(LfgMode::Casual)
    } else if raw == "ranked"@ {
        Some(LfgMode::Ranked)
    } else if raw == "street_brawl"@ {
        Some(LfgMode::StreetBrawl)
    } else {
        None
    }
}

pub open spec fn mode_display(m: LfgMode) -> Seq<char> {
    match m {
        LfgMode::Casual => "Normale Lane"@,
        LfgMode::Ranked => "Ranked"@,
        LfgMode::StreetBrawl => "Street Brawl"@,
    }
}

impl LfgMode {
    pub fn as_str(self) -> (r: &'static str)
        ensures
            r@ == mode_str(self),
    {
        match self {
            LfgMode::Casual => "casual",
            LfgMode::Ranked => "ranked",
            LfgMode::StreetBrawl => "street_brawl",
        }
    }

    /// The mode of a stored name; `None` for any other text.
    pub fn from_str(raw: &str) -> (r: Option<LfgMode>)
        ensures
            r == mode_from_spec(raw@),
    {
        if str_eq(raw, "casual") {
            Some(LfgMode::Casual)
        } else if str_eq(raw, "ranked") {
            Some(LfgMode::Ranked)
        } else if str_eq(raw, "street_brawl") {
            Some(LfgMode::StreetBrawl)
        } else {
            None
        }
    }

    pub fn display_name(self) -> (r: &'static str)
        ensures
            r@ == mode_display(self),
    {
        match self {
            LfgMode::Casual => "Normale Lane",
            LfgMode::Ranked => "Ranked",
            LfgMode::StreetBrawl => "Street Brawl",
        }
    }

    /// Custom id of the mode button of the create flow.
    pub fn mode_custom_id(self) -> (r: String)
        ensures
            r@ == LFG_CREATE_MODE_PREFIX@ + mode_str(self),
    {
        let mut v = chars_of(LFG_CREATE_MODE_PREFIX);
        append_str(&mut v, self.as_str());
        string_of(&v)
    }

    /// Custom id of the mode button of the watch flow.
    pub fn watch_mode_custom_id(self) -> (r: String)
        ensures
            r@ == LFG_WATCH_MODE_PREFIX@ + mode_str(self),
    {
        let mut v = chars_of(LFG_WATCH_MODE_PREFIX);
        append_str(&mut v, self.as_str());
        string_of(&v)
    }
}

// ── Play windows ────────────────────────────────────────────────────────────

#[derive(Debug, Clone, Copy, PartialEq, Eq, Structural)]
pub enum LfgPlayWindow {
    Jetzt,
    HeuteAbend,
    Wochenende,
    Flexibel,
}

pub open spec fn window_str(w: LfgPlayWindow) -> Seq<char> {
    match w {
        LfgPlayWindow::Jetzt => "jetzt"@,
        LfgPlayWindow::HeuteAbend => "heute_abend"@,
        LfgPlayWindow::Wochenende => "wochenende"@,
        LfgPlayWindow::Flexibel => "flexibel"@,
    }
}

pub open spec fn window_from_spec(raw: Seq<char>) -> Option<LfgPlayWindow> {
    if raw == "jetzt"@ {
        Some(LfgPlayWindow::Jetzt)
    } else if raw == "heute_abend"@ {
        Some(LfgPlayWindow::HeuteAbend)
    } else if raw == "wochenende"@ {
        Some(LfgPlayWindow::Wochenende)
    } else if raw == "flexibel"@ {
        Some(LfgPlayWindow::Flexibel)
    } else {
        None
    }
}

pub open spec fn window_label(w: LfgPlayWindow) -> Seq<char> {
    match w {
        LfgPlayWindow::Jetzt => "Jetzt / bin bereit"@,
        LfgPlayWindow::HeuteAbend => "Heute Abend"@,
        LfgPlayWindow::Wochenende => "Wochenende"@,
        LfgPlayWindow::Flexibel => "Flexibel"@,
    }
}

pub open spec fn window_emoji(w: LfgPlayWindow) -> Seq<char> {
    match w {
        LfgPlayWindow::Jetzt => "⚡"@,
        LfgPlayWindow::HeuteAbend => "🌙"@,
        LfgPlayWindow::Wochenende => "📅"@,
        LfgPlayWindow::Flexibel => "🕒"@,
    }
}

impl LfgPlayWindow {
    pub fn as_str(self) -> (r: &'static str)
        ensures
            r@ == window_str(self),
    {
        match self {
            LfgPlayWindow::Jetzt => "jetzt",
            LfgPlayWindow::HeuteAbend => "heute_abend",
            LfgPlayWindow::Wochenende => "wochenende",
            LfgPlayWindow::Flexibel => "flexibel",
        }
    }

    /// The window of a stored name; `None` for any other text.
    pub fn from_str(raw: &str) -> (r: Option<LfgPlayWindow>)
        ensures
            r == window_from_spec(raw@),
    {
        if str_eq(raw, "jetzt") {
            Some(LfgPlayWindow::Jetzt)
        } else if str_eq(raw, "heute_abend") {
            Some(LfgPlayWindow::HeuteAbend)
        } else if str_eq(raw, "wochenende") {
            Some(LfgPlayWindow::Wochenende)
        } else if str_eq(raw, "flexibel") {
            Some(LfgPlayWindow::Flexibel)
        } else {
            None
        }
    }

    pub fn label(self) -> (r: &'static str)
        ensures
            r@ == window_label(self),
    {
        match self {
            LfgPlayWindow::Jetzt => "Jetzt / bin bereit",
            LfgPlayWindow::HeuteAbend => "Heute Abend",
            LfgPlayWindow::Wochenende => "Wochenende",
            LfgPlayWindow::Flexibel => "Flexibel",
        }
    }

    pub fn emoji(self) -> (r: &'static str)
        ensures
            r@ == window_emoji(self),
    {
        match self {
            LfgPlayWindow::Jetzt => "⚡",
            LfgPlayWindow::HeuteAbend => "🌙",
            LfgPlayWindow::Wochenende => "📅",
            LfgPlayWindow::Flexibel => "🕒",
        }
    }
}

/// ` · <emoji> <label>` of a play window.
pub open spec fn window_suffix(w: LfgPlayWindow) -> Seq<char> {
    " · "@ + window_emoji(w) + " "@ + window_label(w)
}

pub open spec fn play_window_suffix_spec(raw: Seq<char>) -> Option<Seq<char>> {
    match window_from_spec(raw) {
        Some(w) => Some(window_suffix(w)),
        None => None,
    }
}

fn push_window_suffix(v: &mut Vec<char>, w: LfgPlayWindow)
    ensures
        final(v)@ == old(v)@ + window_suffix(w),
{
    append_str(v, " · ");
    append_str(v, w.emoji());
    append_str(v, " ");
    append_str(v, w.label());
}

/// The window suffix of a notification DM for a stored window name.
pub fn play_window_dm_suffix(raw: &str) -> (r: Option<String>)
    ensures
        match (r, play_window_suffix_spec(raw@)) {
            (Some(s), Some(t)) => s@ == t,
            (None, None) => true,
            _ => false,
        },
{
    match LfgPlayWindow::from_str(raw) {
        Some(w) => {
            let mut v: Vec<char> = Vec::new();
            push_window_suffix(&mut v, w);
            Some(string_of(&v))
        },
        None => None,
    }
}

// ── Rank ranges ─────────────────────────────────────────────────────────────

/// A rank range of the lane rank order; an open end is `None`.
#[derive(Debug, Clone, Copy, PartialEq, Eq, Structural)]
pub struct LfgRankRange {
    pub min: Option<i32>,
    pub max: Option<i32>,
}

pub open spec fn opt_str(o: Option<String>) -> Option<Seq<char>> {
    match o {
        Some(s) => Some(s@),
        None => None,
    }
}

pub fn clone_opt_string(o: &Option<String>) -> (r: Option<String>)
    ensures
        opt_str(r) == opt_str(*o),
{
    match o {
        Some(s) => Some(owned(s.as_str())),
        None => None,
    }
}

/// A post being composed in the create flow.
#[derive(Debug, Clone, PartialEq, Eq)]
pub struct LfgDraft {
    pub mode: LfgMode,
    pub rank_from: Option<String>,
    pub rank_to: Option<String>,
    pub slots: Option<i32>,
    pub play_window: Option<LfgPlayWindow>,
    pub lane_id: Option<u64>,
}

impl LfgDraft {
    /// An empty draft of this mode.
    pub fn new(mode: LfgMode, lane_id: Option<u64>) -> (r: LfgDraft)
        ensures
            r.mode == mode,
            r.rank_from is None,
            r.rank_to is None,
            r.slots is None,
            r.play_window is None,
            r.lane_id == lane_id,
    {
        LfgDraft { mode, rank_from: None, rank_to: None, slots: None, play_window: None, lane_id }
    }
}

/// A watch being composed in the watch flow.
#[derive(Debug, Clone, Default, PartialEq, Eq)]
pub struct LfgWatchDraft {
    pub mode: Option<LfgMode>,
    pub rank_from: Option<String>,
    pub rank_to: Option<String>,
    pub window: Option<LfgWatchWindow>,
}

/// The lane rank index of a stored rank value: `Some(None)` for no value or
/// the "any rank" value, `Some(Some(i))` for a known rank, `None` otherwise.
pub open spec fn rank_value_index_spec(value: Option<Seq<char>>) -> Option<Option<i32>> {
    match value {
        None => Some(None),
        Some(v) => if v == LFG_RANK_ANY_VALUE@ {
            Some(None)
        } else if rank_index_spec(v) == 0 {
            None
        } else {
            Some(Some(rank_index_spec(v) as i32))
        },
    }
}

pub fn lfg_rank_value_index(value: Option<&str>) -> (r: Option<Option<i32>>)
    ensures
        r == rank_value_index_spec(match value {
            Some(v) => Some(v@),
            None => None,
        }),
{
    match value {
        None => Some(None),
        Some(v) => {
            if str_eq(v, LFG_RANK_ANY_VALUE) {
                return Some(None);
            }
            let idx = rank_index(v);
            if idx == 0 {
                None
            } else {
                Some(Some(idx as i32))
            }
        },
    }
}

/// The range of two stored rank values, ends swapped when given the wrong
/// way round; `None` when a value is not a known rank.
pub open spec fn range_from_values_spec(from: Option<Seq<char>>, to: Option<Seq<char>>) -> Option<
    LfgRankRange,
> {
    match (rank_value_index_spec(from), rank_value_index_spec(to)) {
        (Some(min), Some(max)) => match (min, max) {
            (Some(l), Some(r)) => if l > r {
                Some(LfgRankRange { min: Some(r), max: Some(l) })
            } else {
                Some(LfgRankRange { min, max })
            },
            _ => Some(LfgRankRange { min, max }),
        },
        _ => None,
    }
}

pub fn lfg_rank_range_from_values(rank_from: Option<&str>, rank_to: Option<&str>) -> (r: Option<
    LfgRankRange,
>)
    ensures
        r == range_from_values_spec(
            match rank_from {
                Some(v) => Some(v@),
                None => None,
            },
            match rank_to {
                Some(v) => Some(v@),
                None => None,
            },
        ),
{
    let mut min = match lfg_rank_value_index(rank_from) {
        Some(m) => m,
        None => return None,
    };
    let mut max = match lfg_rank_value_index(rank_to) {
        Some(m) => m,
        None => return None,
    };
    match (min, max) {
        (Some(left), Some(right)) => {
            if left > right {
                min = Some(right);
                max = Some(left);
            }
        },
        _ => {},
    }
    Some(LfgRankRange { min, max })
}

fn opt_as_str(o: &Option<String>) -> (r: Option<&str>)
    ensures
        match r {
            Some(v) => Some(v@),
            None => None,
        } == opt_str(*o),
{
    match o {
        Some(s) => Some(s.as_str()),
        None => None,
    }
}

pub fn lfg_rank_range_from_draft(draft: &LfgDraft) -> (r: Option<LfgRankRange>)
    ensures
        r == range_from_values_spec(opt_str(draft.rank_from), opt_str(draft.rank_to)),
{
    lfg_rank_range_from_values(opt_as_str(&draft.rank_from), opt_as_str(&draft.rank_to))
}

pub fn lfg_rank_range_from_watch_draft(draft: &LfgWatchDraft) -> (r: Option<LfgRankRange>)
    ensures
        r == range_from_values_spec(opt_str(draft.rank_from), opt_str(draft.rank_to)),
{
    lfg_rank_range_from_values(opt_as_str(&draft.rank_from), opt_as_str(&draft.rank_to))
}

/// A rank value after trimming and lowercasing: `Some(None)` for the "any
/// rank" value, `Some(Some(v))` for a known rank, `None` otherwise.
pub open spec fn normalize_lower_spec(normalized: Seq<char>) -> Option<Option<Seq<char>>> {
    if normalized == LFG_RANK_ANY_VALUE@ {
        Some(None)
    } else if rank_index_spec(normalized) > 0 {
        Some(Some(normalized))
    } else {
        None
    }
}

/// The rank value check on an already trimmed and lowercased value.
pub fn normalize_lfg_rank_lower(normalized: String) -> (r: Option<Option<String>>)
    ensures
        match (r, normalize_lower_spec(normalized@)) {
            (Some(a), Some(b)) => opt_str(a) == b,
            (None, None) => true,
            _ => false,
        },
{
    if str_eq(normalized.as_str(), LFG_RANK_ANY_VALUE) {
        return Some(None);
    }
    if rank_index(normalized.as_str()) > 0 {
        Some(Some(normalized))
    } else {
        None
    }
}

/// A rank value from a select or a preset: trimmed and lowercased, then
/// checked as `normalize_lfg_rank_lower` does.
pub fn normalize_lfg_rank_value(raw: &str) -> (r: Option<Option<String>>)
    ensures
        match (r, normalize_lower_spec(lowercase_of(trim_spec(raw@)))) {
            (Some(a), Some(b)) => opt_str(a) == b,
            (None, None) => true,
            _ => false,
        },
        is_ascii_seq(raw@) ==> match (r, normalize_lower_spec(ascii_lower(trim_spec(raw@)))) {
            (Some(a), Some(b)) => opt_str(a) == b,
            (None, None) => true,
            _ => false,
        },
{
    let trimmed = trim_str(raw);
    let t = string_of(&trimmed);
    proof {
        if is_ascii_seq(raw@) {
            crate::text::lemma_ascii_trim(raw@);
        }
    }
    let lower = to_lowercase(t.as_str());
    normalize_lfg_rank_lower(lower)
}

pub fn normalize_preset_rank(raw: Option<String>) -> (r: Option<Option<String>>)
    ensures
        raw is None ==> r == Some(None::<String>),
        raw is Some ==> match (r, normalize_lower_spec(lowercase_of(trim_spec(raw->0@)))) {
            (Some(a), Some(b)) => opt_str(a) == b,
            (None, None) => true,
            _ => false,
        },
        raw is Some && is_ascii_seq(raw->0@) ==> match (
            r,
            normalize_lower_spec(ascii_lower(trim_spec(raw->0@))),
        ) {
            (Some(a), Some(b)) => opt_str(a) == b,
            (None, None) => true,
            _ => false,
        },
{
    match raw {
        Some(raw) => normalize_lfg_rank_value(raw.as_str()),
        None => Some(None),
    }
}

// ── Slots and capacity ──────────────────────────────────────────────────────

pub open spec fn mode_capacity_spec(m: LfgMode) -> i64 {
    match m {
        LfgMode::Ranked => DEFAULT_RANKED_CAP,
        LfgMode::StreetBrawl => LFG_STREET_BRAWL_CAP,
        LfgMode::Casual => DEFAULT_CASUAL_CAP,
    }
}

pub fn mode_default_capacity(mode: LfgMode) -> (r: i64)
    ensures
        r == mode_capacity_spec(mode),
{
    match mode {
        LfgMode::Ranked => DEFAULT_RANKED_CAP,
        LfgMode::StreetBrawl => LFG_STREET_BRAWL_CAP,
        LfgMode::Casual => DEFAULT_CASUAL_CAP,
    }
}

/// Most slots a post of this mode may ask for: the lane size within 1..=5.
pub open spec fn slot_cap_spec(m: LfgMode) -> int {
    let c = mode_capacity_spec(m) as int;
    if c < 1 {
        1
    } else if c > 5 {
        5
    } else {
        c
    }
}

pub fn slot_select_cap(mode: LfgMode) -> (r: i32)
    ensures
        r == slot_cap_spec(mode),
        1 <= r <= 5,
{
    let c = mode_default_capacity(mode);
    if c < 1 {
        1
    } else if c > 5 {
        5
    } else {
        c as i32
    }
}

/// The slot count of a select value: an integer within 1..=cap after trimming.
pub open spec fn requested_slots_spec(raw: Seq<char>, mode: LfgMode) -> Option<i32> {
    match parse_int_spec(trim_spec(raw), i32::MIN as int, i32::MAX as int) {
        Some(n) => if 1 <= n <= slot_cap_spec(mode) {
            Some(n as i32)
        } else {
            None
        },
        None => None,
    }
}

pub fn parse_requested_slots(raw: &str, mode: LfgMode) -> (r: Option<i32>)
    ensures
        r == requested_slots_spec(raw@, mode),
{
    let t = trim_str(raw);
    match parse_i32(&t) {
        Some(n) => {
            if 1 <= n && n <= slot_select_cap(mode) {
                Some(n)
            } else {
                None
            }
        },
        None => None,
    }
}

// ── Rank labels ─────────────────────────────────────────────────────────────

/// Display name of entry `i` of the lane rank order, capitalised; the
/// unknown-rank message outside 0..=11.
pub open spec fn rank_name_spec(i: int) -> Seq<char> {
    if 0 <= i < 12 {
        capitalize_spec(rank_order(i))
    } else {
        LFG_ERR_RANG_UNBEKANNT@
    }
}

pub fn rank_name(index: i32) -> (r: String)
    ensures
        r@ == rank_name_spec(index as int),
{
    if 0 <= index && index < 12 {
        capitalize(rank_order_name(index as usize))
    } else {
        owned(LFG_ERR_RANG_UNBEKANNT)
    }
}

/// Label of the rank select option of index `i` (1..=11).
pub open spec fn rank_option_label(i: int) -> Seq<char> {
    if i == 1 {
        "Initiate"@
    } else if i == 2 {
        "Seeker"@
    } else if i == 3 {
        "Acolyte"@
    } else if i == 4 {
        "Sentinel"@
    } else if i == 5 {
        "Mystic"@
    } else if i == 6 {
        "Ritualist"@
    } else if i == 7 {
        "Emissary"@
    } else if i == 8 {
        "Oracle"@
    } else if i == 9 {
        "Phantom"@
    } else if i == 10 {
        "Ascendant"@
    } else {
        "Eternus"@
    }
}

/// The select label of a rank index; `rank_name` outside the select's ranks.
pub open spec fn rank_label_spec(i: int) -> Seq<char> {
    if 1 <= i <= 11 {
        rank_option_label(i)
    } else {
        rank_name_spec(i)
    }
}

pub fn lfg_rank_label_from_index(index: i32) -> (r: String)
    ensures
        r@ == rank_label_spec(index as int),
{
    let label = match index {
        1 => "Initiate",
        2 => "Seeker",
        3 => "Acolyte",
        4 => "Sentinel",
        5 => "Mystic",
        6 => "Ritualist",
        7 => "Emissary",
        8 => "Oracle",
        9 => "Phantom",
        10 => "Ascendant",
        11 => "Eternus",
        _ => return rank_name(index),
    };
    owned(label)
}

/// The rank line of a post: one rank, `a bis b`, an open end filled with the
/// lowest or highest rank, or "Alle Ränge".
pub open spec fn rank_range_label_spec(range: LfgRankRange) -> Seq<char> {
    match (range.min, range.max) {
        (Some(a), Some(b)) => if a == b {
            rank_name_spec(a as int)
        } else {
            rank_name_spec(a as int) + " bis "@ + rank_name_spec(b as int)
        },
        (Some(a), None) => rank_name_spec(a as int) + " bis "@ + rank_name_spec(11),
        (None, Some(b)) => rank_name_spec(1) + " bis "@ + rank_name_spec(b as int),
        (None, None) => LFG_POST_RANG_EGAL@,
    }
}

fn push_string(v: &mut Vec<char>, s: String)
    ensures
        final(v)@ == old(v)@ + s@,
{
    append_str(v, s.as_str());
}

pub fn rank_range_label(range: LfgRankRange) -> (r: String)
    ensures
        r@ == rank_range_label_spec(range),
{
    let mut v: Vec<char> = Vec::new();
    match (range.min, range.max) {
        (Some(a), Some(b)) => {
            if a == b {
                return rank_name(a);
            }
            push_string(&mut v, rank_name(a));
            append_str(&mut v, " bis ");
            push_string(&mut v, rank_name(b));
        },
        (Some(a), None) => {
            push_string(&mut v, rank_name(a));
            append_str(&mut v, " bis ");
            push_string(&mut v, rank_name(11));
        },
        (None, Some(b)) => {
            push_string(&mut v, rank_name(1));
            append_str(&mut v, " bis ");
            push_string(&mut v, rank_name(b));
        },
        (None, None) => return owned(LFG_POST_RANG_EGAL),
    }
    string_of(&v)
}

/// The rank part of the draft summary: `ab x`, `bis y`, `x → y` by which
/// ends the user chose, "Rang egal" when nothing (or an invalid value) is set.
pub open spec fn draft_rank_summary_spec(from: Option<Seq<char>>, to: Option<Seq<char>>) -> Seq<char> {
    match range_from_values_spec(from, to) {
        None => LFG_RANK_ANY_LABEL@,
        Some(range) => match (from, to) {
            (None, None) => LFG_RANK_ANY_LABEL@,
            (Some(_), None) => match range.min {
                Some(min) => "ab "@ + rank_label_spec(min as int),
                None => LFG_RANK_ANY_LABEL@,
            },
            (None, Some(_)) => match range.max {
                Some(max) => "bis "@ + rank_label_spec(max as int),
                None => LFG_RANK_ANY_LABEL@,
            },
            (Some(_), Some(_)) => match (range.min, range.max) {
                (Some(min), Some(max)) => rank_label_spec(min as int) + " → "@ + rank_label_spec(
                    max as int,
                ),
                (Some(min), None) => "ab "@ + rank_label_spec(min as int),
                (None, Some(max)) => "bis "@ + rank_label_spec(max as int),
                (None, None) => LFG_RANK_ANY_LABEL@,
            },
        },
    }
}

pub fn lfg_draft_rank_summary(draft: &LfgDraft) -> (r: String)
    ensures
        r@ == draft_rank_summary_spec(opt_str(draft.rank_from), opt_str(draft.rank_to)),
{
    let range = match lfg_rank_range_from_draft(draft) {
        Some(r) => r,
        None => return owned(LFG_RANK_ANY_LABEL),
    };
    let mut v: Vec<char> = Vec::new();
    let has_from = draft.rank_from.is_some();
    let has_to = draft.rank_to.is_some();
    if !has_from && !has_to {
        return owned(LFG_RANK_ANY_LABEL);
    }
    let (show_min, show_max) = if has_from && !has_to {
        (range.min, None)
    } else if !has_from && has_to {
        (None, range.max)
    } else {
        (range.min, range.max)
    };
    match (show_min, show_max) {
        (Some(min), Some(max)) => {
            push_string(&mut v, lfg_rank_label_from_index(min));
            append_str(&mut v, " → ");
            push_string(&mut v, lfg_rank_label_from_index(max));
        },
        (Some(min), None) => {
            append_str(&mut v, "ab ");
            push_string(&mut v, lfg_rank_label_from_index(min));
        },
        (None, Some(max)) => {
            append_str(&mut v, "bis ");
            push_string(&mut v, lfg_rank_label_from_index(max));
        },
        (None, None) => return owned(LFG_RANK_ANY_LABEL),
    }
    string_of(&v)
}

pub open spec fn slots_summary_spec(slots: Option<i32>) -> Seq<char> {
    match slots {
        None => "Plätze offen"@,
        Some(n) => if n == 1 {
            "1 Platz"@
        } else {
            int_dec(n as int) + " Plätze"@
        },
    }
}

pub fn lfg_draft_slots_summary(slots: Option<i32>) -> (r: String)
    ensures
        r@ == slots_summary_spec(slots),
{
    match slots {
        None => owned("Plätze offen"),
        Some(1) => owned("1 Platz"),
        Some(n) => {
            let mut v: Vec<char> = Vec::new();
            push_i64(&mut v, n as i64);
            append_str(&mut v, " Plätze");
            string_of(&v)
        },
    }
}

pub open spec fn opt_window_suffix(w: Option<LfgPlayWindow>) -> Seq<char> {
    match w {
        Some(w) => window_suffix(w),
        None => Seq::empty(),
    }
}

/// The live summary line of a draft and the instruction below it.
pub open spec fn draft_content_spec(
    mode: LfgMode,
    from: Option<Seq<char>>,
    to: Option<Seq<char>>,
    slots: Option<i32>,
    window: Option<LfgPlayWindow>,
) -> Seq<char> {
    "**"@ + mode_display(mode) + "** · "@ + draft_rank_summary_spec(from, to) + " · "@
        + slots_summary_spec(slots) + opt_window_suffix(window)
        + "\nWähl Rang-Bereich und Plätze, dann **Suche veröffentlichen**."@
}

pub fn lfg_draft_content(draft: &LfgDraft) -> (r: String)
    ensures
        r@ == draft_content_spec(
            draft.mode,
            opt_str(draft.rank_from),
            opt_str(draft.rank_to),
            draft.slots,
            draft.play_window,
        ),
{
    let mut v = chars_of("**");
    append_str(&mut v, draft.mode.display_name());
    append_str(&mut v, "** · ");
    push_string(&mut v, lfg_draft_rank_summary(draft));
    append_str(&mut v, " · ");
    push_string(&mut v, lfg_draft_slots_summary(draft.slots));
    match draft.play_window {
        Some(w) => push_window_suffix(&mut v, w),
        None => {},
    }
    append_str(&mut v, "\nWähl Rang-Bereich und Plätze, dann **Suche veröffentlichen**.");
    string_of(&v)
}

// ── Forum tags ──────────────────────────────────────────────────────────────

/// Whether two closed ranges share a rank.
pub open spec fn ranges_overlap_spec(left_min: int, left_max: int, right_min: int, right_max: int) -> bool {
    left_min <= right_max && right_min <= left_max
}

pub fn ranges_overlap(left_min: i32, left_max: i32, right_min: i32, right_max: i32) -> (r: bool)
    ensures
        r == ranges_overlap_spec(left_min as int, left_max as int, right_min as int, right_max as int),
{
    left_min <= right_max && right_min <= left_max
}

pub open spec fn bracket_tag(lo: int, hi: int, b_min: int, b_max: int, tag: u64) -> Seq<u64> {
    if ranges_overlap_spec(lo, hi, b_min, b_max) {
        seq![tag]
    } else {
        Seq::empty()
    }
}

/// Rank-bracket tags whose bracket meets `lo..=hi`: beginner 1–2,
/// advanced 3–5, experienced 6–8, elite 9–11.
pub open spec fn bracket_tags(lo: int, hi: int) -> Seq<u64> {
    bracket_tag(lo, hi, 1, 2, LFG_FORUM_TAG_RANK_BEGINNER) + bracket_tag(
        lo,
        hi,
        3,
        5,
        LFG_FORUM_TAG_RANK_ADVANCED,
    ) + bracket_tag(lo, hi, 6, 8, LFG_FORUM_TAG_RANK_EXPERIENCED) + bracket_tag(
        lo,
        hi,
        9,
        11,
        LFG_FORUM_TAG_RANK_ELITE,
    )
}

/// Rank tags of a post: brackets only for ranked posts with a rank range
/// (an open end reaching 1 or 11), otherwise the "any rank" tag.
pub open spec fn rank_tags_spec(mode: LfgMode, range: LfgRankRange) -> Seq<u64> {
    let brackets = match (mode, range.min, range.max) {
        (LfgMode::Ranked, Some(min), Some(max)) => if min <= max {
            bracket_tags(min as int, max as int)
        } else {
            Seq::empty()
        },
        (LfgMode::Ranked, Some(min), None) => bracket_tags(min as int, 11),
        (LfgMode::Ranked, None, Some(max)) => bracket_tags(1, max as int),
        _ => Seq::empty(),
    };
    if brackets.len() == 0 {
        seq![LFG_FORUM_TAG_RANK_ANY]
    } else {
        brackets
    }
}

pub open spec fn mode_tag(mode: LfgMode) -> u64 {
    match mode {
        LfgMode::Casual => LFG_FORUM_TAG_MODE_CASUAL,
        LfgMode::Ranked => LFG_FORUM_TAG_MODE_RANKED,
        LfgMode::StreetBrawl => LFG_FORUM_TAG_MODE_STREET_BRAWL,
    }
}

pub open spec fn status_tag(lane_attached: bool) -> u64 {
    if lane_attached {
        LFG_FORUM_TAG_STATUS_ACTIVE
    } else {
        LFG_FORUM_TAG_STATUS_LOOKING
    }
}

/// Forum tags of a post: its mode, at most three rank tags, and its status
/// (a lane is attached, or the post is still looking).
pub open spec fn forum_tags_spec(mode: LfgMode, range: LfgRankRange, lane_attached: bool) -> Seq<u64> {
    seq![mode_tag(mode)] + first_n(rank_tags_spec(mode, range), 3) + seq![status_tag(lane_attached)]
}

/// The first `n` elements, or all of them when there are fewer.
pub open spec fn first_n<T>(s: Seq<T>, n: int) -> Seq<T> {
    if s.len() <= n {
        s
    } else {
        s.take(n)
    }
}

fn push_bracket(v: &mut Vec<u64>, lo: i32, hi: i32, b_min: i32, b_max: i32, tag: u64)
    ensures
        final(v)@ == old(v)@ + bracket_tag(lo as int, hi as int, b_min as int, b_max as int, tag),
{
    if ranges_overlap(lo, hi, b_min, b_max) {
        v.push(tag);
    }
}

pub fn derive_lfg_forum_tag_ids(mode: LfgMode, rank_range: LfgRankRange, lane_attached: bool) -> (r:
    Vec<u64>)
    ensures
        r@ == forum_tags_spec(mode, rank_range, lane_attached),
        r@.len() <= LFG_FORUM_MAX_APPLIED_TAGS,
{
    let mode_tag_id = match mode {
        LfgMode::Casual => LFG_FORUM_TAG_MODE_CASUAL,
        LfgMode::Ranked => LFG_FORUM_TAG_MODE_RANKED,
        LfgMode::StreetBrawl => LFG_FORUM_TAG_MODE_STREET_BRAWL,
    };
    let status = if lane_attached {
        LFG_FORUM_TAG_STATUS_ACTIVE
    } else {
        LFG_FORUM_TAG_STATUS_LOOKING
    };
    let mut bounds: Option<(i32, i32)> = None;
    match mode {
        LfgMode::Ranked => match (rank_range.min, rank_range.max) {
            (Some(min), Some(max)) => {
                if min <= max {
                    bounds = Some((min, max));
                }
            },
            (Some(min), None) => bounds = Some((min, 11)),
            (None, Some(max)) => bounds = Some((1, max)),
            (None, None) => {},
        },
        _ => {},
    }
    let mut rank_tags: Vec<u64> = Vec::new();
    match bounds {
        Some((lo, hi)) => {
            push_bracket(&mut rank_tags, lo, hi, 1, 2, LFG_FORUM_TAG_RANK_BEGINNER);
            push_bracket(&mut rank_tags, lo, hi, 3, 5, LFG_FORUM_TAG_RANK_ADVANCED);
            push_bracket(&mut rank_tags, lo, hi, 6, 8, LFG_FORUM_TAG_RANK_EXPERIENCED);
            push_bracket(&mut rank_tags, lo, hi, 9, 11, LFG_FORUM_TAG_RANK_ELITE);
        },
        None => {},
    }
    if rank_tags.len() == 0 {
        rank_tags.push(LFG_FORUM_TAG_RANK_ANY);
    }
    let ghost rt = rank_tags@;
    assert(rt == rank_tags_spec(mode, rank_range));
    let mut tags: Vec<u64> = Vec::new();
    tags.push(mode_tag_id);
    let mut i: usize = 0;
    while i < rank_tags.len() && i < 3
        invariant
            i <= rank_tags.len(),
            i <= 3,
            rank_tags@ == rt,
            tags@ == seq![mode_tag_id] + rt.take(i as int),
        decreases rank_tags.len() - i,
    {
        tags.push(rank_tags[i]);
        assert(rt.take(i + 1) == rt.take(i as int).push(rt[i as int]));
        i += 1;
    }
    assert(rt.take(i as int) == first_n(rt, 3));
    tags.push(status);
    tags
}

// ── Lane modes from router ids and lane names ───────────────────────────────

/// The router's category and staging channel of each mode.
#[derive(Debug, Clone, Copy, PartialEq, Eq, Structural)]
pub struct RouterIds {
    pub ranked_category: u64,
    pub street_brawl_category: u64,
    pub chill_category: u64,
    pub ranked_staging: u64,
    pub street_brawl_staging: u64,
    pub casual_staging: u64,
}

pub open spec fn mode_from_category_spec(ids: RouterIds, category_id: u64) -> Option<LfgMode> {
    if category_id == ids.ranked_category {
        Some(LfgMode::Ranked)
    } else if category_id == ids.street_brawl_category {
        Some(LfgMode::StreetBrawl)
    } else if category_id == ids.chill_category {
        Some(LfgMode::Casual)
    } else {
        None
    }
}

pub fn mode_from_category_id(ids: &RouterIds, category_id: u64) -> (r: Option<LfgMode>)
    ensures
        r == mode_from_category_spec(*ids, category_id),
{
    if category_id == ids.ranked_category {
        Some(LfgMode::Ranked)
    } else if category_id == ids.street_brawl_category {
        Some(LfgMode::StreetBrawl)
    } else if category_id == ids.chill_category {
        Some(LfgMode::Casual)
    } else {
        None
    }
}

pub open spec fn mode_from_staging_spec(ids: RouterIds, staging_id: u64) -> Option<LfgMode> {
    if staging_id == ids.ranked_staging {
        Some(LfgMode::Ranked)
    } else if staging_id == ids.street_brawl_staging {
        Some(LfgMode::StreetBrawl)
    } else if staging_id == ids.casual_staging {
        Some(LfgMode::Casual)
    } else {
        None
    }
}

pub fn mode_from_staging_id(ids: &RouterIds, staging_id: u64) -> (r: Option<LfgMode>)
    ensures
        r == mode_from_staging_spec(*ids, staging_id),
{
    if staging_id == ids.ranked_staging {
        Some(LfgMode::Ranked)
    } else if staging_id == ids.street_brawl_staging {
        Some(LfgMode::StreetBrawl)
    } else if staging_id == ids.casual_staging {
        Some(LfgMode::Casual)
    } else {
        None
    }
}

/// The mode a lane's base name announces (trimmed, ASCII case ignored).
pub open spec fn mode_from_base_spec(base_name: Seq<char>) -> Option<LfgMode> {
    let lower = ascii_lower(trim_spec(base_name));
    if has_prefix(lower, "ranked"@) {
        Some(LfgMode::Ranked)
    } else if has_prefix(lower, "street brawl"@) {
        Some(LfgMode::StreetBrawl)
    } else if has_prefix(lower, "chill lane"@) {
        Some(LfgMode::Casual)
    } else {
        None
    }
}

pub fn mode_from_lane_base(base_name: &str) -> (r: Option<LfgMode>)
    ensures
        r == mode_from_base_spec(base_name@),
{
    let t = trim_str(base_name);
    let lower = ascii_lowercase(&t);
    if starts_with_str(&lower, "ranked") {
        Some(LfgMode::Ranked)
    } else if starts_with_str(&lower, "street brawl") {
        Some(LfgMode::StreetBrawl)
    } else if starts_with_str(&lower, "chill lane") {
        Some(LfgMode::Casual)
    } else {
        None
    }
}

/// A lane's mode: its source staging channel first, then its base name,
/// then its category.
pub open spec fn mode_from_lane_record_spec(
    ids: RouterIds,
    category_id: u64,
    source_staging_id: Option<u64>,
    base_name: Seq<char>,
) -> Option<LfgMode> {
    let by_staging = match source_staging_id {
        Some(s) => mode_from_staging_spec(ids, s),
        None => None,
    };
    if by_staging is Some {
        by_staging
    } else if mode_from_base_spec(base_name) is Some {
        mode_from_base_spec(base_name)
    } else {
        mode_from_category_spec(ids, category_id)
    }
}

pub fn mode_from_lane_record(
    ids: &RouterIds,
    category_id: u64,
    source_staging_id: Option<u64>,
    base_name: &str,
) -> (r: Option<LfgMode>)
    ensures
        r == mode_from_lane_record_spec(*ids, category_id, source_staging_id, base_name@),
{
    match source_staging_id {
        Some(s) => match mode_from_staging_id(ids, s) {
            Some(m) => return Some(m),
            None => {},
        },
        None => {},
    }
    match mode_from_lane_base(base_name) {
        Some(m) => Some(m),
        None => mode_from_category_id(ids, category_id),
    }
}

// ── Post text ───────────────────────────────────────────────────────────────

/// Members and user limit of a lane.
#[derive(Debug, Clone, Copy, PartialEq, Eq, Structural)]
pub struct LfgLaneOccupancy {
    pub member_count: i64,
    pub user_limit: i64,
}

/// Free and total places a post shows.
#[derive(Debug, Clone, Copy, PartialEq, Eq, Structural)]
pub struct LfgRenderedCapacity {
    pub free: i64,
    pub total: i64,
    pub full: bool,
}

/// Places of a post: with a lane, its user limit (the mode's lane size when
/// unlimited) less its members; without one, the requested slots, all free.
/// Counts below zero count as zero.
pub open spec fn rendered_capacity_spec(
    mode: LfgMode,
    requested_slots: i32,
    occupancy: Option<LfgLaneOccupancy>,
) -> LfgRenderedCapacity {
    let (occupied, total) = match occupancy {
        Some(o) => {
            let t = if o.user_limit > 0 {
                o.user_limit
            } else {
                mode_capacity_spec(mode)
            };
            (if o.member_count > 0 {
                o.member_count as int
            } else {
                0
            }, if t > 0 {
                t as int
            } else {
                0
            })
        },
        None => (0int, if requested_slots > 0 {
            requested_slots as int
        } else {
            0
        }),
    };
    LfgRenderedCapacity {
        free: (total - occupied) as i64,
        total: total as i64,
        full: total > 0 && total - occupied == 0,
    }
}

pub fn rendered_capacity(mode: LfgMode, requested_slots: i32, occupancy: Option<LfgLaneOccupancy>) -> (r:
    LfgRenderedCapacity)
    ensures
        r == rendered_capacity_spec(mode, requested_slots, occupancy),
{
    let (occupied, total): (i64, i64) = match occupancy {
        Some(o) => {
            let t = if o.user_limit > 0 {
                o.user_limit
            } else {
                mode_default_capacity(mode)
            };
            (if o.member_count > 0 {
                o.member_count
            } else {
                0
            }, if t > 0 {
                t
            } else {
                0
            })
        },
        None => (0, if requested_slots > 0 {
            requested_slots as i64
        } else {
            0
        }),
    };
    let free = total - occupied;
    LfgRenderedCapacity { free, total, full: total > 0 && free == 0 }
}

pub open spec fn opt_when_line(w: Option<LfgPlayWindow>) -> Seq<char> {
    match w {
        Some(w) => "\n🕒 Wann: "@ + window_emoji(w) + " "@ + window_label(w),
        None => Seq::empty(),
    }
}

/// The starter message of a post, one line each: header, owner, mode, rank,
/// the play window when set, free/total places, and open or full.
pub open spec fn post_body_spec(
    owner_id: u64,
    mode: LfgMode,
    range: LfgRankRange,
    requested_slots: i32,
    occupancy: Option<LfgLaneOccupancy>,
    window: Option<LfgPlayWindow>,
) -> Seq<char> {
    let cap = rendered_capacity_spec(mode, requested_slots, occupancy);
    LFG_POST_BODY_HEADER@ + "\n"@ + LFG_POST_BODY_VON@ + ": <@"@ + int_dec(owner_id as int) + ">"@
        + "\n"@ + LFG_POST_BODY_MODUS@ + ": "@ + mode_display(mode) + "\n"@ + LFG_POST_BODY_RANG@
        + ": "@ + rank_range_label_spec(range) + opt_when_line(window) + "\n"@ + LFG_POST_BODY_PLAETZE@
        + ": "@ + int_dec(cap.free as int) + "/"@ + int_dec(cap.total as int) + "\n"@ + (if cap.full {
        LFG_POST_STATUS_VOLL@
    } else {
        LFG_POST_STATUS_OFFEN@
    })
}

pub fn lfg_post_body(
    owner_id: u64,
    mode: LfgMode,
    rank_range: LfgRankRange,
    requested_slots: i32,
    occupancy: Option<LfgLaneOccupancy>,
    play_window: Option<LfgPlayWindow>,
) -> (r: String)
    ensures
        r@ == post_body_spec(owner_id, mode, rank_range, requested_slots, occupancy, play_window),
{
    let rank_label = rank_range_label(rank_range);
    let capacity = rendered_capacity(mode, requested_slots, occupancy);
    let mut v = chars_of(LFG_POST_BODY_HEADER);
    append_str(&mut v, "\n");
    append_str(&mut v, LFG_POST_BODY_VON);
    append_str(&mut v, ": <@");
    push_u64(&mut v, owner_id);
    append_str(&mut v, ">");
    append_str(&mut v, "\n");
    append_str(&mut v, LFG_POST_BODY_MODUS);
    append_str(&mut v, ": ");
    append_str(&mut v, mode.display_name());
    append_str(&mut v, "\n");
    append_str(&mut v, LFG_POST_BODY_RANG);
    append_str(&mut v, ": ");
    push_string(&mut v, rank_label);
    match play_window {
        Some(w) => {
            append_str(&mut v, "\n🕒 Wann: ");
            append_str(&mut v, w.emoji());
            append_str(&mut v, " ");
            append_str(&mut v, w.label());
        },
        None => {},
    }
    append_str(&mut v, "\n");
    append_str(&mut v, LFG_POST_BODY_PLAETZE);
    append_str(&mut v, ": ");
    push_i64(&mut v, capacity.free);
    append_str(&mut v, "/");
    push_i64(&mut v, capacity.total);
    append_str(&mut v, "\n");
    if capacity.full {
        append_str(&mut v, LFG_POST_STATUS_VOLL);
    } else {
        append_str(&mut v, LFG_POST_STATUS_OFFEN);
    }
    string_of(&v)
}

/// A forum post ready to be created or edited.
#[derive(Debug, Clone, PartialEq, Eq)]
pub struct LfgForumPostDraft {
    pub post_id: i64,
    pub title: String,
    pub body: String,
    pub applied_tags: Vec<u64>,
}

/// The thread a created forum post lives in.
#[derive(Debug, Clone, Copy, PartialEq, Eq, Structural)]
pub struct LfgCreatedForumPost {
    pub thread_id: u64,
}

/// `LFG: <mode> · <rank> · sucht <slots>`.
pub open spec fn post_title_spec(mode: LfgMode, range: LfgRankRange, requested_slots: i32) -> Seq<char> {
    LFG_POST_TITEL_SCHEMA@ + " "@ + mode_display(mode) + " · "@ + rank_range_label_spec(range)
        + " · sucht "@ + int_dec(requested_slots as int)
}

pub fn lfg_post_draft(
    post_id: i64,
    owner_id: u64,
    mode: LfgMode,
    rank_range: LfgRankRange,
    requested_slots: i32,
    occupancy: Option<LfgLaneOccupancy>,
    lane_attached: bool,
    play_window: Option<LfgPlayWindow>,
) -> (r: LfgForumPostDraft)
    ensures
        r.post_id == post_id,
        r.title@ == post_title_spec(mode, rank_range, requested_slots),
        r.body@ == post_body_spec(owner_id, mode, rank_range, requested_slots, occupancy, play_window),
        r.applied_tags@ == forum_tags_spec(mode, rank_range, lane_attached),
{
    let mut t = chars_of(LFG_POST_TITEL_SCHEMA);
    append_str(&mut t, " ");
    append_str(&mut t, mode.display_name());
    append_str(&mut t, " · ");
    push_string(&mut t, rank_range_label(rank_range));
    append_str(&mut t, " · sucht ");
    push_i64(&mut t, requested_slots as i64);
    let body = lfg_post_body(owner_id, mode, rank_range, requested_slots, occupancy, play_window);
    let applied_tags = derive_lfg_forum_tag_ids(mode, rank_range, lane_attached);
    LfgForumPostDraft { post_id, title: string_of(&t), body, applied_tags }
}

/// The SHA-256 digest of the UTF-8 bytes of a text, as 64 lowercase hex
/// digits.
pub uninterp spec fn sha256_hex(text: Seq<char>) -> Seq<char>;

/// Calls `sha2::Sha256` on the body's bytes and prints the digest with `{:x}`.
/// Claimed: the result is the digest named by `sha256_hex`; it has 64
/// characters, each a digit or `a`..`f` (32 bytes, two lowercase hex digits
/// each, as generic-array's `LowerHex` prints them).
#[verifier::external_body]
pub(crate) fn render_hash(body: &str) -> (r: String)
    ensures
        r@ == sha256_hex(body@),
        r@.len() == 64,
        forall|i: int| 0 <= i < 64 ==> ('0' <= #[trigger] r@[i] <= '9' || 'a' <= r@[i] <= 'f'),
{
    let mut hasher = sha2::Sha256::new();
    hasher.update(body.as_bytes());
    format!("{:x}", hasher.finalize())
}

/// Whether a post must be edited: its rendered text hashes differently
/// from the last edit (or it was never edited).
pub open spec fn render_needed_spec(last_hash: Option<Seq<char>>, body: Seq<char>) -> bool {
    last_hash != Some(sha256_hex(body))
}

/// The hash of a freshly rendered body, and whether it differs from the
/// hash of the last edit.
pub fn render_change(last_hash: Option<&str>, body: &str) -> (r: (String, bool))
    ensures
        r.0@ == sha256_hex(body@),
        r.1 == render_needed_spec(
            match last_hash {
                Some(h) => Some(h@),
                None => None,
            },
            body@,
        ),
{
    let hash = render_hash(body);
    let changed = match last_hash {
        Some(h) => !str_eq(h, hash.as_str()),
        None => true,
    };
    (hash, changed)
}

// ── Ids ─────────────────────────────────────────────────────────────────────

/// A Discord id for a BIGINT column; the error names the field.
pub fn discord_id_i64(id: u64, field: &str) -> (r: Result<i64, String>)
    ensures
        id <= i64::MAX ==> r == Ok::<i64, String>(id as i64),
        id > i64::MAX ==> r is Err && r->Err_0@ == field@ + " ist keine gueltige BIGINT-Discord-ID"@,
{
    if id <= 9223372036854775807u64 {
        Ok(id as i64)
    } else {
        let mut v = chars_of(field);
        append_str(&mut v, " ist keine gueltige BIGINT-Discord-ID");
        Err(string_of(&v))
    }
}

/// A stored BIGINT back to a Discord id; the error names the field.
pub fn db_i64_to_u64(value: i64, field: &str) -> (r: Result<u64, String>)
    ensures
        value >= 0 ==> r == Ok::<u64, String>(value as u64),
        value < 0 ==> r is Err && r->Err_0@ == field@ + " ist keine gueltige Discord-ID"@,
{
    if value >= 0 {
        Ok(value as u64)
    } else {
        let mut v = chars_of(field);
        append_str(&mut v, " ist keine gueltige Discord-ID");
        Err(string_of(&v))
    }
}

/// The integer after `prefix` in a custom id.
pub open spec fn i64_suffix_spec(custom_id: Seq<char>, prefix: Seq<char>) -> Option<i64> {
    if has_prefix(custom_id, prefix) {
        match parse_int_spec(
            custom_id.subrange(prefix.len() as int, custom_id.len() as int),
            i64::MIN as int,
            i64::MAX as int,
        ) {
            Some(n) => Some(n as i64),
            None => None,
        }
    } else {
        None
    }
}

pub fn parse_i64_suffix(custom_id: &str, prefix: &str) -> (r: Option<i64>)
    ensures
        r == i64_suffix_spec(custom_id@, prefix@),
{
    let v = chars_of(custom_id);
    let p = chars_of(prefix);
    if !starts_with_chars(&v, &p) {
        return None;
    }
    let rest = slice_chars(&v, p.len(), v.len());
    parse_i64(&rest)
}

fn id_with_prefix(prefix: &str, post_id: i64) -> (r: String)
    ensures
        r@ == prefix@ + int_dec(post_id as int),
{
    let mut v = chars_of(prefix);
    push_i64(&mut v, post_id);
    string_of(&v)
}

pub fn lfg_post_custom_id(mode: LfgMode) -> (r: String)
    ensures
        r@ == LFG_POST_PREFIX@ + mode_str(mode),
{
    let mut v = chars_of(LFG_POST_PREFIX);
    append_str(&mut v, mode.as_str());
    string_of(&v)
}

pub fn lfg_open_lane_custom_id(post_id: i64) -> (r: String)
    ensures
        r@ == LFG_OPEN_LANE_PREFIX@ + int_dec(post_id as int),
{
    id_with_prefix(LFG_OPEN_LANE_PREFIX, post_id)
}

pub fn lfg_join_custom_id(post_id: i64) -> (r: String)
    ensures
        r@ == LFG_JOIN_PREFIX@ + int_dec(post_id as int),
{
    id_with_prefix(LFG_JOIN_PREFIX, post_id)
}

// ── Panel ───────────────────────────────────────────────────────────────────

/// A banner file sent with the panel.
#[derive(Debug, Clone, PartialEq, Eq)]
pub struct LfgPanelAttachment {
    pub id: u8,
    pub filename: String,
    pub relative_path: String,
}

/// The panel's single banner.
pub fn lfg_panel_attachments() -> (r: Vec<LfgPanelAttachment>)
    ensures
        r@.len() == 1,
        r@[0].id == 0,
        r@[0].filename@ == LFG_PANEL_BANNER_FILENAME@,
        r@[0].relative_path@ == LFG_BANNER_DIR@ + "/"@ + LFG_PANEL_BANNER_FILENAME@,
{
    let mut p = chars_of(LFG_BANNER_DIR);
    append_str(&mut p, "/");
    append_str(&mut p, LFG_PANEL_BANNER_FILENAME);
    let mut r: Vec<LfgPanelAttachment> = Vec::new();
    r.push(
        LfgPanelAttachment {
            id: 0,
            filename: owned(LFG_PANEL_BANNER_FILENAME),
            relative_path: string_of(&p),
        },
    );
    r
}

/// A media gallery (type 12) showing an attached file.
pub open spec fn media_gallery_view(filename: Seq<char>) -> JsonView {
    JsonView::Object(
        seq![
            ("type"@, num_view(12)),
            (
                "items"@,
                JsonView::Array(
                    seq![
                        JsonView::Object(
                            seq![
                                (
                                    "media"@,
                                    JsonView::Object(
                                        seq![
                                            (
                                                "url"@,
                                                JsonView::Str("attachment://"@ + filename),
                                            ),
                                        ],
                                    ),
                                ),
                            ],
                        ),
                    ],
                ),
            ),
        ],
    )
}

fn media_gallery(filename: &str) -> (r: JsonNode)
    ensures
        r@ == media_gallery_view(filename@),
{
    let mut url = chars_of("attachment://");
    append_str(&mut url, filename);
    let ghost u = url@;
    let media = jobj(vec![entry("url", jstring(string_of(&url)))]);
    assert(media@->Object_0 =~= seq![("url"@, JsonView::Str(u))]);
    let item = jobj(vec![entry("media", media)]);
    let ghost iv = item@;
    assert(iv->Object_0 =~= seq![("media"@, media@)]);
    let items = jarr(vec![item]);
    assert(items@->Array_0 =~= seq![iv]);
    let r = jobj(vec![entry("type", jnum(12)), entry("items", items)]);
    assert(r@->Object_0 =~= media_gallery_view(filename@)->Object_0);
    r
}

/// An attachment as the message body lists it: its id and file name.
pub open spec fn attachment_view(a: (u8, Seq<char>)) -> JsonView {
    JsonView::Object(seq![("id"@, num_view(a.0 as int)), ("filename"@, JsonView::Str(a.1))])
}

/// Id and file name of each attachment.
pub open spec fn attachment_names(attachments: Seq<LfgPanelAttachment>) -> Seq<(u8, Seq<char>)> {
    Seq::new(attachments.len(), |i: int| (attachments[i].id, attachments[i].filename@))
}

/// The panel's container items: the banner of the first attachment (if
/// any), the panel text, and a row with the search and the watch button.
pub open spec fn lfg_panel_items_view(attachments: Seq<(u8, Seq<char>)>) -> Seq<JsonView> {
    let gallery = if attachments.len() > 0 {
        seq![media_gallery_view(attachments[0].1)]
    } else {
        Seq::empty()
    };
    gallery + seq![
        text_display_view(LFG_PANEL_BODY@),
        action_row_view(
            seq![
                emoji_button_view(
                    1,
                    LFG_PANEL_BUTTON@,
                    LFG_CREATE_START_CUSTOM_ID@,
                    LFG_EMOJI_SEARCH.0@,
                    LFG_EMOJI_SEARCH.1@,
                ),
                button_view(2, LFG_WATCH_PANEL_BUTTON@, LFG_WATCH_START_CUSTOM_ID@),
            ],
        ),
    ]
}

/// The panel message body for the given banner attachments: layout-2
/// flag, no pings, the gold container with the panel items, and the
/// attachment list.
pub open spec fn lfg_panel_body_view(attachments: Seq<(u8, Seq<char>)>) -> JsonView {
    JsonView::Object(
        seq![
            ("flags"@, num_view(COMPONENTS_V2_FLAG as int)),
            ("allowed_mentions"@, no_mentions_view()),
            (
                "components"@,
                JsonView::Array(
                    seq![container_view(ACCENT_GOLD as int, lfg_panel_items_view(attachments))],
                ),
            ),
            (
                "attachments"@,
                JsonView::Array(Seq::new(attachments.len(), |i: int| attachment_view(attachments[i]))),
            ),
        ],
    )
}

pub fn lfg_panel_body_for_attachments(attachments: &[LfgPanelAttachment]) -> (r: JsonNode)
    ensures
        r@ == lfg_panel_body_view(attachment_names(attachments@)),
{
    let ghost names = attachment_names(attachments@);
    let mut items: Vec<JsonNode> = Vec::new();
    if attachments.len() > 0 {
        items.push(media_gallery(attachments[0].filename.as_str()));
    }
    let ghost before = views_of(items@);
    items.push(text_display(owned(LFG_PANEL_BODY)));
    let search = emoji_button(1, LFG_PANEL_BUTTON, LFG_CREATE_START_CUSTOM_ID, LFG_EMOJI_SEARCH);
    let watch = button(2, LFG_WATCH_PANEL_BUTTON, LFG_WATCH_START_CUSTOM_ID);
    let row_items = vec![search, watch];
    assert(views_of(row_items@) =~= lfg_panel_items_view(names).last()->Object_0[1].1->Array_0);
    items.push(action_row(row_items));
    assert(views_of(items@) =~= lfg_panel_items_view(names));
    let boxed = container(ACCENT_GOLD, items);
    let ghost bv = boxed@;
    let components = jarr(vec![boxed]);
    assert(components@->Array_0 =~= seq![bv]);
    let mut listed: Vec<JsonNode> = Vec::new();
    let mut i: usize = 0;
    while i < attachments.len()
        invariant
            i <= attachments.len(),
            listed@.len() == i,
            names == attachment_names(attachments@),
            forall|k: int| 0 <= k < i ==> #[trigger] listed@[k]@ == attachment_view(names[k]),
        decreases attachments.len() - i,
    {
        let a = &attachments[i];
        let one = jobj(vec![entry("id", jnum(a.id as u64)), entry("filename", jstr(a.filename.as_str()))]);
        assert(one@->Object_0 =~= attachment_view(names[i as int])->Object_0);
        listed.push(one);
        i += 1;
    }
    let ghost lv = views_of(listed@);
    let list = jarr(listed);
    assert(list@->Array_0 =~= Seq::new(names.len(), |k: int| attachment_view(names[k])));
    let r = jobj(
        vec![
            entry("flags", jnum(COMPONENTS_V2_FLAG)),
            entry("allowed_mentions", no_mentions()),
            entry("components", components),
            entry("attachments", list),
        ],
    );
    assert(r@->Object_0 =~= lfg_panel_body_view(names)->Object_0);
    r
}

/// The panel message body with the panel's banner.
pub fn lfg_panel_body() -> (r: JsonNode)
    ensures
        r@ == lfg_panel_body_view(seq![(0u8, LFG_PANEL_BANNER_FILENAME@)]),
{
    let attachments = lfg_panel_attachments();
    assert(attachment_names(attachments@) =~= seq![(0u8, LFG_PANEL_BANNER_FILENAME@)]);
    lfg_panel_body_for_attachments(&attachments)
}

/// A recent message of the bot in the panel channel.
#[derive(Debug, Clone, PartialEq, Eq)]
pub struct LfgPanelMessage {
    pub message_id: u64,
    pub has_embeds: bool,
    pub has_components: bool,
    pub custom_ids: Vec<String>,
}

pub open spec fn is_v2_panel(has_embeds: bool, has_components: bool, custom_ids: Seq<Seq<char>>) -> bool {
    !has_embeds && has_components && exists|j: int|
        0 <= j < custom_ids.len() && has_prefix(#[trigger] custom_ids[j], "lfg:create:"@)
}

pub open spec fn ids_view(ids: Seq<String>) -> Seq<Seq<char>> {
    ids.map_values(|s: String| s@)
}

fn any_create_id(ids: &Vec<String>) -> (r: bool)
    ensures
        r == exists|j: int|
            0 <= j < ids@.len() && has_prefix(#[trigger] ids_view(ids@)[j], "lfg:create:"@),
{
    let mut j: usize = 0;
    while j < ids.len()
        invariant
            j <= ids.len(),
            forall|k: int| 0 <= k < j ==> !has_prefix(#[trigger] ids_view(ids@)[k], "lfg:create:"@),
        decreases ids.len() - j,
    {
        let v = chars_of(ids[j].as_str());
        assert(ids_view(ids@)[j as int] == ids@[j as int]@);
        if starts_with_str(&v, "lfg:create:") {
            return true;
        }
        j += 1;
    }
    false
}

/// The newest message that is a components-v2 panel of this flow: no
/// embeds, components, and a custom id of the create flow.
pub open spec fn existing_panel_spec(messages: Seq<LfgPanelMessage>) -> Option<u64>
    decreases messages.len(),
{
    if messages.len() == 0 {
        None
    } else {
        let m = messages.last();
        if is_v2_panel(m.has_embeds, m.has_components, ids_view(m.custom_ids@)) {
            Some(m.message_id)
        } else {
            existing_panel_spec(messages.drop_last())
        }
    }
}

pub fn find_existing_lfg_v2_panel(messages: &[LfgPanelMessage]) -> (r: Option<u64>)
    ensures
        r == existing_panel_spec(messages@),
{
    let mut i: usize = messages.len();
    assert(messages@.take(messages@.len() as int) == messages@);
    while i > 0
        invariant
            i <= messages.len(),
            existing_panel_spec(messages@) == existing_panel_spec(messages@.take(i as int)),
        decreases i,
    {
        let ghost pre = messages@.take(i as int);
        assert(pre.drop_last() == messages@.take(i - 1));
        assert(pre.last() == messages@[i - 1]);
        let m = &messages[i - 1];
        if !m.has_embeds && m.has_components && any_create_id(&m.custom_ids) {
            return Some(m.message_id);
        }
        i -= 1;
    }
    None
}

/// Whether an error text reports a missing message.
pub fn is_not_found_error(err: &str) -> (r: bool)
    ensures
        r == (has_infix(err@, "HTTP 404"@) || has_infix(err@, "404"@)),
{
    let v = chars_of(err);
    let a = chars_of("HTTP 404");
    let b = chars_of("404");
    contains_chars(&v, &a) || contains_chars(&v, &b)
}

/// The kind of the channel the panel should live in.
#[derive(Debug, Clone, PartialEq, Eq)]
pub enum LfgPanelChannelKind {
    Text,
    News,
    Forum,
    Other(String),
}

impl LfgPanelChannelKind {
    /// Text and news channels take regular messages.
    pub fn supports_regular_messages(&self) -> (r: bool)
        ensures
            r == (self is Text || self is News),
    {
        match self {
            LfgPanelChannelKind::Text | LfgPanelChannelKind::News => true,
            _ => false,
        }
    }

    pub fn as_reason_fragment(&self) -> (r: &str)
        ensures
            r@ == match self {
                LfgPanelChannelKind::Text => "text"@,
                LfgPanelChannelKind::News => "news"@,
                LfgPanelChannelKind::Forum => "forum"@,
                LfgPanelChannelKind::Other(kind) => kind@,
            },
    {
        match self {
            LfgPanelChannelKind::Text => "text",
            LfgPanelChannelKind::News => "news",
            LfgPanelChannelKind::Forum => "forum",
            LfgPanelChannelKind::Other(kind) => kind.as_str(),
        }
    }
}

// ── Watch expiry ────────────────────────────────────────────────────────────

/// The SQL target time of a watch window (Berlin calendar days).
pub open spec fn watch_target_sql(now_expr: Seq<char>, window: LfgWatchWindow) -> Seq<char> {
    match window {
        LfgWatchWindow::Now3h => "("@ + now_expr + ") + interval '3 hours'"@,
        LfgWatchWindow::Today => "GREATEST(\n                    ("@ + now_expr + ") + interval '1 hour',\n                    (((("@ + now_expr + ") AT TIME ZONE 'Europe/Berlin')::date + 1) + time '02:00')\n                        AT TIME ZONE 'Europe/Berlin'\n                )"@,
        LfgWatchWindow::Weekend => "((((("@ + now_expr + ") AT TIME ZONE 'Europe/Berlin')::date\n                    + (8 - EXTRACT(ISODOW FROM ("@ + now_expr + ") AT TIME ZONE 'Europe/Berlin')::int))\n                    + time '00:00') AT TIME ZONE 'Europe/Berlin')"@,
        LfgWatchWindow::Week => "("@ + now_expr + ") + interval '7 days'"@,
    }
}

/// The query that computes when a watch expires: the window's end, but at
/// least a minute from now.
pub open spec fn watch_expires_sql_spec(now_expr: Seq<char>, window: LfgWatchWindow) -> Seq<char> {
    "SELECT GREATEST(("@ + watch_target_sql(now_expr, window) + "), ("@ + now_expr
        + ") + interval '1 minute')"@
}

pub fn lfg_watch_expires_at_sql(now_expr: &str, window: LfgWatchWindow) -> (r: String)
    ensures
        r@ == watch_expires_sql_spec(now_expr@, window),
{
    let mut v = chars_of("SELECT GREATEST((");
    match window {
        LfgWatchWindow::Now3h => {
            append_str(&mut v, "(");
            append_str(&mut v, now_expr);
            append_str(&mut v, ") + interval '3 hours'");
        },
        LfgWatchWindow::Today => {
            append_str(&mut v, "GREATEST(\n                    (");
            append_str(&mut v, now_expr);
            append_str(&mut v, ") + interval '1 hour',\n                    ((((");
            append_str(&mut v, now_expr);
            append_str(&mut v, ") AT TIME ZONE 'Europe/Berlin')::date + 1) + time '02:00')\n                        AT TIME ZONE 'Europe/Berlin'\n                )");
        },
        LfgWatchWindow::Weekend => {
            append_str(&mut v, "(((((");
            append_str(&mut v, now_expr);
            append_str(&mut v, ") AT TIME ZONE 'Europe/Berlin')::date\n                    + (8 - EXTRACT(ISODOW FROM (");
            append_str(&mut v, now_expr);
            append_str(&mut v, ") AT TIME ZONE 'Europe/Berlin')::int))\n                    + time '00:00') AT TIME ZONE 'Europe/Berlin')");
        },
        LfgWatchWindow::Week => {
            append_str(&mut v, "(");
            append_str(&mut v, now_expr);
            append_str(&mut v, ") + interval '7 days'");
        },
    }
    append_str(&mut v, "), (");
    append_str(&mut v, now_expr);
    append_str(&mut v, ") + interval '1 minute')");
    string_of(&v)
}

/// How long to wait before the next edit of a post: nothing without an
/// earlier edit or once five seconds have passed since it, otherwise the
/// rest of the five seconds, at least 100 ms. Times in nanoseconds; a wait
/// beyond `u64::MAX` nanoseconds is cut to it.
pub open spec fn edit_delay_spec(now: i64, last: Option<i64>) -> Option<u64> {
    match last {
        None => None,
        Some(l) => {
            let elapsed = now - l;
            let min = LFG_EDIT_MIN_INTERVAL_SECONDS * 1_000_000_000;
            if elapsed < min {
                let remaining = min - elapsed;
                Some(
                    (if remaining < 100_000_000 {
                        100_000_000
                    } else if remaining > u64::MAX {
                        u64::MAX as int
                    } else {
                        remaining
                    }) as u64,
                )
            } else {
                None
            }
        },
    }
}

pub fn lfg_edit_delay_from_last(now: i64, last: Option<i64>) -> (r: Option<u64>)
    ensures
        r == edit_delay_spec(now, last),
{
    match last {
        None => None,
        Some(l) => {
            let elapsed: i128 = now as i128 - l as i128;
            let min: i128 = 5_000_000_000;
            if elapsed < min {
                let remaining = min - elapsed;
                if remaining < 100_000_000 {
                    Some(100_000_000)
                } else {
                    if remaining > 18446744073709551615 {
                        Some(18446744073709551615)
                    } else {
                        Some(remaining as u64)
                    }
                }
            } else {
                None
            }
        },
    }
}

// ── Rank ranges typed as text ───────────────────────────────────────────────

/// Rank index of a typed token (trimmed), `None` when it names no rank.
pub open spec fn rank_token_spec(token: Seq<char>) -> Option<i32> {
    let idx = rank_index_spec(trim_spec(token));
    if idx > 0 {
        Some(idx as i32)
    } else {
        None
    }
}

pub open spec fn ordered_range(min: Option<i32>, max: Option<i32>) -> Option<LfgRankRange> {
    match (min, max) {
        (Some(a), Some(b)) => if a <= b {
            Some(LfgRankRange { min: Some(a), max: Some(b) })
        } else {
            None
        },
        _ => None,
    }
}

/// The grammar of a typed rank range (already trimmed and lowercased):
/// nothing (any rank), one rank, `a bis b` or `a-b` with `a` not above `b`.
pub open spec fn rank_range_lower_spec(s: Seq<char>) -> Option<LfgRankRange> {
    if s.len() == 0 {
        Some(LfgRankRange { min: None, max: None })
    } else if s.contains('-') {
        let parts = split_on_spec(s, '-');
        if parts.len() == 2 {
            ordered_range(rank_token_spec(trim_spec(parts[0])), rank_token_spec(trim_spec(parts[1])))
        } else {
            None
        }
    } else {
        let words = split_ws_spec(s);
        if words.len() == 1 {
            match rank_token_spec(words[0]) {
                Some(r) => Some(LfgRankRange { min: Some(r), max: Some(r) }),
                None => None,
            }
        } else if words.len() == 3 && words[1] == "bis"@ {
            ordered_range(rank_token_spec(words[0]), rank_token_spec(words[2]))
        } else {
            None
        }
    }
}

fn rank_token(token: &[char]) -> (r: Option<i32>)
    ensures
        r == rank_token_spec(token@),
{
    let t = trim_chars(token);
    let idx = rank_index_chars(&t);
    if idx > 0 {
        Some(idx as i32)
    } else {
        None
    }
}

fn ordered(min: Option<i32>, max: Option<i32>) -> (r: Option<LfgRankRange>)
    ensures
        r == ordered_range(min, max),
{
    match (min, max) {
        (Some(a), Some(b)) => {
            if a <= b {
                Some(LfgRankRange { min: Some(a), max: Some(b) })
            } else {
                None
            }
        },
        _ => None,
    }
}

/// A typed rank range whose text is already trimmed and lowercased.
pub fn parse_rank_range_lower(normalized: &str) -> (r: Option<LfgRankRange>)
    ensures
        r == rank_range_lower_spec(normalized@),
{
    let s = chars_of(normalized);
    if s.len() == 0 {
        return Some(LfgRankRange { min: None, max: None });
    }
    if crate::text::contains_char(&s, '-') {
        let parts = split_on_char(&s, '-');
        assert(parts@.map_values(|w: Vec<char>| w@).len() == parts@.len());
        if parts.len() == 2 {
            assert(parts@.map_values(|w: Vec<char>| w@)[0] == parts@[0]@);
            assert(parts@.map_values(|w: Vec<char>| w@)[1] == parts@[1]@);
            let a = trim_chars(&parts[0]);
            let b = trim_chars(&parts[1]);
            return ordered(rank_token(&a), rank_token(&b));
        }
        return None;
    }
    let words = split_whitespace_chars(&s);
    assert(words@.map_values(|w: Vec<char>| w@).len() == words@.len());
    if words.len() == 1 {
        assert(words@.map_values(|w: Vec<char>| w@)[0] == words@[0]@);
        match rank_token(&words[0]) {
            Some(r) => Some(LfgRankRange { min: Some(r), max: Some(r) }),
            None => None,
        }
    } else if words.len() == 3 {
        assert(words@.map_values(|w: Vec<char>| w@)[0] == words@[0]@);
        assert(words@.map_values(|w: Vec<char>| w@)[1] == words@[1]@);
        assert(words@.map_values(|w: Vec<char>| w@)[2] == words@[2]@);
        if chars_eq_str(&words[1], "bis") {
            ordered(rank_token(&words[0]), rank_token(&words[2]))
        } else {
            None
        }
    } else {
        None
    }
}

/// A typed rank range: trimmed and lowercased, then read by
/// `parse_rank_range_lower`.
pub fn parse_rank_range(raw: &str) -> (r: Option<LfgRankRange>)
    ensures
        r == rank_range_lower_spec(lowercase_of(trim_spec(raw@))),
        is_ascii_seq(raw@) ==> r == rank_range_lower_spec(ascii_lower(trim_spec(raw@))),
{
    let t = trim_str(raw);
    let ts = string_of(&t);
    proof {
        if is_ascii_seq(raw@) {
            crate::text::lemma_ascii_trim(raw@);
        }
    }
    let lower = to_lowercase(ts.as_str());
    parse_rank_range_lower(lower.as_str())
}

// ── Presets ─────────────────────────────────────────────────────────────────

/// What a user saved of a draft to start the next one from.
#[derive(Debug, Clone, PartialEq, Eq)]
pub struct LfgUserPreset {
    pub rank_from: Option<String>,
    pub rank_to: Option<String>,
    pub slots: Option<i32>,
    pub play_window: Option<String>,
}

pub open spec fn clamp_slots(slots: Option<i32>, mode: LfgMode) -> Option<i32> {
    match slots {
        Some(n) => Some(
            (if n < 1 {
                1
            } else if n > slot_cap_spec(mode) {
                slot_cap_spec(mode)
            } else {
                n as int
            }) as i32,
        ),
        None => None,
    }
}

/// A preset as plain values: ranks, slots, play window name.
pub open spec fn preset_view(p: LfgUserPreset) -> (
    Option<Seq<char>>,
    Option<Seq<char>>,
    Option<i32>,
    Option<Seq<char>>,
) {
    (opt_str(p.rank_from), opt_str(p.rank_to), p.slots, opt_str(p.play_window))
}

/// A draft as plain values: mode, ranks, slots, play window, lane.
pub open spec fn draft_view(d: LfgDraft) -> (
    LfgMode,
    Option<Seq<char>>,
    Option<Seq<char>>,
    Option<i32>,
    Option<LfgPlayWindow>,
    Option<u64>,
) {
    (d.mode, opt_str(d.rank_from), opt_str(d.rank_to), d.slots, d.play_window, d.lane_id)
}

/// The preset kept of a draft.
pub open spec fn preset_of_draft(d: LfgDraft) -> (
    Option<Seq<char>>,
    Option<Seq<char>>,
    Option<i32>,
    Option<Seq<char>>,
) {
    (opt_str(d.rank_from), opt_str(d.rank_to), d.slots, match d.play_window {
        Some(w) => Some(window_str(w)),
        None => None,
    })
}

/// A stored preset rank checked again: `Some(None)` for none, the
/// normalized value, or `None` when it is no longer a rank (ASCII text
/// lowercased by ASCII, other text by the Unicode mapping).
pub open spec fn preset_rank_spec(v: Option<Seq<char>>) -> Option<Option<Seq<char>>> {
    match v {
        None => Some(None),
        Some(x) => if is_ascii_seq(x) {
            normalize_lower_spec(ascii_lower(trim_spec(x)))
        } else {
            normalize_lower_spec(lowercase_of(trim_spec(x)))
        },
    }
}

/// The draft a preset gives for a mode: ranks checked again, slots clamped,
/// an unknown play window dropped, no lane.
pub open spec fn draft_of_preset(
    p: (Option<Seq<char>>, Option<Seq<char>>, Option<i32>, Option<Seq<char>>),
    mode: LfgMode,
) -> Option<(LfgMode, Option<Seq<char>>, Option<Seq<char>>, Option<i32>, Option<LfgPlayWindow>, Option<u64>)> {
    match (preset_rank_spec(p.0), preset_rank_spec(p.1)) {
        (Some(from), Some(to)) => Some(
            (mode, from, to, clamp_slots(p.2, mode), match p.3 {
                Some(w) => window_from_spec(w),
                None => None,
            }, None),
        ),
        _ => None,
    }
}

/// A rank value as drafts hold it: ASCII and already normalized.
pub open spec fn normalized_rank(v: Option<Seq<char>>) -> bool {
    v is None || (is_ascii_seq(v->0) && normalize_lower_spec(ascii_lower(trim_spec(v->0)))
        == Some(Some(v->0)))
}

impl LfgUserPreset {
    /// The preset of a draft: its ranks, slots and play window.
    pub fn from_draft(draft: &LfgDraft) -> (r: LfgUserPreset)
        ensures
            opt_str(r.rank_from) == opt_str(draft.rank_from),
            opt_str(r.rank_to) == opt_str(draft.rank_to),
            r.slots == draft.slots,
            opt_str(r.play_window) == match draft.play_window {
                Some(w) => Some(window_str(w)),
                None => None,
            },
            preset_view(r) == preset_of_draft(*draft),
    {
        LfgUserPreset {
            rank_from: clone_opt_string(&draft.rank_from),
            rank_to: clone_opt_string(&draft.rank_to),
            slots: draft.slots,
            play_window: match draft.play_window {
                Some(w) => Some(owned(w.as_str())),
                None => None,
            },
        }
    }

    /// A fresh draft of `mode` from the preset: ranks checked again (`None`
    /// when one is no longer valid), slots clamped to the mode's select,
    /// an unknown play window dropped.
    pub fn into_draft(self, mode: LfgMode) -> (r: Option<LfgDraft>)
        ensures
            match (r, draft_of_preset(preset_view(self), mode)) {
                (Some(d), Some(v)) => draft_view(d) == v,
                (None, None) => true,
                _ => false,
            },
    {
        let rank_from = match normalize_preset_rank(self.rank_from) {
            Some(r) => r,
            None => return None,
        };
        let rank_to = match normalize_preset_rank(self.rank_to) {
            Some(r) => r,
            None => return None,
        };
        let cap = slot_select_cap(mode);
        let slots = match self.slots {
            Some(n) => Some(
                if n < 1 {
                    1
                } else if n > cap {
                    cap
                } else {
                    n
                },
            ),
            None => None,
        };
        let play_window = match &self.play_window {
            Some(w) => LfgPlayWindow::from_str(w.as_str()),
            None => None,
        };
        Some(LfgDraft { mode, rank_from, rank_to, slots, play_window, lane_id: None })
    }
}

// ── Laws ────────────────────────────────────────────────────────────────────

/// Stored mode and play-window names read back as the mode and window.
pub proof fn lemma_stored_names_round_trip(m: LfgMode, w: LfgPlayWindow)
    ensures
        mode_from_spec(mode_str(m)) == Some(m),
        window_from_spec(window_str(w)) == Some(w),
{
    reveal_strlit("casual");
    reveal_strlit("ranked");
    reveal_strlit("street_brawl");
    reveal_strlit("jetzt");
    reveal_strlit("heute_abend");
    reveal_strlit("wochenende");
    reveal_strlit("flexibel");
    assert("casual"@[0] != "ranked"@[0]);
    assert("jetzt"@[0] != "heute_abend"@[0]);
    assert("wochenende"@[0] != "flexibel"@[0]);
}

/// A draft saved as a preset and loaded again for its mode is the same
/// draft without its lane, when its ranks are normalized values (as a
/// draft holds them) and its slots lie within the mode's select.
pub proof fn lemma_preset_round_trip(d: LfgDraft)
    requires
        normalized_rank(opt_str(d.rank_from)),
        normalized_rank(opt_str(d.rank_to)),
        clamp_slots(d.slots, d.mode) == d.slots,
    ensures
        draft_of_preset(preset_of_draft(d), d.mode) == Some(
            (d.mode, opt_str(d.rank_from), opt_str(d.rank_to), d.slots, d.play_window, None::<u64>),
        ),
{
    match d.play_window {
        Some(w) => lemma_stored_names_round_trip(d.mode, w),
        None => {},
    }
}

/// A rank range read from two stored values never runs downwards: its ends
/// are the two given ranks, swapped when given the wrong way round; an open
/// end stays open; an unknown rank gives no range.
pub proof fn lemma_range_from_values_ordered(from: Option<Seq<char>>, to: Option<Seq<char>>)
    ensures
        match range_from_values_spec(from, to) {
            Some(r) => {
                let f = rank_value_index_spec(from)->0;
                let t = rank_value_index_spec(to)->0;
                &&& rank_value_index_spec(from) is Some && rank_value_index_spec(to) is Some
                &&& (r.min is Some && r.max is Some ==> r.min->0 <= r.max->0)
                &&& ((r.min == f && r.max == t) || (r.min == t && r.max == f))
            },
            None => rank_value_index_spec(from) is None || rank_value_index_spec(to) is None,
        },
{
}

/// Forum tags of a post: the mode tag first, the status tag last, one to
/// three rank tags between, so at most five tags in all.
pub proof fn lemma_forum_tags_shape(mode: LfgMode, range: LfgRankRange, lane_attached: bool)
    ensures
        ({
            let tags = forum_tags_spec(mode, range, lane_attached);
            &&& 3 <= tags.len() <= LFG_FORUM_MAX_APPLIED_TAGS
            &&& tags[0] == mode_tag(mode)
            &&& tags.last() == status_tag(lane_attached)
        }),
{
    let rt = rank_tags_spec(mode, range);
    assert(rt.len() >= 1);
    assert forall|lo: int, hi: int| #[trigger] bracket_tags(lo, hi).len() <= 4 by {}
}

/// A join button reads back as its post: the post id after the join prefix.
pub proof fn lemma_join_custom_id_round_trip(post_id: i64)
    ensures
        i64_suffix_spec(LFG_JOIN_PREFIX@ + int_dec(post_id as int), LFG_JOIN_PREFIX@) == Some(post_id),
{
    let id = LFG_JOIN_PREFIX@ + int_dec(post_id as int);
    assert(id.subrange(0, LFG_JOIN_PREFIX@.len() as int) =~= LFG_JOIN_PREFIX@);
    assert(id.subrange(LFG_JOIN_PREFIX@.len() as int, id.len() as int) =~= int_dec(post_id as int));
    crate::text::lemma_parse_int_dec(post_id as int, i64::MIN as int, i64::MAX as int);
}

} // verus!
