//! The looking-for-group interaction flow: which handler a button or select
//! reaches, how a select changes a draft, and the checks before a post is
//! created, a lane is opened for it or someone joins it.

use vstd::prelude::*;
use crate::lfg::{
    i64_suffix_spec, lfg_rank_range_from_draft, lfg_rank_range_from_watch_draft, mode_display,
    mode_from_spec, normalize_lfg_rank_value, normalize_lower_spec, opt_str, parse_i64_suffix,
    parse_requested_slots, range_from_values_spec, rank_range_label, rank_range_label_spec,
    rendered_capacity, rendered_capacity_spec, requested_slots_spec, window_from_spec, LfgDraft,
    LfgLaneOccupancy, LfgMode, LfgPanelChannelKind, LfgPlayWindow, LfgRankRange, LfgWatchDraft,
    LFG_CREATE_MODE_PREFIX,
    LFG_CREATE_START_CUSTOM_ID, LFG_ERR_RANG_UNBEKANNT, LFG_JOIN_PREFIX, LFG_OPEN_LANE_PREFIX,
    LFG_POST_PREFIX, LFG_WATCH_MODE_PREFIX, LFG_WATCH_START_CUSTOM_ID,
};
use crate::lfg_watch::{watch_window_from_spec, LfgWatchWindow};
use crate::text::{
    append_str, chars_of, has_prefix, int_dec, push_u64, strip_prefix_spec, lowercase_of, owned,
    slice_chars, starts_with_chars, str_eq, string_of, trim_spec,
};

verus! {

pub const LFG_ERR_KEIN_RANKED_RANG: &'static str =
    "Für Ranked brauchst du einen verifizierten Rang. Verknüpf dein Steam-Konto in <#1398021105339334666>, dann geht's hier weiter.";
pub const LFG_ERR_PLAETZE_UNGUELTIG: &'static str =
    "Wähl oben aus, wie viele Plätze frei sind, dann klick auf „Suche veröffentlichen“.";
pub const LFG_ERR_SCHON_AKTIVE_SUCHE: &'static str =
    "Du hast schon ein laufendes Gesuch. Schließ das erst, bevor du ein neues aufmachst.";
pub const LFG_ERR_ERSTELLUNG_FEHLGESCHLAGEN: &'static str =
    "Da ist was schiefgelaufen — dein Gesuch wurde nicht erstellt. Probier's gleich nochmal.";
pub const LFG_ERFOLG_POST_ERSTELLT: &'static str =
    "Dein Gesuch ist online.";
pub const LFG_ERFOLG_LANE_AUFGEMACHT: &'static str =
    "Lane ist offen und mit deinem Gesuch verknüpft — der Post zählt jetzt live mit.";
pub const LFG_ERFOLG_JOIN_MOVED: &'static str =
    "Ab in die Lane mit dir — viel Spaß!";
pub const LFG_ERR_JOIN_LANE_TOT: &'static str =
    "Die Lane gibt's nicht mehr — das Gesuch wird gerade geschlossen.";
pub const LFG_ERR_JOIN_LANE_VOLL: &'static str =
    "Die Lane ist gerade voll.";
pub const LFG_ERR_JOIN_KEIN_RANG: &'static str =
    "Für Ranked-Lanes brauchst du einen verifizierten Rang. Verknüpf dein Steam-Konto in <#1398021105339334666>.";
pub const LFG_ERR_JOIN_NICHT_IN_VOICE: &'static str =
    "Geh erst in irgendeinen Voice-Kanal — dann können wir dich direkt rüberziehen.";
pub const LFG_ERR_JOIN_EIGENER_POST: &'static str =
    "Das ist dein eigenes Gesuch — nutz den Lane-Button aus der Bestätigung.";
pub const LFG_ERR_JOIN_SCHON_DRIN: &'static str =
    "Du bist schon in der Lane.";
pub const LFG_ERR_JOIN_MOVE_FEHLGESCHLAGEN: &'static str =
    "Konnte dich nicht verschieben — probier's nochmal oder join die Lane manuell.";
pub const LFG_ERR_OPEN_NICHT_DEIN_POST: &'static str =
    "Nur wer das Gesuch erstellt hat, kann die Lane dazu aufmachen.";
pub const LFG_ERR_OPEN_NICHT_IN_VOICE: &'static str =
    "Geh erst in einen Voice-Kanal (z. B. über den Router), dann machen wir deine Lane auf.";
pub const LFG_ERR_OPEN_LANE_SCHON_VERKNUEPFT: &'static str =
    "Zu dem Gesuch läuft schon eine Lane.";
pub const LFG_ERR_PUBLISH_LANE_SCHON_VEROEFFENTLICHT: &'static str =
    "Für diese Lane läuft schon ein Gesuch.";
pub const LFG_WATCH_ERR_UNVOLLSTAENDIG: &'static str =
    "Wähl noch Modus und Zeitfenster aus.";
pub const LFG_MODE_PROMPT: &'static str =
    "Wofür suchst du Leute?";
pub const LFG_WATCH_RANK_FROM_SELECT_CUSTOM_ID: &'static str =
    "lfg:watch:rank_von";
pub const LFG_WATCH_RANK_TO_SELECT_CUSTOM_ID: &'static str =
    "lfg:watch:rank_bis";
pub const LFG_WATCH_WINDOW_SELECT_CUSTOM_ID: &'static str =
    "lfg:watch:window";
pub const LFG_WATCH_ACTIVATE_CUSTOM_ID: &'static str =
    "lfg:watch:activate";
pub const LFG_RANK_FROM_SELECT_CUSTOM_ID: &'static str =
    "lfg:rank_von";
pub const LFG_RANK_TO_SELECT_CUSTOM_ID: &'static str =
    "lfg:rank_bis";
pub const LFG_SLOTS_SELECT_CUSTOM_ID: &'static str =
    "lfg:slots";
pub const LFG_WHEN_SELECT_CUSTOM_ID: &'static str =
    "lfg:when";
pub const LFG_PUBLISH_LANE_CUSTOM_ID: &'static str =
    "lfg:publish_lane";
pub const LFG_WATCH_BUILDER_TEXT: &'static str =
    "🔔 **Ich sag dir Bescheid.** Sag mir, wonach du suchst — ich schicke dir eine DM, sobald ein passendes Gesuch auftaucht.";


// ── Routing ─────────────────────────────────────────────────────────────────

/// The handler a custom id of the panel reaches.
#[derive(Debug, Clone, Copy, PartialEq, Eq, Structural)]
pub enum LfgRoute {
    Start,
    WatchStart,
    Mode(LfgMode),
    WatchMode(LfgMode),
    DraftSelect,
    WatchSelect,
    WatchActivate,
    PostDraft(LfgMode),
    OpenLane(i64),
    Join(i64),
    Unknown,
}

pub open spec fn mode_after(custom_id: Seq<char>, prefix: Seq<char>) -> Option<LfgMode> {
    match strip_prefix_spec(custom_id, prefix) {
        Some(rest) => mode_from_spec(rest),
        None => None,
    }
}

pub open spec fn is_draft_select(id: Seq<char>) -> bool {
    id == LFG_RANK_FROM_SELECT_CUSTOM_ID@ || id == LFG_RANK_TO_SELECT_CUSTOM_ID@ || id
        == LFG_SLOTS_SELECT_CUSTOM_ID@ || id == LFG_WHEN_SELECT_CUSTOM_ID@
}

pub open spec fn is_watch_select(id: Seq<char>) -> bool {
    id == LFG_WATCH_RANK_FROM_SELECT_CUSTOM_ID@ || id == LFG_WATCH_RANK_TO_SELECT_CUSTOM_ID@ || id
        == LFG_WATCH_WINDOW_SELECT_CUSTOM_ID@
}

/// Routing, first match wins: the two start buttons, a mode button of the
/// create or watch flow, a draft select, a watch select, the watch
/// activation, a post button of a mode, an open-lane button, a join button.
pub open spec fn route_spec(id: Seq<char>) -> LfgRoute {
    if id == LFG_CREATE_START_CUSTOM_ID@ {
        LfgRoute::Start
    } else if id == LFG_WATCH_START_CUSTOM_ID@ {
        LfgRoute::WatchStart
    } else if mode_after(id, LFG_CREATE_MODE_PREFIX@) is Some {
        LfgRoute::Mode(mode_after(id, LFG_CREATE_MODE_PREFIX@)->0)
    } else if mode_after(id, LFG_WATCH_MODE_PREFIX@) is Some {
        LfgRoute::WatchMode(mode_after(id, LFG_WATCH_MODE_PREFIX@)->0)
    } else if is_draft_select(id) {
        LfgRoute::DraftSelect
    } else if is_watch_select(id) {
        LfgRoute::WatchSelect
    } else if id == LFG_WATCH_ACTIVATE_CUSTOM_ID@ {
        LfgRoute::WatchActivate
    } else if mode_after(id, LFG_POST_PREFIX@) is Some {
        LfgRoute::PostDraft(mode_after(id, LFG_POST_PREFIX@)->0)
    } else if i64_suffix_spec(id, LFG_OPEN_LANE_PREFIX@) is Some {
        LfgRoute::OpenLane(i64_suffix_spec(id, LFG_OPEN_LANE_PREFIX@)->0)
    } else if i64_suffix_spec(id, LFG_JOIN_PREFIX@) is Some {
        LfgRoute::Join(i64_suffix_spec(id, LFG_JOIN_PREFIX@)->0)
    } else {
        LfgRoute::Unknown
    }
}

fn mode_after_prefix(custom_id: &str, prefix: &str) -> (r: Option<LfgMode>)
    ensures
        r == mode_after(custom_id@, prefix@),
{
    let v = chars_of(custom_id);
    let p = chars_of(prefix);
    if !starts_with_chars(&v, &p) {
        return None;
    }
    let rest = slice_chars(&v, p.len(), v.len());
    let s = string_of(&rest);
    LfgMode::from_str(s.as_str())
}

pub fn route_interaction(custom_id: &str) -> (r: LfgRoute)
    ensures
        r == route_spec(custom_id@),
{
    if str_eq(custom_id, LFG_CREATE_START_CUSTOM_ID) {
        return LfgRoute::Start;
    }
    if str_eq(custom_id, LFG_WATCH_START_CUSTOM_ID) {
        return LfgRoute::WatchStart;
    }
    match mode_after_prefix(custom_id, LFG_CREATE_MODE_PREFIX) {
        Some(m) => return LfgRoute::Mode(m),
        None => {},
    }
    match mode_after_prefix(custom_id, LFG_WATCH_MODE_PREFIX) {
        Some(m) => return LfgRoute::WatchMode(m),
        None => {},
    }
    if str_eq(custom_id, LFG_RANK_FROM_SELECT_CUSTOM_ID) || str_eq(
        custom_id,
        LFG_RANK_TO_SELECT_CUSTOM_ID,
    ) || str_eq(custom_id, LFG_SLOTS_SELECT_CUSTOM_ID) || str_eq(custom_id, LFG_WHEN_SELECT_CUSTOM_ID) {
        return LfgRoute::DraftSelect;
    }
    if str_eq(custom_id, LFG_WATCH_RANK_FROM_SELECT_CUSTOM_ID) || str_eq(
        custom_id,
        LFG_WATCH_RANK_TO_SELECT_CUSTOM_ID,
    ) || str_eq(custom_id, LFG_WATCH_WINDOW_SELECT_CUSTOM_ID) {
        return LfgRoute::WatchSelect;
    }
    if str_eq(custom_id, LFG_WATCH_ACTIVATE_CUSTOM_ID) {
        return LfgRoute::WatchActivate;
    }
    match mode_after_prefix(custom_id, LFG_POST_PREFIX) {
        Some(m) => return LfgRoute::PostDraft(m),
        None => {},
    }
    match parse_i64_suffix(custom_id, LFG_OPEN_LANE_PREFIX) {
        Some(id) => return LfgRoute::OpenLane(id),
        None => {},
    }
    match parse_i64_suffix(custom_id, LFG_JOIN_PREFIX) {
        Some(id) => return LfgRoute::Join(id),
        None => {},
    }
    LfgRoute::Unknown
}

// ── The create flow ─────────────────────────────────────────────────────────

/// The reply when a draft select arrives without a value.
pub fn missing_selection_error(custom_id: &str) -> (r: &'static str)
    ensures
        (custom_id@ == LFG_RANK_FROM_SELECT_CUSTOM_ID@ || custom_id@ == LFG_RANK_TO_SELECT_CUSTOM_ID@)
            ==> r@ == LFG_ERR_RANG_UNBEKANNT@,
        custom_id@ != LFG_RANK_FROM_SELECT_CUSTOM_ID@ && custom_id@ != LFG_RANK_TO_SELECT_CUSTOM_ID@
            && custom_id@ == LFG_SLOTS_SELECT_CUSTOM_ID@ ==> r@ == LFG_ERR_PLAETZE_UNGUELTIG@,
        custom_id@ != LFG_RANK_FROM_SELECT_CUSTOM_ID@ && custom_id@ != LFG_RANK_TO_SELECT_CUSTOM_ID@
            && custom_id@ != LFG_SLOTS_SELECT_CUSTOM_ID@ ==> r@ == LFG_ERR_ERSTELLUNG_FEHLGESCHLAGEN@,
{
    if str_eq(custom_id, LFG_RANK_FROM_SELECT_CUSTOM_ID) || str_eq(custom_id, LFG_RANK_TO_SELECT_CUSTOM_ID) {
        LFG_ERR_RANG_UNBEKANNT
    } else if str_eq(custom_id, LFG_SLOTS_SELECT_CUSTOM_ID) {
        LFG_ERR_PLAETZE_UNGUELTIG
    } else {
        LFG_ERR_ERSTELLUNG_FEHLGESCHLAGEN
    }
}

pub open spec fn normalized_rank(selected: Seq<char>) -> Option<Option<Seq<char>>> {
    normalize_lower_spec(lowercase_of(trim_spec(selected)))
}

/// How a draft select changes the draft: a rank select sets that end (an
/// unknown rank is refused), the slots select sets the slots (an invalid
/// count is refused), the play-window select sets the window (an unknown
/// value clears it); any other id is refused. A refused select leaves the
/// draft as it was.
pub fn apply_draft_select(draft: &mut LfgDraft, custom_id: &str, selected: &str) -> (r: Result<
    (),
    &'static str,
>)
    ensures
        final(draft).mode == old(draft).mode,
        final(draft).lane_id == old(draft).lane_id,
        custom_id@ == LFG_RANK_FROM_SELECT_CUSTOM_ID@ ==> match normalized_rank(selected@) {
            None => r == Err::<(), &'static str>(LFG_ERR_RANG_UNBEKANNT) && *final(draft) == *old(draft),
            Some(v) => r is Ok && opt_str(final(draft).rank_from) == v && opt_str(final(draft).rank_to)
                == opt_str(old(draft).rank_to) && final(draft).slots == old(draft).slots
                && final(draft).play_window == old(draft).play_window,
        },
        custom_id@ != LFG_RANK_FROM_SELECT_CUSTOM_ID@ && custom_id@ == LFG_RANK_TO_SELECT_CUSTOM_ID@
            ==> match normalized_rank(selected@) {
            None => r == Err::<(), &'static str>(LFG_ERR_RANG_UNBEKANNT) && *final(draft) == *old(draft),
            Some(v) => r is Ok && opt_str(final(draft).rank_to) == v && opt_str(final(draft).rank_from)
                == opt_str(old(draft).rank_from) && final(draft).slots == old(draft).slots
                && final(draft).play_window == old(draft).play_window,
        },
        custom_id@ != LFG_RANK_FROM_SELECT_CUSTOM_ID@ && custom_id@ != LFG_RANK_TO_SELECT_CUSTOM_ID@
            && custom_id@ == LFG_SLOTS_SELECT_CUSTOM_ID@ ==> match requested_slots_spec(
            selected@,
            old(draft).mode,
        ) {
            None => r == Err::<(), &'static str>(LFG_ERR_PLAETZE_UNGUELTIG) && *final(draft) == *old(draft),
            Some(n) => r is Ok && final(draft).slots == Some(n) && opt_str(final(draft).rank_from)
                == opt_str(old(draft).rank_from) && opt_str(final(draft).rank_to) == opt_str(
                old(draft).rank_to,
            ) && final(draft).play_window == old(draft).play_window,
        },
        custom_id@ != LFG_RANK_FROM_SELECT_CUSTOM_ID@ && custom_id@ != LFG_RANK_TO_SELECT_CUSTOM_ID@
            && custom_id@ != LFG_SLOTS_SELECT_CUSTOM_ID@ && custom_id@ == LFG_WHEN_SELECT_CUSTOM_ID@
            ==> r is Ok && final(draft).play_window == window_from_spec(selected@) && opt_str(
            final(draft).rank_from,
        ) == opt_str(old(draft).rank_from) && opt_str(final(draft).rank_to) == opt_str(
            old(draft).rank_to,
        ) && final(draft).slots == old(draft).slots,
        !is_draft_select(custom_id@) ==> r == Err::<(), &'static str>(LFG_ERR_ERSTELLUNG_FEHLGESCHLAGEN)
            && *final(draft) == *old(draft),
{
    if str_eq(custom_id, LFG_RANK_FROM_SELECT_CUSTOM_ID) {
        match normalize_lfg_rank_value(selected) {
            None => Err(LFG_ERR_RANG_UNBEKANNT),
            Some(rank) => {
                draft.rank_from = rank;
                Ok(())
            },
        }
    } else if str_eq(custom_id, LFG_RANK_TO_SELECT_CUSTOM_ID) {
        match normalize_lfg_rank_value(selected) {
            None => Err(LFG_ERR_RANG_UNBEKANNT),
            Some(rank) => {
                draft.rank_to = rank;
                Ok(())
            },
        }
    } else if str_eq(custom_id, LFG_SLOTS_SELECT_CUSTOM_ID) {
        match parse_requested_slots(selected, draft.mode) {
            None => Err(LFG_ERR_PLAETZE_UNGUELTIG),
            Some(n) => {
                draft.slots = Some(n);
                Ok(())
            },
        }
    } else if str_eq(custom_id, LFG_WHEN_SELECT_CUSTOM_ID) {
        draft.play_window = LfgPlayWindow::from_str(selected);
        Ok(())
    } else {
        Err(LFG_ERR_ERSTELLUNG_FEHLGESCHLAGEN)
    }
}

/// What a post button needs from the draft: the draft's own mode, slots and
/// a valid rank range, checked in that order.
pub fn post_draft_check(draft: &LfgDraft, mode: LfgMode) -> (r: Result<(i32, LfgRankRange), &'static str>)
    ensures
        draft.mode != mode ==> r == Err::<(i32, LfgRankRange), &'static str>(
            LFG_ERR_ERSTELLUNG_FEHLGESCHLAGEN,
        ),
        draft.mode == mode && draft.slots is None ==> r == Err::<(i32, LfgRankRange), &'static str>(
            LFG_ERR_PLAETZE_UNGUELTIG,
        ),
        draft.mode == mode && draft.slots is Some ==> match range_from_values_spec(
            opt_str(draft.rank_from),
            opt_str(draft.rank_to),
        ) {
            None => r == Err::<(i32, LfgRankRange), &'static str>(LFG_ERR_RANG_UNBEKANNT),
            Some(range) => r == Ok::<(i32, LfgRankRange), &'static str>((draft.slots->0, range)),
        },
{
    if draft.mode != mode {
        return Err(LFG_ERR_ERSTELLUNG_FEHLGESCHLAGEN);
    }
    let slots = match draft.slots {
        Some(s) => s,
        None => return Err(LFG_ERR_PLAETZE_UNGUELTIG),
    };
    match lfg_rank_range_from_draft(draft) {
        None => Err(LFG_ERR_RANG_UNBEKANNT),
        Some(range) => Ok((slots, range)),
    }
}

/// The owner of a post for a lane: the lane must be known with this mode,
/// and only its owner or someone who may manage channels may post it.
pub fn lane_post_owner(
    user_id: u64,
    can_manage_channels: bool,
    lane: Option<(u64, LfgMode)>,
    mode: LfgMode,
) -> (r: Result<u64, &'static str>)
    ensures
        match lane {
            None => r == Err::<u64, &'static str>(LFG_ERR_ERSTELLUNG_FEHLGESCHLAGEN),
            Some((owner, lane_mode)) => if lane_mode != mode {
                r == Err::<u64, &'static str>(LFG_ERR_ERSTELLUNG_FEHLGESCHLAGEN)
            } else if owner != user_id && !can_manage_channels {
                r == Err::<u64, &'static str>(LFG_ERR_OPEN_NICHT_DEIN_POST)
            } else {
                r == Ok::<u64, &'static str>(owner)
            },
        },
{
    match lane {
        None => Err(LFG_ERR_ERSTELLUNG_FEHLGESCHLAGEN),
        Some((owner, lane_mode)) => {
            if lane_mode != mode {
                Err(LFG_ERR_ERSTELLUNG_FEHLGESCHLAGEN)
            } else if owner != user_id && !can_manage_channels {
                Err(LFG_ERR_OPEN_NICHT_DEIN_POST)
            } else {
                Ok(owner)
            }
        },
    }
}

/// Why a post could not be created.
#[derive(Debug, Clone, Copy, PartialEq, Eq, Structural)]
pub enum LfgPostCreateError {
    /// The owner (or the lane) already has an open post.
    AlreadyOpen,
    Failed,
}

/// The reply to a failed creation: an open post of the same lane, an open
/// post of the same user, or a failure.
pub fn post_create_error_reply(error: LfgPostCreateError, for_lane: bool) -> (r: &'static str)
    ensures
        error == LfgPostCreateError::AlreadyOpen && for_lane ==> r@ == LFG_ERR_PUBLISH_LANE_SCHON_VEROEFFENTLICHT@,
        error == LfgPostCreateError::AlreadyOpen && !for_lane ==> r@ == LFG_ERR_SCHON_AKTIVE_SUCHE@,
        error == LfgPostCreateError::Failed ==> r@ == LFG_ERR_ERSTELLUNG_FEHLGESCHLAGEN@,
{
    match error {
        LfgPostCreateError::AlreadyOpen => {
            if for_lane {
                LFG_ERR_PUBLISH_LANE_SCHON_VEROEFFENTLICHT
            } else {
                LFG_ERR_SCHON_AKTIVE_SUCHE
            }
        },
        LfgPostCreateError::Failed => LFG_ERR_ERSTELLUNG_FEHLGESCHLAGEN,
    }
}

// ── The watch flow ──────────────────────────────────────────────────────────

/// How a watch select changes the watch draft: the rank selects set their
/// end (an unknown rank is refused), the window select sets the window (an
/// unknown window is refused); any other id is refused. A refused select
/// leaves the draft as it was.
pub fn apply_watch_select(draft: &mut LfgWatchDraft, custom_id: &str, selected: &str) -> (r: Result<
    (),
    &'static str,
>)
    ensures
        final(draft).mode == old(draft).mode,
        custom_id@ == LFG_WATCH_RANK_FROM_SELECT_CUSTOM_ID@ ==> match normalized_rank(selected@) {
            None => r == Err::<(), &'static str>(LFG_ERR_RANG_UNBEKANNT) && *final(draft) == *old(draft),
            Some(v) => r is Ok && opt_str(final(draft).rank_from) == v && opt_str(final(draft).rank_to)
                == opt_str(old(draft).rank_to) && final(draft).window == old(draft).window,
        },
        custom_id@ != LFG_WATCH_RANK_FROM_SELECT_CUSTOM_ID@ && custom_id@
            == LFG_WATCH_RANK_TO_SELECT_CUSTOM_ID@ ==> match normalized_rank(selected@) {
            None => r == Err::<(), &'static str>(LFG_ERR_RANG_UNBEKANNT) && *final(draft) == *old(draft),
            Some(v) => r is Ok && opt_str(final(draft).rank_to) == v && opt_str(final(draft).rank_from)
                == opt_str(old(draft).rank_from) && final(draft).window == old(draft).window,
        },
        custom_id@ != LFG_WATCH_RANK_FROM_SELECT_CUSTOM_ID@ && custom_id@
            != LFG_WATCH_RANK_TO_SELECT_CUSTOM_ID@ && custom_id@ == LFG_WATCH_WINDOW_SELECT_CUSTOM_ID@
            ==> match watch_window_from_spec(selected@) {
            None => r == Err::<(), &'static str>(LFG_ERR_ERSTELLUNG_FEHLGESCHLAGEN) && *final(draft)
                == *old(draft),
            Some(w) => r is Ok && final(draft).window == Some(w) && opt_str(final(draft).rank_from)
                == opt_str(old(draft).rank_from) && opt_str(final(draft).rank_to) == opt_str(
                old(draft).rank_to,
            ),
        },
        !is_watch_select(custom_id@) ==> r == Err::<(), &'static str>(LFG_ERR_ERSTELLUNG_FEHLGESCHLAGEN)
            && *final(draft) == *old(draft),
{
    if str_eq(custom_id, LFG_WATCH_RANK_FROM_SELECT_CUSTOM_ID) {
        match normalize_lfg_rank_value(selected) {
            None => Err(LFG_ERR_RANG_UNBEKANNT),
            Some(rank) => {
                draft.rank_from = rank;
                Ok(())
            },
        }
    } else if str_eq(custom_id, LFG_WATCH_RANK_TO_SELECT_CUSTOM_ID) {
        match normalize_lfg_rank_value(selected) {
            None => Err(LFG_ERR_RANG_UNBEKANNT),
            Some(rank) => {
                draft.rank_to = rank;
                Ok(())
            },
        }
    } else if str_eq(custom_id, LFG_WATCH_WINDOW_SELECT_CUSTOM_ID) {
        match LfgWatchWindow::from_str(selected) {
            None => Err(LFG_ERR_ERSTELLUNG_FEHLGESCHLAGEN),
            Some(w) => {
                draft.window = Some(w);
                Ok(())
            },
        }
    } else {
        Err(LFG_ERR_ERSTELLUNG_FEHLGESCHLAGEN)
    }
}

/// What activating a watch needs: a mode and a window (else the draft is
/// incomplete), then a valid rank range.
pub fn watch_activation(draft: &LfgWatchDraft) -> (r: Result<(LfgMode, LfgWatchWindow, LfgRankRange), &'static str>)
    ensures
        draft.mode is None || draft.window is None ==> r == Err::<
            (LfgMode, LfgWatchWindow, LfgRankRange),
            &'static str,
        >(LFG_WATCH_ERR_UNVOLLSTAENDIG),
        draft.mode is Some && draft.window is Some ==> match range_from_values_spec(
            opt_str(draft.rank_from),
            opt_str(draft.rank_to),
        ) {
            None => r == Err::<(LfgMode, LfgWatchWindow, LfgRankRange), &'static str>(
                LFG_ERR_RANG_UNBEKANNT,
            ),
            Some(range) => r == Ok::<(LfgMode, LfgWatchWindow, LfgRankRange), &'static str>(
                (draft.mode->0, draft.window->0, range),
            ),
        },
{
    let (mode, window) = match (draft.mode, draft.window) {
        (Some(m), Some(w)) => (m, w),
        _ => return Err(LFG_WATCH_ERR_UNVOLLSTAENDIG),
    };
    match lfg_rank_range_from_watch_draft(draft) {
        None => Err(LFG_ERR_RANG_UNBEKANNT),
        Some(range) => Ok((mode, window, range)),
    }
}

/// The confirmation of an armed watch.
pub fn watch_confirmation(mode: LfgMode, range: LfgRankRange) -> (r: String)
    ensures
        r@ == "🔔 Alles klar — ich halte Ausschau nach **"@ + mode_display(mode) + "** · "@
            + rank_range_label_spec(range)
            + " und schicke dir eine DM, sobald was Passendes auftaucht. (Einmalig; danach kannst du dich wieder eintragen.)"@,
{
    let mut v = chars_of("🔔 Alles klar — ich halte Ausschau nach **");
    append_str(&mut v, mode.display_name());
    append_str(&mut v, "** · ");
    let label = rank_range_label(range);
    append_str(&mut v, label.as_str());
    append_str(
        &mut v,
        " und schicke dir eine DM, sobald was Passendes auftaucht. (Einmalig; danach kannst du dich wieder eintragen.)",
    );
    string_of(&v)
}

// ── Open lane and join ──────────────────────────────────────────────────────

/// What is known of a stored post when someone clicks one of its buttons.
#[derive(Debug, Clone, PartialEq, Eq)]
pub struct LfgPostState {
    pub status: String,
    pub owner_id: u64,
    pub lane_id: Option<u64>,
    pub mode: LfgMode,
    pub requested_slots: i32,
}

/// Opening a lane for a post: only the owner of an open post (else "not
/// your post", also for a missing post), and only while no lane is linked.
pub fn open_lane_check(post: Option<&LfgPostState>, user_id: u64) -> (r: Result<(), &'static str>)
    ensures
        match post {
            None => r == Err::<(), &'static str>(LFG_ERR_OPEN_NICHT_DEIN_POST),
            Some(p) => if p.status@ != "open"@ || p.owner_id != user_id {
                r == Err::<(), &'static str>(LFG_ERR_OPEN_NICHT_DEIN_POST)
            } else if p.lane_id is Some {
                r == Err::<(), &'static str>(LFG_ERR_OPEN_LANE_SCHON_VERKNUEPFT)
            } else {
                r is Ok
            },
        },
{
    match post {
        None => Err(LFG_ERR_OPEN_NICHT_DEIN_POST),
        Some(p) => {
            if !str_eq(p.status.as_str(), "open") || p.owner_id != user_id {
                Err(LFG_ERR_OPEN_NICHT_DEIN_POST)
            } else if p.lane_id.is_some() {
                Err(LFG_ERR_OPEN_LANE_SCHON_VERKNUEPFT)
            } else {
                Ok(())
            }
        },
    }
}

/// What spawning a lane from the owner's voice channel gave.
#[derive(Debug, Clone, Copy, PartialEq, Eq, Structural)]
pub enum LaneSpawnOutcome {
    Created { lane_id: u64 },
    NotInVoice,
    AlreadyOwnLane { lane_id: u64 },
    FloodLimited,
    NotCreated,
    UnknownMode,
}

/// The reply to a spawn that did not create a lane; `None` for a created one.
pub fn spawn_outcome_error(outcome: LaneSpawnOutcome) -> (r: Option<&'static str>)
    ensures
        match outcome {
            LaneSpawnOutcome::Created { .. } => r is None,
            LaneSpawnOutcome::NotInVoice => r == Some(LFG_ERR_OPEN_NICHT_IN_VOICE),
            LaneSpawnOutcome::AlreadyOwnLane { .. } => r == Some(LFG_ERR_OPEN_LANE_SCHON_VERKNUEPFT),
            _ => r == Some(LFG_ERR_ERSTELLUNG_FEHLGESCHLAGEN),
        },
{
    match outcome {
        LaneSpawnOutcome::Created { .. } => None,
        LaneSpawnOutcome::NotInVoice => Some(LFG_ERR_OPEN_NICHT_IN_VOICE),
        LaneSpawnOutcome::AlreadyOwnLane { .. } => Some(LFG_ERR_OPEN_LANE_SCHON_VERKNUEPFT),
        _ => Some(LFG_ERR_ERSTELLUNG_FEHLGESCHLAGEN),
    }
}

/// The first checks of a join: the post must exist and be open, not be the
/// user's own, and have a lane; gives the lane.
pub fn join_post_check(post: Option<&LfgPostState>, user_id: u64) -> (r: Result<u64, &'static str>)
    ensures
        match post {
            None => r == Err::<u64, &'static str>(LFG_ERR_JOIN_LANE_TOT),
            Some(p) => if p.status@ != "open"@ {
                r == Err::<u64, &'static str>(LFG_ERR_JOIN_LANE_TOT)
            } else if p.owner_id == user_id {
                r == Err::<u64, &'static str>(LFG_ERR_JOIN_EIGENER_POST)
            } else {
                match p.lane_id {
                    None => r == Err::<u64, &'static str>(LFG_ERR_JOIN_LANE_TOT),
                    Some(l) => r == Ok::<u64, &'static str>(l),
                }
            },
        },
{
    match post {
        None => Err(LFG_ERR_JOIN_LANE_TOT),
        Some(p) => {
            if !str_eq(p.status.as_str(), "open") {
                Err(LFG_ERR_JOIN_LANE_TOT)
            } else if p.owner_id == user_id {
                Err(LFG_ERR_JOIN_EIGENER_POST)
            } else {
                match p.lane_id {
                    None => Err(LFG_ERR_JOIN_LANE_TOT),
                    Some(l) => Ok(l),
                }
            }
        },
    }
}

/// The voice check of a join: the user must be in voice, and not already in
/// the lane.
pub fn join_voice_check(current_voice: Option<u64>, lane_id: u64) -> (r: Result<(), &'static str>)
    ensures
        current_voice is None ==> r == Err::<(), &'static str>(LFG_ERR_JOIN_NICHT_IN_VOICE),
        current_voice == Some(lane_id) ==> r == Err::<(), &'static str>(LFG_ERR_JOIN_SCHON_DRIN),
        current_voice is Some && current_voice != Some(lane_id) ==> r is Ok,
{
    match current_voice {
        None => Err(LFG_ERR_JOIN_NICHT_IN_VOICE),
        Some(c) => {
            if c == lane_id {
                Err(LFG_ERR_JOIN_SCHON_DRIN)
            } else {
                Ok(())
            }
        },
    }
}

/// The capacity check of a join.
#[derive(Debug, Clone, Copy, PartialEq, Eq, Structural)]
pub enum JoinCapacity {
    /// The lane is gone: close the post.
    Gone,
    Full,
    Room,
}

pub fn join_capacity(occupancy: Option<LfgLaneOccupancy>, mode: LfgMode, requested_slots: i32) -> (r: JoinCapacity)
    ensures
        occupancy is None ==> r == JoinCapacity::Gone,
        occupancy is Some ==> (r == JoinCapacity::Full <==> rendered_capacity_spec(
            mode,
            requested_slots,
            occupancy,
        ).full),
        occupancy is Some ==> r != JoinCapacity::Gone,
{
    match occupancy {
        None => JoinCapacity::Gone,
        Some(o) => {
            if rendered_capacity(mode, requested_slots, Some(o)).full {
                JoinCapacity::Full
            } else {
                JoinCapacity::Room
            }
        },
    }
}

// ── Voice events and the panel ──────────────────────────────────────────────

/// A voice event as the post renderer sees it.
#[derive(Debug, Clone, Copy, PartialEq, Eq, Structural)]
pub enum LaneVoiceEvent {
    Join { channel_id: u64 },
    Leave { channel_id: u64 },
    Move { from_channel_id: u64, to_channel_id: u64 },
    Update,
}

/// The lanes whose posts a voice event may change, each once.
pub fn lanes_of_event(event: LaneVoiceEvent) -> (r: Vec<u64>)
    ensures
        match event {
            LaneVoiceEvent::Join { channel_id } => r@ == seq![channel_id],
            LaneVoiceEvent::Leave { channel_id } => r@ == seq![channel_id],
            LaneVoiceEvent::Move { from_channel_id, to_channel_id } => if from_channel_id
                == to_channel_id {
                r@ == seq![from_channel_id]
            } else {
                r@ == seq![from_channel_id, to_channel_id]
            },
            LaneVoiceEvent::Update => r@.len() == 0,
        },
{
    let mut r: Vec<u64> = Vec::new();
    match event {
        LaneVoiceEvent::Join { channel_id } => r.push(channel_id),
        LaneVoiceEvent::Leave { channel_id } => r.push(channel_id),
        LaneVoiceEvent::Move { from_channel_id, to_channel_id } => {
            r.push(from_channel_id);
            if to_channel_id != from_channel_id {
                r.push(to_channel_id);
            }
        },
        LaneVoiceEvent::Update => {},
    }
    r
}

/// The reason fragment of a channel kind.
pub open spec fn kind_fragment(kind: LfgPanelChannelKind) -> Seq<char> {
    match kind {
        LfgPanelChannelKind::Text => "text"@,
        LfgPanelChannelKind::News => "news"@,
        LfgPanelChannelKind::Forum => "forum"@,
        LfgPanelChannelKind::Other(k) => k@,
    }
}

/// Why the panel cannot go to its channel: no channel configured (with the
/// configured explanation, if any), or a channel of a kind that takes no
/// regular messages. `None` when nothing blocks it or the kind is unknown.
pub open spec fn blocked_reason_spec(
    channel_id: Option<u64>,
    missing_reason: Option<Seq<char>>,
    kind: Option<LfgPanelChannelKind>,
) -> Option<Seq<char>> {
    match channel_id {
        None => Some(
            match missing_reason {
                Some(reason) => reason,
                None => "DL_LFG_PANEL_CHANNEL_ID fehlt"@,
            },
        ),
        Some(_) => match kind {
            None => None,
            Some(k) => if k is Text || k is News {
                None
            } else {
                Some(
                    "DL_LFG_PANEL_CHANNEL_ID zeigt auf "@ + kind_fragment(k)
                        + "-Kanal; Panel-Ziel muss ein Text-Kanal sein"@,
                )
            },
        },
    }
}

pub fn panel_channel_blocked_reason(
    channel_id: Option<u64>,
    missing_reason: Option<&str>,
    kind: Option<&LfgPanelChannelKind>,
) -> (r: Option<String>)
    ensures
        match r {
            Some(text) => blocked_reason_spec(
                channel_id,
                match missing_reason {
                    Some(m) => Some(m@),
                    None => None,
                },
                match kind {
                    Some(k) => Some(*k),
                    None => None,
                },
            ) == Some(text@),
            None => blocked_reason_spec(
                channel_id,
                match missing_reason {
                    Some(m) => Some(m@),
                    None => None,
                },
                match kind {
                    Some(k) => Some(*k),
                    None => None,
                },
            ) is None,
        },
{
    match channel_id {
        None => match missing_reason {
            Some(reason) => Some(owned(reason)),
            None => Some(owned("DL_LFG_PANEL_CHANNEL_ID fehlt")),
        },
        Some(_) => match kind {
            None => None,
            Some(k) => {
                if k.supports_regular_messages() {
                    None
                } else {
                    let mut v = chars_of("DL_LFG_PANEL_CHANNEL_ID zeigt auf ");
                    append_str(&mut v, k.as_reason_fragment());
                    append_str(&mut v, "-Kanal; Panel-Ziel muss ein Text-Kanal sein");
                    Some(string_of(&v))
                }
            },
        },
    }
}

/// The panel action when the panel channel is known or not: with a channel,
/// editing the stored (or found) panel, else posting a new one.
pub open spec fn planned_panel_spec(has_channel: bool, stored: Option<u64>, found: Option<u64>) -> (Seq<char>, Option<u64>) {
    let target = if stored is Some {
        stored
    } else {
        found
    };
    (if !has_channel {
        "blocked_missing_channel"@
    } else if target is Some {
        "planned_edit"@
    } else {
        "planned_post"@
    }, target)
}

pub fn planned_panel_action(has_channel: bool, stored: Option<u64>, found: Option<u64>) -> (r: (&'static str, Option<u64>))
    ensures
        r.0@ == planned_panel_spec(has_channel, stored, found).0,
        r.1 == planned_panel_spec(has_channel, stored, found).1,
{
    let target = match stored {
        Some(s) => Some(s),
        None => found,
    };
    let action = if !has_channel {
        "blocked_missing_channel"
    } else if target.is_some() {
        "planned_edit"
    } else {
        "planned_post"
    };
    (action, target)
}

/// The panel found in the channel history that may be adopted: not the
/// stored one whose edit just failed as missing.
pub fn adoptable_panel(found: Option<u64>, ignored: Option<u64>) -> (r: Option<u64>)
    ensures
        r == (if found is Some && found != ignored {
            found
        } else {
            None
        }),
{
    match found {
        Some(f) => {
            match ignored {
                Some(i) => {
                    if f == i {
                        None
                    } else {
                        Some(f)
                    }
                },
                None => Some(f),
            }
        },
        None => None,
    }
}

// ── Panel apply ─────────────────────────────────────────────────────────────

/// The panel channel as configured: missing, of a kind without regular
/// messages, or usable.
#[derive(Debug, Clone, Copy, PartialEq, Eq, Structural)]
pub enum PanelChannel {
    Missing,
    InvalidType,
    Usable,
}

/// What was read before the apply: whether the cutover is active, the
/// channel, the stored panel message id, the history scan (`None` when it
/// failed, else the panel found there), whether the banner files are there,
/// and whether the change is confirmed (else a dry run).
#[derive(Debug, Clone, Copy, PartialEq, Eq, Structural)]
pub struct PanelInputs {
    pub cutover_active: bool,
    pub channel: PanelChannel,
    pub stored: Option<u64>,
    pub history: Option<Option<u64>>,
    pub attachments_ok: bool,
    pub confirm: bool,
}

/// Where an apply stands.
#[derive(Debug, Clone, Copy, PartialEq, Eq, Structural)]
pub enum PanelPhase {
    Start,
    EditingStored { message_id: u64 },
    EditingAdopted { message_id: u64 },
    Posting,
    Finished,
}

/// What the last operation answered.
#[derive(Debug, Clone, Copy, PartialEq, Eq, Structural)]
pub enum PanelEvent {
    Begin,
    Edited,
    EditNotFound,
    EditFailed,
    Posted { message_id: u64 },
    PostFailed,
}

/// The action an apply reports.
#[derive(Debug, Clone, Copy, PartialEq, Eq, Structural)]
pub enum PanelReport {
    BlockedCutoverDisabled,
    BlockedMissingChannel,
    BlockedInvalidChannelType,
    PlannedEdit,
    PlannedPost,
    Edited,
    AdoptedEdit,
    Posted,
}

impl PanelReport {
    pub fn as_str(self) -> (r: &'static str)
        ensures
            r@ == panel_report_str(self),
    {
        match self {
            PanelReport::BlockedCutoverDisabled => "blocked_cutover_disabled",
            PanelReport::BlockedMissingChannel => "blocked_missing_channel",
            PanelReport::BlockedInvalidChannelType => "blocked_invalid_channel_type",
            PanelReport::PlannedEdit => "planned_edit",
            PanelReport::PlannedPost => "planned_post",
            PanelReport::Edited => "edited",
            PanelReport::AdoptedEdit => "adopted_edit",
            PanelReport::Posted => "posted",
        }
    }
}

pub open spec fn panel_report_str(r: PanelReport) -> Seq<char> {
    match r {
        PanelReport::BlockedCutoverDisabled => "blocked_cutover_disabled"@,
        PanelReport::BlockedMissingChannel => "blocked_missing_channel"@,
        PanelReport::BlockedInvalidChannelType => "blocked_invalid_channel_type"@,
        PanelReport::PlannedEdit => "planned_edit"@,
        PanelReport::PlannedPost => "planned_post"@,
        PanelReport::Edited => "edited"@,
        PanelReport::AdoptedEdit => "adopted_edit"@,
        PanelReport::Posted => "posted"@,
    }
}

/// Why a confirmed apply fails.
#[derive(Debug, Clone, Copy, PartialEq, Eq, Structural)]
pub enum PanelFailure {
    MissingBanner,
    StoredEditFailed,
    NoHistory,
    AdoptedEditFailed,
    PostFailed,
    OutOfOrder,
}

/// The next operation of an apply.
#[derive(Debug, Clone, Copy, PartialEq, Eq, Structural)]
pub enum PanelOp {
    /// Finish with this report and message id; `store` keeps the id (and
    /// the payload format) as the panel's.
    Report { report: PanelReport, message_id: Option<u64>, dry_run: bool, store: bool },
    EditStored { message_id: u64 },
    EditAdopted { message_id: u64 },
    Post,
    Fail { failure: PanelFailure },
}

/// The operation, and whether the stored message id is to be forgotten
/// first (its message was gone).
#[derive(Debug, Clone, Copy, PartialEq, Eq, Structural)]
pub struct PanelAction {
    pub forget_stored: bool,
    pub op: PanelOp,
}

/// After the stored panel is ruled out (`ignored` is its id when its edit
/// found no message): adopt the panel of the history scan unless it is the
/// ignored one, else post a new panel; without a history scan, post nothing.
pub open spec fn after_stored_spec(inputs: PanelInputs, ignored: Option<u64>, forget: bool) -> (
    PanelPhase,
    PanelAction,
) {
    match inputs.history {
        None => (
            PanelPhase::Finished,
            PanelAction { forget_stored: forget, op: PanelOp::Fail { failure: PanelFailure::NoHistory } },
        ),
        Some(found) => match found {
            Some(h) => if Some(h) != ignored {
                (
                    PanelPhase::EditingAdopted { message_id: h },
                    PanelAction { forget_stored: forget, op: PanelOp::EditAdopted { message_id: h } },
                )
            } else {
                (PanelPhase::Posting, PanelAction { forget_stored: forget, op: PanelOp::Post })
            },
            None => (PanelPhase::Posting, PanelAction { forget_stored: forget, op: PanelOp::Post }),
        },
    }
}

pub open spec fn report(r: PanelReport, message_id: Option<u64>, dry_run: bool, store: bool) -> (
    PanelPhase,
    PanelAction,
) {
    (
        PanelPhase::Finished,
        PanelAction {
            forget_stored: false,
            op: PanelOp::Report { report: r, message_id, dry_run, store },
        },
    )
}

pub open spec fn fail(f: PanelFailure) -> (PanelPhase, PanelAction) {
    (PanelPhase::Finished, PanelAction { forget_stored: false, op: PanelOp::Fail { failure: f } })
}

/// The panel apply as steps. At the start: blocked without cutover or with
/// an unusable channel; a dry run reports the planned edit (of the stored,
/// else the found panel) or post; a confirmed run edits the stored panel
/// first. A stored panel that is gone is forgotten and the found panel is
/// adopted, else a new one is posted; every success stores the message id.
pub open spec fn panel_apply_spec(inputs: PanelInputs, phase: PanelPhase, event: PanelEvent) -> (
    PanelPhase,
    PanelAction,
) {
    let planned = match inputs.stored {
        Some(m) => Some(m),
        None => match inputs.history {
            Some(found) => found,
            None => None,
        },
    };
    match (phase, event) {
        (PanelPhase::Start, PanelEvent::Begin) => if !inputs.cutover_active {
            report(PanelReport::BlockedCutoverDisabled, inputs.stored, true, false)
        } else if inputs.channel == PanelChannel::Missing {
            report(PanelReport::BlockedMissingChannel, inputs.stored, true, false)
        } else if inputs.channel == PanelChannel::InvalidType {
            report(PanelReport::BlockedInvalidChannelType, inputs.stored, true, false)
        } else if !inputs.confirm {
            report(
                if planned is Some {
                    PanelReport::PlannedEdit
                } else {
                    PanelReport::PlannedPost
                },
                planned,
                true,
                false,
            )
        } else if !inputs.attachments_ok {
            fail(PanelFailure::MissingBanner)
        } else {
            match inputs.stored {
                Some(m) => (
                    PanelPhase::EditingStored { message_id: m },
                    PanelAction { forget_stored: false, op: PanelOp::EditStored { message_id: m } },
                ),
                None => after_stored_spec(inputs, None, false),
            }
        },
        (PanelPhase::EditingStored { message_id }, PanelEvent::Edited) => report(
            PanelReport::Edited,
            Some(message_id),
            false,
            true,
        ),
        (PanelPhase::EditingStored { message_id }, PanelEvent::EditNotFound) => after_stored_spec(
            inputs,
            Some(message_id),
            true,
        ),
        (PanelPhase::EditingStored { .. }, PanelEvent::EditFailed) => fail(
            PanelFailure::StoredEditFailed,
        ),
        (PanelPhase::EditingAdopted { message_id }, PanelEvent::Edited) => report(
            PanelReport::AdoptedEdit,
            Some(message_id),
            false,
            true,
        ),
        (PanelPhase::EditingAdopted { .. }, PanelEvent::EditNotFound) => fail(
            PanelFailure::AdoptedEditFailed,
        ),
        (PanelPhase::EditingAdopted { .. }, PanelEvent::EditFailed) => fail(
            PanelFailure::AdoptedEditFailed,
        ),
        (PanelPhase::Posting, PanelEvent::Posted { message_id }) => report(
            PanelReport::Posted,
            Some(message_id),
            false,
            true,
        ),
        (PanelPhase::Posting, PanelEvent::PostFailed) => fail(PanelFailure::PostFailed),
        _ => fail(PanelFailure::OutOfOrder),
    }
}

fn after_stored(inputs: PanelInputs, ignored: Option<u64>, forget: bool) -> (r: (
    PanelPhase,
    PanelAction,
))
    ensures
        r == after_stored_spec(inputs, ignored, forget),
{
    match inputs.history {
        None => (
            PanelPhase::Finished,
            PanelAction { forget_stored: forget, op: PanelOp::Fail { failure: PanelFailure::NoHistory } },
        ),
        Some(found) => match adoptable_panel(found, ignored) {
            Some(h) => (
                PanelPhase::EditingAdopted { message_id: h },
                PanelAction { forget_stored: forget, op: PanelOp::EditAdopted { message_id: h } },
            ),
            None => (PanelPhase::Posting, PanelAction { forget_stored: forget, op: PanelOp::Post }),
        },
    }
}

fn finish(r: PanelReport, message_id: Option<u64>, dry_run: bool, store: bool) -> (x: (
    PanelPhase,
    PanelAction,
))
    ensures
        x == report(r, message_id, dry_run, store),
{
    (
        PanelPhase::Finished,
        PanelAction {
            forget_stored: false,
            op: PanelOp::Report { report: r, message_id, dry_run, store },
        },
    )
}

fn failed(f: PanelFailure) -> (x: (PanelPhase, PanelAction))
    ensures
        x == fail(f),
{
    (PanelPhase::Finished, PanelAction { forget_stored: false, op: PanelOp::Fail { failure: f } })
}

/// One step of the panel apply: the phase so far and what the last
/// operation answered give the next phase and operation.
pub fn panel_apply_step(inputs: PanelInputs, phase: PanelPhase, event: PanelEvent) -> (r: (
    PanelPhase,
    PanelAction,
))
    ensures
        r == panel_apply_spec(inputs, phase, event),
{
    match (phase, event) {
        (PanelPhase::Start, PanelEvent::Begin) => {
            if !inputs.cutover_active {
                finish(PanelReport::BlockedCutoverDisabled, inputs.stored, true, false)
            } else if inputs.channel == PanelChannel::Missing {
                finish(PanelReport::BlockedMissingChannel, inputs.stored, true, false)
            } else if inputs.channel == PanelChannel::InvalidType {
                finish(PanelReport::BlockedInvalidChannelType, inputs.stored, true, false)
            } else if !inputs.confirm {
                let found = match inputs.history {
                    Some(f) => f,
                    None => None,
                };
                let (_plan, target) = planned_panel_action(true, inputs.stored, found);
                let r = if target.is_some() {
                    PanelReport::PlannedEdit
                } else {
                    PanelReport::PlannedPost
                };
                finish(r, target, true, false)
            } else if !inputs.attachments_ok {
                failed(PanelFailure::MissingBanner)
            } else {
                match inputs.stored {
                    Some(m) => (
                        PanelPhase::EditingStored { message_id: m },
                        PanelAction { forget_stored: false, op: PanelOp::EditStored { message_id: m } },
                    ),
                    None => after_stored(inputs, None, false),
                }
            }
        },
        (PanelPhase::EditingStored { message_id }, PanelEvent::Edited) => finish(
            PanelReport::Edited,
            Some(message_id),
            false,
            true,
        ),
        (PanelPhase::EditingStored { message_id }, PanelEvent::EditNotFound) => after_stored(
            inputs,
            Some(message_id),
            true,
        ),
        (PanelPhase::EditingStored { .. }, PanelEvent::EditFailed) => failed(
            PanelFailure::StoredEditFailed,
        ),
        (PanelPhase::EditingAdopted { message_id }, PanelEvent::Edited) => finish(
            PanelReport::AdoptedEdit,
            Some(message_id),
            false,
            true,
        ),
        (PanelPhase::EditingAdopted { .. }, PanelEvent::EditNotFound) => failed(
            PanelFailure::AdoptedEditFailed,
        ),
        (PanelPhase::EditingAdopted { .. }, PanelEvent::EditFailed) => failed(
            PanelFailure::AdoptedEditFailed,
        ),
        (PanelPhase::Posting, PanelEvent::Posted { message_id }) => finish(
            PanelReport::Posted,
            Some(message_id),
            false,
            true,
        ),
        (PanelPhase::Posting, PanelEvent::PostFailed) => failed(PanelFailure::PostFailed),
        _ => failed(PanelFailure::OutOfOrder),
    }
}

pub const PANEL_CUTOVER_WARNING: &'static str =
    "LFG-Panel: Cutover ist nicht aktiv; confirm wird blockiert.";

pub const PANEL_HISTORY_WARNING: &'static str =
    "LFG-Panel: History-Scan fehlgeschlagen; Dry-Run ohne Adoption.";

/// The blocked reason and the warnings a panel report carries. Without
/// cutover: reason `cutover_disabled`, the cutover warning, and the missing
/// forum channel if there is one. With an unusable channel: the reason why
/// (as [`panel_channel_blocked_reason`] gives it) and that reason as a
/// warning. A dry run whose history scan failed warns that nothing is
/// adopted; a confirmed run whose stored message was gone (`forgotten`)
/// warns that its id was stale and dropped.
pub open spec fn panel_notes_spec(
    inputs: PanelInputs,
    blocked: Option<Seq<char>>,
    forum_missing: Option<Seq<char>>,
    forgotten: Option<u64>,
) -> (Option<Seq<char>>, Seq<Seq<char>>) {
    if !inputs.cutover_active {
        (
            Some("cutover_disabled"@),
            seq![PANEL_CUTOVER_WARNING@] + match forum_missing {
                Some(reason) => seq!["LFG-Forum: Zielkanal fehlt ("@ + reason + ")."@],
                None => Seq::empty(),
            },
        )
    } else if inputs.channel != PanelChannel::Usable {
        (
            blocked,
            match blocked {
                Some(reason) => seq!["LFG-Panel: "@ + reason],
                None => Seq::empty(),
            },
        )
    } else if !inputs.confirm {
        (None, if inputs.history is None {
            seq![PANEL_HISTORY_WARNING@]
        } else {
            Seq::empty()
        })
    } else {
        (None, match forgotten {
            Some(m) => seq![
                "LFG-Panel: gespeicherte Message-ID "@ + int_dec(m as int)
                    + " ist stale (404); KV wurde geloescht."@,
            ],
            None => Seq::empty(),
        })
    }
}

pub open spec fn strings_view(v: Seq<String>) -> Seq<Seq<char>> {
    v.map_values(|s: String| s@)
}

/// The blocked reason and warnings of a panel report (see
/// [`panel_notes_spec`]): `blocked` is the channel's blocked reason,
/// `forum_missing` why the forum channel is not configured, and `forgotten`
/// the stored message id that the apply dropped after its edit found no
/// message.
pub fn panel_report_notes(
    inputs: PanelInputs,
    blocked: Option<&str>,
    forum_missing: Option<&str>,
    forgotten: Option<u64>,
) -> (r: (Option<String>, Vec<String>))
    ensures
        panel_notes_spec(
            inputs,
            match blocked {
                Some(b) => Some(b@),
                None => None,
            },
            match forum_missing {
                Some(f) => Some(f@),
                None => None,
            },
            forgotten,
        ) == (
            match r.0 {
                Some(t) => Some(t@),
                None => None,
            },
            strings_view(r.1@),
        ),
{
    let mut warnings: Vec<String> = Vec::new();
    if !inputs.cutover_active {
        warnings.push(owned(PANEL_CUTOVER_WARNING));
        match forum_missing {
            Some(reason) => {
                let mut v = chars_of("LFG-Forum: Zielkanal fehlt (");
                append_str(&mut v, reason);
                append_str(&mut v, ").");
                warnings.push(string_of(&v));
            },
            None => {},
        }
        proof {
            let ghost fm = match forum_missing {
                Some(f) => Some(f@),
                None => None::<Seq<char>>,
            };
            let ghost want = panel_notes_spec(inputs, None, fm, forgotten).1;
            assert(strings_view(warnings@) =~= want);
        }
        return (Some(owned("cutover_disabled")), warnings);
    }
    if inputs.channel != PanelChannel::Usable {
        match blocked {
            Some(reason) => {
                let mut v = chars_of("LFG-Panel: ");
                append_str(&mut v, reason);
                warnings.push(string_of(&v));
                assert(strings_view(warnings@) =~= seq!["LFG-Panel: "@ + reason@]);
                return (Some(owned(reason)), warnings);
            },
            None => {
                assert(strings_view(warnings@) =~= Seq::<Seq<char>>::empty());
                return (None, warnings);
            },
        }
    }
    if !inputs.confirm {
        if inputs.history.is_none() {
            warnings.push(owned(PANEL_HISTORY_WARNING));
            assert(strings_view(warnings@) =~= seq![PANEL_HISTORY_WARNING@]);
        } else {
            assert(strings_view(warnings@) =~= Seq::<Seq<char>>::empty());
        }
        return (None, warnings);
    }
    match forgotten {
        Some(m) => {
            let mut v = chars_of("LFG-Panel: gespeicherte Message-ID ");
            push_u64(&mut v, m);
            append_str(&mut v, " ist stale (404); KV wurde geloescht.");
            warnings.push(string_of(&v));
            assert(strings_view(warnings@) =~= seq![
                "LFG-Panel: gespeicherte Message-ID "@ + int_dec(m as int)
                    + " ist stale (404); KV wurde geloescht."@,
            ]);
        },
        None => {
            assert(strings_view(warnings@) =~= Seq::<Seq<char>>::empty());
        },
    }
    (None, warnings)
}

/// A report that changes nothing: a dry run that stores no id.
pub open spec fn is_dry_report(op: PanelOp) -> bool {
    match op {
        PanelOp::Report { dry_run, store, .. } => dry_run && !store,
        _ => false,
    }
}

/// The panel is never duplicated: a new panel is posted only from a
/// confirmed, unblocked apply whose history scan succeeded and found no
/// panel to adopt (other than the stored one just found gone), and whose
/// stored panel was absent or gone. Nothing is changed by a blocked apply
/// or a dry run.
pub proof fn lemma_panel_posts_only_without_existing_panel(
    inputs: PanelInputs,
    phase: PanelPhase,
    event: PanelEvent,
)
    ensures
        panel_apply_spec(inputs, phase, event).1.op is Post ==> inputs.history is Some && (
        match inputs.history.unwrap() {
            Some(h) => phase == (PanelPhase::EditingStored { message_id: h }) && event
                == PanelEvent::EditNotFound,
            None => true,
        }) && ((phase == PanelPhase::Start && event == PanelEvent::Begin && inputs.stored is None
            && inputs.confirm && inputs.cutover_active && inputs.channel == PanelChannel::Usable)
            || (phase is EditingStored && event == PanelEvent::EditNotFound)),
        phase == PanelPhase::Start && event == PanelEvent::Begin && (!inputs.confirm
            || !inputs.cutover_active || inputs.channel != PanelChannel::Usable) ==> panel_apply_spec(
            inputs,
            phase,
            event,
        ).1.op is Report && is_dry_report(panel_apply_spec(inputs, phase, event).1.op),
{
}

// ── Post creation ───────────────────────────────────────────────────────────

/// Where the creation of a post stands.
#[derive(Debug, Clone, Copy, PartialEq, Eq, Structural)]
pub enum CreatePostPhase {
    Start,
    Reserving,
    ReadingOccupancy { post_id: i64 },
    CreatingForumPost { post_id: i64 },
    FetchingStarter { post_id: i64, thread_id: u64 },
    Persisting { post_id: i64, thread_id: u64 },
    Finished,
}

/// What the last operation answered.
#[derive(Debug, Clone, Copy, PartialEq, Eq, Structural)]
pub enum CreatePostEvent {
    /// The start, with the forum channel if one is configured.
    Begin { forum_channel_id: Option<u64> },
    Reserved { post_id: i64 },
    ReservationAlreadyOpen,
    ReservationFailed,
    OccupancyRead,
    ForumPostCreated { thread_id: u64 },
    ForumPostFailed,
    /// The starter message of the thread (`None` also when the fetch failed).
    StarterFetched { message_id: Option<u64> },
    Persisted,
    PersistFailed,
}

/// The next operation of a post creation.
#[derive(Debug, Clone, Copy, PartialEq, Eq, Structural)]
pub enum CreatePostAction {
    /// Reserve a post row in the forum channel (one open post per owner and lane).
    Reserve { forum_channel_id: u64 },
    ReadOccupancy { post_id: i64 },
    /// Build the post (`lfg_post_draft`, `render_hash`) and create the thread.
    CreateForumPost { post_id: i64 },
    FetchStarter { thread_id: u64 },
    /// Open the reserved row with the thread, its starter message and the hash.
    Persist { post_id: i64, thread_id: u64, starter_message_id: Option<u64> },
    /// The post exists: start the watch match run for it.
    Done { post_id: i64, thread_id: u64 },
    /// Give up with this error, first deleting the reservation and archiving
    /// and locking the thread where given.
    Fail {
        error: LfgPostCreateError,
        delete_reservation: Option<i64>,
        archive_thread: Option<u64>,
    },
}

pub open spec fn create_fail(
    error: LfgPostCreateError,
    delete_reservation: Option<i64>,
    archive_thread: Option<u64>,
) -> (CreatePostPhase, CreatePostAction) {
    (CreatePostPhase::Finished, CreatePostAction::Fail { error, delete_reservation, archive_thread })
}

/// Creating a post: reserve the row (an open post gives `AlreadyOpen`, a
/// database error `Failed`), read the lane's occupancy when the post has a
/// lane, create the forum thread (on failure the reservation is deleted),
/// fetch its starter message, persist the row (on failure the reservation
/// is deleted and the thread archived and locked), then start the match run.
pub open spec fn create_post_spec(
    has_lane: bool,
    phase: CreatePostPhase,
    event: CreatePostEvent,
) -> (CreatePostPhase, CreatePostAction) {
    match (phase, event) {
        (CreatePostPhase::Start, CreatePostEvent::Begin { forum_channel_id }) => match forum_channel_id {
            Some(f) => (CreatePostPhase::Reserving, CreatePostAction::Reserve { forum_channel_id: f }),
            None => create_fail(LfgPostCreateError::Failed, None, None),
        },
        (CreatePostPhase::Reserving, CreatePostEvent::Reserved { post_id }) => if has_lane {
            (
                CreatePostPhase::ReadingOccupancy { post_id },
                CreatePostAction::ReadOccupancy { post_id },
            )
        } else {
            (
                CreatePostPhase::CreatingForumPost { post_id },
                CreatePostAction::CreateForumPost { post_id },
            )
        },
        (CreatePostPhase::Reserving, CreatePostEvent::ReservationAlreadyOpen) => create_fail(
            LfgPostCreateError::AlreadyOpen,
            None,
            None,
        ),
        (CreatePostPhase::Reserving, CreatePostEvent::ReservationFailed) => create_fail(
            LfgPostCreateError::Failed,
            None,
            None,
        ),
        (CreatePostPhase::ReadingOccupancy { post_id }, CreatePostEvent::OccupancyRead) => (
            CreatePostPhase::CreatingForumPost { post_id },
            CreatePostAction::CreateForumPost { post_id },
        ),
        (
            CreatePostPhase::CreatingForumPost { post_id },
            CreatePostEvent::ForumPostCreated { thread_id },
        ) => (
            CreatePostPhase::FetchingStarter { post_id, thread_id },
            CreatePostAction::FetchStarter { thread_id },
        ),
        (CreatePostPhase::CreatingForumPost { post_id }, CreatePostEvent::ForumPostFailed) => create_fail(
            LfgPostCreateError::Failed,
            Some(post_id),
            None,
        ),
        (
            CreatePostPhase::FetchingStarter { post_id, thread_id },
            CreatePostEvent::StarterFetched { message_id },
        ) => (
            CreatePostPhase::Persisting { post_id, thread_id },
            CreatePostAction::Persist { post_id, thread_id, starter_message_id: message_id },
        ),
        (CreatePostPhase::Persisting { post_id, thread_id }, CreatePostEvent::Persisted) => (
            CreatePostPhase::Finished,
            CreatePostAction::Done { post_id, thread_id },
        ),
        (CreatePostPhase::Persisting { post_id, thread_id }, CreatePostEvent::PersistFailed) => create_fail(
            LfgPostCreateError::Failed,
            Some(post_id),
            Some(thread_id),
        ),
        _ => create_fail(LfgPostCreateError::Failed, None, None),
    }
}

/// One step of the creation of a post.
pub fn create_post_step(has_lane: bool, phase: CreatePostPhase, event: CreatePostEvent) -> (r: (
    CreatePostPhase,
    CreatePostAction,
))
    ensures
        r == create_post_spec(has_lane, phase, event),
{
    let fail_plain = (
        CreatePostPhase::Finished,
        CreatePostAction::Fail {
            error: LfgPostCreateError::Failed,
            delete_reservation: None,
            archive_thread: None,
        },
    );
    match (phase, event) {
        (CreatePostPhase::Start, CreatePostEvent::Begin { forum_channel_id }) => match forum_channel_id {
            Some(f) => (CreatePostPhase::Reserving, CreatePostAction::Reserve { forum_channel_id: f }),
            None => fail_plain,
        },
        (CreatePostPhase::Reserving, CreatePostEvent::Reserved { post_id }) => if has_lane {
            (
                CreatePostPhase::ReadingOccupancy { post_id },
                CreatePostAction::ReadOccupancy { post_id },
            )
        } else {
            (
                CreatePostPhase::CreatingForumPost { post_id },
                CreatePostAction::CreateForumPost { post_id },
            )
        },
        (CreatePostPhase::Reserving, CreatePostEvent::ReservationAlreadyOpen) => (
            CreatePostPhase::Finished,
            CreatePostAction::Fail {
                error: LfgPostCreateError::AlreadyOpen,
                delete_reservation: None,
                archive_thread: None,
            },
        ),
        (CreatePostPhase::Reserving, CreatePostEvent::ReservationFailed) => fail_plain,
        (CreatePostPhase::ReadingOccupancy { post_id }, CreatePostEvent::OccupancyRead) => (
            CreatePostPhase::CreatingForumPost { post_id },
            CreatePostAction::CreateForumPost { post_id },
        ),
        (
            CreatePostPhase::CreatingForumPost { post_id },
            CreatePostEvent::ForumPostCreated { thread_id },
        ) => (
            CreatePostPhase::FetchingStarter { post_id, thread_id },
            CreatePostAction::FetchStarter { thread_id },
        ),
        (CreatePostPhase::CreatingForumPost { post_id }, CreatePostEvent::ForumPostFailed) => (
            CreatePostPhase::Finished,
            CreatePostAction::Fail {
                error: LfgPostCreateError::Failed,
                delete_reservation: Some(post_id),
                archive_thread: None,
            },
        ),
        (
            CreatePostPhase::FetchingStarter { post_id, thread_id },
            CreatePostEvent::StarterFetched { message_id },
        ) => (
            CreatePostPhase::Persisting { post_id, thread_id },
            CreatePostAction::Persist { post_id, thread_id, starter_message_id: message_id },
        ),
        (CreatePostPhase::Persisting { post_id, thread_id }, CreatePostEvent::Persisted) => (
            CreatePostPhase::Finished,
            CreatePostAction::Done { post_id, thread_id },
        ),
        (CreatePostPhase::Persisting { post_id, thread_id }, CreatePostEvent::PersistFailed) => (
            CreatePostPhase::Finished,
            CreatePostAction::Fail {
                error: LfgPostCreateError::Failed,
                delete_reservation: Some(post_id),
                archive_thread: Some(thread_id),
            },
        ),
        _ => fail_plain,
    }
}

/// No reservation outlives a failed creation: once a post row is reserved,
/// every failure deletes that reservation, and a failure after the thread
/// exists also archives and locks the thread; a failure before the
/// reservation leaves nothing to clean up.
pub proof fn lemma_failed_creation_cleans_up(
    has_lane: bool,
    phase: CreatePostPhase,
    event: CreatePostEvent,
)
    ensures
        create_post_spec(has_lane, phase, event).1 matches CreatePostAction::Fail {
            delete_reservation,
            archive_thread,
            ..
        } ==> (match phase {
            CreatePostPhase::CreatingForumPost { post_id } => event == CreatePostEvent::ForumPostFailed
                ==> delete_reservation == Some(post_id) && archive_thread is None,
            CreatePostPhase::Persisting { post_id, thread_id } => event
                == CreatePostEvent::PersistFailed ==> delete_reservation == Some(post_id)
                && archive_thread == Some(thread_id),
            CreatePostPhase::Start => delete_reservation is None && archive_thread is None,
            CreatePostPhase::Reserving => delete_reservation is None && archive_thread is None,
            _ => true,
        }),
        create_post_spec(has_lane, phase, event).1 is Done ==> phase is Persisting && event
            == CreatePostEvent::Persisted,
{
}

// ── Stored posts ────────────────────────────────────────────────────────────

/// A stored post as read from its row (ids as stored, BIGINT; the last edit
/// in nanoseconds since the epoch).
#[derive(Debug, Clone, PartialEq, Eq)]
pub struct LfgPostRow {
    pub id: i64,
    pub guild_id: i64,
    pub thread_id: Option<i64>,
    pub starter_message_id: Option<i64>,
    pub lane_id: Option<i64>,
    pub owner_id: i64,
    pub mode: String,
    pub rank_min: Option<i32>,
    pub rank_max: Option<i32>,
    pub requested_slots: i32,
    pub play_window: Option<String>,
    pub status: String,
    pub last_render_hash: Option<String>,
    pub last_post_edit_at: Option<i64>,
}

/// A stored post with its ids as Discord ids and its mode and window read.
#[derive(Debug, Clone, PartialEq, Eq)]
pub struct LfgPostRecord {
    pub id: i64,
    pub guild_id: u64,
    pub thread_id: Option<u64>,
    pub starter_message_id: Option<u64>,
    pub lane_id: Option<u64>,
    pub owner_id: u64,
    pub mode: LfgMode,
    pub rank_range: LfgRankRange,
    pub requested_slots: i32,
    pub play_window: Option<LfgPlayWindow>,
    pub status: String,
    pub last_render_hash: Option<String>,
    pub last_post_edit_at: Option<i64>,
}

pub open spec fn opt_id_ok(v: Option<i64>) -> bool {
    v is None || v->0 >= 0
}

pub open spec fn opt_id(v: Option<i64>) -> Option<u64> {
    match v {
        Some(x) => Some(x as u64),
        None => None,
    }
}

fn convert_opt_id(v: Option<i64>, field: &str) -> (r: Result<Option<u64>, String>)
    ensures
        opt_id_ok(v) ==> r == Ok::<Option<u64>, String>(opt_id(v)),
        !opt_id_ok(v) ==> r is Err && r->Err_0@ == field@ + " ist keine gueltige Discord-ID"@,
{
    match v {
        None => Ok(None),
        Some(x) => match crate::lfg::db_i64_to_u64(x, field) {
            Ok(u) => Ok(Some(u)),
            Err(e) => Err(e),
        },
    }
}

/// The error for the first stored id that is no valid Discord id, in the
/// order guild, thread, starter message, lane, owner; it names the column.
pub open spec fn row_id_error(row: LfgPostRow) -> Option<Seq<char>> {
    let suffix = " ist keine gueltige Discord-ID"@;
    if row.guild_id < 0 {
        Some("lfg_posts.guild_id"@ + suffix)
    } else if !opt_id_ok(row.thread_id) {
        Some("lfg_posts.thread_id"@ + suffix)
    } else if !opt_id_ok(row.starter_message_id) {
        Some("lfg_posts.starter_message_id"@ + suffix)
    } else if !opt_id_ok(row.lane_id) {
        Some("lfg_posts.lane_id"@ + suffix)
    } else if row.owner_id < 0 {
        Some("lfg_posts.owner_id"@ + suffix)
    } else {
        None
    }
}

/// A post record from its row: an unknown mode is an error naming it; then
/// each id must be a valid Discord id (guild, thread, starter message,
/// lane, owner, in that order; the error names the column); an unknown
/// play window is dropped.
pub fn post_record_from_row(row: &LfgPostRow) -> (r: Result<LfgPostRecord, String>)
    ensures
        mode_from_spec(row.mode@) is None ==> r is Err && r->Err_0@ == "unbekannter LFG-Modus `"@
            + row.mode@ + "`"@,
        mode_from_spec(row.mode@) is Some && row_id_error(*row) is Some ==> r is Err && r->Err_0@
            == row_id_error(*row)->0,
        mode_from_spec(row.mode@) is Some && row_id_error(*row) is None ==> r is Ok && ({
            let rec = r->Ok_0;
            &&& rec.id == row.id
            &&& rec.guild_id == row.guild_id
            &&& rec.thread_id == opt_id(row.thread_id)
            &&& rec.starter_message_id == opt_id(row.starter_message_id)
            &&& rec.lane_id == opt_id(row.lane_id)
            &&& rec.owner_id == row.owner_id
            &&& rec.mode == mode_from_spec(row.mode@)->0
            &&& rec.rank_range == LfgRankRange { min: row.rank_min, max: row.rank_max }
            &&& rec.requested_slots == row.requested_slots
            &&& rec.play_window == (match row.play_window {
                Some(w) => window_from_spec(w@),
                None => None,
            })
            &&& rec.status@ == row.status@
            &&& opt_str(rec.last_render_hash) == opt_str(row.last_render_hash)
            &&& rec.last_post_edit_at == row.last_post_edit_at
        }),
{
    let mode = match LfgMode::from_str(row.mode.as_str()) {
        Some(m) => m,
        None => {
            let mut v = chars_of("unbekannter LFG-Modus `");
            append_str(&mut v, row.mode.as_str());
            append_str(&mut v, "`");
            return Err(string_of(&v));
        },
    };
    let play_window = match &row.play_window {
        Some(w) => LfgPlayWindow::from_str(w.as_str()),
        None => None,
    };
    let guild_id = crate::lfg::db_i64_to_u64(row.guild_id, "lfg_posts.guild_id")?;
    let thread_id = convert_opt_id(row.thread_id, "lfg_posts.thread_id")?;
    let starter_message_id = convert_opt_id(row.starter_message_id, "lfg_posts.starter_message_id")?;
    let lane_id = convert_opt_id(row.lane_id, "lfg_posts.lane_id")?;
    let owner_id = crate::lfg::db_i64_to_u64(row.owner_id, "lfg_posts.owner_id")?;
    Ok(
        LfgPostRecord {
            id: row.id,
            guild_id,
            thread_id,
            starter_message_id,
            lane_id,
            owner_id,
            mode,
            rank_range: LfgRankRange { min: row.rank_min, max: row.rank_max },
            requested_slots: row.requested_slots,
            play_window,
            status: owned(row.status.as_str()),
            last_render_hash: crate::lfg::clone_opt_string(&row.last_render_hash),
            last_post_edit_at: row.last_post_edit_at,
        },
    )
}

/// An edit of a post's starter message: the thread, the starter message
/// when known (else the thread's first message), the new text, its hash and
/// the forum tags.
#[derive(Debug, Clone, PartialEq, Eq)]
pub struct RenderEdit {
    pub thread_id: u64,
    pub starter_message_id: Option<u64>,
    pub body: String,
    pub hash: String,
    pub tag_ids: Vec<u64>,
}

impl LfgPostRecord {
    /// The post's text with the lane's occupancy.
    pub fn body_with(&self, occupancy: Option<LfgLaneOccupancy>) -> (r: String)
        ensures
            r@ == crate::lfg::post_body_spec(
                self.owner_id,
                self.mode,
                self.rank_range,
                self.requested_slots,
                occupancy,
                self.play_window,
            ),
    {
        crate::lfg::lfg_post_body(
            self.owner_id,
            self.mode,
            self.rank_range,
            self.requested_slots,
            occupancy,
            self.play_window,
        )
    }

    /// The post's forum tags, with or without a lane attached.
    pub fn forum_tag_ids(&self, lane_attached: bool) -> (r: Vec<u64>)
        ensures
            r@ == crate::lfg::forum_tags_spec(self.mode, self.rank_range, lane_attached),
    {
        crate::lfg::derive_lfg_forum_tag_ids(self.mode, self.rank_range, lane_attached)
    }

    /// A render is not possible: the post is not open, has no thread, or
    /// its lane is gone.
    pub open spec fn render_blocked(self, lane_occupancy: Option<LfgLaneOccupancy>) -> bool {
        self.status@ != "open"@ || self.thread_id is None || (self.lane_id is Some
            && lane_occupancy is None)
    }

    /// The rendered text; a post without lane renders without occupancy.
    pub open spec fn render_body(self, lane_occupancy: Option<LfgLaneOccupancy>) -> Seq<char> {
        crate::lfg::post_body_spec(
            self.owner_id,
            self.mode,
            self.rank_range,
            self.requested_slots,
            if self.lane_id is Some {
                lane_occupancy
            } else {
                None
            },
            self.play_window,
        )
    }

    /// An edit is due: the render is possible and its text hashes unlike
    /// the last edit.
    pub open spec fn render_due(self, lane_occupancy: Option<LfgLaneOccupancy>) -> bool {
        !self.render_blocked(lane_occupancy) && crate::lfg::render_needed_spec(
            opt_str(self.last_render_hash),
            self.render_body(lane_occupancy),
        )
    }

    /// The edit that brings an open post's starter message up to date, or
    /// `None` when there is nothing to edit: the post is not open, has no
    /// thread, its lane is gone (`lane_occupancy` is `None` for a post with
    /// a lane), or the rendered text hashes like the last edit. A post
    /// without lane renders without occupancy.
    pub fn render_edit(&self, lane_occupancy: Option<LfgLaneOccupancy>) -> (r: Option<RenderEdit>)
        ensures
            r is Some <==> self.render_due(lane_occupancy),
            r matches Some(e) ==> {
                &&& e.thread_id == self.thread_id->0
                &&& e.starter_message_id == self.starter_message_id
                &&& e.body@ == self.render_body(lane_occupancy)
                &&& e.hash@ == crate::lfg::sha256_hex(self.render_body(lane_occupancy))
                &&& e.tag_ids@ == crate::lfg::forum_tags_spec(
                    self.mode,
                    self.rank_range,
                    self.lane_id is Some,
                )
            },
    {
        if !str_eq(self.status.as_str(), "open") {
            return None;
        }
        let thread_id = match self.thread_id {
            Some(t) => t,
            None => return None,
        };
        let occupancy = match self.lane_id {
            Some(_) => match lane_occupancy {
                Some(o) => Some(o),
                None => return None,
            },
            None => None,
        };
        let body = self.body_with(occupancy);
        let last = match &self.last_render_hash {
            Some(h) => Some(h.as_str()),
            None => None,
        };
        let (hash, changed) = crate::lfg::render_change(last, body.as_str());
        if !changed {
            return None;
        }
        let tag_ids = self.forum_tag_ids(self.lane_id.is_some());
        Some(
            RenderEdit {
                thread_id,
                starter_message_id: self.starter_message_id,
                body,
                hash,
                tag_ids,
            },
        )
    }

    /// The thread of an open post that a render or a close works on; `None`
    /// for a post that is no longer open or has no thread.
    pub fn open_thread(&self) -> (r: Option<u64>)
        ensures
            r == (if self.status@ == "open"@ {
                self.thread_id
            } else {
                None
            }),
    {
        if str_eq(self.status.as_str(), "open") {
            self.thread_id
        } else {
            None
        }
    }
}

/// A post is edited once per change: when the hash of an edit is stored
/// with the post, the same post with the same lane occupancy needs no
/// further edit; once its text changes (here: another occupancy whose text
/// hashes differently), an edit is due again.
pub proof fn lemma_stored_hash_stops_repeat_edit(
    p: LfgPostRecord,
    q: LfgPostRecord,
    occupancy: Option<LfgLaneOccupancy>,
    other: Option<LfgLaneOccupancy>,
)
    requires
        q.status@ == p.status@,
        q.thread_id == p.thread_id,
        q.lane_id == p.lane_id,
        q.owner_id == p.owner_id,
        q.mode == p.mode,
        q.rank_range == p.rank_range,
        q.requested_slots == p.requested_slots,
        q.play_window == p.play_window,
        q.last_render_hash matches Some(h) && h@ == crate::lfg::sha256_hex(p.render_body(occupancy)),
    ensures
        !q.render_due(occupancy),
        !q.render_blocked(other) && crate::lfg::sha256_hex(q.render_body(other))
            != crate::lfg::sha256_hex(q.render_body(occupancy)) ==> q.render_due(other),
{
}

// ── Reconcile pass ──────────────────────────────────────────────────────────

/// A `creating` row older than this (minutes) is a stale reservation.
pub const LFG_CREATING_STALE_MINUTES: i64 = 5;

/// The status a post is closed with.
#[derive(Debug, Clone, Copy, PartialEq, Eq, Structural)]
pub enum CloseStatus {
    /// Its lane is gone.
    Closed,
    /// It has no lane and its time ran out.
    Expired,
}

impl CloseStatus {
    pub fn as_str(self) -> (r: &'static str)
        ensures
            r@ == close_status_str(self),
    {
        match self {
            CloseStatus::Closed => "closed",
            CloseStatus::Expired => "expired",
        }
    }
}

pub open spec fn close_status_str(c: CloseStatus) -> Seq<char> {
    match c {
        CloseStatus::Closed => "closed"@,
        CloseStatus::Expired => "expired"@,
    }
}

/// What the periodic reconcile pass does with a stored post.
#[derive(Debug, Clone, Copy, PartialEq, Eq, Structural)]
pub enum ReconcileVerdict {
    Keep,
    /// Delete the stale reservation row.
    DeleteStale,
    Close { status: CloseStatus },
}

/// The reconcile pass (only while the cutover is active): a `creating` row
/// older than the stale limit is deleted; an open post whose lane no longer
/// exists is closed; an open post without lane whose expiry lies in the
/// past is expired; everything else stays. Times are Unix seconds.
pub open spec fn reconcile_verdict_spec(
    cutover_active: bool,
    status: Seq<char>,
    lane_id: Option<u64>,
    lane_exists: bool,
    created_at: i64,
    expires_at: Option<i64>,
    now: i64,
) -> ReconcileVerdict {
    if !cutover_active {
        ReconcileVerdict::Keep
    } else if status == "creating"@ {
        if created_at < now - LFG_CREATING_STALE_MINUTES * 60 {
            ReconcileVerdict::DeleteStale
        } else {
            ReconcileVerdict::Keep
        }
    } else if status == "open"@ {
        match lane_id {
            Some(_) => if !lane_exists {
                ReconcileVerdict::Close { status: CloseStatus::Closed }
            } else {
                ReconcileVerdict::Keep
            },
            None => match expires_at {
                Some(e) => if e < now {
                    ReconcileVerdict::Close { status: CloseStatus::Expired }
                } else {
                    ReconcileVerdict::Keep
                },
                None => ReconcileVerdict::Keep,
            },
        }
    } else {
        ReconcileVerdict::Keep
    }
}

pub fn reconcile_verdict(
    cutover_active: bool,
    status: &str,
    lane_id: Option<u64>,
    lane_exists: bool,
    created_at: i64,
    expires_at: Option<i64>,
    now: i64,
) -> (r: ReconcileVerdict)
    ensures
        r == reconcile_verdict_spec(
            cutover_active,
            status@,
            lane_id,
            lane_exists,
            created_at,
            expires_at,
            now,
        ),
{
    if !cutover_active {
        ReconcileVerdict::Keep
    } else if str_eq(status, "creating") {
        if (created_at as i128) < (now as i128) - (LFG_CREATING_STALE_MINUTES as i128) * 60 {
            ReconcileVerdict::DeleteStale
        } else {
            ReconcileVerdict::Keep
        }
    } else if str_eq(status, "open") {
        match lane_id {
            Some(_) => if !lane_exists {
                ReconcileVerdict::Close { status: CloseStatus::Closed }
            } else {
                ReconcileVerdict::Keep
            },
            None => match expires_at {
                Some(e) => if e < now {
                    ReconcileVerdict::Close { status: CloseStatus::Expired }
                } else {
                    ReconcileVerdict::Keep
                },
                None => ReconcileVerdict::Keep,
            },
        }
    } else {
        ReconcileVerdict::Keep
    }
}

/// How an open post is closed: its thread (if any) gets the tags without
/// the active status, then is archived and locked; then the row takes the
/// close status.
pub struct ClosePlan {
    pub thread_id: Option<u64>,
    pub tags: Vec<u64>,
}

impl LfgPostRecord {
    /// The close of this post: `None` unless it is open (a closed post is
    /// never archived again).
    pub fn close_plan(&self) -> (r: Option<ClosePlan>)
        ensures
            self.status@ != "open"@ ==> r is None,
            self.status@ == "open"@ ==> (r matches Some(p) && p.thread_id == self.thread_id
                && p.tags@ == crate::lfg::forum_tags_spec(self.mode, self.rank_range, false)),
    {
        if !str_eq(self.status.as_str(), "open") {
            return None;
        }
        Some(ClosePlan { thread_id: self.thread_id, tags: self.forum_tag_ids(false) })
    }
}

/// Closing happens once: a post that was closed or expired is kept by every
/// later reconcile pass and has nothing left to close, so its thread is
/// archived at most once, whether the lane-delete path or the reconcile
/// pass closed it first.
pub proof fn lemma_closed_post_stays_closed(
    c: CloseStatus,
    cutover_active: bool,
    lane_id: Option<u64>,
    lane_exists: bool,
    created_at: i64,
    expires_at: Option<i64>,
    now: i64,
)
    ensures
        reconcile_verdict_spec(
            cutover_active,
            close_status_str(c),
            lane_id,
            lane_exists,
            created_at,
            expires_at,
            now,
        ) == ReconcileVerdict::Keep,
        close_status_str(c) != "open"@,
{
    reveal_strlit("closed");
    reveal_strlit("expired");
    reveal_strlit("open");
    reveal_strlit("creating");
    assert(close_status_str(c)[0] != "open"@[0]);
    assert(close_status_str(c)[1] != "creating"@[1]);
}

} // verus!
