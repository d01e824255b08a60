//! LFG watches: a user asks to be told when a matching post appears. Which
//! watch matches a new post, whether the moment is right to notify, and the
//! notification text.

use vstd::prelude::*;
use std::collections::HashSet;
use crate::lfg::{play_window_dm_suffix, play_window_suffix_spec, LfgRankRange};
use crate::text::{append_chars, append_str, chars_of, int_dec, push_i64, push_u64, str_eq, string_of};

verus! {

broadcast use vstd::std_specs::hash::group_hash_axioms;

/// How long a watch stays armed.
#[derive(Debug, Clone, Copy, PartialEq, Eq, Structural)]
pub enum LfgWatchWindow {
    Now3h,
    Today,
    Weekend,
    Week,
}

pub open spec fn watch_window_str(w: LfgWatchWindow) -> Seq<char> {
    match w {
        LfgWatchWindow::Now3h => "now3h"@,
        LfgWatchWindow::Today => "today"@,
        LfgWatchWindow::Weekend => "weekend"@,
        LfgWatchWindow::Week => "week"@,
    }
}

pub open spec fn watch_window_from_spec(raw: Seq<char>) -> Option<LfgWatchWindow> {
    if raw == "now3h"@ {
        Some(LfgWatchWindow::Now3h)
    } else if raw == "today"@ {
        Some(LfgWatchWindow::Today)
    } else if raw == "weekend"@ {
        Some(LfgWatchWindow::Weekend)
    } else if raw == "week"@ {
        Some(LfgWatchWindow::Week)
    } else {
        None
    }
}

impl LfgWatchWindow {
    /// The stored name of the window.
    pub fn as_str(self) -> (r: &'static str)
        ensures
            r@ == watch_window_str(self),
    {
        match self {
            LfgWatchWindow::Now3h => "now3h",
            LfgWatchWindow::Today => "today",
            LfgWatchWindow::Weekend => "weekend",
            LfgWatchWindow::Week => "week",
        }
    }

    /// The window of a stored name; `None` for any other text.
    pub fn from_str(raw: &str) -> (r: Option<LfgWatchWindow>)
        ensures
            r == watch_window_from_spec(raw@),
    {
        if str_eq(raw, "now3h") {
            Some(LfgWatchWindow::Now3h)
        } else if str_eq(raw, "today") {
            Some(LfgWatchWindow::Today)
        } else if str_eq(raw, "weekend") {
            Some(LfgWatchWindow::Weekend)
        } else if str_eq(raw, "week") {
            Some(LfgWatchWindow::Week)
        } else {
            None
        }
    }
}

/// An armed watch as stored; `expires_at` is in Unix seconds.
#[derive(Debug, Clone)]
pub struct LfgWatch {
    pub id: i64,
    pub user_id: i64,
    pub guild_id: i64,
    pub mode: String,
    pub rank_min: Option<i32>,
    pub rank_max: Option<i32>,
    pub window_kind: String,
    pub expires_at: i64,
}

pub open spec fn or_default(v: Option<i32>, d: int) -> int {
    match v {
        Some(x) => x as int,
        None => d,
    }
}

/// Whether the watch's rank range meets the post's; an open end reaches the
/// lowest (1) or highest (11) rank.
pub open spec fn rank_overlaps_spec(watch_min: Option<i32>, watch_max: Option<i32>, post: LfgRankRange) -> bool {
    or_default(watch_min, 1) <= or_default(post.max, 11) && or_default(post.min, 1) <= or_default(
        watch_max,
        11,
    )
}

pub fn rank_overlaps(watch_min: Option<i32>, watch_max: Option<i32>, post: LfgRankRange) -> (r: bool)
    ensures
        r == rank_overlaps_spec(watch_min, watch_max, post),
{
    let watch_lo = match watch_min {
        Some(v) => v,
        None => 1,
    };
    let watch_hi = match watch_max {
        Some(v) => v,
        None => 11,
    };
    let post_lo = match post.min {
        Some(v) => v,
        None => 1,
    };
    let post_hi = match post.max {
        Some(v) => v,
        None => 11,
    };
    watch_lo <= post_hi && post_lo <= watch_hi
}

pub open spec fn sum_counts(rows: Seq<(i32, i64)>) -> int
    decreases rows.len(),
{
    if rows.len() == 0 {
        0
    } else {
        sum_counts(rows.drop_last()) + rows.last().1
    }
}

/// Largest count, 0 when there are no rows.
pub open spec fn max_count(rows: Seq<(i32, i64)>) -> int
    decreases rows.len(),
{
    if rows.len() == 0 {
        0
    } else if rows.len() == 1 {
        rows[0].1 as int
    } else {
        let rest = max_count(rows.drop_last());
        if rows.last().1 > rest {
            rows.last().1 as int
        } else {
            rest
        }
    }
}

/// Count an hour needs to be typical: a third of the busiest hour, at least 3.
pub open spec fn typical_threshold(rows: Seq<(i32, i64)>) -> int {
    if max_count(rows) >= 9 {
        max_count(rows) / 3
    } else {
        3
    }
}

/// Whether hour `h` is typical: a busy hour or a neighbour of one.
pub open spec fn is_typical_hour(rows: Seq<(i32, i64)>, h: u8) -> bool {
    exists|i: int|
        0 <= i < rows.len() && #[trigger] rows[i].1 >= typical_threshold(rows) && (h == rows[i].0
            % 24 || h == (rows[i].0 % 24 + 23) % 24 || h == (rows[i].0 % 24 + 1) % 24)
}

/// The typical hours from (hour, session count) rows, `None` while there are
/// fewer than 10 sessions.
pub open spec fn typical_hours_spec(rows: Seq<(i32, i64)>) -> Option<Set<u8>> {
    if sum_counts(rows) < 10 {
        None
    } else {
        Some(Set::new(|h: u8| is_typical_hour(rows, h)))
    }
}

fn hour_of(x: i32) -> (h: u8)
    ensures
        h as int == x as int % 24,
{
    if x >= 0 {
        let m = x % 24;
        m as u8
    } else {
        let y: i32 = -(x + 1);
        let m = y % 24;
        assert(x as int % 24 == 23 - (y as int % 24)) by (nonlinear_arith)
            requires
                y == -(x + 1),
                y >= 0,
        {
            let q = y as int / 24;
            let r = y as int % 24;
            assert(y as int == 24 * q + r);
            assert(x as int == 24 * (-q - 1) + (23 - r));
        }
        (23 - m) as u8
    }
}

/// The typical active hours of a user from per-hour session counts (hours in
/// local time, counts per hour): every hour whose count reaches a third of
/// the busiest hour (at least 3), and its two neighbours. `None` with fewer
/// than 10 sessions in all.
pub fn typical_hours_from_counts(rows: &[(i32, i64)]) -> (r: Option<HashSet<u8>>)
    requires
        forall|k: int| 0 <= k <= rows@.len() ==> i64::MIN <= #[trigger] sum_counts(rows@.take(k)) <= i64::MAX,
    ensures
        match (r, typical_hours_spec(rows@)) {
            (Some(h), Some(s)) => h@ == s,
            (None, None) => true,
            _ => false,
        },
{
    let mut total: i64 = 0;
    let mut max: i64 = 0;
    let mut i: usize = 0;
    while i < rows.len()
        invariant
            i <= rows.len(),
            forall|k: int| 0 <= k <= rows@.len() ==> i64::MIN <= #[trigger] sum_counts(rows@.take(k)) <= i64::MAX,
            total == sum_counts(rows@.take(i as int)),
            max == max_count(rows@.take(i as int)),
        decreases rows.len() - i,
    {
        let ghost next = rows@.take(i + 1);
        assert(next.drop_last() == rows@.take(i as int));
        assert(next.last() == rows@[i as int]);
        assert(i64::MIN <= sum_counts(rows@.take(i + 1)) <= i64::MAX);
        let count = rows[i].1;
        total = total + count;
        if i == 0 || count > max {
            max = count;
        }
        i += 1;
    }
    assert(rows@.take(rows@.len() as int) == rows@);
    if total < 10 {
        return None;
    }
    let threshold: i64 = if max >= 9 {
        max / 3
    } else {
        3
    };
    let mut hours: HashSet<u8> = HashSet::new();
    let mut j: usize = 0;
    while j < rows.len()
        invariant
            j <= rows.len(),
            threshold == typical_threshold(rows@),
            forall|h: u8|
                hours@.contains(h) <==> exists|i: int|
                    0 <= i < j && #[trigger] rows@[i].1 >= threshold && (h == rows@[i].0 % 24 || h
                        == (rows@[i].0 % 24 + 23) % 24 || h == (rows@[i].0 % 24 + 1) % 24),
        decreases rows.len() - j,
    {
        let (hour, count) = rows[j];
        if count >= threshold {
            let h = hour_of(hour);
            hours.insert(h);
            hours.insert((h + 23) % 24);
            hours.insert((h + 1) % 24);
        }
        proof {
            assert forall|y: u8|
                hours@.contains(y) <==> exists|i: int|
                    0 <= i < j + 1 && #[trigger] rows@[i].1 >= threshold && (y == rows@[i].0 % 24
                        || y == (rows@[i].0 % 24 + 23) % 24 || y == (rows@[i].0 % 24 + 1) % 24) by {
                if y == rows@[j as int].0 % 24 || y == (rows@[j as int].0 % 24 + 23) % 24 || y == (
                rows@[j as int].0 % 24 + 1) % 24 {
                    if rows@[j as int].1 >= threshold {
                        assert(rows@[j as int].1 >= threshold);
                    }
                }
            }
        }
        j += 1;
    }
    let ghost s = Set::new(|h: u8| is_typical_hour(rows@, h));
    assert(hours@ =~= s);
    Some(hours)
}

/// Whether a matching watch should be told now: the watcher is in voice, the
/// post wants to play now, the watch window says now (within three hours,
/// today, or at the weekend on a weekend day), or the hour is one of the
/// watcher's typical hours (always, while those are unknown).
pub open spec fn timing_actionable_spec(
    now_hour_berlin: u8,
    weekday_is_weekend: bool,
    in_voice_now: bool,
    typical: Option<Set<u8>>,
    window: LfgWatchWindow,
    post_window: Option<Seq<char>>,
) -> bool {
    in_voice_now || post_window == Some("jetzt"@) || match window {
        LfgWatchWindow::Now3h | LfgWatchWindow::Today => true,
        LfgWatchWindow::Weekend => weekday_is_weekend,
        LfgWatchWindow::Week => false,
    } || match typical {
        Some(hours) => hours.contains(now_hour_berlin),
        None => true,
    }
}

pub open spec fn opt_set_view(typical: Option<HashSet<u8>>) -> Option<Set<u8>> {
    match typical {
        Some(h) => Some(h@),
        None => None,
    }
}

pub open spec fn opt_str_view(s: Option<&str>) -> Option<Seq<char>> {
    match s {
        Some(t) => Some(t@),
        None => None,
    }
}

pub fn timing_actionable(
    now_hour_berlin: u8,
    weekday_is_weekend: bool,
    in_voice_now: bool,
    typical: &Option<HashSet<u8>>,
    window: LfgWatchWindow,
    post_window: Option<&str>,
) -> (r: bool)
    ensures
        r == timing_actionable_spec(
            now_hour_berlin,
            weekday_is_weekend,
            in_voice_now,
            opt_set_view(*typical),
            window,
            opt_str_view(post_window),
        ),
{
    if in_voice_now {
        return true;
    }
    match post_window {
        Some(w) => {
            if str_eq(w, "jetzt") {
                return true;
            }
        },
        None => {},
    }
    let window_says_now = match window {
        LfgWatchWindow::Now3h | LfgWatchWindow::Today => true,
        LfgWatchWindow::Weekend => weekday_is_weekend,
        LfgWatchWindow::Week => false,
    };
    if window_says_now {
        return true;
    }
    match typical {
        Some(hours) => hours.contains(&now_hour_berlin),
        None => true,
    }
}

/// The window and user of a watch that a new post matches: the watch is of
/// this guild and mode, has not expired at `now` (Unix seconds), its rank
/// range meets the post's, its window is known and its user id valid.
pub open spec fn watch_target_spec(
    watch_guild_id: i64,
    watch_user_id: i64,
    watch_mode: Seq<char>,
    watch_min: Option<i32>,
    watch_max: Option<i32>,
    window_kind: Seq<char>,
    expires_at: i64,
    guild_id: u64,
    now: i64,
    mode: Seq<char>,
    range: LfgRankRange,
) -> Option<(LfgWatchWindow, u64)> {
    if watch_guild_id != guild_id || expires_at <= now {
        None
    } else if watch_mode != mode {
        None
    } else if !rank_overlaps_spec(watch_min, watch_max, range) {
        None
    } else {
        match watch_window_from_spec(window_kind) {
            None => None,
            Some(w) => if watch_user_id < 0 {
                None
            } else {
                Some((w, watch_user_id as u64))
            },
        }
    }
}

pub fn watch_match_target(
    watch: &LfgWatch,
    guild_id: u64,
    now: i64,
    mode: &str,
    range: LfgRankRange,
) -> (r: Option<(LfgWatchWindow, u64)>)
    ensures
        r == watch_target_spec(
            watch.guild_id,
            watch.user_id,
            watch.mode@,
            watch.rank_min,
            watch.rank_max,
            watch.window_kind@,
            watch.expires_at,
            guild_id,
            now,
            mode@,
            range,
        ),
{
    if watch.guild_id < 0 || watch.guild_id as u64 != guild_id || watch.expires_at <= now {
        return None;
    }
    if !str_eq(watch.mode.as_str(), mode) {
        return None;
    }
    if !rank_overlaps(watch.rank_min, watch.rank_max, range) {
        return None;
    }
    match LfgWatchWindow::from_str(watch.window_kind.as_str()) {
        None => None,
        Some(w) => {
            if watch.user_id < 0 {
                None
            } else {
                Some((w, watch.user_id as u64))
            }
        },
    }
}

pub open spec fn opt_suffix(post_window: Option<Seq<char>>) -> Seq<char> {
    match post_window {
        Some(w) => match play_window_suffix_spec(w) {
            Some(s) => s,
            None => Seq::empty(),
        },
        None => Seq::empty(),
    }
}

/// The one-off DM that tells a watcher about a matching post.
pub open spec fn match_dm_spec(
    mode_display: Seq<char>,
    rank_label: Seq<char>,
    post_window: Option<Seq<char>>,
    owner_id: u64,
    guild_id: u64,
    thread_id: u64,
) -> Seq<char> {
    "🔔 **Passendes Gesuch!**\n**"@ + mode_display + "** · "@ + rank_label + opt_suffix(post_window)
        + " — von <@"@ + int_dec(owner_id as int)
        + ">.\nSchau vorbei: https://discord.com/channels/"@ + int_dec(guild_id as int) + "/"@
        + int_dec(thread_id as int)
        + "\n\n_Einmalige Benachrichtigung. Für neue klick wieder auf „🔔 Benachrichtige mich\" im LFG-Panel._"@
}

pub fn watch_match_dm(
    mode_display: &str,
    rank_label: &str,
    post_window: Option<&str>,
    owner_id: u64,
    guild_id: u64,
    thread_id: u64,
) -> (r: String)
    ensures
        r@ == match_dm_spec(
            mode_display@,
            rank_label@,
            opt_str_view(post_window),
            owner_id,
            guild_id,
            thread_id,
        ),
{
    let mut v = chars_of("🔔 **Passendes Gesuch!**\n**");
    append_str(&mut v, mode_display);
    append_str(&mut v, "** · ");
    append_str(&mut v, rank_label);
    match post_window {
        Some(w) => match play_window_dm_suffix(w) {
            Some(s) => append_str(&mut v, s.as_str()),
            None => {},
        },
        None => {},
    }
    append_str(&mut v, " — von <@");
    push_u64(&mut v, owner_id);
    append_str(&mut v, ">.\nSchau vorbei: https://discord.com/channels/");
    push_u64(&mut v, guild_id);
    append_str(&mut v, "/");
    push_u64(&mut v, thread_id);
    append_str(
        &mut v,
        "\n\n_Einmalige Benachrichtigung. Für neue klick wieder auf „🔔 Benachrichtige mich\" im LFG-Panel._",
    );
    string_of(&v)
}

// ── Match run ───────────────────────────────────────────────────────────────

/// Where the match run of one armed watch against a new post stands.
#[derive(Debug, Clone, Copy, PartialEq, Eq, Structural)]
pub enum WatchRun {
    /// Target and timing are still to be checked.
    Check,
    /// The watch matched; its claim is under way.
    AwaitClaim { watcher_id: u64 },
    Finished,
}

/// What came back for a watch: the watcher of the checked target (the user
/// id of `watch_match_target`, `None` when the watch does not match) with
/// the timing verdict, or the outcome of the claim (`false` also when the
/// claim failed).
#[derive(Debug, Clone, Copy, PartialEq, Eq, Structural)]
pub enum WatchEvent {
    Checked { watcher: Option<u64>, actionable: bool },
    Claimed { won: bool },
}

#[derive(Debug, Clone, Copy, PartialEq, Eq, Structural)]
pub enum WatchAction {
    Skip,
    /// Claim the watch for the post (at most one post ever wins it).
    Claim,
    /// Send the match DM to the watcher.
    SendDm { watcher_id: u64 },
}

pub open spec fn watch_run_spec(state: WatchRun, event: WatchEvent) -> (WatchRun, WatchAction) {
    match (state, event) {
        (WatchRun::Check, WatchEvent::Checked { watcher, actionable }) => match watcher {
            Some(watcher_id) => if actionable {
                (WatchRun::AwaitClaim { watcher_id }, WatchAction::Claim)
            } else {
                (WatchRun::Finished, WatchAction::Skip)
            },
            None => (WatchRun::Finished, WatchAction::Skip),
        },
        (WatchRun::AwaitClaim { watcher_id }, WatchEvent::Claimed { won }) => if won {
            (WatchRun::Finished, WatchAction::SendDm { watcher_id })
        } else {
            (WatchRun::Finished, WatchAction::Skip)
        },
        _ => (WatchRun::Finished, WatchAction::Skip),
    }
}

/// One step of a watch's match run: a matching, well-timed watch is claimed
/// first, and only a won claim sends the DM; everything else ends the run.
pub fn watch_run_step(state: WatchRun, event: WatchEvent) -> (r: (WatchRun, WatchAction))
    ensures
        r == watch_run_spec(state, event),
{
    match (state, event) {
        (WatchRun::Check, WatchEvent::Checked { watcher, actionable }) => match watcher {
            Some(watcher_id) => if actionable {
                (WatchRun::AwaitClaim { watcher_id }, WatchAction::Claim)
            } else {
                (WatchRun::Finished, WatchAction::Skip)
            },
            None => (WatchRun::Finished, WatchAction::Skip),
        },
        (WatchRun::AwaitClaim { watcher_id }, WatchEvent::Claimed { won }) => if won {
            (WatchRun::Finished, WatchAction::SendDm { watcher_id })
        } else {
            (WatchRun::Finished, WatchAction::Skip)
        },
        _ => (WatchRun::Finished, WatchAction::Skip),
    }
}

/// A watch is claimed before it is notified, and notifies at most once: a
/// DM is sent only right after a won claim of that watcher, and the run is
/// then finished, so no further step sends another.
pub proof fn lemma_dm_only_after_won_claim(state: WatchRun, event: WatchEvent, next: WatchEvent)
    ensures
        watch_run_spec(state, event).1 matches WatchAction::SendDm { watcher_id } ==> state
            == (WatchRun::AwaitClaim { watcher_id }) && event == (WatchEvent::Claimed { won: true }),
        watch_run_spec(state, event).1 is SendDm ==> !(watch_run_spec(
            watch_run_spec(state, event).0,
            next,
        ).1 is SendDm),
        watch_run_spec(state, event).1 is Claim ==> state == WatchRun::Check,
{
}

/// Rank `r` lies in the closed range `lo..=hi`.
pub open spec fn rank_in(r: int, lo: int, hi: int) -> bool {
    lo <= r <= hi
}

/// A watch meets a post exactly when the two rank ranges (an open end
/// reaching the lowest rank 1 or the highest rank 11) share at least one
/// rank; this is stated for ranges that do not run downwards.
pub proof fn lemma_rank_overlap_shares_a_rank(
    watch_min: Option<i32>,
    watch_max: Option<i32>,
    post: LfgRankRange,
)
    requires
        or_default(watch_min, 1) <= or_default(watch_max, 11),
        or_default(post.min, 1) <= or_default(post.max, 11),
    ensures
        rank_overlaps_spec(watch_min, watch_max, post) <==> exists|r: int|
            #[trigger] rank_in(r, or_default(watch_min, 1), or_default(watch_max, 11)) && rank_in(
                r,
                or_default(post.min, 1),
                or_default(post.max, 11),
            ),
{
    let wl = or_default(watch_min, 1);
    let wh = or_default(watch_max, 11);
    let pl = or_default(post.min, 1);
    let ph = or_default(post.max, 11);
    if wl <= ph && pl <= wh {
        let r = if wl < pl {
            pl
        } else {
            wl
        };
        assert(rank_in(r, wl, wh) && rank_in(r, pl, ph));
    }
}

/// Overlap does not depend on which side is the watch and which the post.
pub proof fn lemma_rank_overlap_symmetric(a_min: Option<i32>, a_max: Option<i32>, b_min: Option<i32>, b_max: Option<i32>)
    ensures
        rank_overlaps_spec(a_min, a_max, LfgRankRange { min: b_min, max: b_max })
            == rank_overlaps_spec(b_min, b_max, LfgRankRange { min: a_min, max: a_max }),
{
}

} // verus!
