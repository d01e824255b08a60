//! What a sync of a managed lane family does on the server, written as a list
//! of channel operations, and which syncs a gateway event sets off.
//!
//! A sync reads the channels of the family's category, keeps the anchor on
//! the base name, deletes surplus empty lanes, renumbers and repositions the
//! kept lanes right after the anchor and creates missing lanes. Operations are
//! only listed where the server differs from the plan, so a sync of a settled
//! category lists nothing.

use vstd::prelude::*;
use crate::adaptive::{
    lemma_plan_lanes_accounts_for_every_lane, plan_unified_category_reorder, sort_snapshot_from_name, sort_snapshot_spec,
    unified_reorder_spec, UnifiedSortSnapshot, CASUAL_STAGING_ID, PERMANENT_CHILL_ID,
    PINNED_CHILL_END_ID, lane_index_spec, lane_name_for_index, lane_name_spec, lemma_plan_sizes, parse_lane_index,
    plan_emp, plan_fill, plan_kept, plan_lanes, desired_total_spec, plan_occ, LaneSnapshot,
    CHILL_CATEGORY_ID, DUO_ANCHOR_CHANNEL_ID, DUO_EXPAND_THRESHOLD, DUO_LANE_BASE_NAME,
    MAIN_GUILD_ID, NP_ANCHOR_CHANNEL_ID, NP_EXPAND_THRESHOLD, NP_LANE_BASE_NAME,
};
use crate::text::{
    ascii_lower, chars_of, has_prefix, is_ascii_seq, lowercase_of, starts_with_str, str_eq, trim_spec,
};

verus! {

// ── Finding channels ───────────────────────────────────────────────────────

/// `k` is the first position of `id` in `ids`.
pub open spec fn is_first_of(ids: Seq<u64>, id: u64, k: int) -> bool {
    &&& 0 <= k < ids.len()
    &&& ids[k] == id
    &&& forall|j: int| 0 <= j < k ==> ids[j] != id
}

/// First position of `id` in `ids`, `None` when it does not occur.
pub open spec fn first_index_of(ids: Seq<u64>, id: u64) -> Option<int> {
    if exists|k: int| is_first_of(ids, id, k) {
        Some(choose|k: int| is_first_of(ids, id, k))
    } else {
        None
    }
}

/// Channels (id, name, member count, position) with their names as text.
pub open spec fn channels_view(channels: Seq<(u64, String, usize, i64)>) -> Seq<(u64, Seq<char>, usize, i64)> {
    Seq::new(channels.len(), |j: int| (channels[j].0, channels[j].1@, channels[j].2, channels[j].3))
}

/// Ids of the channels (id, name, member count, position).
pub open spec fn channel_ids(channels: Seq<(u64, Seq<char>, usize, i64)>) -> Seq<u64> {
    Seq::new(channels.len(), |j: int| channels[j].0)
}

pub open spec fn snapshot_ids(snapshots: Seq<LaneSnapshot>) -> Seq<u64> {
    Seq::new(snapshots.len(), |j: int| snapshots[j].channel_id)
}

pub proof fn lemma_first_found(ids: Seq<u64>, id: u64, i: int)
    requires
        0 <= i < ids.len(),
        ids[i] == id,
        forall|j: int| 0 <= j < i ==> ids[j] != id,
    ensures
        first_index_of(ids, id) == Some(i),
{
    assert(is_first_of(ids, id, i));
    let k = choose|k: int| is_first_of(ids, id, k);
    assert(is_first_of(ids, id, k));
    if k < i {
        assert(ids[k] != id);
    } else if k > i {
        assert(ids[i] != id);
    }
}

pub proof fn lemma_first_absent(ids: Seq<u64>, id: u64)
    requires
        forall|j: int| 0 <= j < ids.len() ==> ids[j] != id,
    ensures
        first_index_of(ids, id) is None,
{
    assert forall|k: int| !is_first_of(ids, id, k) by {
        if 0 <= k < ids.len() {
            assert(ids[k] != id);
        }
    }
}

/// Position of the first channel with the id.
pub fn find_channel(channels: &[(u64, String, usize, i64)], id: u64) -> (r: Option<usize>)
    ensures
        first_index_of(channel_ids(channels_view(channels@)), id) == match r {
            Some(k) => Some(k as int),
            None => None,
        },
{
    let ghost ids = channel_ids(channels_view(channels@));
    let mut i: usize = 0;
    while i < channels.len()
        invariant
            i <= channels.len(),
            ids == channel_ids(channels_view(channels@)),
            forall|j: int| 0 <= j < i ==> ids[j] != id,
        decreases channels.len() - i,
    {
        if channels[i].0 == id {
            proof {
                lemma_first_found(ids, id, i as int);
            }
            return Some(i);
        }
        i += 1;
    }
    proof {
        lemma_first_absent(ids, id);
    }
    None
}

/// Position of the first snapshot of the channel.
fn find_snapshot(snapshots: &[LaneSnapshot], id: u64) -> (r: Option<usize>)
    ensures
        first_index_of(snapshot_ids(snapshots@), id) == match r {
            Some(k) => Some(k as int),
            None => None,
        },
{
    let ghost ids = snapshot_ids(snapshots@);
    let mut i: usize = 0;
    while i < snapshots.len()
        invariant
            i <= snapshots.len(),
            ids == snapshot_ids(snapshots@),
            forall|j: int| 0 <= j < i ==> ids[j] != id,
        decreases snapshots.len() - i,
    {
        if snapshots[i].channel_id == id {
            proof {
                lemma_first_found(ids, id, i as int);
            }
            return Some(i);
        }
        i += 1;
    }
    proof {
        lemma_first_absent(ids, id);
    }
    None
}

// ── Managed lanes of a category ────────────────────────────────────────────

/// The lanes of the family other than the anchor, in channel order, with
/// their current index and member count.
pub open spec fn managed_snapshots(
    channels: Seq<(u64, Seq<char>, usize, i64)>,
    anchor_id: u64,
    base: Seq<char>,
) -> Seq<LaneSnapshot>
    decreases channels.len(),
{
    if channels.len() == 0 {
        seq![]
    } else {
        let pre = managed_snapshots(channels.drop_last(), anchor_id, base);
        let c = channels.last();
        let index = lane_index_spec(c.0, anchor_id, base, c.1);
        if c.0 != anchor_id && index is Some {
            pre.push(LaneSnapshot { channel_id: c.0, current_index: index->0, member_count: c.2 })
        } else {
            pre
        }
    }
}

/// Snapshots of the managed lanes of a category.
pub fn managed_lane_snapshots(
    channels: &[(u64, String, usize, i64)],
    anchor_id: u64,
    base: &str,
) -> (r: Vec<LaneSnapshot>)
    ensures
        r@ == managed_snapshots(channels_view(channels@), anchor_id, base@),
        r.len() <= channels.len(),
{
    let mut out: Vec<LaneSnapshot> = Vec::new();
    let mut i: usize = 0;
    while i < channels.len()
        invariant
            i <= channels.len(),
            out@ == managed_snapshots(channels_view(channels@).take(i as int), anchor_id, base@),
            out.len() <= i,
        decreases channels.len() - i,
    {
        let ghost cv = channels_view(channels@);
        let ghost next = cv.take(i + 1);
        assert(next.drop_last() == cv.take(i as int));
        assert(next.last() == cv[i as int]);
        let c = &channels[i];
        if c.0 != anchor_id {
            match parse_lane_index(c.0, anchor_id, base, c.1.as_str()) {
                Some(index) => {
                    out.push(LaneSnapshot { channel_id: c.0, current_index: index, member_count: c.2 });
                },
                None => {},
            }
        }
        i += 1;
    }
    assert(channels_view(channels@).take(channels.len() as int) == channels_view(channels@));
    out
}

// ── Sync operations ────────────────────────────────────────────────────────

/// One channel operation of a sync. Lane names are those of
/// [`lane_name_for_index`] with the family's base name.
#[derive(Debug, Clone, Copy, PartialEq, Eq, Structural)]
pub enum SyncAction {
    /// Give the channel the name of lane `index`.
    Rename { channel_id: u64, index: usize },
    Delete { channel_id: u64 },
    SetPosition { channel_id: u64, position: i64 },
    /// Create lane `index` next to the anchor; on success move it to `position`.
    Create { index: usize, position: i64 },
}

/// Server position of lane `index`: the anchor's, shifted by the index.
pub open spec fn lane_position(anchor_position: int, index: int) -> int {
    anchor_position + index - 1
}

pub open spec fn planned_reassignments(
    anchor_member_count: nat,
    snapshots: Seq<LaneSnapshot>,
    threshold: nat,
    max_total: Option<usize>,
) -> Seq<(u64, usize)> {
    let kept = plan_kept(anchor_member_count, snapshots, threshold, max_total);
    Seq::new(kept.len(), |o: int| (kept[o].channel_id, (o + 2) as usize))
}

pub open spec fn planned_deletes(
    anchor_member_count: nat,
    snapshots: Seq<LaneSnapshot>,
    threshold: nat,
    max_total: Option<usize>,
) -> Seq<u64> {
    let emp = plan_emp(snapshots);
    let fill = plan_fill(anchor_member_count, snapshots, threshold, max_total);
    Seq::new((emp.len() - fill) as nat, |k: int| emp[fill + k].channel_id)
}

pub open spec fn planned_creates(
    anchor_member_count: nat,
    snapshots: Seq<LaneSnapshot>,
    threshold: nat,
    max_total: Option<usize>,
) -> Seq<usize> {
    let kept = plan_kept(anchor_member_count, snapshots, threshold, max_total);
    let desired = desired_total_spec(
        anchor_member_count,
        plan_occ(snapshots),
        threshold,
        max_total,
    );
    Seq::new(
        (if desired > kept.len() + 1 {
            desired - kept.len() - 1
        } else {
            0
        }) as nat,
        |k: int| (kept.len() + 2 + k) as usize,
    )
}

/// A kept lane gets renamed where its current lane name is not the planned
/// one.
pub open spec fn lane_renamed(snapshots: Seq<LaneSnapshot>, base: Seq<char>, r: (u64, usize)) -> bool {
    match first_index_of(snapshot_ids(snapshots), r.0) {
        Some(k) => lane_name_spec(base, snapshots[k].current_index as int) != lane_name_spec(
            base,
            r.1 as int,
        ),
        None => true,
    }
}

/// A kept lane gets moved where its position is not the planned one.
pub open spec fn lane_moved(
    channels: Seq<(u64, Seq<char>, usize, i64)>,
    anchor_position: int,
    r: (u64, usize),
) -> bool {
    match first_index_of(channel_ids(channels), r.0) {
        Some(k) => channels[k].3 != lane_position(anchor_position, r.1 as int),
        None => true,
    }
}

/// Operations for one kept lane: a rename where its current lane name is not
/// the planned one, a move where its position is not the planned one.
pub open spec fn reassign_actions(
    channels: Seq<(u64, Seq<char>, usize, i64)>,
    snapshots: Seq<LaneSnapshot>,
    base: Seq<char>,
    anchor_position: int,
    r: (u64, usize),
) -> Seq<SyncAction> {
    (if lane_renamed(snapshots, base, r) {
        seq![SyncAction::Rename { channel_id: r.0, index: r.1 }]
    } else {
        Seq::empty()
    }) + (if lane_moved(channels, anchor_position, r) {
        seq![
            SyncAction::SetPosition {
                channel_id: r.0,
                position: lane_position(anchor_position, r.1 as int) as i64,
            },
        ]
    } else {
        Seq::empty()
    })
}

pub open spec fn all_reassign_actions(
    channels: Seq<(u64, Seq<char>, usize, i64)>,
    snapshots: Seq<LaneSnapshot>,
    base: Seq<char>,
    anchor_position: int,
    rs: Seq<(u64, usize)>,
) -> Seq<SyncAction>
    decreases rs.len(),
{
    if rs.len() == 0 {
        Seq::empty()
    } else {
        all_reassign_actions(channels, snapshots, base, anchor_position, rs.drop_last())
            + reassign_actions(channels, snapshots, base, anchor_position, rs.last())
    }
}

/// The operations of a sync, in order: anchor rename, deletions, renames and
/// moves of the kept lanes, creations. `None` when the anchor is missing.
pub open spec fn sync_actions_spec(
    channels: Seq<(u64, Seq<char>, usize, i64)>,
    anchor_id: u64,
    base: Seq<char>,
    threshold: nat,
    max_total: Option<usize>,
) -> Option<Seq<SyncAction>> {
    match first_index_of(channel_ids(channels), anchor_id) {
        None => None,
        Some(a) => {
            let anchor = channels[a];
            let snaps = managed_snapshots(channels, anchor_id, base);
            let count = anchor.2 as nat;
            let deletes = planned_deletes(count, snaps, threshold, max_total);
            let creates = planned_creates(count, snaps, threshold, max_total);
            Some(
                (if anchor.1 != base {
                    seq![SyncAction::Rename { channel_id: anchor_id, index: 1 }]
                } else {
                    Seq::empty()
                }) + Seq::new(deletes.len(), |k: int| SyncAction::Delete { channel_id: deletes[k] })
                    + all_reassign_actions(
                    channels,
                    snaps,
                    base,
                    anchor.3 as int,
                    planned_reassignments(count, snaps, threshold, max_total),
                ) + Seq::new(
                    creates.len(),
                    |k: int|
                        SyncAction::Create {
                            index: creates[k],
                            position: lane_position(anchor.3 as int, creates[k] as int) as i64,
                        },
                ),
            )
        },
    }
}

/// Operations that bring a managed lane family in line with its plan
/// ([`plan_lanes`] over the anchor's member count and the managed lanes).
/// `None` when the category holds no anchor.
pub fn sync_actions(
    channels: &[(u64, String, usize, i64)],
    anchor_id: u64,
    base: &str,
    expand_threshold: usize,
    max_total: Option<usize>,
) -> (r: Option<Vec<SyncAction>>)
    requires
        channels.len() <= usize::MAX - 4,
        forall|j: int|
            0 <= j < channels.len() && (#[trigger] channels[j]).0 == anchor_id ==> channels[j].3
                + channels.len() + 2 <= i64::MAX,
    ensures
        sync_actions_spec(channels_view(channels@), anchor_id, base@, expand_threshold as nat, max_total)
            == match r {
            Some(v) => Some(v@),
            None => None,
        },
{
    let a = match find_channel(channels, anchor_id) {
        None => return None,
        Some(a) => a,
    };
    let anchor_count = channels[a].2;
    let anchor_position = channels[a].3;
    assert(channel_ids(channels_view(channels@))[a as int] == anchor_id);
    assert(channels@[a as int].0 == anchor_id);
    let ghost apos = anchor_position as int;
    let mut actions: Vec<SyncAction> = Vec::new();
    if !str_eq(channels[a].1.as_str(), base) {
        actions.push(SyncAction::Rename { channel_id: anchor_id, index: 1 });
    }
    let ghost head = actions@;
    let snaps = managed_lane_snapshots(channels, anchor_id, base);
    let plan = plan_lanes(anchor_count, &snaps, expand_threshold, max_total);
    let ghost count = anchor_count as nat;
    let ghost thr = expand_threshold as nat;
    proof {
        lemma_plan_sizes(count, snaps@, thr, max_total);
        assert(plan.reassignments@ =~= planned_reassignments(count, snaps@, thr, max_total));
        assert(plan.delete_ids@ =~= planned_deletes(count, snaps@, thr, max_total));
        assert(plan.create_indices@ =~= planned_creates(count, snaps@, thr, max_total));
    }
    let ghost deletes = planned_deletes(count, snaps@, thr, max_total);
    let mut k: usize = 0;
    while k < plan.delete_ids.len()
        invariant
            k <= plan.delete_ids.len(),
            plan.delete_ids@ == deletes,
            actions@ == head + Seq::new(
                k as nat,
                |m: int| SyncAction::Delete { channel_id: deletes[m] },
            ),
        decreases plan.delete_ids.len() - k,
    {
        actions.push(SyncAction::Delete { channel_id: plan.delete_ids[k] });
        assert(actions@ =~= head + Seq::new(
            (k + 1) as nat,
            |m: int| SyncAction::Delete { channel_id: deletes[m] },
        ));
        k += 1;
    }
    let ghost mid = actions@;
    let ghost rs = planned_reassignments(count, snaps@, thr, max_total);
    let mut i: usize = 0;
    while i < plan.reassignments.len()
        invariant
            i <= plan.reassignments.len(),
            plan.reassignments@ == rs,
            rs.len() <= snaps.len() <= channels.len(),
            forall|o: int| 0 <= o < rs.len() ==> (#[trigger] rs[o]).1 == o + 2,
            anchor_position + channels.len() + 2 <= i64::MAX,
            apos == anchor_position,
            actions@ == mid + all_reassign_actions(channels_view(channels@), snaps@, base@, apos, rs.take(i as int)),
        decreases plan.reassignments.len() - i,
    {
        let ghost next = rs.take(i + 1);
        assert(next.drop_last() == rs.take(i as int));
        assert(next.last() == rs[i as int]);
        let (cid, index) = plan.reassignments[i];
        assert(index == i + 2);
        let renamed = match find_snapshot(&snaps, cid) {
            Some(s) => {
                let current = lane_name_for_index(base, snaps[s].current_index);
                let desired = lane_name_for_index(base, index);
                !str_eq(current.as_str(), desired.as_str())
            },
            None => true,
        };
        let position = (anchor_position as i128 + index as i128 - 1) as i64;
        let moved = match find_channel(channels, cid) {
            Some(c) => channels[c].3 != position,
            None => true,
        };
        let ghost before = actions@;
        if renamed {
            actions.push(SyncAction::Rename { channel_id: cid, index });
        }
        if moved {
            actions.push(SyncAction::SetPosition { channel_id: cid, position });
        }
        assert(actions@ =~= before + reassign_actions(channels_view(channels@), snaps@, base@, apos, (cid, index)));
        i += 1;
    }
    assert(rs.take(rs.len() as int) == rs);
    let ghost tail = actions@;
    let ghost creates = planned_creates(count, snaps@, thr, max_total);
    let mut c: usize = 0;
    while c < plan.create_indices.len()
        invariant
            c <= plan.create_indices.len(),
            plan.create_indices@ == creates,
            forall|m: int| 0 <= m < creates.len() ==> 2 <= #[trigger] creates[m] <= channels.len() + 2,
            anchor_position + channels.len() + 2 <= i64::MAX,
            apos == anchor_position,
            actions@ == tail + Seq::new(
                c as nat,
                |m: int|
                    SyncAction::Create {
                        index: creates[m],
                        position: lane_position(apos, creates[m] as int) as i64,
                    },
            ),
        decreases plan.create_indices.len() - c,
    {
        let index = plan.create_indices[c];
        let position = (anchor_position as i128 + index as i128 - 1) as i64;
        actions.push(SyncAction::Create { index, position });
        assert(actions@ =~= tail + Seq::new(
            (c + 1) as nat,
            |m: int|
                SyncAction::Create {
                    index: creates[m],
                    position: lane_position(apos, creates[m] as int) as i64,
                },
        ));
        c += 1;
    }
    Some(actions)
}

// ── What a sync never does ─────────────────────────────────────────────────

proof fn lemma_snapshot_from_channel(
    channels: Seq<(u64, Seq<char>, usize, i64)>,
    anchor_id: u64,
    base: Seq<char>,
    x: LaneSnapshot,
)
    requires
        managed_snapshots(channels, anchor_id, base).contains(x),
    ensures
        exists|j: int|
            0 <= j < channels.len() && (#[trigger] channels[j]).0 == x.channel_id && x.channel_id
                != anchor_id && channels[j].2 == x.member_count && lane_index_spec(
                channels[j].0,
                anchor_id,
                base,
                channels[j].1,
            ) == Some(x.current_index),
    decreases channels.len(),
{
    let pre = channels.drop_last();
    let snaps = managed_snapshots(channels, anchor_id, base);
    let pre_snaps = managed_snapshots(pre, anchor_id, base);
    let c = channels.last();
    let k = choose|k: int| 0 <= k < snaps.len() && snaps[k] == x;
    let index = lane_index_spec(c.0, anchor_id, base, c.1);
    if c.0 != anchor_id && index is Some && k == snaps.len() - 1 {
        assert(channels[channels.len() - 1] == c);
    } else {
        assert(pre_snaps[k] == x);
        lemma_snapshot_from_channel(pre, anchor_id, base, x);
        let j = choose|j: int|
            0 <= j < pre.len() && (#[trigger] pre[j]).0 == x.channel_id && x.channel_id
                != anchor_id && pre[j].2 == x.member_count && lane_index_spec(
                pre[j].0,
                anchor_id,
                base,
                pre[j].1,
            ) == Some(x.current_index);
        assert(channels[j] == pre[j]);
    }
}

proof fn lemma_reassign_actions_delete_nothing(
    channels: Seq<(u64, Seq<char>, usize, i64)>,
    snapshots: Seq<LaneSnapshot>,
    base: Seq<char>,
    anchor_position: int,
    rs: Seq<(u64, usize)>,
)
    ensures
        forall|k: int|
            0 <= k < all_reassign_actions(channels, snapshots, base, anchor_position, rs).len()
                ==> !(#[trigger] all_reassign_actions(
                channels,
                snapshots,
                base,
                anchor_position,
                rs,
            )[k] is Delete),
    decreases rs.len(),
{
    if rs.len() > 0 {
        lemma_reassign_actions_delete_nothing(
            channels,
            snapshots,
            base,
            anchor_position,
            rs.drop_last(),
        );
        let pre = all_reassign_actions(channels, snapshots, base, anchor_position, rs.drop_last());
        let last = reassign_actions(channels, snapshots, base, anchor_position, rs.last());
        let all = all_reassign_actions(channels, snapshots, base, anchor_position, rs);
        assert(all == pre + last);
        assert forall|k: int| 0 <= k < all.len() implies !(#[trigger] all[k] is Delete) by {
            if k < pre.len() {
                assert(all[k] == pre[k]);
            } else {
                assert(all[k] == last[k - pre.len()]);
            }
        }
    }
}

/// A sync deletes only empty lanes of the family: every channel it deletes
/// is a channel of the category other than the anchor, named like a lane of
/// the family, with nobody in it. Nobody is ever dropped out of a lane.
pub proof fn lemma_sync_deletes_only_empty_lanes(
    channels: Seq<(u64, Seq<char>, usize, i64)>,
    anchor_id: u64,
    base: Seq<char>,
    threshold: nat,
    max_total: Option<usize>,
)
    ensures
        sync_actions_spec(channels, anchor_id, base, threshold, max_total) matches Some(acts)
            ==> forall|k: int|
            0 <= k < acts.len() ==> (#[trigger] acts[k] matches SyncAction::Delete { channel_id }
                ==> exists|j: int|
                0 <= j < channels.len() && (#[trigger] channels[j]).0 == channel_id && channel_id
                    != anchor_id && channels[j].2 == 0 && lane_index_spec(
                    channel_id,
                    anchor_id,
                    base,
                    channels[j].1,
                ) is Some),
{
    broadcast use vstd::seq_lib::group_to_multiset_ensures;

    match first_index_of(channel_ids(channels), anchor_id) {
        None => {},
        Some(a) => {
            let anchor = channels[a];
            let snaps = managed_snapshots(channels, anchor_id, base);
            let count = anchor.2 as nat;
            let deletes = planned_deletes(count, snaps, threshold, max_total);
            let creates = planned_creates(count, snaps, threshold, max_total);
            let head: Seq<SyncAction> = if anchor.1 != base {
                seq![SyncAction::Rename { channel_id: anchor_id, index: 1 }]
            } else {
                Seq::empty()
            };
            let dels = Seq::new(
                deletes.len(),
                |k: int| SyncAction::Delete { channel_id: deletes[k] },
            );
            let re = all_reassign_actions(
                channels,
                snaps,
                base,
                anchor.3 as int,
                planned_reassignments(count, snaps, threshold, max_total),
            );
            let cr = Seq::new(
                creates.len(),
                |k: int|
                    SyncAction::Create {
                        index: creates[k],
                        position: lane_position(anchor.3 as int, creates[k] as int) as i64,
                    },
            );
            let acts = sync_actions_spec(channels, anchor_id, base, threshold, max_total)->0;
            assert(acts == head + dels + re + cr);
            lemma_reassign_actions_delete_nothing(
                channels,
                snaps,
                base,
                anchor.3 as int,
                planned_reassignments(count, snaps, threshold, max_total),
            );
            lemma_plan_lanes_accounts_for_every_lane(count, snaps, threshold, max_total);
            let emp = plan_emp(snaps);
            let fill = plan_fill(count, snaps, threshold, max_total);
            let kept = plan_kept(count, snaps, threshold, max_total);
            let deleted = emp.skip(fill);
            assert forall|k: int| 0 <= k < acts.len() implies (#[trigger] acts[k] matches SyncAction::Delete { channel_id }
                ==> exists|j: int|
                0 <= j < channels.len() && (#[trigger] channels[j]).0 == channel_id && channel_id
                    != anchor_id && channels[j].2 == 0 && lane_index_spec(
                    channel_id,
                    anchor_id,
                    base,
                    channels[j].1,
                ) is Some) by {
                let h = head.len() as int;
                let d = dels.len() as int;
                let e = re.len() as int;
                if k < h {
                    assert(acts[k] == head[k]);
                } else if k < h + d {
                    let m = k - h;
                    assert(acts[k] == dels[m]);
                    let x = deleted[m];
                    assert(deletes[m] == x.channel_id);
                    assert(x.member_count == 0);
                    assert(deleted.to_multiset().count(x) > 0);
                    assert(kept.to_multiset().add(deleted.to_multiset()).count(x) > 0);
                    assert(snaps.to_multiset().count(x) > 0);
                    assert(snaps.contains(x));
                    lemma_snapshot_from_channel(channels, anchor_id, base, x);
                } else if k < h + d + e {
                    assert(acts[k] == re[k - h - d]);
                } else {
                    assert(acts[k] == cr[k - h - d - e]);
                }
            }
        },
    }
}

/// The channel an operation works on; `None` for a creation.
pub open spec fn action_channel(a: SyncAction) -> Option<u64> {
    match a {
        SyncAction::Rename { channel_id, .. } => Some(channel_id),
        SyncAction::Delete { channel_id } => Some(channel_id),
        SyncAction::SetPosition { channel_id, .. } => Some(channel_id),
        SyncAction::Create { .. } => None,
    }
}

proof fn lemma_reassign_actions_channels(
    channels: Seq<(u64, Seq<char>, usize, i64)>,
    snapshots: Seq<LaneSnapshot>,
    base: Seq<char>,
    anchor_position: int,
    rs: Seq<(u64, usize)>,
)
    ensures
        forall|k: int|
            0 <= k < all_reassign_actions(channels, snapshots, base, anchor_position, rs).len()
                ==> (action_channel(
                #[trigger] all_reassign_actions(channels, snapshots, base, anchor_position, rs)[k],
            ) matches Some(id) ==> exists|o: int| 0 <= o < rs.len() && rs[o].0 == id),
    decreases rs.len(),
{
    if rs.len() > 0 {
        lemma_reassign_actions_channels(channels, snapshots, base, anchor_position, rs.drop_last());
        let pre = all_reassign_actions(channels, snapshots, base, anchor_position, rs.drop_last());
        let last = reassign_actions(channels, snapshots, base, anchor_position, rs.last());
        let all = all_reassign_actions(channels, snapshots, base, anchor_position, rs);
        assert(all == pre + last);
        assert forall|k: int| 0 <= k < all.len() implies (action_channel(#[trigger] all[k]) matches Some(
            id,
        ) ==> exists|o: int| 0 <= o < rs.len() && rs[o].0 == id) by {
            if k < pre.len() {
                assert(all[k] == pre[k]);
                let ac = action_channel(pre[k]);
                if ac is Some {
                    let id = ac->0;
                    let o = choose|o: int| 0 <= o < rs.drop_last().len() && rs.drop_last()[o].0 == id;
                    assert(rs[o] == rs.drop_last()[o]);
                }
            } else {
                assert(all[k] == last[k - pre.len()]);
                assert(rs[rs.len() - 1] == rs.last());
            }
        }
    }
}

/// A sync works only on its family: every channel it renames, moves or
/// deletes is the anchor or a channel of the category named like a lane of
/// the family. Other channels of the category are never touched.
pub proof fn lemma_sync_touches_only_its_family(
    channels: Seq<(u64, Seq<char>, usize, i64)>,
    anchor_id: u64,
    base: Seq<char>,
    threshold: nat,
    max_total: Option<usize>,
)
    ensures
        sync_actions_spec(channels, anchor_id, base, threshold, max_total) matches Some(acts)
            ==> forall|k: int|
            0 <= k < acts.len() ==> (action_channel(#[trigger] acts[k]) matches Some(id) ==> id
                == anchor_id || exists|j: int|
                0 <= j < channels.len() && (#[trigger] channels[j]).0 == id && lane_index_spec(
                    id,
                    anchor_id,
                    base,
                    channels[j].1,
                ) is Some),
{
    broadcast use vstd::seq_lib::group_to_multiset_ensures;

    lemma_sync_deletes_only_empty_lanes(channels, anchor_id, base, threshold, max_total);
    match first_index_of(channel_ids(channels), anchor_id) {
        None => {},
        Some(a) => {
            let anchor = channels[a];
            let snaps = managed_snapshots(channels, anchor_id, base);
            let count = anchor.2 as nat;
            let deletes = planned_deletes(count, snaps, threshold, max_total);
            let creates = planned_creates(count, snaps, threshold, max_total);
            let rs = planned_reassignments(count, snaps, threshold, max_total);
            let head: Seq<SyncAction> = if anchor.1 != base {
                seq![SyncAction::Rename { channel_id: anchor_id, index: 1 }]
            } else {
                Seq::empty()
            };
            let dels = Seq::new(
                deletes.len(),
                |k: int| SyncAction::Delete { channel_id: deletes[k] },
            );
            let re = all_reassign_actions(channels, snaps, base, anchor.3 as int, rs);
            let cr = Seq::new(
                creates.len(),
                |k: int|
                    SyncAction::Create {
                        index: creates[k],
                        position: lane_position(anchor.3 as int, creates[k] as int) as i64,
                    },
            );
            let acts = sync_actions_spec(channels, anchor_id, base, threshold, max_total)->0;
            assert(acts == head + dels + re + cr);
            lemma_reassign_actions_channels(channels, snaps, base, anchor.3 as int, rs);
            lemma_plan_lanes_accounts_for_every_lane(count, snaps, threshold, max_total);
            let emp = plan_emp(snaps);
            let fill = plan_fill(count, snaps, threshold, max_total);
            let kept = plan_kept(count, snaps, threshold, max_total);
            let deleted = emp.skip(fill);
            assert forall|k: int| 0 <= k < acts.len() implies (action_channel(#[trigger] acts[k]) matches Some(
                id,
            ) ==> id == anchor_id || exists|j: int|
                0 <= j < channels.len() && (#[trigger] channels[j]).0 == id && lane_index_spec(
                    id,
                    anchor_id,
                    base,
                    channels[j].1,
                ) is Some) by {
                let h = head.len() as int;
                let d = dels.len() as int;
                let e = re.len() as int;
                if k < h {
                    assert(acts[k] == head[k]);
                } else if k < h + d {
                    assert(acts[k] == dels[k - h]);
                    assert(acts[k] is Delete);
                } else if k < h + d + e {
                    assert(acts[k] == re[k - h - d]);
                    let ac = action_channel(acts[k]);
                    if ac is Some {
                        let id = ac->0;
                        let o = choose|o: int| 0 <= o < rs.len() && rs[o].0 == id;
                        let x = kept[o];
                        assert(rs[o].0 == x.channel_id);
                        assert(kept.to_multiset().count(x) > 0);
                        assert(kept.to_multiset().add(deleted.to_multiset()).count(x) > 0);
                        assert(snaps.contains(x));
                        lemma_snapshot_from_channel(channels, anchor_id, base, x);
                    }
                } else {
                    assert(acts[k] == cr[k - h - d - e]);
                }
            }
        },
    }
}

// ── Ordering of the chill category ─────────────────────────────────────────

/// Chill-category channels that take part in the rank ordering: not the
/// pinned channels, not the anchors and not a new-player lane.
pub open spec fn chill_sort_candidate(c: (u64, String, usize, i64)) -> bool {
    &&& c.0 != CASUAL_STAGING_ID
    &&& c.0 != PERMANENT_CHILL_ID
    &&& c.0 != PINNED_CHILL_END_ID
    &&& c.0 != NP_ANCHOR_CHANNEL_ID
    &&& c.0 != DUO_ANCHOR_CHANNEL_ID
    &&& !has_prefix(c.1@, NP_LANE_BASE_NAME@)
}

/// Sort entries of the candidates whose name falls in a block, names
/// trimmed and lowercased by `lower`; the input order is the channel's place
/// in the category listing.
pub open spec fn chill_entries_by(
    channels: Seq<(u64, String, usize, i64)>,
    lower: spec_fn(Seq<char>) -> Seq<char>,
) -> Seq<UnifiedSortSnapshot>
    decreases channels.len(),
{
    if channels.len() == 0 {
        seq![]
    } else {
        let pre = chill_entries_by(channels.drop_last(), lower);
        let c = channels.last();
        if chill_sort_candidate(c) {
            match sort_snapshot_spec(c.0, lower(trim_spec(c.1@)), c.3, (channels.len() - 1) as usize) {
                Some(e) => pre.push(e),
                None => pre,
            }
        } else {
            pre
        }
    }
}

/// Sort entries with the Unicode lowercase mapping (`str::to_lowercase`).
pub open spec fn chill_sort_entries_spec(channels: Seq<(u64, String, usize, i64)>) -> Seq<
    UnifiedSortSnapshot,
> {
    chill_entries_by(channels, |s: Seq<char>| lowercase_of(s))
}

/// Sort entries of channels with ASCII names, lowercased by ASCII rules.
pub open spec fn chill_sort_entries_ascii_spec(channels: Seq<(u64, String, usize, i64)>) -> Seq<
    UnifiedSortSnapshot,
> {
    chill_entries_by(channels, |s: Seq<char>| ascii_lower(s))
}

/// Every channel name is ASCII.
pub open spec fn ascii_names(channels: Seq<(u64, String, usize, i64)>) -> bool {
    forall|i: int| 0 <= i < channels.len() ==> is_ascii_seq(#[trigger] channels[i].1@)
}

/// Sort entries of the chill category's channels (id, name, member count,
/// position).
pub fn chill_sort_entries(channels: &[(u64, String, usize, i64)]) -> (r: Vec<UnifiedSortSnapshot>)
    ensures
        r@ == chill_sort_entries_spec(channels@),
        ascii_names(channels@) ==> r@ == chill_sort_entries_ascii_spec(channels@),
{
    let mut out: Vec<UnifiedSortSnapshot> = Vec::new();
    let mut i: usize = 0;
    while i < channels.len()
        invariant
            i <= channels.len(),
            out@ == chill_sort_entries_spec(channels@.take(i as int)),
            ascii_names(channels@) ==> out@ == chill_sort_entries_ascii_spec(channels@.take(i as int)),
        decreases channels.len() - i,
    {
        let ghost next = channels@.take(i + 1);
        assert(next.drop_last() == channels@.take(i as int));
        assert(next.last() == channels@[i as int]);
        let c = &channels[i];
        let name = chars_of(c.1.as_str());
        let candidate = c.0 != CASUAL_STAGING_ID && c.0 != PERMANENT_CHILL_ID && c.0
            != PINNED_CHILL_END_ID && c.0 != NP_ANCHOR_CHANNEL_ID && c.0 != DUO_ANCHOR_CHANNEL_ID
            && !starts_with_str(&name, NP_LANE_BASE_NAME);
        if candidate {
            match sort_snapshot_from_name(c.0, c.1.as_str(), c.3, i) {
                Some(e) => out.push(e),
                None => {},
            }
        }
        i += 1;
    }
    assert(channels@.take(channels.len() as int) == channels@);
    out
}

/// New positions for the chill category (only lanes that move are listed).
pub fn chill_sort_plan(channels: &[(u64, String, usize, i64)]) -> (r: Vec<(u64, i64)>)
    ensures
        r@ == unified_reorder_spec(chill_sort_entries_spec(channels@)),
        ascii_names(channels@) ==> r@ == unified_reorder_spec(chill_sort_entries_ascii_spec(channels@)),
{
    let entries = chill_sort_entries(channels);
    plan_unified_category_reorder(&entries)
}

// ── Which syncs an event sets off ──────────────────────────────────────────

/// A sync of the adaptive lanes.
#[derive(Debug, Clone, Copy, PartialEq, Eq, Structural)]
pub enum SyncJob {
    NewPlayer,
    Duo,
    SortChill,
    SortCompRanked,
}

/// Gateway events the adaptive lanes listen to.
#[derive(Debug, Clone, Copy, PartialEq, Eq, Structural)]
pub enum LaneEvent {
    VoiceCategoryChanged { guild_id: u64 },
    VoiceChannelUpdated { guild_id: u64 },
    VoiceChannelStatusUpdated,
    VoiceJoin { guild_id: u64, channel_id: u64 },
    VoiceLeave { guild_id: u64, channel_id: u64 },
    VoiceMove { guild_id: u64, from_channel_id: u64, to_channel_id: u64 },
    VoiceUpdate,
}

/// Syncs after a voice join, leave or move: the duo family only when the duo
/// anchor is involved.
pub open spec fn voice_jobs(touches_duo: bool) -> Seq<SyncJob> {
    (if touches_duo {
        seq![SyncJob::Duo]
    } else {
        seq![]
    }) + seq![SyncJob::NewPlayer, SyncJob::SortChill, SyncJob::SortCompRanked]
}

pub open spec fn event_jobs_spec(e: LaneEvent) -> Option<(u64, Seq<SyncJob>)> {
    match e {
        LaneEvent::VoiceCategoryChanged { guild_id } => Some(
            (
                guild_id,
                seq![SyncJob::NewPlayer, SyncJob::Duo, SyncJob::SortChill, SyncJob::SortCompRanked],
            ),
        ),
        LaneEvent::VoiceChannelUpdated { guild_id } => Some(
            (guild_id, seq![SyncJob::SortChill, SyncJob::SortCompRanked]),
        ),
        LaneEvent::VoiceJoin { guild_id, channel_id } => Some(
            (guild_id, voice_jobs(channel_id == DUO_ANCHOR_CHANNEL_ID)),
        ),
        LaneEvent::VoiceLeave { guild_id, channel_id } => Some(
            (guild_id, voice_jobs(channel_id == DUO_ANCHOR_CHANNEL_ID)),
        ),
        LaneEvent::VoiceMove { guild_id, from_channel_id, to_channel_id } => Some(
            (
                guild_id,
                voice_jobs(
                    from_channel_id == DUO_ANCHOR_CHANNEL_ID || to_channel_id
                        == DUO_ANCHOR_CHANNEL_ID,
                ),
            ),
        ),
        LaneEvent::VoiceChannelStatusUpdated => None,
        LaneEvent::VoiceUpdate => None,
    }
}

fn voice_jobs_exec(touches_duo: bool) -> (r: Vec<SyncJob>)
    ensures
        r@ == voice_jobs(touches_duo),
{
    let mut v: Vec<SyncJob> = Vec::new();
    if touches_duo {
        v.push(SyncJob::Duo);
    }
    v.push(SyncJob::NewPlayer);
    v.push(SyncJob::SortChill);
    v.push(SyncJob::SortCompRanked);
    assert(v@ =~= voice_jobs(touches_duo));
    v
}

/// Guild and syncs, in order, that an event sets off; `None` for events that
/// change nothing the lanes depend on.
pub fn event_jobs(e: LaneEvent) -> (r: Option<(u64, Vec<SyncJob>)>)
    ensures
        event_jobs_spec(e) == match r {
            Some((g, v)) => Some((g, v@)),
            None => None,
        },
{
    match e {
        LaneEvent::VoiceCategoryChanged { guild_id } => {
            let v = vec![SyncJob::NewPlayer, SyncJob::Duo, SyncJob::SortChill, SyncJob::SortCompRanked];
            assert(v@ =~= seq![SyncJob::NewPlayer, SyncJob::Duo, SyncJob::SortChill, SyncJob::SortCompRanked]);
            Some((guild_id, v))
        },
        LaneEvent::VoiceChannelUpdated { guild_id } => {
            let v = vec![SyncJob::SortChill, SyncJob::SortCompRanked];
            assert(v@ =~= seq![SyncJob::SortChill, SyncJob::SortCompRanked]);
            Some((guild_id, v))
        },
        LaneEvent::VoiceJoin { guild_id, channel_id } => Some(
            (guild_id, voice_jobs_exec(channel_id == DUO_ANCHOR_CHANNEL_ID)),
        ),
        LaneEvent::VoiceLeave { guild_id, channel_id } => Some(
            (guild_id, voice_jobs_exec(channel_id == DUO_ANCHOR_CHANNEL_ID)),
        ),
        LaneEvent::VoiceMove { guild_id, from_channel_id, to_channel_id } => Some(
            (
                guild_id,
                voice_jobs_exec(
                    from_channel_id == DUO_ANCHOR_CHANNEL_ID || to_channel_id
                        == DUO_ANCHOR_CHANNEL_ID,
                ),
            ),
        ),
        LaneEvent::VoiceChannelStatusUpdated => None,
        LaneEvent::VoiceUpdate => None,
    }
}

/// Syncs once the guild cache is ready: every family and ordering of the
/// main guild.
pub fn startup_jobs() -> (r: (u64, Vec<SyncJob>))
    ensures
        r.0 == MAIN_GUILD_ID,
        r.1@ == seq![SyncJob::NewPlayer, SyncJob::Duo, SyncJob::SortChill, SyncJob::SortCompRanked],
{
    let v = vec![SyncJob::NewPlayer, SyncJob::Duo, SyncJob::SortChill, SyncJob::SortCompRanked];
    assert(v@ =~= seq![SyncJob::NewPlayer, SyncJob::Duo, SyncJob::SortChill, SyncJob::SortCompRanked]);
    (MAIN_GUILD_ID, v)
}

/// Where a family sync works: category, anchor, base name, growth threshold
/// and cap on the total.
#[derive(Debug, Clone, Copy, PartialEq, Eq)]
pub struct LaneFamily {
    pub category_id: u64,
    pub anchor_id: u64,
    pub base: &'static str,
    pub expand_threshold: usize,
    pub max_total: Option<usize>,
}

/// The lane family a sync job works on; `None` for the orderings. The duo
/// anchor sits in the chill category and has at most one extra lane.
pub fn lane_family(job: SyncJob) -> (r: Option<LaneFamily>)
    ensures
        job == SyncJob::NewPlayer ==> (r matches Some(f) && f.category_id == CHILL_CATEGORY_ID
            && f.anchor_id == NP_ANCHOR_CHANNEL_ID && f.base@ == NP_LANE_BASE_NAME@
            && f.expand_threshold == NP_EXPAND_THRESHOLD && f.max_total is None),
        job == SyncJob::Duo ==> (r matches Some(f) && f.category_id == CHILL_CATEGORY_ID
            && f.anchor_id == DUO_ANCHOR_CHANNEL_ID && f.base@ == DUO_LANE_BASE_NAME@
            && f.expand_threshold == DUO_EXPAND_THRESHOLD && f.max_total == Some(2usize)),
        (job == SyncJob::SortChill || job == SyncJob::SortCompRanked) ==> r is None,
{
    match job {
        SyncJob::NewPlayer => Some(
            LaneFamily {
                category_id: CHILL_CATEGORY_ID,
                anchor_id: NP_ANCHOR_CHANNEL_ID,
                base: NP_LANE_BASE_NAME,
                expand_threshold: NP_EXPAND_THRESHOLD,
                max_total: None,
            },
        ),
        SyncJob::Duo => Some(
            LaneFamily {
                category_id: CHILL_CATEGORY_ID,
                anchor_id: DUO_ANCHOR_CHANNEL_ID,
                base: DUO_LANE_BASE_NAME,
                expand_threshold: DUO_EXPAND_THRESHOLD,
                max_total: Some(2),
            },
        ),
        SyncJob::SortChill => None,
        SyncJob::SortCompRanked => None,
    }
}

} // verus!
