//! A sync settles a lane family: once the operations it lists are
//! performed, the next sync of the same category lists nothing. Syncs run on
//! every voice event, so Discord is only called where the category really
//! differs from the plan.

use vstd::prelude::*;
use crate::adaptive::{
    desired_total_spec, lemma_plan_sizes, plan_emp, plan_fill, plan_kept, plan_occ,
    empty_of, full_level, lane_index_spec, lane_name_spec, lane_rest, occupied_of, LaneSnapshot,
    lemma_full_level_bound, lemma_occ_emp_multiset, plan_lanes_ensures, LanePlan,
    lemma_plan_lanes_accounts_for_every_lane,
};
use crate::sorting::{insert_pos, isort, lemma_isort_len, SortKey};
use crate::lane_sync::{
    is_first_of, snapshot_ids, channel_ids, first_index_of, lemma_first_found, sync_actions_spec, planned_creates, planned_deletes, planned_reassignments, managed_snapshots, all_reassign_actions, lane_moved, lane_position, lane_renamed, reassign_actions, SyncAction,
};
use crate::text::{
    all_digits, digits_value, has_prefix, int_dec, is_digit, is_ws, lemma_nat_dec_value, nat_dec,
    trim_end_spec, trim_spec, trim_start_spec,
};

verus! {

// ── Lane names read back ───────────────────────────────────────────────────

/// A base name that trimming leaves alone at its start.
pub open spec fn plain_base(base: Seq<char>) -> bool {
    base.len() == 0 || !is_ws(base[0])
}

proof fn lemma_trim_start_digits(d: Seq<char>)
    requires
        d.len() > 0,
        all_digits(d),
    ensures
        trim_start_spec(d) == d,
        trim_end_spec(d) == d,
{
    assert(is_digit(d[0]));
    assert(is_digit(d.last()));
}

/// The name of lane `n` (from 2 on) reads back as lane `n` of the family.
pub proof fn lemma_lane_name_reads_back(channel_id: u64, anchor_id: u64, base: Seq<char>, n: int)
    requires
        channel_id != anchor_id,
        plain_base(base),
        2 <= n <= usize::MAX,
    ensures
        lane_index_spec(channel_id, anchor_id, base, lane_name_spec(base, n)) == Some(n as usize),
{
    let d = nat_dec(n as nat);
    lemma_nat_dec_value(n as nat);
    lemma_trim_start_digits(d);
    assert(int_dec(n) == d);
    let name = base + " "@ + d;
    assert(lane_name_spec(base, n) == name);
    reveal_strlit(" ");
    assert(name.last() == d.last());
    assert(is_digit(d.last()));
    if base.len() > 0 {
        assert(name[0] == base[0]);
        assert(trim_start_spec(name) == name);
        assert(name.len() > 0 && !is_ws(name.last()));
        assert(trim_end_spec(name) == name);
        assert(trim_spec(name) == name);
        assert(name.subrange(0, base.len() as int) =~= base);
        assert(has_prefix(trim_spec(name), base));
        let after = name.subrange(base.len() as int, name.len() as int);
        assert(after =~= " "@ + d);
        assert(after.len() > 0 && is_ws(after[0]));
        assert(after.drop_first() =~= d);
        assert(trim_start_spec(after) == trim_start_spec(d));
        assert(lane_rest(base, name) == d);
    } else {
        assert(name =~= " "@ + d);
        assert(name.len() > 0 && is_ws(name[0]));
        assert(name.drop_first() =~= d);
        assert(trim_start_spec(name) == trim_start_spec(d));
        assert(trim_spec(name) == d);
        assert(d.subrange(0, 0) =~= base);
        assert(has_prefix(trim_spec(name), base));
        assert(d.subrange(0, d.len() as int) =~= d);
        assert(lane_rest(base, name) == d);
    }
}

proof fn lemma_trim_lengths(s: Seq<char>)
    ensures
        trim_start_spec(s).len() <= s.len(),
        trim_end_spec(s).len() <= s.len(),
        s.len() > 0 && is_ws(s[0]) ==> trim_start_spec(s).len() < s.len(),
    decreases s.len(),
{
    if s.len() > 0 {
        lemma_trim_lengths(s.drop_first());
        lemma_trim_lengths(s.drop_last());
    }
}

/// Lane names and lane indices of a family (its base name trimmed) agree:
/// the anchor is lane 1 whatever its name, lane 1's name is the base, the
/// name of lane `n` (from 2 on) reads back as `n`, and the bare base name
/// on another channel is no lane.
pub proof fn lemma_lane_index_round_trip(channel_id: u64, anchor_id: u64, base: Seq<char>, n: int)
    requires
        trim_spec(base) == base,
        channel_id != anchor_id,
        2 <= n <= usize::MAX,
    ensures
        lane_index_spec(channel_id, anchor_id, base, lane_name_spec(base, n)) == Some(n as usize),
        lane_index_spec(channel_id, anchor_id, base, base) is None,
        lane_name_spec(base, 1) == base,
        forall|name: Seq<char>| lane_index_spec(anchor_id, anchor_id, base, name) == Some(1usize),
{
    lemma_trim_lengths(base);
    lemma_trim_lengths(trim_start_spec(base));
    assert(plain_base(base));
    lemma_lane_name_reads_back(channel_id, anchor_id, base, n);
    assert(base.subrange(0, base.len() as int) =~= base);
    assert(base.subrange(base.len() as int, base.len() as int) =~= Seq::<char>::empty());
    assert(lane_rest(base, base).len() == 0);
}

/// Lane names from 2 on tell their lanes apart.
pub proof fn lemma_lane_names_differ(base: Seq<char>, n: int, m: int)
    requires
        2 <= n,
        2 <= m,
        lane_name_spec(base, n) == lane_name_spec(base, m),
    ensures
        n == m,
{
    lemma_nat_dec_value(n as nat);
    lemma_nat_dec_value(m as nat);
    let a = base + " "@ + nat_dec(n as nat);
    let b = base + " "@ + nat_dec(m as nat);
    assert(a == b);
    let k = base.len() + 1;
    assert(a.subrange(k as int, a.len() as int) =~= nat_dec(n as nat)) by {
        reveal_strlit(" ");
    }
    assert(b.subrange(k as int, b.len() as int) =~= nat_dec(m as nat)) by {
        reveal_strlit(" ");
    }
}

// ── Performing operations ──────────────────────────────────────────────────

/// A channel's name after the operations: that of the last rename of the
/// channel, else the name it had.
pub open spec fn name_after(acts: Seq<SyncAction>, base: Seq<char>, id: u64, name: Seq<char>) -> Seq<
    char,
>
    decreases acts.len(),
{
    if acts.len() == 0 {
        name
    } else {
        let before = name_after(acts.drop_last(), base, id, name);
        match acts.last() {
            SyncAction::Rename { channel_id, index } => if channel_id == id {
                lane_name_spec(base, index as int)
            } else {
                before
            },
            _ => before,
        }
    }
}

/// A channel's position after the operations: that of the last move of the
/// channel, else the position it had.
pub open spec fn position_after(acts: Seq<SyncAction>, id: u64, position: i64) -> i64
    decreases acts.len(),
{
    if acts.len() == 0 {
        position
    } else {
        let before = position_after(acts.drop_last(), id, position);
        match acts.last() {
            SyncAction::SetPosition { channel_id, position: p } => if channel_id == id {
                p
            } else {
                before
            },
            _ => before,
        }
    }
}

/// Whether the operations delete the channel.
pub open spec fn deleted_by(acts: Seq<SyncAction>, id: u64) -> bool {
    exists|k: int| 0 <= k < acts.len() && acts[k] == SyncAction::Delete { channel_id: id }
}

/// The channels that stay, in their order, with their new names and
/// positions; ids and members do not change.
pub open spec fn remaining_after(
    channels: Seq<(u64, Seq<char>, usize, i64)>,
    acts: Seq<SyncAction>,
    base: Seq<char>,
) -> Seq<(u64, Seq<char>, usize, i64)>
    decreases channels.len(),
{
    if channels.len() == 0 {
        seq![]
    } else {
        let pre = remaining_after(channels.drop_last(), acts, base);
        let c = channels.last();
        if deleted_by(acts, c.0) {
            pre
        } else {
            pre.push((c.0, name_after(acts, base, c.0, c.1), c.2, position_after(acts, c.0, c.3)))
        }
    }
}

/// The channels the creations add, in order: each gets the next of the new
/// ids, the lane's name, no members and its position.
pub open spec fn created_by(acts: Seq<SyncAction>, base: Seq<char>, new_ids: Seq<u64>) -> Seq<
    (u64, Seq<char>, usize, i64),
>
    decreases acts.len(),
{
    if acts.len() == 0 {
        seq![]
    } else {
        let pre = created_by(acts.drop_last(), base, new_ids);
        match acts.last() {
            SyncAction::Create { index, position } => pre.push(
                (new_ids[pre.len() as int], lane_name_spec(base, index as int), 0usize, position),
            ),
            _ => pre,
        }
    }
}

/// The category (id, name, members, position) once the operations are
/// performed: deleted channels are gone, the others keep their place with
/// the name of their last rename and the position of their last move, and
/// the created lanes follow, with the given new ids in order.
pub open spec fn category_after(
    channels: Seq<(u64, Seq<char>, usize, i64)>,
    acts: Seq<SyncAction>,
    base: Seq<char>,
    new_ids: Seq<u64>,
) -> Seq<(u64, Seq<char>, usize, i64)> {
    remaining_after(channels, acts, base) + created_by(acts, base, new_ids)
}

proof fn lemma_name_after_concat(
    x: Seq<SyncAction>,
    y: Seq<SyncAction>,
    base: Seq<char>,
    id: u64,
    name: Seq<char>,
)
    ensures
        name_after(x + y, base, id, name) == name_after(y, base, id, name_after(x, base, id, name)),
    decreases y.len(),
{
    if y.len() == 0 {
        assert(x + y == x);
    } else {
        assert((x + y).drop_last() == x + y.drop_last());
        assert((x + y).last() == y.last());
        lemma_name_after_concat(x, y.drop_last(), base, id, name);
    }
}

proof fn lemma_position_after_concat(x: Seq<SyncAction>, y: Seq<SyncAction>, id: u64, position: i64)
    ensures
        position_after(x + y, id, position) == position_after(y, id, position_after(x, id, position)),
    decreases y.len(),
{
    if y.len() == 0 {
        assert(x + y == x);
    } else {
        assert((x + y).drop_last() == x + y.drop_last());
        assert((x + y).last() == y.last());
        lemma_position_after_concat(x, y.drop_last(), id, position);
    }
}

proof fn lemma_created_none(x: Seq<SyncAction>, base: Seq<char>, new_ids: Seq<u64>)
    requires
        forall|k: int| 0 <= k < x.len() ==> !(#[trigger] x[k] is Create),
    ensures
        created_by(x, base, new_ids) == Seq::<(u64, Seq<char>, usize, i64)>::empty(),
    decreases x.len(),
{
    if x.len() > 0 {
        assert(x.last() == x[x.len() - 1]);
        lemma_created_none(x.drop_last(), base, new_ids);
    }
}

proof fn lemma_created_after_plain(
    x: Seq<SyncAction>,
    y: Seq<SyncAction>,
    base: Seq<char>,
    new_ids: Seq<u64>,
)
    requires
        forall|k: int| 0 <= k < x.len() ==> !(#[trigger] x[k] is Create),
    ensures
        created_by(x + y, base, new_ids) == created_by(y, base, new_ids),
    decreases y.len(),
{
    if y.len() == 0 {
        assert(x + y == x);
        lemma_created_none(x, base, new_ids);
    } else {
        assert((x + y).drop_last() == x + y.drop_last());
        assert((x + y).last() == y.last());
        lemma_created_after_plain(x, y.drop_last(), base, new_ids);
    }
}

/// What the reassignment of one lane does to a name.
proof fn lemma_name_after_reassign(
    channels: Seq<(u64, Seq<char>, usize, i64)>,
    snapshots: Seq<LaneSnapshot>,
    base: Seq<char>,
    anchor_position: int,
    r: (u64, usize),
    id: u64,
    name: Seq<char>,
)
    ensures
        name_after(reassign_actions(channels, snapshots, base, anchor_position, r), base, id, name)
            == if r.0 == id && lane_renamed(snapshots, base, r) {
            lane_name_spec(base, r.1 as int)
        } else {
            name
        },
{
    let ren: Seq<SyncAction> = if lane_renamed(snapshots, base, r) {
        seq![SyncAction::Rename { channel_id: r.0, index: r.1 }]
    } else {
        Seq::empty()
    };
    let mov: Seq<SyncAction> = if lane_moved(channels, anchor_position, r) {
        seq![
            SyncAction::SetPosition {
                channel_id: r.0,
                position: lane_position(anchor_position, r.1 as int) as i64,
            },
        ]
    } else {
        Seq::empty()
    };
    assert(reassign_actions(channels, snapshots, base, anchor_position, r) == ren + mov);
    lemma_name_after_concat(ren, mov, base, id, name);
    if ren.len() > 0 {
        assert(ren.drop_last() =~= Seq::<SyncAction>::empty());
        assert(name_after(ren.drop_last(), base, id, name) == name);
        assert(ren.last() == SyncAction::Rename { channel_id: r.0, index: r.1 });
    }
    let mid = name_after(ren, base, id, name);
    assert(mid == if r.0 == id && lane_renamed(snapshots, base, r) {
        lane_name_spec(base, r.1 as int)
    } else {
        name
    });
    if mov.len() > 0 {
        assert(mov.drop_last() =~= Seq::<SyncAction>::empty());
        assert(name_after(mov.drop_last(), base, id, mid) == mid);
        assert(mov.last() is SetPosition);
        assert(name_after(mov, base, id, mid) == mid);
    }
}

/// What the reassignment of one lane does to a position.
proof fn lemma_position_after_reassign(
    channels: Seq<(u64, Seq<char>, usize, i64)>,
    snapshots: Seq<LaneSnapshot>,
    base: Seq<char>,
    anchor_position: int,
    r: (u64, usize),
    id: u64,
    position: i64,
)
    ensures
        position_after(reassign_actions(channels, snapshots, base, anchor_position, r), id, position)
            == if r.0 == id && lane_moved(channels, anchor_position, r) {
            lane_position(anchor_position, r.1 as int) as i64
        } else {
            position
        },
{
    let ren: Seq<SyncAction> = if lane_renamed(snapshots, base, r) {
        seq![SyncAction::Rename { channel_id: r.0, index: r.1 }]
    } else {
        Seq::empty()
    };
    let mov: Seq<SyncAction> = if lane_moved(channels, anchor_position, r) {
        seq![
            SyncAction::SetPosition {
                channel_id: r.0,
                position: lane_position(anchor_position, r.1 as int) as i64,
            },
        ]
    } else {
        Seq::empty()
    };
    assert(reassign_actions(channels, snapshots, base, anchor_position, r) == ren + mov);
    lemma_position_after_concat(ren, mov, id, position);
    if ren.len() > 0 {
        assert(ren.drop_last() =~= Seq::<SyncAction>::empty());
        assert(position_after(ren.drop_last(), id, position) == position);
        assert(ren.last() is Rename);
        assert(position_after(ren, id, position) == position);
    }
    if mov.len() > 0 {
        assert(mov.drop_last() =~= Seq::<SyncAction>::empty());
    }
}

// ── Sorted lane lists ──────────────────────────────────────────────────────

/// Lane order: by index, then by channel id.
pub open spec fn snap_lt(x: LaneSnapshot, y: LaneSnapshot) -> bool {
    x.current_index < y.current_index || (x.current_index == y.current_index && x.channel_id
        < y.channel_id)
}

pub open spec fn strictly_sorted(a: Seq<LaneSnapshot>) -> bool {
    forall|i: int, j: int| 0 <= i < j < a.len() ==> snap_lt(#[trigger] a[i], #[trigger] a[j])
}

pub open spec fn key_sorted(a: Seq<LaneSnapshot>) -> bool {
    forall|i: int, j: int| 0 <= i < j < a.len() ==> (#[trigger] a[i]).key_le(#[trigger] a[j])
}

pub open spec fn distinct_snapshot_ids(a: Seq<LaneSnapshot>) -> bool {
    forall|i: int, j: int|
        0 <= i < a.len() && 0 <= j < a.len() && i != j ==> (#[trigger] a[i]).channel_id
            != (#[trigger] a[j]).channel_id
}

proof fn lemma_insert_pos_split(p: Seq<LaneSnapshot>, x: LaneSnapshot)
    ensures
        0 <= insert_pos(p, x) <= p.len(),
        forall|i: int| 0 <= i < insert_pos(p, x) ==> (#[trigger] p[i]).key_le(x),
        insert_pos(p, x) < p.len() ==> !p[insert_pos(p, x)].key_le(x),
    decreases p.len(),
{
    if p.len() > 0 && p[0].key_le(x) {
        let q = p.drop_first();
        lemma_insert_pos_split(q, x);
        assert forall|i: int| 0 <= i < insert_pos(p, x) implies (#[trigger] p[i]).key_le(x) by {
            if i > 0 {
                assert(p[i] == q[i - 1]);
            }
        }
        if insert_pos(p, x) < p.len() {
            assert(p[insert_pos(p, x)] == q[insert_pos(q, x)]);
        }
    }
}

/// Sorting yields a key-sorted list whose elements are those of the input.
proof fn lemma_isort_sorted(s: Seq<LaneSnapshot>)
    ensures
        key_sorted(isort(s)),
        isort(s).len() == s.len(),
        forall|x: LaneSnapshot| isort(s).contains(x) <==> s.contains(x),
    decreases s.len(),
{
    lemma_isort_len(s);
    if s.len() > 0 {
        let pre = s.drop_last();
        let x = s.last();
        lemma_isort_sorted(pre);
        let p = isort(pre);
        lemma_insert_pos_split(p, x);
        let pos = insert_pos(p, x);
        let r = p.insert(pos, x);
        assert(isort(s) == r);
        assert forall|i: int, j: int| 0 <= i < j < r.len() implies (#[trigger] r[i]).key_le(
            #[trigger] r[j],
        ) by {
            if j < pos {
                assert(r[i] == p[i] && r[j] == p[j]);
            } else if j == pos {
                assert(r[i] == p[i]);
            } else if i < pos {
                assert(r[i] == p[i] && r[j] == p[j - 1]);
                assert(p[i].key_le(x));
                assert(!p[pos].key_le(x));
                if pos < j - 1 {
                    assert(p[pos].key_le(p[j - 1]));
                }
            } else if i == pos {
                assert(r[j] == p[j - 1]);
                assert(!p[pos].key_le(x));
                if pos < j - 1 {
                    assert(p[pos].key_le(p[j - 1]));
                }
            } else {
                assert(r[i] == p[i - 1] && r[j] == p[j - 1]);
            }
        }
        assert forall|y: LaneSnapshot| r.contains(y) <==> s.contains(y) by {
            if r.contains(y) {
                let k = choose|k: int| 0 <= k < r.len() && r[k] == y;
                if k < pos {
                    assert(p[k] == y);
                    assert(p.contains(y));
                    assert(pre.contains(y));
                    let m = choose|m: int| 0 <= m < pre.len() && pre[m] == y;
                    assert(pre[m] == s[m]);
                    assert(s[m] == y);
                } else if k == pos {
                    assert(s[s.len() - 1] == y);
                } else {
                    assert(p[k - 1] == y);
                    assert(p.contains(y));
                    assert(pre.contains(y));
                    let m = choose|m: int| 0 <= m < pre.len() && pre[m] == y;
                    assert(pre[m] == s[m]);
                    assert(s[m] == y);
                }
            }
            if s.contains(y) {
                let k = choose|k: int| 0 <= k < s.len() && s[k] == y;
                if k == s.len() - 1 {
                    assert(r[pos] == y);
                } else {
                    assert(pre[k] == y);
                    assert(pre.contains(y));
                    assert(p.contains(y));
                    let m = choose|m: int| 0 <= m < p.len() && p[m] == y;
                    if m < pos {
                        assert(r[m] == y);
                    } else {
                        assert(r[m + 1] == y);
                    }
                }
            }
        }
    }
}

/// Sorting keeps ids apart when they were apart.
proof fn lemma_isort_distinct(s: Seq<LaneSnapshot>)
    requires
        distinct_snapshot_ids(s),
    ensures
        distinct_snapshot_ids(isort(s)),
    decreases s.len(),
{
    lemma_isort_len(s);
    if s.len() > 0 {
        let pre = s.drop_last();
        let x = s.last();
        assert(distinct_snapshot_ids(pre)) by {
            assert forall|i: int, j: int|
                0 <= i < pre.len() && 0 <= j < pre.len() && i != j implies (#[trigger] pre[i]).channel_id
                != (#[trigger] pre[j]).channel_id by {
                assert(pre[i] == s[i] && pre[j] == s[j]);
            }
        }
        lemma_isort_distinct(pre);
        lemma_isort_sorted(pre);
        let p = isort(pre);
        lemma_insert_pos_split(p, x);
        let pos = insert_pos(p, x);
        let r = p.insert(pos, x);
        assert(isort(s) == r);
        assert forall|k: int| 0 <= k < p.len() implies (#[trigger] p[k]).channel_id != x.channel_id by {
            assert(p.contains(p[k]));
            assert(pre.contains(p[k]));
            let m = choose|m: int| 0 <= m < pre.len() && pre[m] == p[k];
            assert(pre[m] == s[m]);
            assert(s[m] == p[k]);
            assert(m != s.len() - 1);
            assert(s[s.len() - 1] == x);
        }
        assert forall|i: int, j: int|
            0 <= i < r.len() && 0 <= j < r.len() && i != j implies (#[trigger] r[i]).channel_id
            != (#[trigger] r[j]).channel_id by {
            let pi = if i < pos { i } else { i - 1 };
            let pj = if j < pos { j } else { j - 1 };
            if i != pos && j != pos {
                assert(r[i] == p[pi] && r[j] == p[pj]);
            } else if i == pos {
                assert(r[j] == p[pj]);
            } else {
                assert(r[i] == p[pi]);
            }
        }
    }
}

/// A key-sorted list with distinct ids is strictly sorted.
proof fn lemma_sorted_strict(a: Seq<LaneSnapshot>)
    requires
        key_sorted(a),
        distinct_snapshot_ids(a),
    ensures
        strictly_sorted(a),
{
    assert forall|i: int, j: int| 0 <= i < j < a.len() implies snap_lt(#[trigger] a[i], #[trigger] a[j]) by {
        assert(a[i].key_le(a[j]));
        assert(a[i].channel_id != a[j].channel_id);
    }
}

/// Two strictly sorted lists with the same elements are the same list.
proof fn lemma_sorted_unique(a: Seq<LaneSnapshot>, b: Seq<LaneSnapshot>)
    requires
        strictly_sorted(a),
        strictly_sorted(b),
        forall|x: LaneSnapshot| a.contains(x) <==> b.contains(x),
    ensures
        a == b,
    decreases a.len() + b.len(),
{
    if a.len() == 0 {
        if b.len() > 0 {
            assert(b.contains(b[0]));
        }
        assert(b =~= a);
    } else if b.len() == 0 {
        assert(a.contains(a[0]));
    } else {
        let x = a.last();
        let y = b.last();
        assert(a.contains(x));
        assert(b.contains(y));
        let i = choose|i: int| 0 <= i < b.len() && b[i] == x;
        let j = choose|j: int| 0 <= j < a.len() && a[j] == y;
        if i < b.len() - 1 {
            assert(snap_lt(b[i], b[b.len() - 1]));
        }
        if j < a.len() - 1 {
            assert(snap_lt(a[j], a[a.len() - 1]));
        }
        assert(x == y);
        let a2 = a.drop_last();
        let b2 = b.drop_last();
        assert forall|z: LaneSnapshot| a2.contains(z) <==> b2.contains(z) by {
            if a2.contains(z) {
                let k = choose|k: int| 0 <= k < a2.len() && a2[k] == z;
                assert(a[k] == z);
                assert(snap_lt(a[k], a[a.len() - 1]));
                assert(b.contains(z));
                let m = choose|m: int| 0 <= m < b.len() && b[m] == z;
                if m == b.len() - 1 {
                    assert(false);
                }
                assert(b2[m] == z);
            }
            if b2.contains(z) {
                let k = choose|k: int| 0 <= k < b2.len() && b2[k] == z;
                assert(b[k] == z);
                assert(snap_lt(b[k], b[b.len() - 1]));
                assert(a.contains(z));
                let m = choose|m: int| 0 <= m < a.len() && a[m] == z;
                if m == a.len() - 1 {
                    assert(false);
                }
                assert(a2[m] == z);
            }
        }
        assert(strictly_sorted(a2)) by {
            assert forall|p: int, q: int| 0 <= p < q < a2.len() implies snap_lt(#[trigger] a2[p], #[trigger] a2[q]) by {
                assert(a2[p] == a[p] && a2[q] == a[q]);
            }
        }
        assert(strictly_sorted(b2)) by {
            assert forall|p: int, q: int| 0 <= p < q < b2.len() implies snap_lt(#[trigger] b2[p], #[trigger] b2[q]) by {
                assert(b2[p] == b[p] && b2[q] == b[q]);
            }
        }
        lemma_sorted_unique(a2, b2);
        assert(a == a2.push(x));
        assert(b == b2.push(y));
    }
}

/// Sorting a list with distinct ids gives the one strictly sorted list of
/// its elements.
proof fn lemma_isort_is(s: Seq<LaneSnapshot>, t: Seq<LaneSnapshot>)
    requires
        distinct_snapshot_ids(s),
        strictly_sorted(t),
        forall|x: LaneSnapshot| s.contains(x) <==> t.contains(x),
    ensures
        isort(s) == t,
{
    lemma_isort_sorted(s);
    lemma_isort_distinct(s);
    lemma_sorted_strict(isort(s));
    lemma_sorted_unique(isort(s), t);
}

// ── Lists of channels and lanes ────────────────────────────────────────────

pub open spec fn distinct_channel_ids(ch: Seq<(u64, Seq<char>, usize, i64)>) -> bool {
    forall|i: int, j: int|
        0 <= i < ch.len() && 0 <= j < ch.len() && i != j ==> (#[trigger] ch[i]).0 != (
        #[trigger] ch[j]).0
}

proof fn lemma_managed_concat(
    x: Seq<(u64, Seq<char>, usize, i64)>,
    y: Seq<(u64, Seq<char>, usize, i64)>,
    anchor_id: u64,
    base: Seq<char>,
)
    ensures
        managed_snapshots(x + y, anchor_id, base) == managed_snapshots(x, anchor_id, base)
            + managed_snapshots(y, anchor_id, base),
    decreases y.len(),
{
    if y.len() == 0 {
        assert(x + y == x);
        assert(managed_snapshots(x, anchor_id, base) + managed_snapshots(y, anchor_id, base)
            =~= managed_snapshots(x, anchor_id, base));
    } else {
        assert((x + y).drop_last() == x + y.drop_last());
        assert((x + y).last() == y.last());
        lemma_managed_concat(x, y.drop_last(), anchor_id, base);
        let mx = managed_snapshots(x, anchor_id, base);
        let my = managed_snapshots(y.drop_last(), anchor_id, base);
        let c = y.last();
        let index = lane_index_spec(c.0, anchor_id, base, c.1);
        if c.0 != anchor_id && index is Some {
            let snap = LaneSnapshot { channel_id: c.0, current_index: index->0, member_count: c.2 };
            assert((mx + my).push(snap) =~= mx + my.push(snap));
        }
    }
}

/// The lanes of a channel list are the channels other than the anchor that
/// carry a lane name of the family.
proof fn lemma_managed_contains(
    ch: Seq<(u64, Seq<char>, usize, i64)>,
    anchor_id: u64,
    base: Seq<char>,
    x: LaneSnapshot,
)
    ensures
        managed_snapshots(ch, anchor_id, base).contains(x) <==> exists|j: int|
            0 <= j < ch.len() && (#[trigger] ch[j]).0 == x.channel_id && ch[j].0 != anchor_id
                && lane_index_spec(ch[j].0, anchor_id, base, ch[j].1) == Some(x.current_index)
                && ch[j].2 == x.member_count,
    decreases ch.len(),
{
    if ch.len() > 0 {
        let pre = ch.drop_last();
        lemma_managed_contains(pre, anchor_id, base, x);
        let m = managed_snapshots(ch, anchor_id, base);
        let mp = managed_snapshots(pre, anchor_id, base);
        let c = ch.last();
        let index = lane_index_spec(c.0, anchor_id, base, c.1);
        if m.contains(x) {
            let k = choose|k: int| 0 <= k < m.len() && m[k] == x;
            if c.0 != anchor_id && index is Some && k == m.len() - 1 {
                assert(ch[ch.len() - 1] == c);
            } else {
                assert(mp[k] == x);
                assert(mp.contains(x));
                let j = choose|j: int|
                    0 <= j < pre.len() && (#[trigger] pre[j]).0 == x.channel_id && pre[j].0
                        != anchor_id && lane_index_spec(pre[j].0, anchor_id, base, pre[j].1)
                        == Some(x.current_index) && pre[j].2 == x.member_count;
                assert(ch[j] == pre[j]);
            }
        }
        if exists|j: int|
            0 <= j < ch.len() && (#[trigger] ch[j]).0 == x.channel_id && ch[j].0 != anchor_id
                && lane_index_spec(ch[j].0, anchor_id, base, ch[j].1) == Some(x.current_index)
                && ch[j].2 == x.member_count {
            let j = choose|j: int|
                0 <= j < ch.len() && (#[trigger] ch[j]).0 == x.channel_id && ch[j].0 != anchor_id
                    && lane_index_spec(ch[j].0, anchor_id, base, ch[j].1) == Some(
                    x.current_index,
                ) && ch[j].2 == x.member_count;
            if j == ch.len() - 1 {
                assert(m[m.len() - 1] == x);
            } else {
                assert(pre[j] == ch[j]);
                assert(mp.contains(x));
                let k = choose|k: int| 0 <= k < mp.len() && mp[k] == x;
                assert(m[k] == x);
            }
        }
    }
}

/// Lanes of channels with distinct ids have distinct ids.
proof fn lemma_managed_distinct(ch: Seq<(u64, Seq<char>, usize, i64)>, anchor_id: u64, base: Seq<char>)
    requires
        distinct_channel_ids(ch),
    ensures
        distinct_snapshot_ids(managed_snapshots(ch, anchor_id, base)),
    decreases ch.len(),
{
    if ch.len() > 0 {
        let pre = ch.drop_last();
        assert(distinct_channel_ids(pre)) by {
            assert forall|i: int, j: int|
                0 <= i < pre.len() && 0 <= j < pre.len() && i != j implies (#[trigger] pre[i]).0
                != (#[trigger] pre[j]).0 by {
                assert(pre[i] == ch[i] && pre[j] == ch[j]);
            }
        }
        lemma_managed_distinct(pre, anchor_id, base);
        let m = managed_snapshots(ch, anchor_id, base);
        let mp = managed_snapshots(pre, anchor_id, base);
        let c = ch.last();
        let index = lane_index_spec(c.0, anchor_id, base, c.1);
        if c.0 != anchor_id && index is Some {
            assert forall|k: int| 0 <= k < mp.len() implies (#[trigger] mp[k]).channel_id != c.0 by {
                assert(mp.contains(mp[k]));
                lemma_managed_contains(pre, anchor_id, base, mp[k]);
                let j = choose|j: int|
                    0 <= j < pre.len() && (#[trigger] pre[j]).0 == mp[k].channel_id && pre[j].0
                        != anchor_id && lane_index_spec(pre[j].0, anchor_id, base, pre[j].1)
                        == Some(mp[k].current_index) && pre[j].2 == mp[k].member_count;
                assert(pre[j] == ch[j]);
                assert(ch[ch.len() - 1] == c);
            }
            assert forall|i: int, j: int|
                0 <= i < m.len() && 0 <= j < m.len() && i != j implies (#[trigger] m[i]).channel_id
                != (#[trigger] m[j]).channel_id by {
                if i < mp.len() && j < mp.len() {
                    assert(m[i] == mp[i] && m[j] == mp[j]);
                } else if i < mp.len() {
                    assert(m[i] == mp[i]);
                } else {
                    assert(m[j] == mp[j]);
                }
            }
        }
    }
}

/// The channel after the operations.
pub open spec fn updated(c: (u64, Seq<char>, usize, i64), acts: Seq<SyncAction>, base: Seq<char>) -> (
    u64,
    Seq<char>,
    usize,
    i64,
) {
    (c.0, name_after(acts, base, c.0, c.1), c.2, position_after(acts, c.0, c.3))
}

proof fn lemma_remaining_contains(
    ch: Seq<(u64, Seq<char>, usize, i64)>,
    acts: Seq<SyncAction>,
    base: Seq<char>,
    c: (u64, Seq<char>, usize, i64),
)
    ensures
        remaining_after(ch, acts, base).contains(c) <==> exists|j: int|
            0 <= j < ch.len() && !deleted_by(acts, ch[j].0) && c == updated(
                #[trigger] ch[j],
                acts,
                base,
            ),
    decreases ch.len(),
{
    if ch.len() > 0 {
        let pre = ch.drop_last();
        lemma_remaining_contains(pre, acts, base, c);
        let r = remaining_after(ch, acts, base);
        let rp = remaining_after(pre, acts, base);
        let last = ch.last();
        if r.contains(c) {
            let k = choose|k: int| 0 <= k < r.len() && r[k] == c;
            if !deleted_by(acts, last.0) && k == r.len() - 1 {
                assert(ch[ch.len() - 1] == last);
            } else {
                assert(rp[k] == c);
                assert(rp.contains(c));
                let j = choose|j: int|
                    0 <= j < pre.len() && !deleted_by(acts, pre[j].0) && c == updated(
                        #[trigger] pre[j],
                        acts,
                        base,
                    );
                assert(ch[j] == pre[j]);
            }
        }
        if exists|j: int|
            0 <= j < ch.len() && !deleted_by(acts, ch[j].0) && c == updated(
                #[trigger] ch[j],
                acts,
                base,
            ) {
            let j = choose|j: int|
                0 <= j < ch.len() && !deleted_by(acts, ch[j].0) && c == updated(
                    #[trigger] ch[j],
                    acts,
                    base,
                );
            if j == ch.len() - 1 {
                assert(r[r.len() - 1] == c);
            } else {
                assert(pre[j] == ch[j]);
                assert(rp.contains(c));
                let k = choose|k: int| 0 <= k < rp.len() && rp[k] == c;
                assert(r[k] == c);
            }
        }
    }
}

proof fn lemma_remaining_distinct(
    ch: Seq<(u64, Seq<char>, usize, i64)>,
    acts: Seq<SyncAction>,
    base: Seq<char>,
)
    requires
        distinct_channel_ids(ch),
    ensures
        distinct_channel_ids(remaining_after(ch, acts, base)),
    decreases ch.len(),
{
    if ch.len() > 0 {
        let pre = ch.drop_last();
        assert(distinct_channel_ids(pre)) by {
            assert forall|i: int, j: int|
                0 <= i < pre.len() && 0 <= j < pre.len() && i != j implies (#[trigger] pre[i]).0
                != (#[trigger] pre[j]).0 by {
                assert(pre[i] == ch[i] && pre[j] == ch[j]);
            }
        }
        lemma_remaining_distinct(pre, acts, base);
        let r = remaining_after(ch, acts, base);
        let rp = remaining_after(pre, acts, base);
        let last = ch.last();
        if !deleted_by(acts, last.0) {
            assert forall|k: int| 0 <= k < rp.len() implies (#[trigger] rp[k]).0 != last.0 by {
                assert(rp.contains(rp[k]));
                lemma_remaining_contains(pre, acts, base, rp[k]);
                let j = choose|j: int|
                    0 <= j < pre.len() && !deleted_by(acts, pre[j].0) && rp[k] == updated(
                        #[trigger] pre[j],
                        acts,
                        base,
                    );
                assert(pre[j] == ch[j]);
                assert(ch[ch.len() - 1] == last);
            }
            assert forall|i: int, j: int|
                0 <= i < r.len() && 0 <= j < r.len() && i != j implies (#[trigger] r[i]).0 != (
                #[trigger] r[j]).0 by {
                if i < rp.len() && j < rp.len() {
                    assert(r[i] == rp[i] && r[j] == rp[j]);
                } else if i < rp.len() {
                    assert(r[i] == rp[i]);
                } else {
                    assert(r[j] == rp[j]);
                }
            }
        }
    }
}

proof fn lemma_occupied_empty_contains(s: Seq<LaneSnapshot>, x: LaneSnapshot)
    ensures
        occupied_of(s).contains(x) <==> s.contains(x) && x.member_count > 0,
        empty_of(s).contains(x) <==> s.contains(x) && x.member_count == 0,
    decreases s.len(),
{
    if s.len() > 0 {
        let pre = s.drop_last();
        lemma_occupied_empty_contains(pre, x);
        let o = occupied_of(s);
        let op = occupied_of(pre);
        let e = empty_of(s);
        let ep = empty_of(pre);
        if o.contains(x) {
            let k = choose|k: int| 0 <= k < o.len() && o[k] == x;
            if s.last().member_count > 0 && k == o.len() - 1 {
                assert(s[s.len() - 1] == x);
            } else {
                assert(op[k] == x);
                assert(op.contains(x));
                let j = choose|j: int| 0 <= j < pre.len() && pre[j] == x;
                assert(s[j] == x);
            }
        }
        if s.contains(x) && x.member_count > 0 {
            let j = choose|j: int| 0 <= j < s.len() && s[j] == x;
            if j == s.len() - 1 {
                assert(o[o.len() - 1] == x);
            } else {
                assert(pre[j] == x);
                assert(op.contains(x));
                let k = choose|k: int| 0 <= k < op.len() && op[k] == x;
                assert(o[k] == x);
            }
        }
        if e.contains(x) {
            let k = choose|k: int| 0 <= k < e.len() && e[k] == x;
            if s.last().member_count == 0 && k == e.len() - 1 {
                assert(s[s.len() - 1] == x);
            } else {
                assert(ep[k] == x);
                assert(ep.contains(x));
                let j = choose|j: int| 0 <= j < pre.len() && pre[j] == x;
                assert(s[j] == x);
            }
        }
        if s.contains(x) && x.member_count == 0 {
            let j = choose|j: int| 0 <= j < s.len() && s[j] == x;
            if j == s.len() - 1 {
                assert(e[e.len() - 1] == x);
            } else {
                assert(pre[j] == x);
                assert(ep.contains(x));
                let k = choose|k: int| 0 <= k < ep.len() && ep[k] == x;
                assert(e[k] == x);
            }
        }
    }
}

proof fn lemma_occupied_empty_distinct(s: Seq<LaneSnapshot>)
    requires
        distinct_snapshot_ids(s),
    ensures
        distinct_snapshot_ids(occupied_of(s)),
        distinct_snapshot_ids(empty_of(s)),
    decreases s.len(),
{
    if s.len() > 0 {
        let pre = s.drop_last();
        assert(distinct_snapshot_ids(pre)) by {
            assert forall|i: int, j: int|
                0 <= i < pre.len() && 0 <= j < pre.len() && i != j implies (#[trigger] pre[i]).channel_id
                != (#[trigger] pre[j]).channel_id by {
                assert(pre[i] == s[i] && pre[j] == s[j]);
            }
        }
        lemma_occupied_empty_distinct(pre);
        let x = s.last();
        assert forall|y: LaneSnapshot| pre.contains(y) implies y.channel_id != x.channel_id by {
            let j = choose|j: int| 0 <= j < pre.len() && pre[j] == y;
            assert(s[j] == y);
            assert(s[s.len() - 1] == x);
        }
        let o = occupied_of(s);
        let op = occupied_of(pre);
        let e = empty_of(s);
        let ep = empty_of(pre);
        if x.member_count > 0 {
            assert forall|i: int, j: int|
                0 <= i < o.len() && 0 <= j < o.len() && i != j implies (#[trigger] o[i]).channel_id
                != (#[trigger] o[j]).channel_id by {
                if i < op.len() && j < op.len() {
                    assert(o[i] == op[i] && o[j] == op[j]);
                } else if i < op.len() {
                    assert(o[i] == op[i]);
                    assert(op.contains(op[i]));
                    lemma_occupied_empty_contains(pre, op[i]);
                } else {
                    assert(o[j] == op[j]);
                    assert(op.contains(op[j]));
                    lemma_occupied_empty_contains(pre, op[j]);
                }
            }
        } else {
            assert forall|i: int, j: int|
                0 <= i < e.len() && 0 <= j < e.len() && i != j implies (#[trigger] e[i]).channel_id
                != (#[trigger] e[j]).channel_id by {
                if i < ep.len() && j < ep.len() {
                    assert(e[i] == ep[i] && e[j] == ep[j]);
                } else if i < ep.len() {
                    assert(e[i] == ep[i]);
                    assert(ep.contains(ep[i]));
                    lemma_occupied_empty_contains(pre, ep[i]);
                } else {
                    assert(e[j] == ep[j]);
                    assert(ep.contains(ep[j]));
                    lemma_occupied_empty_contains(pre, ep[j]);
                }
            }
        }
    }
}

proof fn lemma_full_level_same_members(a: Seq<LaneSnapshot>, b: Seq<LaneSnapshot>, threshold: nat)
    requires
        a.len() == b.len(),
        forall|i: int| 0 <= i < a.len() ==> (#[trigger] a[i]).member_count == b[i].member_count,
    ensures
        full_level(a, threshold) == full_level(b, threshold),
    decreases a.len(),
{
    if a.len() > 0 {
        assert(a.last() == a[a.len() - 1] && b.last() == b[b.len() - 1]);
        let a2 = a.drop_last();
        let b2 = b.drop_last();
        assert forall|i: int| 0 <= i < a2.len() implies (#[trigger] a2[i]).member_count
            == b2[i].member_count by {
            assert(a2[i] == a[i] && b2[i] == b[i]);
        }
        lemma_full_level_same_members(a2, b2, threshold);
    }
}

// ── What the listed operations do ──────────────────────────────────────────

pub open spec fn distinct_reassigned(rs: Seq<(u64, usize)>) -> bool {
    forall|i: int, j: int|
        0 <= i < rs.len() && 0 <= j < rs.len() && i != j ==> (#[trigger] rs[i]).0 != (
        #[trigger] rs[j]).0
}

proof fn lemma_all_reassign_kinds(
    ch: Seq<(u64, Seq<char>, usize, i64)>,
    snaps: Seq<LaneSnapshot>,
    base: Seq<char>,
    apos: int,
    rs: Seq<(u64, usize)>,
)
    ensures
        forall|k: int|
            0 <= k < all_reassign_actions(ch, snaps, base, apos, rs).len() ==> {
                let a = #[trigger] all_reassign_actions(ch, snaps, base, apos, rs)[k];
                &&& !(a is Delete)
                &&& !(a is Create)
            },
    decreases rs.len(),
{
    if rs.len() > 0 {
        lemma_all_reassign_kinds(ch, snaps, base, apos, rs.drop_last());
        let pre = all_reassign_actions(ch, snaps, base, apos, rs.drop_last());
        let last = reassign_actions(ch, snaps, base, apos, rs.last());
        let all = all_reassign_actions(ch, snaps, base, apos, rs);
        assert(all == pre + last);
        assert forall|k: int| 0 <= k < all.len() implies {
            let a = #[trigger] all[k];
            &&& !(a is Delete)
            &&& !(a is Create)
        } by {
            if k < pre.len() {
                assert(all[k] == pre[k]);
            } else {
                assert(all[k] == last[k - pre.len()]);
            }
        }
    }
}

proof fn lemma_all_reassign_name(
    ch: Seq<(u64, Seq<char>, usize, i64)>,
    snaps: Seq<LaneSnapshot>,
    base: Seq<char>,
    apos: int,
    rs: Seq<(u64, usize)>,
    id: u64,
    name: Seq<char>,
)
    requires
        distinct_reassigned(rs),
    ensures
        (forall|o: int| 0 <= o < rs.len() ==> (#[trigger] rs[o]).0 != id) ==> name_after(
            all_reassign_actions(ch, snaps, base, apos, rs),
            base,
            id,
            name,
        ) == name,
        forall|o: int|
            0 <= o < rs.len() && (#[trigger] rs[o]).0 == id ==> name_after(
                all_reassign_actions(ch, snaps, base, apos, rs),
                base,
                id,
                name,
            ) == if lane_renamed(snaps, base, rs[o]) {
                lane_name_spec(base, rs[o].1 as int)
            } else {
                name
            },
    decreases rs.len(),
{
    if rs.len() > 0 {
        let pre = rs.drop_last();
        assert(distinct_reassigned(pre)) by {
            assert forall|i: int, j: int|
                0 <= i < pre.len() && 0 <= j < pre.len() && i != j implies (#[trigger] pre[i]).0
                != (#[trigger] pre[j]).0 by {
                assert(pre[i] == rs[i] && pre[j] == rs[j]);
            }
        }
        lemma_all_reassign_name(ch, snaps, base, apos, pre, id, name);
        let r = rs.last();
        lemma_name_after_concat(
            all_reassign_actions(ch, snaps, base, apos, pre),
            reassign_actions(ch, snaps, base, apos, r),
            base,
            id,
            name,
        );
        let inner = name_after(all_reassign_actions(ch, snaps, base, apos, pre), base, id, name);
        lemma_name_after_reassign(ch, snaps, base, apos, r, id, inner);
        assert(rs[rs.len() - 1] == r);
        if r.0 == id {
            assert forall|o: int| 0 <= o < pre.len() implies (#[trigger] pre[o]).0 != id by {
                assert(pre[o] == rs[o]);
            }
        } else {
            assert forall|o: int| 0 <= o < rs.len() && (#[trigger] rs[o]).0 == id implies o
                < pre.len() && pre[o] == rs[o] by {}
        }
    }
}

proof fn lemma_all_reassign_position(
    ch: Seq<(u64, Seq<char>, usize, i64)>,
    snaps: Seq<LaneSnapshot>,
    base: Seq<char>,
    apos: int,
    rs: Seq<(u64, usize)>,
    id: u64,
    position: i64,
)
    requires
        distinct_reassigned(rs),
    ensures
        (forall|o: int| 0 <= o < rs.len() ==> (#[trigger] rs[o]).0 != id) ==> position_after(
            all_reassign_actions(ch, snaps, base, apos, rs),
            id,
            position,
        ) == position,
        forall|o: int|
            0 <= o < rs.len() && (#[trigger] rs[o]).0 == id ==> position_after(
                all_reassign_actions(ch, snaps, base, apos, rs),
                id,
                position,
            ) == if lane_moved(ch, apos, rs[o]) {
                lane_position(apos, rs[o].1 as int) as i64
            } else {
                position
            },
    decreases rs.len(),
{
    if rs.len() > 0 {
        let pre = rs.drop_last();
        assert(distinct_reassigned(pre)) by {
            assert forall|i: int, j: int|
                0 <= i < pre.len() && 0 <= j < pre.len() && i != j implies (#[trigger] pre[i]).0
                != (#[trigger] pre[j]).0 by {
                assert(pre[i] == rs[i] && pre[j] == rs[j]);
            }
        }
        lemma_all_reassign_position(ch, snaps, base, apos, pre, id, position);
        let r = rs.last();
        lemma_position_after_concat(
            all_reassign_actions(ch, snaps, base, apos, pre),
            reassign_actions(ch, snaps, base, apos, r),
            id,
            position,
        );
        let inner = position_after(all_reassign_actions(ch, snaps, base, apos, pre), id, position);
        lemma_position_after_reassign(ch, snaps, base, apos, r, id, inner);
        assert(rs[rs.len() - 1] == r);
        if r.0 == id {
            assert forall|o: int| 0 <= o < pre.len() implies (#[trigger] pre[o]).0 != id by {
                assert(pre[o] == rs[o]);
            }
        } else {
            assert forall|o: int| 0 <= o < rs.len() && (#[trigger] rs[o]).0 == id implies o
                < pre.len() && pre[o] == rs[o] by {}
        }
    }
}

/// Nothing to rename and nothing to move: no operations.
proof fn lemma_all_reassign_empty(
    ch: Seq<(u64, Seq<char>, usize, i64)>,
    snaps: Seq<LaneSnapshot>,
    base: Seq<char>,
    apos: int,
    rs: Seq<(u64, usize)>,
)
    requires
        forall|o: int|
            0 <= o < rs.len() ==> !lane_renamed(snaps, base, #[trigger] rs[o]) && !lane_moved(
                ch,
                apos,
                rs[o],
            ),
    ensures
        all_reassign_actions(ch, snaps, base, apos, rs) == Seq::<SyncAction>::empty(),
    decreases rs.len(),
{
    if rs.len() > 0 {
        let pre = rs.drop_last();
        assert forall|o: int| 0 <= o < pre.len() implies !lane_renamed(
            snaps,
            base,
            #[trigger] pre[o],
        ) && !lane_moved(ch, apos, pre[o]) by {
            assert(pre[o] == rs[o]);
        }
        lemma_all_reassign_empty(ch, snaps, base, apos, pre);
        assert(rs[rs.len() - 1] == rs.last());
        assert(reassign_actions(ch, snaps, base, apos, rs.last()) =~= Seq::<SyncAction>::empty());
        assert(all_reassign_actions(ch, snaps, base, apos, rs) =~= Seq::<SyncAction>::empty());
    }
}

pub open spec fn create_actions(creates: Seq<usize>, apos: int) -> Seq<SyncAction> {
    Seq::new(
        creates.len(),
        |k: int|
            SyncAction::Create {
                index: creates[k],
                position: lane_position(apos, creates[k] as int) as i64,
            },
    )
}

proof fn lemma_created_lanes(creates: Seq<usize>, apos: int, base: Seq<char>, new_ids: Seq<u64>)
    ensures
        created_by(create_actions(creates, apos), base, new_ids) == Seq::new(
            creates.len(),
            |k: int|
                (
                    new_ids[k],
                    lane_name_spec(base, creates[k] as int),
                    0usize,
                    lane_position(apos, creates[k] as int) as i64,
                ),
        ),
    decreases creates.len(),
{
    let cr = create_actions(creates, apos);
    if creates.len() > 0 {
        let pre = creates.drop_last();
        lemma_created_lanes(pre, apos, base, new_ids);
        assert(cr.drop_last() =~= create_actions(pre, apos));
        assert(cr.last() == cr[creates.len() - 1]);
    } else {
        assert(cr.len() == 0);
    }
    assert(created_by(cr, base, new_ids) =~= Seq::new(
        creates.len(),
        |k: int|
            (
                new_ids[k],
                lane_name_spec(base, creates[k] as int),
                0usize,
                lane_position(apos, creates[k] as int) as i64,
            ),
    ));
}

// ── The plan's lanes ───────────────────────────────────────────────────────

/// How a plan splits the lanes: kept lanes (occupied first) and deleted
/// ones, apart by id, together all the lanes.
proof fn lemma_plan_split(count: nat, snaps: Seq<LaneSnapshot>, threshold: nat, max_total: Option<usize>)
    requires
        distinct_snapshot_ids(snaps),
    ensures
        ({
            let occ = plan_occ(snaps);
            let emp = plan_emp(snaps);
            let fill = plan_fill(count, snaps, threshold, max_total);
            let kept = plan_kept(count, snaps, threshold, max_total);
            let deleted = emp.skip(fill);
            &&& 0 <= fill <= emp.len()
            &&& kept.len() == occ.len() + fill
            &&& kept.len() <= snaps.len()
            &&& distinct_snapshot_ids(kept)
            &&& forall|o: int| 0 <= o < kept.len() ==> snaps.contains(#[trigger] kept[o])
            &&& forall|o: int|
                0 <= o < kept.len() ==> ((#[trigger] kept[o]).member_count > 0 <==> o < occ.len())
            &&& forall|m: int|
                0 <= m < deleted.len() ==> snaps.contains(#[trigger] deleted[m])
                    && deleted[m].member_count == 0
            &&& forall|o: int, m: int|
                0 <= o < kept.len() && 0 <= m < deleted.len() ==> (#[trigger] kept[o]).channel_id
                    != (#[trigger] deleted[m]).channel_id
            &&& forall|x: LaneSnapshot| snaps.contains(x) ==> kept.contains(x) || deleted.contains(x)
            &&& forall|o: int| 0 <= o < occ.len() ==> (#[trigger] kept[o]) == occ[o]
        }),
{
    let occ_raw = occupied_of(snaps);
    let emp_raw = empty_of(snaps);
    let occ = plan_occ(snaps);
    let emp = plan_emp(snaps);
    let fill = plan_fill(count, snaps, threshold, max_total);
    let kept = plan_kept(count, snaps, threshold, max_total);
    let deleted = emp.skip(fill);
    lemma_plan_sizes(count, snaps, threshold, max_total);
    lemma_occupied_empty_distinct(snaps);
    lemma_isort_sorted(occ_raw);
    lemma_isort_sorted(emp_raw);
    lemma_isort_distinct(occ_raw);
    lemma_isort_distinct(emp_raw);
    assert(forall|x: LaneSnapshot| occ.contains(x) ==> snaps.contains(x) && x.member_count > 0) by {
        assert forall|x: LaneSnapshot| occ.contains(x) implies snaps.contains(x) && x.member_count
            > 0 by {
            lemma_occupied_empty_contains(snaps, x);
        }
    }
    assert(forall|x: LaneSnapshot| emp.contains(x) ==> snaps.contains(x) && x.member_count == 0) by {
        assert forall|x: LaneSnapshot| emp.contains(x) implies snaps.contains(x) && x.member_count
            == 0 by {
            lemma_occupied_empty_contains(snaps, x);
        }
    }
    assert forall|o: int| 0 <= o < kept.len() implies snaps.contains(#[trigger] kept[o])
        && ((kept[o].member_count > 0) <==> o < occ.len()) by {
        if o < occ.len() {
            assert(kept[o] == occ[o]);
            assert(occ.contains(occ[o]));
        } else {
            assert(kept[o] == emp[o - occ.len()]);
            assert(emp.contains(emp[o - occ.len()]));
        }
    }
    assert forall|m: int| 0 <= m < deleted.len() implies snaps.contains(#[trigger] deleted[m])
        && deleted[m].member_count == 0 by {
        assert(deleted[m] == emp[fill + m]);
        assert(emp.contains(emp[fill + m]));
    }
    // same id within the lanes means the same lane
    assert forall|x: LaneSnapshot, y: LaneSnapshot|
        snaps.contains(x) && snaps.contains(y) && x.channel_id == y.channel_id implies x == y by {
        let i = choose|i: int| 0 <= i < snaps.len() && snaps[i] == x;
        let j = choose|j: int| 0 <= j < snaps.len() && snaps[j] == y;
        if i != j {
            assert(snaps[i].channel_id != snaps[j].channel_id);
        }
    }
    assert forall|i: int, j: int|
        0 <= i < kept.len() && 0 <= j < kept.len() && i != j implies (#[trigger] kept[i]).channel_id
        != (#[trigger] kept[j]).channel_id by {
        if i < occ.len() && j < occ.len() {
            assert(kept[i] == occ[i] && kept[j] == occ[j]);
        } else if i >= occ.len() && j >= occ.len() {
            assert(kept[i] == emp[i - occ.len()] && kept[j] == emp[j - occ.len()]);
        } else {
            assert(snaps.contains(kept[i]) && snaps.contains(kept[j]));
        }
    }
    assert forall|o: int, m: int|
        0 <= o < kept.len() && 0 <= m < deleted.len() implies (#[trigger] kept[o]).channel_id != (
        #[trigger] deleted[m]).channel_id by {
        assert(deleted[m] == emp[fill + m]);
        if o < occ.len() {
            assert(snaps.contains(kept[o]) && snaps.contains(deleted[m]));
        } else {
            assert(kept[o] == emp[o - occ.len()]);
        }
    }
    assert forall|x: LaneSnapshot| snaps.contains(x) implies kept.contains(x) || deleted.contains(x) by {
        lemma_occupied_empty_contains(snaps, x);
        if x.member_count > 0 {
            assert(occ.contains(x));
            let i = choose|i: int| 0 <= i < occ.len() && occ[i] == x;
            assert(kept[i] == x);
        } else {
            assert(emp.contains(x));
            let i = choose|i: int| 0 <= i < emp.len() && emp[i] == x;
            if i < fill {
                assert(kept[occ.len() + i] == x);
            } else {
                assert(deleted[i - fill] == x);
            }
        }
    }
}

// ── The effect of a sync's operations ──────────────────────────────────────

/// The anchor rename a sync starts with, when the anchor's name is off.
pub open spec fn sync_head(anchor: (u64, Seq<char>, usize, i64), anchor_id: u64, base: Seq<char>) -> Seq<
    SyncAction,
> {
    if anchor.1 != base {
        seq![SyncAction::Rename { channel_id: anchor_id, index: 1 }]
    } else {
        Seq::empty()
    }
}

pub open spec fn delete_actions(deletes: Seq<u64>) -> Seq<SyncAction> {
    Seq::new(deletes.len(), |k: int| SyncAction::Delete { channel_id: deletes[k] })
}

proof fn lemma_name_after_no_rename(x: Seq<SyncAction>, base: Seq<char>, id: u64, name: Seq<char>)
    requires
        forall|k: int| 0 <= k < x.len() ==> !(#[trigger] x[k] is Rename),
    ensures
        name_after(x, base, id, name) == name,
    decreases x.len(),
{
    if x.len() > 0 {
        assert(x.last() == x[x.len() - 1]);
        lemma_name_after_no_rename(x.drop_last(), base, id, name);
    }
}

proof fn lemma_position_after_no_move(x: Seq<SyncAction>, id: u64, position: i64)
    requires
        forall|k: int| 0 <= k < x.len() ==> !(#[trigger] x[k] is SetPosition),
    ensures
        position_after(x, id, position) == position,
    decreases x.len(),
{
    if x.len() > 0 {
        assert(x.last() == x[x.len() - 1]);
        lemma_position_after_no_move(x.drop_last(), id, position);
    }
}

/// What a sync's operations do to each channel of the category.
proof fn lemma_sync_effects(
    ch: Seq<(u64, Seq<char>, usize, i64)>,
    anchor_id: u64,
    base: Seq<char>,
    a: int,
    snaps: Seq<LaneSnapshot>,
    rs: Seq<(u64, usize)>,
    deletes: Seq<u64>,
    creates: Seq<usize>,
    acts: Seq<SyncAction>,
    new_ids: Seq<u64>,
)
    requires
        0 <= a < ch.len(),
        ch[a].0 == anchor_id,
        distinct_reassigned(rs),
        forall|o: int| 0 <= o < rs.len() ==> (#[trigger] rs[o]).0 != anchor_id,
        acts == sync_head(ch[a], anchor_id, base) + delete_actions(deletes) + all_reassign_actions(
            ch,
            snaps,
            base,
            ch[a].3 as int,
            rs,
        ) + create_actions(creates, ch[a].3 as int),
    ensures
        forall|id: u64| deleted_by(acts, id) <==> deletes.contains(id),
        name_after(acts, base, anchor_id, ch[a].1) == base,
        position_after(acts, anchor_id, ch[a].3) == ch[a].3,
        forall|o: int, name: Seq<char>|
            0 <= o < rs.len() ==> #[trigger] name_after(acts, base, rs[o].0, name) == if lane_renamed(
                snaps,
                base,
                rs[o],
            ) {
                lane_name_spec(base, rs[o].1 as int)
            } else {
                name
            },
        forall|o: int, position: i64|
            0 <= o < rs.len() ==> #[trigger] position_after(acts, rs[o].0, position)
                == if lane_moved(ch, ch[a].3 as int, rs[o]) {
                lane_position(ch[a].3 as int, rs[o].1 as int) as i64
            } else {
                position
            },
        forall|id: u64, name: Seq<char>|
            id != anchor_id && (forall|o: int| 0 <= o < rs.len() ==> (#[trigger] rs[o]).0 != id)
                ==> #[trigger] name_after(acts, base, id, name) == name,
        forall|id: u64, position: i64|
            id != anchor_id && (forall|o: int| 0 <= o < rs.len() ==> (#[trigger] rs[o]).0 != id)
                ==> #[trigger] position_after(acts, id, position) == position,
        created_by(acts, base, new_ids) == Seq::new(
            creates.len(),
            |k: int|
                (
                    new_ids[k],
                    lane_name_spec(base, creates[k] as int),
                    0usize,
                    lane_position(ch[a].3 as int, creates[k] as int) as i64,
                ),
        ),
{
    let apos = ch[a].3 as int;
    let head = sync_head(ch[a], anchor_id, base);
    let dels = delete_actions(deletes);
    let re = all_reassign_actions(ch, snaps, base, apos, rs);
    let cr = create_actions(creates, apos);
    lemma_all_reassign_kinds(ch, snaps, base, apos, rs);
    assert forall|k: int| 0 <= k < dels.len() implies !(#[trigger] dels[k] is Rename) && !(
    dels[k] is SetPosition) && !(dels[k] is Create) by {}
    assert forall|k: int| 0 <= k < cr.len() implies !(#[trigger] cr[k] is Rename) && !(
    cr[k] is SetPosition) && !(cr[k] is Delete) by {}
    assert forall|k: int| 0 <= k < head.len() implies !(#[trigger] head[k] is SetPosition) && !(
    head[k] is Delete) && !(head[k] is Create) by {}
    // deletions
    assert forall|id: u64| deleted_by(acts, id) <==> deletes.contains(id) by {
        if deleted_by(acts, id) {
            let k = choose|k: int|
                0 <= k < acts.len() && acts[k] == SyncAction::Delete { channel_id: id };
            let h = head.len() as int;
            let d = dels.len() as int;
            let e = re.len() as int;
            if k < h {
                assert(acts[k] == head[k]);
            } else if k < h + d {
                assert(acts[k] == dels[k - h]);
                assert(deletes[k - h] == id);
            } else if k < h + d + e {
                assert(acts[k] == re[k - h - d]);
            } else {
                assert(acts[k] == cr[k - h - d - e]);
            }
        }
        if deletes.contains(id) {
            let m = choose|m: int| 0 <= m < deletes.len() && deletes[m] == id;
            assert(acts[head.len() + m] == dels[m]);
        }
    }
    // names and positions through the four parts
    assert forall|id: u64, name: Seq<char>|
        name_after(acts, base, id, name) == name_after(re, base, id, name_after(head, base, id, name)) by {
        lemma_name_after_concat(head + dels + re, cr, base, id, name);
        lemma_name_after_no_rename(cr, base, id, name_after(head + dels + re, base, id, name));
        lemma_name_after_concat(head + dels, re, base, id, name);
        lemma_name_after_concat(head, dels, base, id, name);
        lemma_name_after_no_rename(dels, base, id, name_after(head, base, id, name));
    }
    assert forall|id: u64, position: i64|
        position_after(acts, id, position) == position_after(re, id, position) by {
        lemma_position_after_concat(head + dels + re, cr, id, position);
        lemma_position_after_no_move(cr, id, position_after(head + dels + re, id, position));
        lemma_position_after_concat(head + dels, re, id, position);
        lemma_position_after_concat(head, dels, id, position);
        lemma_position_after_no_move(dels, id, position_after(head, id, position));
        lemma_position_after_no_move(head, id, position);
    }
    // the anchor
    if head.len() > 0 {
        assert(head.drop_last() =~= Seq::<SyncAction>::empty());
        assert(name_after(head.drop_last(), base, anchor_id, ch[a].1) == ch[a].1);
        assert(head.last() == SyncAction::Rename { channel_id: anchor_id, index: 1 });
    }
    assert(name_after(head, base, anchor_id, ch[a].1) == base);
    lemma_all_reassign_name(ch, snaps, base, apos, rs, anchor_id, base);
    lemma_all_reassign_position(ch, snaps, base, apos, rs, anchor_id, ch[a].3);
    // kept lanes and the others
    assert forall|o: int, name: Seq<char>|
        0 <= o < rs.len() implies #[trigger] name_after(acts, base, rs[o].0, name) == if lane_renamed(
            snaps,
            base,
            rs[o],
        ) {
            lane_name_spec(base, rs[o].1 as int)
        } else {
            name
        } by {
        if head.len() > 0 {
            assert(name_after(head.drop_last(), base, rs[o].0, name) == name);
        }
        assert(name_after(head, base, rs[o].0, name) == name);
        lemma_all_reassign_name(ch, snaps, base, apos, rs, rs[o].0, name);
    }
    assert forall|o: int, position: i64|
        0 <= o < rs.len() implies #[trigger] position_after(acts, rs[o].0, position)
            == if lane_moved(ch, apos, rs[o]) {
            lane_position(apos, rs[o].1 as int) as i64
        } else {
            position
        } by {
        lemma_all_reassign_position(ch, snaps, base, apos, rs, rs[o].0, position);
    }
    assert forall|id: u64, name: Seq<char>|
        id != anchor_id && (forall|o: int| 0 <= o < rs.len() ==> (#[trigger] rs[o]).0 != id)
            implies #[trigger] name_after(acts, base, id, name) == name by {
        if head.len() > 0 {
            assert(name_after(head.drop_last(), base, id, name) == name);
        }
        assert(name_after(head, base, id, name) == name);
        lemma_all_reassign_name(ch, snaps, base, apos, rs, id, name);
    }
    assert forall|id: u64, position: i64|
        id != anchor_id && (forall|o: int| 0 <= o < rs.len() ==> (#[trigger] rs[o]).0 != id)
            implies #[trigger] position_after(acts, id, position) == position by {
        lemma_all_reassign_position(ch, snaps, base, apos, rs, id, position);
    }
    // creations
    assert forall|k: int| 0 <= k < (head + dels + re).len() implies !(#[trigger] (head + dels
        + re)[k] is Create) by {
        let h = head.len() as int;
        let d = dels.len() as int;
        if k < h {
            assert((head + dels + re)[k] == head[k]);
        } else if k < h + d {
            assert((head + dels + re)[k] == dels[k - h]);
        } else {
            assert((head + dels + re)[k] == re[k - h - d]);
        }
    }
    lemma_created_after_plain(head + dels + re, cr, base, new_ids);
    lemma_created_lanes(creates, apos, base, new_ids);
}

// ── The sync of a category, part by part ───────────────────────────────────

spec fn snaps_of(ch: Seq<(u64, Seq<char>, usize, i64)>, anchor_id: u64, base: Seq<char>) -> Seq<
    LaneSnapshot,
> {
    managed_snapshots(ch, anchor_id, base)
}

spec fn kept_of(
    ch: Seq<(u64, Seq<char>, usize, i64)>,
    anchor_id: u64,
    base: Seq<char>,
    threshold: nat,
    max_total: Option<usize>,
    a: int,
) -> Seq<LaneSnapshot> {
    plan_kept(ch[a].2 as nat, snaps_of(ch, anchor_id, base), threshold, max_total)
}

spec fn deleted_of(
    ch: Seq<(u64, Seq<char>, usize, i64)>,
    anchor_id: u64,
    base: Seq<char>,
    threshold: nat,
    max_total: Option<usize>,
    a: int,
) -> Seq<LaneSnapshot> {
    plan_emp(snaps_of(ch, anchor_id, base)).skip(
        plan_fill(ch[a].2 as nat, snaps_of(ch, anchor_id, base), threshold, max_total),
    )
}

spec fn creates_of(
    ch: Seq<(u64, Seq<char>, usize, i64)>,
    anchor_id: u64,
    base: Seq<char>,
    threshold: nat,
    max_total: Option<usize>,
    a: int,
) -> Seq<usize> {
    planned_creates(ch[a].2 as nat, snaps_of(ch, anchor_id, base), threshold, max_total)
}

spec fn reassigned_of(
    ch: Seq<(u64, Seq<char>, usize, i64)>,
    anchor_id: u64,
    base: Seq<char>,
    threshold: nat,
    max_total: Option<usize>,
    a: int,
) -> Seq<(u64, usize)> {
    planned_reassignments(ch[a].2 as nat, snaps_of(ch, anchor_id, base), threshold, max_total)
}

spec fn deletes_of(
    ch: Seq<(u64, Seq<char>, usize, i64)>,
    anchor_id: u64,
    base: Seq<char>,
    threshold: nat,
    max_total: Option<usize>,
    a: int,
) -> Seq<u64> {
    planned_deletes(ch[a].2 as nat, snaps_of(ch, anchor_id, base), threshold, max_total)
}

spec fn actions_of(
    ch: Seq<(u64, Seq<char>, usize, i64)>,
    anchor_id: u64,
    base: Seq<char>,
    threshold: nat,
    max_total: Option<usize>,
    a: int,
) -> Seq<SyncAction> {
    sync_head(ch[a], anchor_id, base) + delete_actions(
        deletes_of(ch, anchor_id, base, threshold, max_total, a),
    ) + all_reassign_actions(
        ch,
        snaps_of(ch, anchor_id, base),
        base,
        ch[a].3 as int,
        reassigned_of(ch, anchor_id, base, threshold, max_total, a),
    ) + create_actions(creates_of(ch, anchor_id, base, threshold, max_total, a), ch[a].3 as int)
}

/// A kept lane renumbered to its planned index.
pub open spec fn renumbered(kept: Seq<LaneSnapshot>, o: int) -> LaneSnapshot {
    LaneSnapshot {
        channel_id: kept[o].channel_id,
        current_index: (o + 2) as usize,
        member_count: kept[o].member_count,
    }
}

/// A created lane with its new id.
pub open spec fn new_lane(new_ids: Seq<u64>, creates: Seq<usize>, k: int) -> LaneSnapshot {
    LaneSnapshot { channel_id: new_ids[k], current_index: creates[k], member_count: 0 }
}

proof fn lemma_sync_is_actions_of(
    ch: Seq<(u64, Seq<char>, usize, i64)>,
    anchor_id: u64,
    base: Seq<char>,
    threshold: nat,
    max_total: Option<usize>,
    a: int,
)
    requires
        first_index_of(channel_ids(ch), anchor_id) == Some(a),
    ensures
        sync_actions_spec(ch, anchor_id, base, threshold, max_total) == Some(
            actions_of(ch, anchor_id, base, threshold, max_total, a),
        ),
{
}

/// The plan's facts for the kept lanes of a category: their ids and the
/// renumbering they get.
proof fn lemma_context_basics(
    ch: Seq<(u64, Seq<char>, usize, i64)>,
    anchor_id: u64,
    base: Seq<char>,
    threshold: nat,
    max_total: Option<usize>,
    a: int,
)
    requires
        distinct_channel_ids(ch),
        0 <= a < ch.len(),
        ch[a].0 == anchor_id,
    ensures
        ({
            let snaps = snaps_of(ch, anchor_id, base);
            let kept = kept_of(ch, anchor_id, base, threshold, max_total, a);
            let deleted = deleted_of(ch, anchor_id, base, threshold, max_total, a);
            let rs = reassigned_of(ch, anchor_id, base, threshold, max_total, a);
            let deletes = deletes_of(ch, anchor_id, base, threshold, max_total, a);
            let creates = creates_of(ch, anchor_id, base, threshold, max_total, a);
            let count = ch[a].2 as nat;
            let desired = desired_total_spec(count, plan_occ(snaps), threshold, max_total);
            &&& distinct_snapshot_ids(snaps)
            &&& distinct_snapshot_ids(kept)
            &&& kept.len() <= snaps.len() <= ch.len()
            &&& desired <= snaps.len() + 2
            &&& rs.len() == kept.len()
            &&& forall|o: int| 0 <= o < rs.len() ==> #[trigger] rs[o] == (kept[o].channel_id, (o + 2) as usize)
            &&& distinct_reassigned(rs)
            &&& forall|o: int| 0 <= o < rs.len() ==> (#[trigger] rs[o]).0 != anchor_id
            &&& deletes.len() == deleted.len()
            &&& forall|m: int| 0 <= m < deletes.len() ==> #[trigger] deletes[m] == deleted[m].channel_id
            &&& forall|k: int| 0 <= k < creates.len() ==> #[trigger] creates[k] == (kept.len() + 2 + k) as usize
            &&& creates.len() == (if desired > kept.len() + 1 { desired - kept.len() - 1 } else { 0 })
            &&& forall|o: int| 0 <= o < kept.len() ==> snaps.contains(#[trigger] kept[o])
            &&& forall|m: int| 0 <= m < deleted.len() ==> snaps.contains(#[trigger] deleted[m])
            &&& forall|o: int, m: int|
                0 <= o < kept.len() && 0 <= m < deleted.len() ==> (#[trigger] kept[o]).channel_id
                    != (#[trigger] deleted[m]).channel_id
            &&& forall|x: LaneSnapshot| snaps.contains(x) ==> kept.contains(x) || deleted.contains(x)
            &&& forall|x: LaneSnapshot| snaps.contains(x) ==> x.channel_id != anchor_id
        }),
{
    let snaps = snaps_of(ch, anchor_id, base);
    let count = ch[a].2 as nat;
    lemma_managed_distinct(ch, anchor_id, base);
    lemma_plan_split(count, snaps, threshold, max_total);
    lemma_plan_sizes(count, snaps, threshold, max_total);
    let kept = kept_of(ch, anchor_id, base, threshold, max_total, a);
    let rs = reassigned_of(ch, anchor_id, base, threshold, max_total, a);
    assert(snaps.len() <= ch.len()) by {
        lemma_managed_len(ch, anchor_id, base);
    }
    assert forall|x: LaneSnapshot| snaps.contains(x) implies x.channel_id != anchor_id by {
        lemma_managed_contains(ch, anchor_id, base, x);
    }
    assert forall|o: int| 0 <= o < rs.len() implies (#[trigger] rs[o]).0 != anchor_id by {
        assert(snaps.contains(kept[o]));
    }
}

proof fn lemma_managed_len(ch: Seq<(u64, Seq<char>, usize, i64)>, anchor_id: u64, base: Seq<char>)
    ensures
        managed_snapshots(ch, anchor_id, base).len() <= ch.len(),
    decreases ch.len(),
{
    if ch.len() > 0 {
        lemma_managed_len(ch.drop_last(), anchor_id, base);
    }
}

/// A kept lane after the sync's operations: it is still there, reads as
/// its planned index and sits at its planned position.
proof fn lemma_kept_lane_after(
    ch: Seq<(u64, Seq<char>, usize, i64)>,
    anchor_id: u64,
    base: Seq<char>,
    threshold: nat,
    max_total: Option<usize>,
    a: int,
    o: int,
)
    requires
        distinct_channel_ids(ch),
        0 <= a < ch.len(),
        ch[a].0 == anchor_id,
        plain_base(base),
        ch.len() + 4 <= usize::MAX,
        ch[a].3 + ch.len() + 2 <= i64::MAX,
        0 <= o < kept_of(ch, anchor_id, base, threshold, max_total, a).len(),
    ensures
        ({
            let acts = actions_of(ch, anchor_id, base, threshold, max_total, a);
            let kept = kept_of(ch, anchor_id, base, threshold, max_total, a);
            exists|j: int|
                0 <= j < ch.len() && (#[trigger] ch[j]).0 == kept[o].channel_id && j != a
                    && !deleted_by(acts, ch[j].0) && lane_index_spec(
                    ch[j].0,
                    anchor_id,
                    base,
                    name_after(acts, base, ch[j].0, ch[j].1),
                ) == Some((o + 2) as usize) && ch[j].2 == kept[o].member_count && position_after(
                    acts,
                    ch[j].0,
                    ch[j].3,
                ) == lane_position(ch[a].3 as int, o + 2)
        }),
{
    let snaps = snaps_of(ch, anchor_id, base);
    let kept = kept_of(ch, anchor_id, base, threshold, max_total, a);
    let deleted = deleted_of(ch, anchor_id, base, threshold, max_total, a);
    let rs = reassigned_of(ch, anchor_id, base, threshold, max_total, a);
    let deletes = deletes_of(ch, anchor_id, base, threshold, max_total, a);
    let creates = creates_of(ch, anchor_id, base, threshold, max_total, a);
    let acts = actions_of(ch, anchor_id, base, threshold, max_total, a);
    let apos = ch[a].3 as int;
    lemma_context_basics(ch, anchor_id, base, threshold, max_total, a);
    lemma_sync_effects(ch, anchor_id, base, a, snaps, rs, deletes, creates, acts, Seq::empty());
    let x = kept[o];
    assert(snaps.contains(x));
    lemma_managed_contains(ch, anchor_id, base, x);
    let j = choose|j: int|
        0 <= j < ch.len() && (#[trigger] ch[j]).0 == x.channel_id && ch[j].0 != anchor_id
            && lane_index_spec(ch[j].0, anchor_id, base, ch[j].1) == Some(x.current_index)
            && ch[j].2 == x.member_count;
    assert(j != a);
    // not deleted
    if deletes.contains(ch[j].0) {
        let m = choose|m: int| 0 <= m < deletes.len() && deletes[m] == ch[j].0;
        assert(kept[o].channel_id != deleted[m].channel_id);
    }
    assert(!deleted_by(acts, ch[j].0));
    // its name reads as the planned index
    assert(rs[o] == (x.channel_id, (o + 2) as usize));
    assert(name_after(acts, base, rs[o].0, ch[j].1) == if lane_renamed(snaps, base, rs[o]) {
        lane_name_spec(base, rs[o].1 as int)
    } else {
        ch[j].1
    });
    assert(x.current_index >= 2);
    if lane_renamed(snaps, base, rs[o]) {
        lemma_lane_name_reads_back(ch[j].0, anchor_id, base, o + 2);
    } else {
        let ids = snapshot_ids(snaps);
        assert(exists|k: int| is_first_of(ids, rs[o].0, k));
        let k = choose|k: int| is_first_of(ids, rs[o].0, k);
        assert(ids[k] == snaps[k].channel_id);
        let w = choose|w: int| 0 <= w < snaps.len() && snaps[w] == x;
        if w != k {
            assert(snaps[w].channel_id != snaps[k].channel_id);
        }
        assert(snaps[k] == x);
        lemma_lane_names_differ(base, x.current_index as int, o + 2);
    }
    // its position is the planned one
    assert(position_after(acts, rs[o].0, ch[j].3) == if lane_moved(ch, apos, rs[o]) {
        lane_position(apos, rs[o].1 as int) as i64
    } else {
        ch[j].3
    });
    if !lane_moved(ch, apos, rs[o]) {
        let ids = channel_ids(ch);
        assert(exists|k: int| is_first_of(ids, rs[o].0, k));
        let k = choose|k: int| is_first_of(ids, rs[o].0, k);
        assert(ids[k] == ch[k].0);
        if k != j {
            assert(ch[k].0 != ch[j].0);
        }
    }
}

/// A channel that reads as a lane after the sync was a kept lane.
proof fn lemma_lane_after_was_kept(
    ch: Seq<(u64, Seq<char>, usize, i64)>,
    anchor_id: u64,
    base: Seq<char>,
    threshold: nat,
    max_total: Option<usize>,
    a: int,
    j: int,
)
    requires
        distinct_channel_ids(ch),
        0 <= a < ch.len(),
        ch[a].0 == anchor_id,
        0 <= j < ch.len(),
        ch[j].0 != anchor_id,
        !deleted_by(actions_of(ch, anchor_id, base, threshold, max_total, a), ch[j].0),
        lane_index_spec(
            ch[j].0,
            anchor_id,
            base,
            name_after(actions_of(ch, anchor_id, base, threshold, max_total, a), base, ch[j].0, ch[j].1),
        ) is Some,
    ensures
        exists|o: int|
            0 <= o < kept_of(ch, anchor_id, base, threshold, max_total, a).len() && (
            #[trigger] kept_of(ch, anchor_id, base, threshold, max_total, a)[o]).channel_id
                == ch[j].0,
{
    let snaps = snaps_of(ch, anchor_id, base);
    let kept = kept_of(ch, anchor_id, base, threshold, max_total, a);
    let deleted = deleted_of(ch, anchor_id, base, threshold, max_total, a);
    let rs = reassigned_of(ch, anchor_id, base, threshold, max_total, a);
    let deletes = deletes_of(ch, anchor_id, base, threshold, max_total, a);
    let creates = creates_of(ch, anchor_id, base, threshold, max_total, a);
    let acts = actions_of(ch, anchor_id, base, threshold, max_total, a);
    lemma_context_basics(ch, anchor_id, base, threshold, max_total, a);
    lemma_sync_effects(ch, anchor_id, base, a, snaps, rs, deletes, creates, acts, Seq::empty());
    if exists|o: int| 0 <= o < rs.len() && (#[trigger] rs[o]).0 == ch[j].0 {
        let o = choose|o: int| 0 <= o < rs.len() && (#[trigger] rs[o]).0 == ch[j].0;
        assert(kept[o].channel_id == ch[j].0);
    } else {
        assert(name_after(acts, base, ch[j].0, ch[j].1) == ch[j].1);
        let cur = lane_index_spec(ch[j].0, anchor_id, base, ch[j].1)->0;
        let x = LaneSnapshot { channel_id: ch[j].0, current_index: cur, member_count: ch[j].2 };
        lemma_managed_contains(ch, anchor_id, base, x);
        assert(snaps.contains(x));
        if kept.contains(x) {
            let o = choose|o: int| 0 <= o < kept.len() && kept[o] == x;
            assert(rs[o].0 == ch[j].0);
        } else {
            assert(deleted.contains(x));
            let m = choose|m: int| 0 <= m < deleted.len() && deleted[m] == x;
            assert(deletes[m] == ch[j].0);
            assert(deletes.contains(ch[j].0));
        }
    }
}

/// New channel ids: apart from each other and from the category's ids.
pub open spec fn fresh_ids(ch: Seq<(u64, Seq<char>, usize, i64)>, new_ids: Seq<u64>) -> bool {
    &&& forall|i: int, j: int|
        0 <= i < new_ids.len() && 0 <= j < new_ids.len() && i != j ==> #[trigger] new_ids[i]
            != #[trigger] new_ids[j]
    &&& forall|i: int, j: int|
        0 <= i < new_ids.len() && 0 <= j < ch.len() ==> #[trigger] new_ids[i] != (#[trigger] ch[j]).0
}

/// What the category looks like once a sync's operations are performed.
spec fn after_facts(
    ch: Seq<(u64, Seq<char>, usize, i64)>,
    anchor_id: u64,
    base: Seq<char>,
    threshold: nat,
    max_total: Option<usize>,
    a: int,
    new_ids: Seq<u64>,
) -> bool {
            let acts = actions_of(ch, anchor_id, base, threshold, max_total, a);
            let kept = kept_of(ch, anchor_id, base, threshold, max_total, a);
            let creates = creates_of(ch, anchor_id, base, threshold, max_total, a);
            let ch2 = category_after(ch, acts, base, new_ids);
            let snaps2 = managed_snapshots(ch2, anchor_id, base);
            &&& distinct_channel_ids(ch2)
            &&& exists|i: int| 0 <= i < ch2.len() && #[trigger] ch2[i] == (anchor_id, base, ch[a].2, ch[a].3)
            &&& distinct_snapshot_ids(snaps2)
            &&& forall|x: LaneSnapshot|
                snaps2.contains(x) <==> ((exists|o: int|
                    0 <= o < kept.len() && x == #[trigger] renumbered(kept, o)) || (exists|k: int|
                    0 <= k < creates.len() && x == #[trigger] new_lane(new_ids, creates, k)))
            &&& forall|o: int, i: int|
                #![trigger kept[o], ch2[i]]
                0 <= o < kept.len() && 0 <= i < ch2.len() && ch2[i].0 == kept[o].channel_id
                    ==> ch2[i].3 == lane_position(ch[a].3 as int, o + 2)
            &&& forall|k: int, i: int|
                #![trigger creates[k], ch2[i]]
                0 <= k < creates.len() && 0 <= i < ch2.len() && ch2[i].0 == new_ids[k]
                    ==> ch2[i].3 == lane_position(ch[a].3 as int, creates[k] as int)
}

/// The category after the sync's operations: ids stay apart, the anchor is
/// there under the base name, the lanes are the kept lanes renumbered and
/// the created ones, each at its planned position.
proof fn lemma_category_after(
    ch: Seq<(u64, Seq<char>, usize, i64)>,
    anchor_id: u64,
    base: Seq<char>,
    threshold: nat,
    max_total: Option<usize>,
    a: int,
    new_ids: Seq<u64>,
)
    requires
        distinct_channel_ids(ch),
        0 <= a < ch.len(),
        ch[a].0 == anchor_id,
        plain_base(base),
        ch.len() + 4 <= usize::MAX,
        ch[a].3 + ch.len() + 2 <= i64::MAX,
        fresh_ids(ch, new_ids),
        new_ids.len() >= creates_of(ch, anchor_id, base, threshold, max_total, a).len(),
    ensures
        after_facts(ch, anchor_id, base, threshold, max_total, a, new_ids),
{
    let snaps = snaps_of(ch, anchor_id, base);
    let kept = kept_of(ch, anchor_id, base, threshold, max_total, a);
    let deleted = deleted_of(ch, anchor_id, base, threshold, max_total, a);
    let rs = reassigned_of(ch, anchor_id, base, threshold, max_total, a);
    let deletes = deletes_of(ch, anchor_id, base, threshold, max_total, a);
    let creates = creates_of(ch, anchor_id, base, threshold, max_total, a);
    let acts = actions_of(ch, anchor_id, base, threshold, max_total, a);
    let apos = ch[a].3 as int;
    lemma_context_basics(ch, anchor_id, base, threshold, max_total, a);
    lemma_sync_effects(ch, anchor_id, base, a, snaps, rs, deletes, creates, acts, new_ids);
    let rem = remaining_after(ch, acts, base);
    let cre = created_by(acts, base, new_ids);
    let ch2 = category_after(ch, acts, base, new_ids);
    assert(ch2 == rem + cre);
    assert(cre.len() == creates.len());
    assert forall|k: int| 0 <= k < cre.len() implies #[trigger] cre[k] == (
        new_ids[k],
        lane_name_spec(base, creates[k] as int),
        0usize,
        lane_position(apos, creates[k] as int) as i64,
    ) by {}
    lemma_remaining_distinct(ch, acts, base);
    // ids of the remaining channels are ids of the category
    assert forall|i: int| 0 <= i < rem.len() implies exists|j: int|
        0 <= j < ch.len() && !deleted_by(acts, ch[j].0) && #[trigger] rem[i] == updated(
            #[trigger] ch[j],
            acts,
            base,
        ) by {
        assert(rem.contains(rem[i]));
        lemma_remaining_contains(ch, acts, base, rem[i]);
    }
    // F1
    assert forall|i: int, j: int|
        0 <= i < ch2.len() && 0 <= j < ch2.len() && i != j implies (#[trigger] ch2[i]).0 != (
        #[trigger] ch2[j]).0 by {
        if i < rem.len() && j < rem.len() {
            assert(ch2[i] == rem[i] && ch2[j] == rem[j]);
        } else if i >= rem.len() && j >= rem.len() {
            assert(ch2[i] == cre[i - rem.len()] && ch2[j] == cre[j - rem.len()]);
        } else if i < rem.len() {
            assert(ch2[i] == rem[i] && ch2[j] == cre[j - rem.len()]);
            let w = choose|w: int|
                0 <= w < ch.len() && !deleted_by(acts, ch[w].0) && rem[i] == updated(
                    #[trigger] ch[w],
                    acts,
                    base,
                );
            assert(new_ids[j - rem.len()] != ch[w].0);
        } else {
            assert(ch2[j] == rem[j] && ch2[i] == cre[i - rem.len()]);
            let w = choose|w: int|
                0 <= w < ch.len() && !deleted_by(acts, ch[w].0) && rem[j] == updated(
                    #[trigger] ch[w],
                    acts,
                    base,
                );
            assert(new_ids[i - rem.len()] != ch[w].0);
        }
    }
    // F2: the anchor stays, under the base name
    if deletes.contains(anchor_id) {
        let m = choose|m: int| 0 <= m < deletes.len() && deletes[m] == anchor_id;
        assert(snaps.contains(deleted[m]));
    }
    assert(updated(ch[a], acts, base) == (anchor_id, base, ch[a].2, ch[a].3));
    lemma_remaining_contains(ch, acts, base, (anchor_id, base, ch[a].2, ch[a].3));
    let ia = choose|i: int| 0 <= i < rem.len() && rem[i] == (anchor_id, base, ch[a].2, ch[a].3);
    assert(ch2[ia] == rem[ia]);
    // F3: the lanes after
    lemma_managed_concat(rem, cre, anchor_id, base);
    let mr = managed_snapshots(rem, anchor_id, base);
    let mc = managed_snapshots(cre, anchor_id, base);
    let snaps2 = managed_snapshots(ch2, anchor_id, base);
    assert(snaps2 == mr + mc);
    assert forall|x: LaneSnapshot|
        mr.contains(x) <==> exists|o: int| 0 <= o < kept.len() && x == #[trigger] renumbered(kept, o) by {
        lemma_managed_contains(rem, anchor_id, base, x);
        if mr.contains(x) {
            let i = choose|i: int|
                0 <= i < rem.len() && (#[trigger] rem[i]).0 == x.channel_id && rem[i].0 != anchor_id
                    && lane_index_spec(rem[i].0, anchor_id, base, rem[i].1) == Some(x.current_index)
                    && rem[i].2 == x.member_count;
            let j = choose|j: int|
                0 <= j < ch.len() && !deleted_by(acts, ch[j].0) && rem[i] == updated(
                    #[trigger] ch[j],
                    acts,
                    base,
                );
            lemma_lane_after_was_kept(ch, anchor_id, base, threshold, max_total, a, j);
            let o = choose|o: int| 0 <= o < kept.len() && (#[trigger] kept[o]).channel_id == ch[j].0;
            lemma_kept_lane_after(ch, anchor_id, base, threshold, max_total, a, o);
            let j2 = choose|j2: int|
                0 <= j2 < ch.len() && (#[trigger] ch[j2]).0 == kept[o].channel_id && j2 != a
                    && !deleted_by(acts, ch[j2].0) && lane_index_spec(
                    ch[j2].0,
                    anchor_id,
                    base,
                    name_after(acts, base, ch[j2].0, ch[j2].1),
                ) == Some((o + 2) as usize) && ch[j2].2 == kept[o].member_count && position_after(
                    acts,
                    ch[j2].0,
                    ch[j2].3,
                ) == lane_position(apos, o + 2);
            if j2 != j {
                assert(ch[j2].0 != ch[j].0);
            }
            assert(x == renumbered(kept, o));
        }
        if exists|o: int| 0 <= o < kept.len() && x == #[trigger] renumbered(kept, o) {
            let o = choose|o: int| 0 <= o < kept.len() && x == #[trigger] renumbered(kept, o);
            lemma_kept_lane_after(ch, anchor_id, base, threshold, max_total, a, o);
            let j = choose|j: int|
                0 <= j < ch.len() && (#[trigger] ch[j]).0 == kept[o].channel_id && j != a
                    && !deleted_by(acts, ch[j].0) && lane_index_spec(
                    ch[j].0,
                    anchor_id,
                    base,
                    name_after(acts, base, ch[j].0, ch[j].1),
                ) == Some((o + 2) as usize) && ch[j].2 == kept[o].member_count && position_after(
                    acts,
                    ch[j].0,
                    ch[j].3,
                ) == lane_position(apos, o + 2);
            lemma_remaining_contains(ch, acts, base, updated(ch[j], acts, base));
            let i = choose|i: int| 0 <= i < rem.len() && rem[i] == updated(ch[j], acts, base);
            assert(ch[j].0 != anchor_id);
            assert(rem[i].0 == x.channel_id);
        }
    }
    assert forall|x: LaneSnapshot|
        mc.contains(x) <==> exists|k: int| 0 <= k < creates.len() && x == #[trigger] new_lane(new_ids, creates, k) by {
        lemma_managed_contains(cre, anchor_id, base, x);
        if mc.contains(x) {
            let i = choose|i: int|
                0 <= i < cre.len() && (#[trigger] cre[i]).0 == x.channel_id && cre[i].0 != anchor_id
                    && lane_index_spec(cre[i].0, anchor_id, base, cre[i].1) == Some(x.current_index)
                    && cre[i].2 == x.member_count;
            assert(new_ids[i] != ch[a].0);
            lemma_lane_name_reads_back(new_ids[i], anchor_id, base, creates[i] as int);
            assert(x == new_lane(new_ids, creates, i));
        }
        if exists|k: int| 0 <= k < creates.len() && x == #[trigger] new_lane(new_ids, creates, k) {
            let k = choose|k: int| 0 <= k < creates.len() && x == #[trigger] new_lane(new_ids, creates, k);
            assert(new_ids[k] != ch[a].0);
            lemma_lane_name_reads_back(new_ids[k], anchor_id, base, creates[k] as int);
            assert(cre[k].0 == x.channel_id);
        }
    }
    assert forall|x: LaneSnapshot| snaps2.contains(x) <==> mr.contains(x) || mc.contains(x) by {
        if snaps2.contains(x) {
            let i = choose|i: int| 0 <= i < snaps2.len() && snaps2[i] == x;
            if i < mr.len() {
                assert(mr[i] == x);
            } else {
                assert(mc[i - mr.len()] == x);
            }
        }
        if mr.contains(x) {
            let i = choose|i: int| 0 <= i < mr.len() && mr[i] == x;
            assert(snaps2[i] == x);
        }
        if mc.contains(x) {
            let i = choose|i: int| 0 <= i < mc.len() && mc[i] == x;
            assert(snaps2[mr.len() + i] == x);
        }
    }
    // F4
    lemma_managed_distinct(ch2, anchor_id, base);
    // F5
    assert forall|o: int, i: int|
        #![trigger kept[o], ch2[i]]
        0 <= o < kept.len() && 0 <= i < ch2.len() && ch2[i].0 == kept[o].channel_id implies ch2[i].3
            == lane_position(apos, o + 2) by {
        lemma_kept_lane_after(ch, anchor_id, base, threshold, max_total, a, o);
        let j = choose|j: int|
            0 <= j < ch.len() && (#[trigger] ch[j]).0 == kept[o].channel_id && j != a
                && !deleted_by(acts, ch[j].0) && lane_index_spec(
                ch[j].0,
                anchor_id,
                base,
                name_after(acts, base, ch[j].0, ch[j].1),
            ) == Some((o + 2) as usize) && ch[j].2 == kept[o].member_count && position_after(
                acts,
                ch[j].0,
                ch[j].3,
            ) == lane_position(apos, o + 2);
        if i < rem.len() {
            assert(ch2[i] == rem[i]);
            let w = choose|w: int|
                0 <= w < ch.len() && !deleted_by(acts, ch[w].0) && rem[i] == updated(
                    #[trigger] ch[w],
                    acts,
                    base,
                );
            if w != j {
                assert(ch[w].0 != ch[j].0);
            }
        } else {
            assert(ch2[i] == cre[i - rem.len()]);
            assert(new_ids[i - rem.len()] != ch[j].0);
        }
    }
    // F6
    assert forall|k: int, i: int|
        #![trigger creates[k], ch2[i]]
        0 <= k < creates.len() && 0 <= i < ch2.len() && ch2[i].0 == new_ids[k] implies ch2[i].3
            == lane_position(apos, creates[k] as int) by {
        if i < rem.len() {
            assert(ch2[i] == rem[i]);
            let w = choose|w: int|
                0 <= w < ch.len() && !deleted_by(acts, ch[w].0) && rem[i] == updated(
                    #[trigger] ch[w],
                    acts,
                    base,
                );
            assert(new_ids[k] != ch[w].0);
        } else {
            let k2 = i - rem.len();
            assert(ch2[i] == cre[k2]);
            if k2 != k {
                assert(new_ids[k2] != new_ids[k]);
            }
        }
    }
}

proof fn lemma_find_channel(ch: Seq<(u64, Seq<char>, usize, i64)>, w: int)
    requires
        distinct_channel_ids(ch),
        0 <= w < ch.len(),
    ensures
        first_index_of(channel_ids(ch), ch[w].0) == Some(w),
{
    let ids = channel_ids(ch);
    assert forall|j: int| 0 <= j < w implies ids[j] != ch[w].0 by {
        assert(ch[j].0 != ch[w].0);
    }
    lemma_first_found(ids, ch[w].0, w);
}

proof fn lemma_find_snapshot(s: Seq<LaneSnapshot>, w: int)
    requires
        distinct_snapshot_ids(s),
        0 <= w < s.len(),
    ensures
        first_index_of(snapshot_ids(s), s[w].channel_id) == Some(w),
{
    let ids = snapshot_ids(s);
    assert forall|j: int| 0 <= j < w implies ids[j] != s[w].channel_id by {
        assert(s[j].channel_id != s[w].channel_id);
    }
    lemma_first_found(ids, s[w].channel_id, w);
}

/// The second round's occupied lanes: the first round's, renumbered.
proof fn lemma_second_occ(
    ch: Seq<(u64, Seq<char>, usize, i64)>,
    anchor_id: u64,
    base: Seq<char>,
    threshold: nat,
    max_total: Option<usize>,
    a: int,
    new_ids: Seq<u64>,
)
    requires
        distinct_channel_ids(ch),
        0 <= a < ch.len(),
        ch[a].0 == anchor_id,
        ch.len() + 4 <= usize::MAX,
        after_facts(ch, anchor_id, base, threshold, max_total, a, new_ids),
    ensures
        ({
            let snaps = snaps_of(ch, anchor_id, base);
            let kept = kept_of(ch, anchor_id, base, threshold, max_total, a);
            let acts = actions_of(ch, anchor_id, base, threshold, max_total, a);
            let snaps2 = managed_snapshots(category_after(ch, acts, base, new_ids), anchor_id, base);
            plan_occ(snaps2) == Seq::new(plan_occ(snaps).len(), |o: int| renumbered(kept, o))
        }),
{
    let snaps = snaps_of(ch, anchor_id, base);
    let count = ch[a].2 as nat;
    let kept = kept_of(ch, anchor_id, base, threshold, max_total, a);
    let creates = creates_of(ch, anchor_id, base, threshold, max_total, a);
    let acts = actions_of(ch, anchor_id, base, threshold, max_total, a);
    let occ = plan_occ(snaps);
    lemma_context_basics(ch, anchor_id, base, threshold, max_total, a);
    lemma_plan_split(count, snaps, threshold, max_total);
    let snaps2 = managed_snapshots(category_after(ch, acts, base, new_ids), anchor_id, base);
    let t_occ = Seq::new(occ.len(), |o: int| renumbered(kept, o));
    assert forall|o: int| 0 <= o < t_occ.len() implies (#[trigger] t_occ[o]).current_index == o + 2 by {}
    assert(strictly_sorted(t_occ));
    lemma_occupied_empty_distinct(snaps2);
    assert forall|x: LaneSnapshot| occupied_of(snaps2).contains(x) <==> t_occ.contains(x) by {
        lemma_occupied_empty_contains(snaps2, x);
        if occupied_of(snaps2).contains(x) {
            if exists|o: int| 0 <= o < kept.len() && x == #[trigger] renumbered(kept, o) {
                let o = choose|o: int| 0 <= o < kept.len() && x == #[trigger] renumbered(kept, o);
                assert(t_occ[o] == x);
            } else {
                let k = choose|k: int|
                    0 <= k < creates.len() && x == #[trigger] new_lane(new_ids, creates, k);
            }
        }
        if t_occ.contains(x) {
            let o = choose|o: int| 0 <= o < t_occ.len() && t_occ[o] == x;
            assert(x == renumbered(kept, o));
            assert(kept[o].member_count > 0);
        }
    }
    lemma_isort_is(occupied_of(snaps2), t_occ);
}

/// The second round's empty lanes: the kept empty lanes, renumbered, then
/// the created ones.
proof fn lemma_second_emp(
    ch: Seq<(u64, Seq<char>, usize, i64)>,
    anchor_id: u64,
    base: Seq<char>,
    threshold: nat,
    max_total: Option<usize>,
    a: int,
    new_ids: Seq<u64>,
)
    requires
        distinct_channel_ids(ch),
        0 <= a < ch.len(),
        ch[a].0 == anchor_id,
        ch.len() + 4 <= usize::MAX,
        after_facts(ch, anchor_id, base, threshold, max_total, a, new_ids),
    ensures
        ({
            let snaps = snaps_of(ch, anchor_id, base);
            let count = ch[a].2 as nat;
            let kept = kept_of(ch, anchor_id, base, threshold, max_total, a);
            let creates = creates_of(ch, anchor_id, base, threshold, max_total, a);
            let acts = actions_of(ch, anchor_id, base, threshold, max_total, a);
            let snaps2 = managed_snapshots(category_after(ch, acts, base, new_ids), anchor_id, base);
            let occ = plan_occ(snaps);
            let fill = plan_fill(count, snaps, threshold, max_total);
            plan_emp(snaps2) == Seq::new(
                (fill + creates.len()) as nat,
                |k: int|
                    if k < fill {
                        renumbered(kept, occ.len() + k)
                    } else {
                        new_lane(new_ids, creates, k - fill)
                    },
            )
        }),
{
    let snaps = snaps_of(ch, anchor_id, base);
    let count = ch[a].2 as nat;
    let kept = kept_of(ch, anchor_id, base, threshold, max_total, a);
    let creates = creates_of(ch, anchor_id, base, threshold, max_total, a);
    let acts = actions_of(ch, anchor_id, base, threshold, max_total, a);
    let occ = plan_occ(snaps);
    let fill = plan_fill(count, snaps, threshold, max_total);
    let nc = creates.len() as int;
    lemma_context_basics(ch, anchor_id, base, threshold, max_total, a);
    lemma_plan_split(count, snaps, threshold, max_total);
    let snaps2 = managed_snapshots(category_after(ch, acts, base, new_ids), anchor_id, base);
    let t_emp = Seq::new(
        (fill + nc) as nat,
        |k: int|
            if k < fill {
                renumbered(kept, occ.len() + k)
            } else {
                new_lane(new_ids, creates, k - fill)
            },
    );
    assert forall|k: int| 0 <= k < t_emp.len() implies (#[trigger] t_emp[k]).current_index
        == occ.len() + 2 + k && t_emp[k].member_count == 0 by {
        if k < fill {
            assert(kept[occ.len() + k].member_count == 0);
        }
    }
    assert(strictly_sorted(t_emp));
    lemma_occupied_empty_distinct(snaps2);
    assert forall|x: LaneSnapshot| empty_of(snaps2).contains(x) <==> t_emp.contains(x) by {
        lemma_occupied_empty_contains(snaps2, x);
        if empty_of(snaps2).contains(x) {
            if exists|o: int| 0 <= o < kept.len() && x == #[trigger] renumbered(kept, o) {
                let o = choose|o: int| 0 <= o < kept.len() && x == #[trigger] renumbered(kept, o);
                assert(o >= occ.len());
                assert(t_emp[o - occ.len()] == x);
            } else {
                let k = choose|k: int|
                    0 <= k < creates.len() && x == #[trigger] new_lane(new_ids, creates, k);
                assert(t_emp[fill + k] == x);
            }
        }
        if t_emp.contains(x) {
            let k = choose|k: int| 0 <= k < t_emp.len() && t_emp[k] == x;
            if k < fill {
                assert(x == renumbered(kept, occ.len() + k));
            } else {
                assert(x == new_lane(new_ids, creates, k - fill));
            }
        }
    }
    lemma_isort_is(empty_of(snaps2), t_emp);
}

spec fn second_kept(
    ch: Seq<(u64, Seq<char>, usize, i64)>,
    anchor_id: u64,
    base: Seq<char>,
    threshold: nat,
    max_total: Option<usize>,
    a: int,
    new_ids: Seq<u64>,
) -> Seq<LaneSnapshot> {
    let snaps = snaps_of(ch, anchor_id, base);
    let count = ch[a].2 as nat;
    let kept = kept_of(ch, anchor_id, base, threshold, max_total, a);
    let creates = creates_of(ch, anchor_id, base, threshold, max_total, a);
    let occ = plan_occ(snaps);
    let fill = plan_fill(count, snaps, threshold, max_total);
    Seq::new(occ.len(), |o: int| renumbered(kept, o)) + Seq::new(
        (fill + creates.len()) as nat,
        |k: int|
            if k < fill {
                renumbered(kept, occ.len() + k)
            } else {
                new_lane(new_ids, creates, k - fill)
            },
    )
}

/// The second round's plan keeps every lane there is, deletes none and
/// creates none.
proof fn lemma_second_plan(
    ch: Seq<(u64, Seq<char>, usize, i64)>,
    anchor_id: u64,
    base: Seq<char>,
    threshold: nat,
    max_total: Option<usize>,
    a: int,
    new_ids: Seq<u64>,
)
    requires
        distinct_channel_ids(ch),
        0 <= a < ch.len(),
        ch[a].0 == anchor_id,
        ch.len() + 4 <= usize::MAX,
        after_facts(ch, anchor_id, base, threshold, max_total, a, new_ids),
    ensures
        ({
            let count = ch[a].2 as nat;
            let acts = actions_of(ch, anchor_id, base, threshold, max_total, a);
            let snaps2 = managed_snapshots(category_after(ch, acts, base, new_ids), anchor_id, base);
            &&& plan_kept(count, snaps2, threshold, max_total) == second_kept(
                ch,
                anchor_id,
                base,
                threshold,
                max_total,
                a,
                new_ids,
            )
            &&& planned_deletes(count, snaps2, threshold, max_total) == Seq::<u64>::empty()
            &&& planned_creates(count, snaps2, threshold, max_total) == Seq::<usize>::empty()
        }),
{
    let snaps = snaps_of(ch, anchor_id, base);
    let count = ch[a].2 as nat;
    let kept = kept_of(ch, anchor_id, base, threshold, max_total, a);
    let creates = creates_of(ch, anchor_id, base, threshold, max_total, a);
    let acts = actions_of(ch, anchor_id, base, threshold, max_total, a);
    let occ = plan_occ(snaps);
    let fill = plan_fill(count, snaps, threshold, max_total);
    let desired = desired_total_spec(count, occ, threshold, max_total);
    let nc = creates.len() as int;
    lemma_context_basics(ch, anchor_id, base, threshold, max_total, a);
    lemma_plan_split(count, snaps, threshold, max_total);
    lemma_second_occ(ch, anchor_id, base, threshold, max_total, a, new_ids);
    lemma_second_emp(ch, anchor_id, base, threshold, max_total, a, new_ids);
    let snaps2 = managed_snapshots(category_after(ch, acts, base, new_ids), anchor_id, base);
    let t_occ = Seq::new(occ.len(), |o: int| renumbered(kept, o));
    let t_emp = Seq::new(
        (fill + nc) as nat,
        |k: int|
            if k < fill {
                renumbered(kept, occ.len() + k)
            } else {
                new_lane(new_ids, creates, k - fill)
            },
    );
    assert(plan_occ(snaps2) == t_occ);
    assert(plan_emp(snaps2) == t_emp);
    assert forall|i: int| 0 <= i < t_occ.len() implies (#[trigger] t_occ[i]).member_count
        == occ[i].member_count by {
        assert(kept[i] == occ[i]);
    }
    lemma_full_level_same_members(t_occ, occ, threshold);
    assert(desired_total_spec(count, t_occ, threshold, max_total) == desired);
    let fill2 = plan_fill(count, snaps2, threshold, max_total);
    assert(fill2 == fill + nc);
    assert(t_emp.take(fill2) =~= t_emp);
    assert(planned_deletes(count, snaps2, threshold, max_total) =~= Seq::<u64>::empty());
    assert(planned_creates(count, snaps2, threshold, max_total) =~= Seq::<usize>::empty());
}

/// In the second round every lane already has its planned name and
/// position.
proof fn lemma_second_in_place(
    ch: Seq<(u64, Seq<char>, usize, i64)>,
    anchor_id: u64,
    base: Seq<char>,
    threshold: nat,
    max_total: Option<usize>,
    a: int,
    new_ids: Seq<u64>,
)
    requires
        distinct_channel_ids(ch),
        0 <= a < ch.len(),
        ch[a].0 == anchor_id,
        ch.len() + 4 <= usize::MAX,
        after_facts(ch, anchor_id, base, threshold, max_total, a, new_ids),
    ensures
        ({
            let count = ch[a].2 as nat;
            let acts = actions_of(ch, anchor_id, base, threshold, max_total, a);
            let ch2 = category_after(ch, acts, base, new_ids);
            let snaps2 = managed_snapshots(ch2, anchor_id, base);
            let rs2 = planned_reassignments(count, snaps2, threshold, max_total);
            forall|o: int|
                0 <= o < rs2.len() ==> !lane_renamed(snaps2, base, #[trigger] rs2[o]) && !lane_moved(
                    ch2,
                    ch[a].3 as int,
                    rs2[o],
                )
        }),
{
    let snaps = snaps_of(ch, anchor_id, base);
    let count = ch[a].2 as nat;
    let apos = ch[a].3 as int;
    let kept = kept_of(ch, anchor_id, base, threshold, max_total, a);
    let creates = creates_of(ch, anchor_id, base, threshold, max_total, a);
    let acts = actions_of(ch, anchor_id, base, threshold, max_total, a);
    let occ = plan_occ(snaps);
    let fill = plan_fill(count, snaps, threshold, max_total);
    lemma_context_basics(ch, anchor_id, base, threshold, max_total, a);
    lemma_plan_split(count, snaps, threshold, max_total);
    lemma_second_plan(ch, anchor_id, base, threshold, max_total, a, new_ids);
    let ch2 = category_after(ch, acts, base, new_ids);
    let snaps2 = managed_snapshots(ch2, anchor_id, base);
    let kept2 = second_kept(ch, anchor_id, base, threshold, max_total, a, new_ids);
    let rs2 = planned_reassignments(count, snaps2, threshold, max_total);
    assert forall|o: int| 0 <= o < rs2.len() implies !lane_renamed(snaps2, base, #[trigger] rs2[o])
        && !lane_moved(ch2, apos, rs2[o]) by {
        let x = kept2[o];
        assert(rs2[o] == (x.channel_id, (o + 2) as usize));
        // the lane itself, at its planned index
        if o < occ.len() {
            assert(x == renumbered(kept, o));
        } else if o - occ.len() < fill {
            assert(x == renumbered(kept, occ.len() + (o - occ.len())));
        } else {
            assert(x == new_lane(new_ids, creates, o - occ.len() - fill));
        }
        assert(x.current_index == o + 2);
        assert(snaps2.contains(x));
        let w = choose|w: int| 0 <= w < snaps2.len() && snaps2[w] == x;
        lemma_find_snapshot(snaps2, w);
        // its channel, at its planned position
        lemma_managed_contains(ch2, anchor_id, base, x);
        let i = choose|i: int|
            0 <= i < ch2.len() && (#[trigger] ch2[i]).0 == x.channel_id && ch2[i].0 != anchor_id
                && lane_index_spec(ch2[i].0, anchor_id, base, ch2[i].1) == Some(x.current_index)
                && ch2[i].2 == x.member_count;
        lemma_find_channel(ch2, i);
        if o < occ.len() {
            assert(ch2[i].3 == lane_position(apos, o + 2));
        } else if o - occ.len() < fill {
            assert(ch2[i].3 == lane_position(apos, occ.len() + (o - occ.len()) + 2));
        } else {
            let k = o - occ.len() - fill;
            assert(ch2[i].3 == lane_position(apos, creates[k] as int));
        }
    }
}

/// The whole second round lists nothing.
proof fn lemma_second_round(
    ch: Seq<(u64, Seq<char>, usize, i64)>,
    anchor_id: u64,
    base: Seq<char>,
    threshold: nat,
    max_total: Option<usize>,
    a: int,
    new_ids: Seq<u64>,
)
    requires
        distinct_channel_ids(ch),
        0 <= a < ch.len(),
        ch[a].0 == anchor_id,
        plain_base(base),
        ch.len() + 4 <= usize::MAX,
        ch[a].3 + ch.len() + 2 <= i64::MAX,
        fresh_ids(ch, new_ids),
        new_ids.len() >= creates_of(ch, anchor_id, base, threshold, max_total, a).len(),
    ensures
        sync_actions_spec(
            category_after(ch, actions_of(ch, anchor_id, base, threshold, max_total, a), base, new_ids),
            anchor_id,
            base,
            threshold,
            max_total,
        ) == Some(Seq::<SyncAction>::empty()),
{
    let count = ch[a].2 as nat;
    let apos = ch[a].3 as int;
    let acts = actions_of(ch, anchor_id, base, threshold, max_total, a);
    lemma_category_after(ch, anchor_id, base, threshold, max_total, a, new_ids);
    lemma_second_plan(ch, anchor_id, base, threshold, max_total, a, new_ids);
    lemma_second_in_place(ch, anchor_id, base, threshold, max_total, a, new_ids);
    let ch2 = category_after(ch, acts, base, new_ids);
    let snaps2 = managed_snapshots(ch2, anchor_id, base);
    let i2 = choose|i: int| 0 <= i < ch2.len() && #[trigger] ch2[i] == (anchor_id, base, ch[a].2, ch[a].3);
    lemma_find_channel(ch2, i2);
    let rs2 = planned_reassignments(count, snaps2, threshold, max_total);
    lemma_all_reassign_empty(ch2, snaps2, base, apos, rs2);
    let deletes2 = planned_deletes(count, snaps2, threshold, max_total);
    let creates2 = planned_creates(count, snaps2, threshold, max_total);
    assert(Seq::new(deletes2.len(), |k: int| SyncAction::Delete { channel_id: deletes2[k] })
        =~= Seq::<SyncAction>::empty());
    assert(Seq::new(
        creates2.len(),
        |k: int|
            SyncAction::Create {
                index: creates2[k],
                position: lane_position(apos, creates2[k] as int) as i64,
            },
    ) =~= Seq::<SyncAction>::empty());
    let head2: Seq<SyncAction> = Seq::empty();
    assert(head2 + Seq::<SyncAction>::empty() + Seq::<SyncAction>::empty() + Seq::<SyncAction>::empty()
        =~= Seq::<SyncAction>::empty());
}

// ── The law ────────────────────────────────────────────────────────────────

/// A sync settles its lane family: once the operations it lists are
/// performed (each created lane getting a fresh id), the next sync of the
/// category lists no operation at all. Syncing on every voice event thus
/// only calls Discord where the category differs from the plan.
///
/// Channel ids are distinct, and the base name does not start with
/// whitespace (a lane name that trimming changes would not read back as a
/// lane of the family).
pub proof fn lemma_sync_settles(
    channels: Seq<(u64, Seq<char>, usize, i64)>,
    anchor_id: u64,
    base: Seq<char>,
    threshold: nat,
    max_total: Option<usize>,
    new_ids: Seq<u64>,
)
    requires
        distinct_channel_ids(channels),
        plain_base(base),
        channels.len() + 4 <= usize::MAX,
        forall|j: int|
            0 <= j < channels.len() && (#[trigger] channels[j]).0 == anchor_id ==> channels[j].3
                + channels.len() + 2 <= i64::MAX,
        fresh_ids(channels, new_ids),
        new_ids.len() > channels.len(),
    ensures
        sync_actions_spec(channels, anchor_id, base, threshold, max_total) matches Some(acts)
            ==> sync_actions_spec(
            category_after(channels, acts, base, new_ids),
            anchor_id,
            base,
            threshold,
            max_total,
        ) == Some(Seq::<SyncAction>::empty()),
{
    match first_index_of(channel_ids(channels), anchor_id) {
        None => {},
        Some(a) => {
            assert(is_first_of(channel_ids(channels), anchor_id, a));
            assert(channels[a].0 == anchor_id);
            lemma_sync_is_actions_of(channels, anchor_id, base, threshold, max_total, a);
            lemma_context_basics(channels, anchor_id, base, threshold, max_total, a);
            lemma_second_round(channels, anchor_id, base, threshold, max_total, a, new_ids);
        },
    }
}

// ── Laws of a lane plan ─────────────────────────────────────────────────────

proof fn lemma_full_level_last(occ: Seq<LaneSnapshot>, threshold: nat)
    ensures
        occ.len() > 0 && occ.last().member_count >= threshold ==> full_level(occ, threshold)
            == occ.len() + 1,
        !(occ.len() > 0 && occ.last().member_count >= threshold) ==> full_level(occ, threshold)
            <= occ.len(),
{
    if occ.len() > 0 && occ.last().member_count < threshold {
        lemma_full_level_bound(occ.drop_last(), threshold);
    }
}

/// Lanes of a plan are numbered 2, 3, … without gap: the kept lanes first
/// (occupied lanes, in their old order, before the kept empty ones), then
/// the new lanes.
pub proof fn lemma_plan_numbering(
    anchor_member_count: nat,
    snapshots: Seq<LaneSnapshot>,
    threshold: nat,
    max_total: Option<usize>,
    plan: LanePlan,
)
    requires
        plan_lanes_ensures(anchor_member_count, snapshots, threshold, max_total, plan),
        snapshots.len() + 4 <= usize::MAX,
    ensures
        forall|k: int|
            0 <= k < plan.reassignments@.len() ==> (#[trigger] plan.reassignments@[k]).1 == k + 2,
        forall|k: int|
            0 <= k < plan.create_indices@.len() ==> #[trigger] plan.create_indices@[k]
                == plan.reassignments@.len() + k + 2,
        ({
            let kept = plan_kept(anchor_member_count, snapshots, threshold, max_total);
            let n = plan_occ(snapshots).len();
            &&& kept.len() == plan.reassignments@.len()
            &&& forall|k: int|
                0 <= k < kept.len() ==> (#[trigger] plan.reassignments@[k]).0 == kept[k].channel_id
            &&& forall|k: int| 0 <= k < kept.len() ==> ((#[trigger] kept[k]).member_count > 0 <==> k < n)
            &&& forall|i: int, j: int|
                0 <= i < j < n ==> (#[trigger] kept[i]).key_le(#[trigger] kept[j])
        }),
{
    let occ_raw = occupied_of(snapshots);
    let emp_raw = empty_of(snapshots);
    let occ = plan_occ(snapshots);
    let emp = plan_emp(snapshots);
    let fill = plan_fill(anchor_member_count, snapshots, threshold, max_total);
    let kept = plan_kept(anchor_member_count, snapshots, threshold, max_total);
    lemma_isort_sorted(occ_raw);
    lemma_isort_sorted(emp_raw);
    lemma_occ_emp_multiset(snapshots);
    lemma_plan_sizes(anchor_member_count, snapshots, threshold, max_total);
    assert(occ == isort(occ_raw));
    assert(emp == isort(emp_raw));
    assert(0 <= fill <= emp.len());
    assert forall|k: int| 0 <= k < kept.len() implies ((#[trigger] kept[k]).member_count > 0 <==> k
        < occ.len()) by {
        if k < occ.len() {
            assert(kept[k] == occ[k]);
            assert(occ.contains(occ[k]));
            assert(occ_raw.contains(occ[k]));
            let w = choose|w: int| 0 <= w < occ_raw.len() && occ_raw[w] == occ[k];
            assert(occ_raw[w].member_count > 0);
        } else {
            assert(kept[k] == emp[k - occ.len()]);
            assert(emp.contains(emp[k - occ.len()]));
            assert(emp_raw.contains(emp[k - occ.len()]));
            let w = choose|w: int| 0 <= w < emp_raw.len() && emp_raw[w] == emp[k - occ.len()];
            assert(emp_raw[w].member_count == 0);
        }
    }
    assert forall|i: int, j: int| 0 <= i < j < occ.len() implies (#[trigger] kept[i]).key_le(
        #[trigger] kept[j],
    ) by {
        assert(kept[i] == occ[i]);
        assert(kept[j] == occ[j]);
    }
}

/// A plan of a family without a cap adds at most one lane beyond the
/// occupied ones, and exactly one when the last occupied lane (in lane
/// order) is full, or, with no occupied lane, when the anchor is full.
pub proof fn lemma_plan_one_spare_lane(
    anchor_member_count: nat,
    snapshots: Seq<LaneSnapshot>,
    threshold: nat,
    plan: LanePlan,
)
    requires
        plan_lanes_ensures(anchor_member_count, snapshots, threshold, None, plan),
    ensures
        ({
            let occ = plan_occ(snapshots);
            let extra = plan.reassignments@.len() + plan.create_indices@.len() - occ.len();
            &&& 0 <= extra <= 1
            &&& (extra == 1 <==> if occ.len() == 0 {
                anchor_member_count >= threshold
            } else {
                occ.last().member_count >= threshold
            })
        }),
{
    let occ = plan_occ(snapshots);
    let emp = plan_emp(snapshots);
    let fill = plan_fill(anchor_member_count, snapshots, threshold, None);
    let kept = plan_kept(anchor_member_count, snapshots, threshold, None);
    let desired = desired_total_spec(anchor_member_count, occ, threshold, None);
    lemma_full_level_bound(occ, threshold);
    lemma_full_level_last(occ, threshold);
    assert(kept.len() == occ.len() + fill);
    if occ.len() > 0 {
        assert(desired == occ.len() + 1 || desired == occ.len() + 2);
        assert(desired == occ.len() + 2 <==> occ.last().member_count >= threshold);
    } else {
        assert(desired == 1 || desired == 2);
        assert(desired == 2 <==> anchor_member_count >= threshold);
    }
}

/// `x` is the id of an empty lane among `snapshots`.
pub open spec fn is_empty_lane_id(snapshots: Seq<LaneSnapshot>, x: u64) -> bool {
    exists|k: int|
        0 <= k < snapshots.len() && #[trigger] snapshots[k].channel_id == x
            && snapshots[k].member_count == 0
}

/// Ids of a plan: each given lane's id appears exactly once among the
/// renumbered and the deleted lanes, and no other id appears; every deleted
/// id is that of an empty lane (occupied lanes are never deleted).
pub proof fn lemma_plan_ids_once(
    anchor_member_count: nat,
    snapshots: Seq<LaneSnapshot>,
    threshold: nat,
    max_total: Option<usize>,
    plan: LanePlan,
)
    requires
        plan_lanes_ensures(anchor_member_count, snapshots, threshold, max_total, plan),
        distinct_snapshot_ids(snapshots),
    ensures
        ({
            let ids = plan.reassignments@.map_values(|r: (u64, usize)| r.0) + plan.delete_ids@;
            &&& ids.no_duplicates()
            &&& forall|x: u64|
                ids.contains(x) <==> exists|k: int|
                    0 <= k < snapshots.len() && #[trigger] snapshots[k].channel_id == x
            &&& forall|d: int|
                0 <= d < plan.delete_ids@.len() ==> is_empty_lane_id(
                    snapshots,
                    #[trigger] plan.delete_ids@[d],
                )
        }),
{
    broadcast use vstd::seq_lib::group_to_multiset_ensures;

    let emp = plan_emp(snapshots);
    let fill = plan_fill(anchor_member_count, snapshots, threshold, max_total);
    let kept = plan_kept(anchor_member_count, snapshots, threshold, max_total);
    let deleted = emp.skip(fill);
    let all = kept + deleted;
    lemma_plan_lanes_accounts_for_every_lane(anchor_member_count, snapshots, threshold, max_total);
    lemma_isort_sorted(empty_of(snapshots));
    lemma_occ_emp_multiset(snapshots);
    assert(emp == isort(empty_of(snapshots)));
    assert(0 <= fill <= emp.len()) by {
        lemma_plan_sizes(anchor_member_count, snapshots, threshold, max_total);
    }
    vstd::seq_lib::lemma_multiset_commutative(kept, deleted);
    assert(all.to_multiset() == snapshots.to_multiset());
    assert(snapshots.no_duplicates()) by {
        assert forall|i: int, j: int| 0 <= i < snapshots.len() && 0 <= j < snapshots.len() && i
            != j implies snapshots[i] != snapshots[j] by {
            assert(snapshots[i].channel_id != snapshots[j].channel_id);
        }
    }
    snapshots.lemma_multiset_has_no_duplicates();
    all.lemma_multiset_has_no_duplicates_conv();
    let ids = plan.reassignments@.map_values(|r: (u64, usize)| r.0) + plan.delete_ids@;
    let mapped = all.map_values(|x: LaneSnapshot| x.channel_id);
    assert(ids =~= mapped);
    assert forall|i: int| 0 <= i < all.len() implies snapshots.contains(#[trigger] all[i]) by {
        assert(all.to_multiset().count(all[i]) > 0);
    }
    assert forall|i: int, j: int| 0 <= i < j < mapped.len() implies mapped[i] != mapped[j] by {
        let a = all[i];
        let b = all[j];
        assert(snapshots.contains(a));
        assert(snapshots.contains(b));
        let ka = choose|k: int| 0 <= k < snapshots.len() && snapshots[k] == a;
        let kb = choose|k: int| 0 <= k < snapshots.len() && snapshots[k] == b;
        if ka != kb {
            assert(snapshots[ka].channel_id != snapshots[kb].channel_id);
        }
    }
    assert forall|x: u64| ids.contains(x) <==> exists|k: int|
        0 <= k < snapshots.len() && #[trigger] snapshots[k].channel_id == x by {
        if ids.contains(x) {
            let i = choose|i: int| 0 <= i < ids.len() && ids[i] == x;
            assert(mapped[i] == all[i].channel_id);
            assert(snapshots.contains(all[i]));
            let k = choose|k: int| 0 <= k < snapshots.len() && snapshots[k] == all[i];
            assert(snapshots[k].channel_id == x);
        }
        if exists|k: int| 0 <= k < snapshots.len() && #[trigger] snapshots[k].channel_id == x {
            let k = choose|k: int| 0 <= k < snapshots.len() && #[trigger] snapshots[k].channel_id == x;
            assert(snapshots.to_multiset().count(snapshots[k]) > 0);
            assert(all.contains(snapshots[k]));
            let i = choose|i: int| 0 <= i < all.len() && all[i] == snapshots[k];
            assert(mapped[i] == x);
        }
    }
    assert forall|d: int| 0 <= d < plan.delete_ids@.len() implies is_empty_lane_id(
        snapshots,
        #[trigger] plan.delete_ids@[d],
    ) by {
        let x = deleted[d];
        assert(x == all[kept.len() + d]);
        assert(snapshots.contains(x));
        assert(x.member_count == 0);
        let k = choose|k: int| 0 <= k < snapshots.len() && snapshots[k] == x;
        assert(plan.delete_ids@[d] == emp[fill + d].channel_id);
    }
}

} // verus!
