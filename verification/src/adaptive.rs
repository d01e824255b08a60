//! Adaptive special lanes: new-player lanes, duo lanes and the rank-based
//! ordering of the chill category.
//!
//! New players (rank at most Arcanist, verified or through an unverified rank
//! role) are redirected on staging join into the new-player lanes; lanes grow
//! from six members on (anchor + "🆕Neue Spieler Lane N"). The duo anchor
//! "🗨️Off Topic Voice" gets exactly one second lane from two people on. Chill
//! lanes are sorted onto the existing slots by their rank label.

use vstd::prelude::*;
use crate::rank_catalog::{
    member_rank_spec, rank_index_chars, rank_index_spec, rank_order, rank_order_name,
};
use crate::sorting::{
    isort, lemma_i64_total_preorder, lemma_isort_ascending, lemma_isort_len, lemma_isort_multiset,
    stable_sort, total_preorder, SortKey,
};
use crate::text::{
    all_digits, ascii_lower, is_ascii_seq, chars_of, digits_value, has_prefix, int_dec, is_digit, lowercase_of, owned,
    parse_int_spec, push_u64, slice_chars, starts_with_chars, starts_with_str, string_of,
    to_lowercase, trim_chars, trim_spec, trim_start_spec, trim_str,
};

verus! {

pub const NP_ANCHOR_CHANNEL_ID: u64 = 1470126503252721845;
pub const NP_LANE_BASE_NAME: &'static str = "🆕Neue Spieler Lane";
pub const NP_EXPAND_THRESHOLD: usize = 6;
pub const NP_MAX_RANK_VALUE: i64 = 4;
pub const RETURN_WINDOW_SECONDS: i64 = 240;

pub const DUO_ANCHOR_CHANNEL_ID: u64 = 1411391356278018245;
pub const DUO_LANE_BASE_NAME: &'static str = "🗨️Off Topic Voice";
pub const DUO_EXPAND_THRESHOLD: usize = 2;

/// Unverified beginner roles and the rank value each stands for.
pub const UNVERIFIED_RANK_ROLES: [(u64, i64); 4] = [
    (1492960891619250408, 1),
    (1492959966284218611, 2),
    (1492960350755225730, 3),
    (1492960274096066831, 4),
];

/// Stagings from which beginners are redirected (casual + comp).
pub const ELIGIBLE_STAGING_IDS: [u64; 2] = [1501089974093873232, 1412804671432818890];
pub const MAIN_GUILD_ID: u64 = 1289721245281292288;
pub const CHILL_CATEGORY_ID: u64 = 1289721245281292290;
pub const COMP_RANKED_CATEGORY_ID: u64 = 1412804540994162789;
pub const CASUAL_STAGING_ID: u64 = 1501089974093873232;
pub const PERMANENT_CHILL_ID: u64 = 1493690350580138114;
pub const PINNED_CHILL_END_ID: u64 = 1505618194017161267;

// ── Beginner rank ──────────────────────────────────────────────────────────

pub open spec fn has_role(roles: Seq<(u64, String)>, id: u64) -> bool {
    exists|i: int| 0 <= i < roles.len() && (#[trigger] roles[i]).0 == id
}

pub open spec fn role_names(roles: Seq<(u64, String)>) -> Seq<Seq<char>> {
    Seq::new(roles.len(), |i: int| roles[i].1@)
}

/// Highest unverified beginner rank among the roles.
pub open spec fn unverified_rank(roles: Seq<(u64, String)>) -> Option<i64> {
    if has_role(roles, 1492960274096066831) {
        Some(4)
    } else if has_role(roles, 1492960350755225730) {
        Some(3)
    } else if has_role(roles, 1492959966284218611) {
        Some(2)
    } else if has_role(roles, 1492960891619250408) {
        Some(1)
    } else {
        None
    }
}

pub open spec fn new_player_rank_spec(roles: Seq<(u64, String)>) -> Option<i64> {
    let verified = member_rank_spec(role_names(roles));
    if verified > 0 {
        Some(verified as i64)
    } else {
        unverified_rank(roles)
    }
}

/// Beginner rank from roles: verified rank roles first (highest), otherwise
/// the highest unverified beginner role; `None` = no beginner rank.
pub fn resolve_new_player_rank(roles: &[(u64, String)]) -> (r: Option<i64>)
    ensures
        r == new_player_rank_spec(roles@),
{
    let mut best: usize = 0;
    let mut found = [false, false, false, false];
    let mut i: usize = 0;
    while i < roles.len()
        invariant
            i <= roles.len(),
            best as int == member_rank_spec(role_names(roles@.take(i as int))),
            best < 12,
            forall|k: int|
                0 <= k < 4 ==> (#[trigger] found[k] <==> has_role(
                    roles@.take(i as int),
                    UNVERIFIED_RANK_ROLES[k].0,
                )),
        decreases roles.len() - i,
    {
        let ghost pre = roles@.take(i as int);
        let ghost next = roles@.take(i + 1);
        let lower = to_lowercase(roles[i].1.as_str());
        let lv = chars_of(lower.as_str());
        let here = rank_index_chars(&lv);
        proof {
            assert(role_names(next).drop_last() == role_names(pre));
            assert(role_names(next).last() == roles@[i as int].1@);
        }
        if here > best {
            best = here;
        }
        let id = roles[i].0;
        let mut k: usize = 0;
        while k < 4
            invariant
                k <= 4,
                i < roles.len(),
                pre == roles@.take(i as int),
                next == roles@.take(i + 1),
                id == roles@[i as int].0,
                forall|m: int|
                    0 <= m < k ==> (#[trigger] found[m] <==> has_role(next, UNVERIFIED_RANK_ROLES[m].0)),
                forall|m: int|
                    k <= m < 4 ==> (#[trigger] found[m] <==> has_role(pre, UNVERIFIED_RANK_ROLES[m].0)),
            decreases 4 - k,
        {
            proof {
                let rid = UNVERIFIED_RANK_ROLES[k as int].0;
                if has_role(pre, rid) {
                    let w = choose|j: int| 0 <= j < pre.len() && (#[trigger] pre[j]).0 == rid;
                    assert(next[w] == pre[w]);
                }
                if has_role(next, rid) && !has_role(pre, rid) {
                    let w = choose|j: int| 0 <= j < next.len() && (#[trigger] next[j]).0 == rid;
                    if w < pre.len() {
                        assert(pre[w] == next[w]);
                    }
                }
                assert(next[i as int] == roles@[i as int]);
            }
            if id == UNVERIFIED_RANK_ROLES[k].0 {
                found[k] = true;
            }
            k += 1;
        }
        i += 1;
    }
    assert(roles@.take(roles.len() as int) == roles@);
    if best > 0 {
        Some(best as i64)
    } else if found[3] {
        Some(4)
    } else if found[2] {
        Some(3)
    } else if found[1] {
        Some(2)
    } else if found[0] {
        Some(1)
    } else {
        None
    }
}

// ── Lane names ─────────────────────────────────────────────────────────────

pub open spec fn lane_name_spec(base: Seq<char>, index: int) -> Seq<char> {
    if index <= 1 {
        base
    } else {
        base + " "@ + int_dec(index)
    }
}

/// Name of lane `index`: the anchor keeps the base name, others "Base N".
pub fn lane_name_for_index(base: &str, index: usize) -> (r: String)
    ensures
        r@ == lane_name_spec(base@, index as int),
{
    if index <= 1 {
        owned(base)
    } else {
        let mut v = chars_of(base);
        let ghost b = v@;
        v.push(' ');
        push_u64(&mut v, index as u64);
        assert(v@ == b + " "@ + int_dec(index as int)) by {
            reveal_strlit(" ");
        }
        string_of(&v)
    }
}

/// What follows the base name: `trim_start` of the rest of the trimmed name.
pub open spec fn lane_rest(base: Seq<char>, name: Seq<char>) -> Seq<char> {
    let t = trim_spec(name);
    trim_start_spec(t.subrange(base.len() as int, t.len() as int))
}

pub open spec fn lane_index_spec(channel_id: u64, anchor_id: u64, base: Seq<char>, name: Seq<char>) -> Option<usize> {
    if channel_id == anchor_id {
        Some(1)
    } else if !has_prefix(trim_spec(name), base) {
        None
    } else {
        let rest = lane_rest(base, name);
        if rest.len() > 0 && all_digits(rest) && digits_value(rest) <= usize::MAX
            && digits_value(rest) >= 2 {
            Some(digits_value(rest) as usize)
        } else {
            None
        }
    }
}

/// `trim_start` of a character vector.
fn trim_start_chars(v: &[char]) -> (r: Vec<char>)
    ensures
        r@ == trim_start_spec(v@),
{
    let n = v.len();
    let mut i: usize = 0;
    assert(v@.subrange(0, n as int) =~= v@);
    while i < n && crate::text::is_whitespace(v[i])
        invariant
            i <= n,
            n == v.len(),
            trim_start_spec(v@) == trim_start_spec(v@.subrange(i as int, n as int)),
        decreases n - i,
    {
        let ghost t = v@.subrange(i as int, n as int);
        assert(t.drop_first() == v@.subrange(i + 1, n as int));
        assert(t[0] == v@[i as int]);
        i += 1;
    }
    let r = slice_chars(v, i, n);
    proof {
        if i < n {
            assert(r@[0] == v@[i as int]);
        }
    }
    r
}

/// Index of a managed lane: the anchor is 1, otherwise "Base N" (N ≥ 2).
/// `lane_settle::lemma_lane_index_round_trip` shows that it reads back what
/// [`lane_name_for_index`] writes.
pub fn parse_lane_index(channel_id: u64, anchor_id: u64, base: &str, name: &str) -> (r: Option<usize>)
    ensures
        r == lane_index_spec(channel_id, anchor_id, base@, name@),
{
    if channel_id == anchor_id {
        return Some(1);
    }
    let t = trim_str(name);
    let b = chars_of(base);
    if !starts_with_chars(&t, &b) {
        return None;
    }
    let after = slice_chars(&t, b.len(), t.len());
    let rest = trim_start_chars(&after);
    if rest.len() == 0 {
        return None;
    }
    // digits, then nothing else
    let mut k: usize = 0;
    while k < rest.len() && '0' <= rest[k] && rest[k] <= '9'
        invariant
            k <= rest.len(),
            forall|m: int| 0 <= m < k ==> is_digit(#[trigger] rest@[m]),
        decreases rest.len() - k,
    {
        k += 1;
    }
    if k < rest.len() {
        assert(!is_digit(rest@[k as int]));
        return None;
    }
    match crate::text::parse_usize(&rest) {
        Some(index) => {
            assert(rest@[0] != '+');
            if index >= 2 {
                Some(index)
            } else {
                None
            }
        },
        None => {
            assert(rest@[0] != '+');
            None
        },
    }
}

// ── Lane planning ──────────────────────────────────────────────────────────

#[derive(Debug, Clone, Copy, PartialEq, Eq)]
pub struct LaneSnapshot {
    pub channel_id: u64,
    pub current_index: usize,
    pub member_count: usize,
}

impl SortKey for LaneSnapshot {
    open spec fn key_le(self, other: Self) -> bool {
        self.current_index < other.current_index || (self.current_index
            == other.current_index && self.channel_id <= other.channel_id)
    }

    fn key_le_exec(&self, other: &Self) -> (r: bool) {
        self.current_index < other.current_index || (self.current_index == other.current_index
            && self.channel_id <= other.channel_id)
    }
}

#[derive(Debug, Clone, Default, PartialEq, Eq)]
pub struct LanePlan {
    /// (channel_id, new index): renumbering of existing lanes.
    pub reassignments: Vec<(u64, usize)>,
    pub delete_ids: Vec<u64>,
    pub create_indices: Vec<usize>,
}

/// Snapshots with members, in input order.
pub open spec fn occupied_of(s: Seq<LaneSnapshot>) -> Seq<LaneSnapshot>
    decreases s.len(),
{
    if s.len() == 0 {
        s
    } else if s.last().member_count > 0 {
        occupied_of(s.drop_last()).push(s.last())
    } else {
        occupied_of(s.drop_last())
    }
}

/// Empty snapshots, in input order.
pub open spec fn empty_of(s: Seq<LaneSnapshot>) -> Seq<LaneSnapshot>
    decreases s.len(),
{
    if s.len() == 0 {
        s
    } else if s.last().member_count == 0 {
        empty_of(s.drop_last()).push(s.last())
    } else {
        empty_of(s.drop_last())
    }
}

/// `offset + 2` of the last full lane among `occ` (0 when none is full).
pub open spec fn full_level(occ: Seq<LaneSnapshot>, threshold: nat) -> int
    decreases occ.len(),
{
    if occ.len() == 0 {
        0
    } else if occ.last().member_count >= threshold {
        occ.len() + 1int
    } else {
        full_level(occ.drop_last(), threshold)
    }
}

pub open spec fn max2(a: int, b: int) -> int {
    if a >= b {
        a
    } else {
        b
    }
}

/// Number of lanes (anchor included) the plan aims for.
pub open spec fn desired_total_spec(
    anchor_member_count: nat,
    occ: Seq<LaneSnapshot>,
    threshold: nat,
    max_total: Option<usize>,
) -> int {
    if max_total is Some {
        if anchor_member_count >= threshold {
            2
        } else {
            1
        }
    } else {
        let highest_occupied: int = if occ.len() > 0 {
            1 + occ.len() as int
        } else if anchor_member_count > 0 {
            1
        } else {
            0
        };
        let highest_full = max2(
            if anchor_member_count >= threshold {
                1
            } else {
                0
            },
            full_level(occ, threshold),
        );
        max2(
            max2(1, highest_occupied),
            if highest_full > 0 {
                highest_full + 1
            } else {
                1
            },
        )
    }
}

/// Sorted occupied lanes.
pub open spec fn plan_occ(snapshots: Seq<LaneSnapshot>) -> Seq<LaneSnapshot> {
    isort(occupied_of(snapshots))
}

/// Sorted empty lanes.
pub open spec fn plan_emp(snapshots: Seq<LaneSnapshot>) -> Seq<LaneSnapshot> {
    isort(empty_of(snapshots))
}

/// How many empty lanes are kept.
pub open spec fn plan_fill(
    anchor_member_count: nat,
    snapshots: Seq<LaneSnapshot>,
    threshold: nat,
    max_total: Option<usize>,
) -> int {
    let occ = plan_occ(snapshots);
    let emp = plan_emp(snapshots);
    let extras = desired_total_spec(anchor_member_count, occ, threshold, max_total) - 1;
    let fill = if extras > occ.len() {
        extras - occ.len()
    } else {
        0
    };
    if fill < emp.len() {
        fill
    } else {
        emp.len() as int
    }
}

/// Lanes that stay: occupied first, then the kept empty ones.
pub open spec fn plan_kept(
    anchor_member_count: nat,
    snapshots: Seq<LaneSnapshot>,
    threshold: nat,
    max_total: Option<usize>,
) -> Seq<LaneSnapshot> {
    plan_occ(snapshots) + plan_emp(snapshots).take(
        plan_fill(anchor_member_count, snapshots, threshold, max_total),
    )
}

pub open spec fn plan_lanes_ensures(
    anchor_member_count: nat,
    snapshots: Seq<LaneSnapshot>,
    threshold: nat,
    max_total: Option<usize>,
    plan: LanePlan,
) -> bool {
    let emp = plan_emp(snapshots);
    let fill = plan_fill(anchor_member_count, snapshots, threshold, max_total);
    let kept = plan_kept(anchor_member_count, snapshots, threshold, max_total);
    let desired = desired_total_spec(
        anchor_member_count,
        plan_occ(snapshots),
        threshold,
        max_total,
    );
    &&& plan.reassignments@ == Seq::new(
        kept.len(),
        |o: int| (kept[o].channel_id, (o + 2) as usize),
    )
    &&& plan.delete_ids@ == Seq::new(
        (emp.len() - fill) as nat,
        |k: int| emp[fill + k].channel_id,
    )
    &&& plan.create_indices@ == Seq::new(
        (if desired > kept.len() + 1 {
            desired - kept.len() - 1
        } else {
            0
        }) as nat,
        |k: int| (kept.len() + 2 + k) as usize,
    )
}

fn split_by_occupancy(snapshots: &[LaneSnapshot]) -> (r: (Vec<LaneSnapshot>, Vec<LaneSnapshot>))
    ensures
        r.0@ == occupied_of(snapshots@),
        r.1@ == empty_of(snapshots@),
{
    let mut occ: Vec<LaneSnapshot> = Vec::new();
    let mut emp: Vec<LaneSnapshot> = Vec::new();
    let mut i: usize = 0;
    while i < snapshots.len()
        invariant
            i <= snapshots.len(),
            occ@ == occupied_of(snapshots@.take(i as int)),
            emp@ == empty_of(snapshots@.take(i as int)),
        decreases snapshots.len() - i,
    {
        let ghost next = snapshots@.take(i + 1);
        assert(next.drop_last() == snapshots@.take(i as int));
        assert(next.last() == snapshots@[i as int]);
        if snapshots[i].member_count > 0 {
            occ.push(snapshots[i]);
        } else {
            emp.push(snapshots[i]);
        }
        i += 1;
    }
    assert(snapshots@.take(snapshots.len() as int) == snapshots@);
    (occ, emp)
}

proof fn lemma_split_len(s: Seq<LaneSnapshot>)
    ensures
        occupied_of(s).len() + empty_of(s).len() == s.len(),
    decreases s.len(),
{
    if s.len() > 0 {
        lemma_split_len(s.drop_last());
    }
}

pub proof fn lemma_full_level_bound(occ: Seq<LaneSnapshot>, threshold: nat)
    ensures
        0 <= full_level(occ, threshold) <= occ.len() + 1,
    decreases occ.len(),
{
    if occ.len() > 0 {
        lemma_full_level_bound(occ.drop_last(), threshold);
    }
}

pub proof fn lemma_occ_emp_multiset(s: Seq<LaneSnapshot>)
    ensures
        occupied_of(s).to_multiset().add(empty_of(s).to_multiset()) == s.to_multiset(),
        forall|i: int| 0 <= i < empty_of(s).len() ==> (#[trigger] empty_of(s)[i]).member_count == 0,
        forall|i: int| 0 <= i < occupied_of(s).len() ==> (#[trigger] occupied_of(s)[i]).member_count > 0,
    decreases s.len(),
{
    broadcast use vstd::seq_lib::group_to_multiset_ensures;

    if s.len() > 0 {
        let pre = s.drop_last();
        lemma_occ_emp_multiset(pre);
        assert(s == pre.push(s.last()));
        if s.last().member_count > 0 {
            assert forall|i: int| 0 <= i < occupied_of(s).len() implies (#[trigger] occupied_of(
                s,
            )[i]).member_count > 0 by {
                if i < occupied_of(pre).len() {
                    assert(occupied_of(s)[i] == occupied_of(pre)[i]);
                }
            }
        } else {
            assert forall|i: int| 0 <= i < empty_of(s).len() implies (#[trigger] empty_of(s)[i]).member_count
                == 0 by {
                if i < empty_of(pre).len() {
                    assert(empty_of(s)[i] == empty_of(pre)[i]);
                }
            }
        }
        assert(occupied_of(s).to_multiset().add(empty_of(s).to_multiset()) =~= s.to_multiset());
    } else {
        assert(s.to_multiset() =~= vstd::multiset::Multiset::empty());
    }
}

/// A lane plan accounts for every lane once: the renumbered lanes and the
/// deleted lanes together are exactly the given lanes; only empty lanes are
/// deleted, so every occupied lane is kept; occupied lanes come first in the
/// new numbering; new lanes get the indices right after the kept ones.
pub proof fn lemma_plan_lanes_accounts_for_every_lane(
    anchor_member_count: nat,
    snapshots: Seq<LaneSnapshot>,
    threshold: nat,
    max_total: Option<usize>,
)
    ensures
        ({
            let emp = plan_emp(snapshots);
            let fill = plan_fill(anchor_member_count, snapshots, threshold, max_total);
            let kept = plan_kept(anchor_member_count, snapshots, threshold, max_total);
            let deleted = emp.skip(fill);
            &&& kept.to_multiset().add(deleted.to_multiset()) == snapshots.to_multiset()
            &&& forall|k: int| 0 <= k < deleted.len() ==> (#[trigger] deleted[k]).member_count == 0
            &&& forall|k: int|
                0 <= k < plan_occ(snapshots).len() ==> kept[k] == plan_occ(snapshots)[k]
                    && kept[k].member_count > 0
            &&& forall|x: LaneSnapshot| #[trigger] occupied_of(snapshots).contains(x) ==> kept.contains(x)
        }),
{
    broadcast use vstd::seq_lib::group_to_multiset_ensures;

    let occ_raw = occupied_of(snapshots);
    let emp_raw = empty_of(snapshots);
    let occ = plan_occ(snapshots);
    let emp = plan_emp(snapshots);
    let fill = plan_fill(anchor_member_count, snapshots, threshold, max_total);
    let kept = plan_kept(anchor_member_count, snapshots, threshold, max_total);
    lemma_occ_emp_multiset(snapshots);
    lemma_isort_multiset(occ_raw);
    lemma_isort_multiset(emp_raw);
    lemma_isort_len(occ_raw);
    lemma_isort_len(emp_raw);
    assert(0 <= fill <= emp.len());
    assert(emp =~= emp.take(fill) + emp.skip(fill));
    vstd::seq_lib::lemma_multiset_commutative(emp.take(fill), emp.skip(fill));
    vstd::seq_lib::lemma_multiset_commutative(occ, emp.take(fill));
    assert(kept.to_multiset().add(emp.skip(fill).to_multiset()) =~= snapshots.to_multiset());
    assert forall|k: int| 0 <= k < emp.skip(fill).len() implies (#[trigger] emp.skip(fill)[k]).member_count
        == 0 by {
        let x = emp.skip(fill)[k];
        assert(x == emp[fill + k]);
        assert(emp.to_multiset().count(x) > 0);
        assert(emp_raw.to_multiset().count(x) > 0);
        let w = choose|w: int| 0 <= w < emp_raw.len() && emp_raw[w] == x;
    }
    assert forall|k: int| 0 <= k < occ.len() implies kept[k] == occ[k] && kept[k].member_count > 0 by {
        let x = occ[k];
        assert(occ.to_multiset().count(x) > 0);
        assert(occ_raw.to_multiset().count(x) > 0);
        let w = choose|w: int| 0 <= w < occ_raw.len() && occ_raw[w] == x;
    }
    assert forall|x: LaneSnapshot| #[trigger] occ_raw.contains(x) implies kept.contains(x) by {
        assert(occ_raw.to_multiset().count(x) > 0);
        assert(occ.to_multiset().count(x) > 0);
        let w = choose|w: int| 0 <= w < occ.len() && occ[w] == x;
        assert(kept[w] == x);
    }
}

/// Sizes in a lane plan: no more lanes are kept than were given, and the
/// planned total (anchor included) is at most two more than the given lanes.
pub proof fn lemma_plan_sizes(
    anchor_member_count: nat,
    snapshots: Seq<LaneSnapshot>,
    threshold: nat,
    max_total: Option<usize>,
)
    ensures
        plan_kept(anchor_member_count, snapshots, threshold, max_total).len() <= snapshots.len(),
        desired_total_spec(anchor_member_count, plan_occ(snapshots), threshold, max_total)
            <= snapshots.len() + 2,
{
    lemma_split_len(snapshots);
    lemma_isort_len(occupied_of(snapshots));
    lemma_isort_len(empty_of(snapshots));
    lemma_full_level_bound(plan_occ(snapshots), threshold);
}

/// The plan of a managed lane family: full lanes force one more, occupied lanes move
/// in front of empty ones, the surplus is deleted. Its laws stand in
/// `lane_settle`: `lemma_plan_numbering` (lanes 2, 3, … in order, occupied
/// before empty), `lemma_plan_one_spare_lane` (at most one lane beyond the
/// occupied ones, and when), `lemma_plan_ids_once` (each lane id once,
/// only empty lanes deleted) and `lemma_plan_lanes_accounts_for_every_lane`.
pub fn plan_lanes(
    anchor_member_count: usize,
    snapshots: &[LaneSnapshot],
    expand_threshold: usize,
    max_total: Option<usize>,
) -> (plan: LanePlan)
    requires
        snapshots.len() <= usize::MAX - 4,
    ensures
        plan_lanes_ensures(
            anchor_member_count as nat,
            snapshots@,
            expand_threshold as nat,
            max_total,
            plan,
        ),
{
    let (occ_raw, emp_raw) = split_by_occupancy(snapshots);
    proof {
        lemma_split_len(snapshots@);
    }
    let occupied = stable_sort(&occ_raw);
    let empty = stable_sort(&emp_raw);
    proof {
        lemma_isort_len(occ_raw@);
        lemma_isort_len(emp_raw@);
        lemma_full_level_bound(occupied@, expand_threshold as nat);
    }
    let ghost desired_spec = desired_total_spec(
        anchor_member_count as nat,
        occupied@,
        expand_threshold as nat,
        max_total,
    );
    let desired_total: usize = match max_total {
        Some(_) => {
            if anchor_member_count >= expand_threshold {
                2
            } else {
                1
            }
        },
        None => {
            let mut highest_occupied: usize = if anchor_member_count > 0 {
                1
            } else {
                0
            };
            if occupied.len() > 0 {
                highest_occupied = 1 + occupied.len();
            }
            let mut highest_full: usize = if anchor_member_count >= expand_threshold {
                1
            } else {
                0
            };
            let mut o: usize = 0;
            while o < occupied.len()
                invariant
                    o <= occupied.len(),
                    occupied.len() <= usize::MAX - 4,
                    highest_full as int == max2(
                        if anchor_member_count >= expand_threshold {
                            1
                        } else {
                            0
                        },
                        full_level(occupied@.take(o as int), expand_threshold as nat),
                    ),
                    highest_full <= o + 1,
                decreases occupied.len() - o,
            {
                let ghost next = occupied@.take(o + 1);
                assert(next.drop_last() == occupied@.take(o as int));
                assert(next.last() == occupied@[o as int]);
                proof {
                    lemma_full_level_bound(occupied@.take(o as int), expand_threshold as nat);
                }
                if occupied[o].member_count >= expand_threshold {
                    if o + 2 > highest_full {
                        highest_full = o + 2;
                    }
                }
                o += 1;
            }
            assert(occupied@.take(occupied.len() as int) == occupied@);
            let mut d: usize = 1;
            if highest_occupied > d {
                d = highest_occupied;
            }
            let from_full = if highest_full > 0 {
                highest_full + 1
            } else {
                1
            };
            if from_full > d {
                d = from_full;
            }
            d
        },
    };
    assert(desired_total as int == desired_spec);
    let extras_to_keep = desired_total - 1;
    let fill_from_empty = if extras_to_keep > occupied.len() {
        extras_to_keep - occupied.len()
    } else {
        0
    };
    let taken = if fill_from_empty < empty.len() {
        fill_from_empty
    } else {
        empty.len()
    };
    // kept lanes: occupied first, then the first `taken` empty ones
    let mut reassignments: Vec<(u64, usize)> = Vec::new();
    let mut o: usize = 0;
    while o < occupied.len()
        invariant
            o <= occupied.len(),
            occupied.len() <= usize::MAX - 4,
            reassignments@ == Seq::new(
                o as nat,
                |k: int| (occupied@[k].channel_id, (k + 2) as usize),
            ),
        decreases occupied.len() - o,
    {
        reassignments.push((occupied[o].channel_id, o + 2));
        assert(reassignments@ =~= Seq::new(
            (o + 1) as nat,
            |k: int| (occupied@[k].channel_id, (k + 2) as usize),
        ));
        o += 1;
    }
    let ghost kept = occupied@ + empty@.take(taken as int);
    let mut e: usize = 0;
    while e < taken
        invariant
            e <= taken <= empty.len(),
            occupied.len() + empty.len() <= usize::MAX - 4,
            kept == occupied@ + empty@.take(taken as int),
            reassignments@ == Seq::new(
                (occupied.len() + e) as nat,
                |k: int| (kept[k].channel_id, (k + 2) as usize),
            ),
        decreases taken - e,
    {
        reassignments.push((empty[e].channel_id, occupied.len() + e + 2));
        assert(kept[occupied.len() + e] == empty@[e as int]);
        assert(reassignments@ =~= Seq::new(
            (occupied.len() + e + 1) as nat,
            |k: int| (kept[k].channel_id, (k + 2) as usize),
        ));
        e += 1;
    }
    assert(reassignments@ =~= Seq::new(
        kept.len(),
        |k: int| (kept[k].channel_id, (k + 2) as usize),
    ));
    let mut delete_ids: Vec<u64> = Vec::new();
    let mut d: usize = taken;
    while d < empty.len()
        invariant
            taken <= d <= empty.len(),
            delete_ids@ == Seq::new((d - taken) as nat, |k: int| empty@[taken + k].channel_id),
        decreases empty.len() - d,
    {
        delete_ids.push(empty[d].channel_id);
        assert(delete_ids@ =~= Seq::new(
            (d + 1 - taken) as nat,
            |k: int| empty@[taken + k].channel_id,
        ));
        d += 1;
    }
    let kept_len = occupied.len() + taken;
    let mut create_indices: Vec<usize> = Vec::new();
    let mut c: usize = kept_len + 2;
    while c <= desired_total
        invariant
            kept_len + 2 <= c,
            c <= desired_total + 1 || c == kept_len + 2,
            c > kept_len + 2 ==> c <= desired_total + 1,
            desired_total <= usize::MAX - 2,
            kept_len <= usize::MAX - 4,
            create_indices@ == Seq::new(
                (c - kept_len - 2) as nat,
                |k: int| (kept_len + 2 + k) as usize,
            ),
        decreases desired_total + 1 - c,
    {
        create_indices.push(c);
        assert(create_indices@ =~= Seq::new(
            (c + 1 - kept_len - 2) as nat,
            |k: int| (kept_len + 2 + k) as usize,
        ));
        c += 1;
    }
    proof {
        if desired_total <= kept_len + 1 {
            assert(c == kept_len + 2);
        } else {
            assert(c == desired_total + 1);
        }
    }
    LanePlan { reassignments, delete_ids, create_indices }
}


// ── Rank labels and sorting ────────────────────────────────────────────────

pub open spec fn is_ascii_alnum(c: char) -> bool {
    ('0' <= c && c <= '9') || ('a' <= c && c <= 'z') || ('A' <= c && c <= 'Z')
}

/// Sub-rank digit at the start of `rest` (after leading whitespace), 1..=6,
/// otherwise 0.
pub open spec fn subrank_digit(rest: Seq<char>) -> i64 {
    let t = trim_start_spec(rest);
    if t.len() > 0 && is_digit(t[0]) && 1 <= crate::text::digit_value(t[0]) <= 6 {
        crate::text::digit_value(t[0]) as i64
    } else {
        0
    }
}

/// Match of a lowercase label against the rank names from position `i` on.
pub open spec fn rank_label_from(lower: Seq<char>, i: int) -> (usize, i64)
    decreases 12 - i,
{
    if i >= 12 || i < 1 {
        (0, 0)
    } else {
        let rank = rank_order(i);
        let rest = lower.subrange(rank.len() as int, lower.len() as int);
        if has_prefix(lower, rank) && !(rest.len() > 0 && is_ascii_alnum(rest[0])) {
            (rank_index_spec(rank) as usize, subrank_digit(rest))
        } else {
            rank_label_from(lower, i + 1)
        }
    }
}

/// (main rank index, sub-rank) of an already trimmed, lowercased label.
pub open spec fn rank_label_spec(lower: Seq<char>) -> (usize, i64) {
    rank_label_from(lower, 1)
}

/// Rank label of a lane → (main rank index, sub-rank), for a label that is
/// already trimmed and lowercased.
pub fn parse_rank_label_lower(lower: &str) -> (r: (usize, i64))
    ensures
        r == rank_label_spec(lower@),
{
    let v = chars_of(lower);
    let mut i: usize = 1;
    while i < 12
        invariant
            1 <= i <= 12,
            rank_label_from(v@, 1) == rank_label_from(v@, i as int),
            v@ == lower@,
        decreases 12 - i,
    {
        let rank = chars_of(rank_order_name(i));
        if starts_with_chars(&v, &rank) {
            let rest = slice_chars(&v, rank.len(), v.len());
            let blocked = rest.len() > 0 && (('0' <= rest[0] && rest[0] <= '9') || ('a' <= rest[0]
                && rest[0] <= 'z') || ('A' <= rest[0] && rest[0] <= 'Z'));
            if !blocked {
                let rank_index = rank_index_chars(&rank);
                let t = trim_start_chars(&rest);
                let mut subrank: i64 = 0;
                if t.len() > 0 && '1' <= t[0] && t[0] <= '6' {
                    subrank = (t[0] as u32 - 0x30) as i64;
                }
                return (rank_index, subrank);
            }
        }
        i += 1;
    }
    (0, 0)
}

/// (main rank index, sub-rank) of a lane label, like `parse_rank_label`.
pub open spec fn parse_rank_label_spec(label: Seq<char>) -> (usize, i64) {
    rank_label_spec(lowercase_of(trim_spec(label)))
}

/// Rank label of a lane → (main rank index, sub-rank); (0, 0) when the label
/// names no rank.
pub fn parse_rank_label(label: &str) -> (r: (usize, i64))
    ensures
        r == parse_rank_label_spec(label@),
        is_ascii_seq(label@) ==> r == rank_label_spec(ascii_lower(trim_spec(label@))),
{
    let trimmed = string_of(&trim_str(label));
    proof {
        if is_ascii_seq(label@) {
            crate::text::lemma_ascii_trim(label@);
        }
    }
    let lower = to_lowercase(trimmed.as_str());
    parse_rank_label_lower(lower.as_str())
}

#[derive(Debug, Clone, Copy, PartialEq, Eq)]
pub struct SortSnapshot {
    pub lane_id: u64,
    pub current_position: i64,
    pub rank_index: usize,
    pub subrank: i64,
    pub stable_order: usize,
}

impl SortKey for SortSnapshot {
    /// (rank, sub-rank, input order, lane id), lexicographically.
    open spec fn key_le(self, other: Self) -> bool {
        self.rank_index < other.rank_index || (self.rank_index == other.rank_index && (
        self.subrank < other.subrank || (self.subrank == other.subrank && (self.stable_order
            < other.stable_order || (self.stable_order == other.stable_order && self.lane_id
            <= other.lane_id)))))
    }

    fn key_le_exec(&self, other: &Self) -> (r: bool) {
        self.rank_index < other.rank_index || (self.rank_index == other.rank_index && (
        self.subrank < other.subrank || (self.subrank == other.subrank && (self.stable_order
            < other.stable_order || (self.stable_order == other.stable_order && self.lane_id
            <= other.lane_id)))))
    }
}

/// Moves of the first `n` entries: lane `ids[k]` goes to `slots[k]` where it
/// is not there yet.
pub open spec fn moves_spec(ids: Seq<u64>, current: Seq<i64>, slots: Seq<i64>, n: int) -> Seq<
    (u64, i64),
>
    decreases n,
{
    if n <= 0 {
        seq![]
    } else {
        let prev = moves_spec(ids, current, slots, n - 1);
        if current[n - 1] != slots[n - 1] {
            prev.push((ids[n - 1], slots[n - 1]))
        } else {
            prev
        }
    }
}

fn moves(ids: &[u64], current: &[i64], slots: &[i64]) -> (r: Vec<(u64, i64)>)
    requires
        ids.len() == current.len() == slots.len(),
    ensures
        r@ == moves_spec(ids@, current@, slots@, ids.len() as int),
{
    let mut r: Vec<(u64, i64)> = Vec::new();
    let mut k: usize = 0;
    while k < ids.len()
        invariant
            k <= ids.len(),
            ids.len() == current.len() == slots.len(),
            r@ == moves_spec(ids@, current@, slots@, k as int),
        decreases ids.len() - k,
    {
        if current[k] != slots[k] {
            r.push((ids[k], slots[k]));
        }
        k += 1;
    }
    r
}

pub open spec fn positions_of(entries: Seq<SortSnapshot>) -> Seq<i64> {
    Seq::new(entries.len(), |i: int| entries[i].current_position)
}

pub open spec fn lane_reorder_spec(entries: Seq<SortSnapshot>) -> Seq<(u64, i64)> {
    if entries.len() <= 1 {
        seq![]
    } else {
        let ordered = isort(entries);
        let slots = isort(positions_of(entries));
        moves_spec(
            Seq::new(ordered.len(), |i: int| ordered[i].lane_id),
            Seq::new(ordered.len(), |i: int| ordered[i].current_position),
            slots,
            entries.len() as int,
        )
    }
}

/// What the moves hold: each listed move sends lane `ids[k]` to
/// `slots[k]` for a `k < n` whose current position differs, in order of
/// `k`, and every such `k` is listed.
proof fn lemma_moves_content(ids: Seq<u64>, current: Seq<i64>, slots: Seq<i64>, n: int)
    requires
        0 <= n <= ids.len(),
        ids.len() == current.len() == slots.len(),
    ensures
        forall|q: int|
            0 <= q < moves_spec(ids, current, slots, n).len() ==> exists|k: int|
                0 <= k < n && current[k] != slots[k] && #[trigger] moves_spec(ids, current, slots, n)[q]
                    == (ids[k], slots[k]),
        forall|k: int|
            0 <= k < n && current[k] != slots[k] ==> moves_spec(ids, current, slots, n).contains(
                (#[trigger] ids[k], slots[k]),
            ),
    decreases n,
{
    if n > 0 {
        lemma_moves_content(ids, current, slots, n - 1);
        let prev = moves_spec(ids, current, slots, n - 1);
        let m = moves_spec(ids, current, slots, n);
        assert forall|q: int| 0 <= q < m.len() implies exists|k: int|
            0 <= k < n && current[k] != slots[k] && #[trigger] m[q] == (ids[k], slots[k]) by {
            if q < prev.len() {
                assert(m[q] == prev[q]);
            } else {
                assert(m[q] == (ids[n - 1], slots[n - 1]));
            }
        }
        assert forall|k: int| 0 <= k < n && current[k] != slots[k] implies m.contains(
            (#[trigger] ids[k], slots[k]),
        ) by {
            if k < n - 1 {
                let w = choose|w: int| 0 <= w < prev.len() && prev[w] == (ids[k], slots[k]);
                assert(m[w] == prev[w]);
            } else {
                assert(m[m.len() - 1] == (ids[k], slots[k]));
            }
        }
    }
}

/// Sort entries are ordered by (rank, sub-rank, input order, lane id).
pub proof fn lemma_sort_snapshot_total_preorder()
    ensures
        total_preorder::<SortSnapshot>(),
{
}

/// A lane reorder is a permutation onto the existing slots, monotone in the
/// rank order: the lanes in (rank, sub-rank, input order, lane id) order
/// take the existing positions in ascending order; a lane is listed exactly
/// when its slot differs from its position, and with at most one lane
/// nothing moves.
#[verifier::spinoff_prover]
#[verifier::rlimit(40)]
pub proof fn lemma_lane_reorder_is_sorted_permutation(entries: Seq<SortSnapshot>)
    ensures
        entries.len() <= 1 ==> lane_reorder_spec(entries).len() == 0,
        ({
            let ordered = isort(entries);
            let slots = isort(positions_of(entries));
            entries.len() > 1 ==> {
                &&& ordered.len() == entries.len() && slots.len() == entries.len()
                &&& ordered.to_multiset() == entries.to_multiset()
                &&& slots.to_multiset() == positions_of(entries).to_multiset()
                &&& forall|i: int, j: int|
                    0 <= i < j < ordered.len() ==> (#[trigger] ordered[i]).key_le(
                        #[trigger] ordered[j],
                    ) && slots[i] <= slots[j]
                &&& forall|q: int|
                    0 <= q < lane_reorder_spec(entries).len() ==> exists|k: int|
                        0 <= k < ordered.len() && ordered[k].current_position != slots[k]
                            && #[trigger] lane_reorder_spec(entries)[q] == (
                            ordered[k].lane_id,
                            slots[k],
                        )
                &&& forall|k: int|
                    0 <= k < ordered.len() && (#[trigger] ordered[k]).current_position
                        != slots[k] ==> lane_reorder_spec(entries).contains(
                        (ordered[k].lane_id, slots[k]),
                    )
            }
        }),
{
    if entries.len() > 1 {
        let ordered = isort(entries);
        let slots = isort(positions_of(entries));
        lemma_isort_len(entries);
        lemma_isort_len(positions_of(entries));
        lemma_isort_multiset(entries);
        lemma_isort_multiset(positions_of(entries));
        lemma_sort_snapshot_total_preorder();
        lemma_i64_total_preorder();
        lemma_isort_ascending(entries);
        lemma_isort_ascending(positions_of(entries));
        assert forall|i: int, j: int| 0 <= i < j < ordered.len() implies (#[trigger] ordered[i]).key_le(
            #[trigger] ordered[j],
        ) && slots[i] <= slots[j] by {
            assert(slots[i].key_le(slots[j]));
        }
        let ids = Seq::new(ordered.len(), |i: int| ordered[i].lane_id);
        let cur = Seq::new(ordered.len(), |i: int| ordered[i].current_position);
        lemma_moves_content(ids, cur, slots, entries.len() as int);
        assert forall|k: int|
            0 <= k < ordered.len() && (#[trigger] ordered[k]).current_position != slots[k] implies lane_reorder_spec(
            entries,
        ).contains((ordered[k].lane_id, slots[k])) by {
            assert(ids[k] == ordered[k].lane_id);
            assert(cur[k] != slots[k]);
        }
        assert forall|q: int| 0 <= q < lane_reorder_spec(entries).len() implies exists|k: int|
            0 <= k < ordered.len() && ordered[k].current_position != slots[k]
                && #[trigger] lane_reorder_spec(entries)[q] == (ordered[k].lane_id, slots[k]) by {
            let k = choose|k: int|
                0 <= k < entries.len() && cur[k] != slots[k] && #[trigger] moves_spec(
                    ids,
                    cur,
                    slots,
                    entries.len() as int,
                )[q] == (ids[k], slots[k]);
            assert(ids[k] == ordered[k].lane_id);
            assert(cur[k] == ordered[k].current_position);
            assert(lane_reorder_spec(entries)[q] == (ordered[k].lane_id, slots[k]));
        }
    }
}

/// Target positions like `plan_lane_reorder`: lanes ordered by (rank,
/// sub-rank, input order) onto the existing slots; only lanes that change
/// position are listed.
pub fn plan_lane_reorder(entries: &[SortSnapshot]) -> (r: Vec<(u64, i64)>)
    ensures
        r@ == lane_reorder_spec(entries@),
{
    if entries.len() <= 1 {
        return Vec::new();
    }
    let mut positions: Vec<i64> = Vec::new();
    let mut i: usize = 0;
    while i < entries.len()
        invariant
            i <= entries.len(),
            positions@ == Seq::new(i as nat, |k: int| entries@[k].current_position),
        decreases entries.len() - i,
    {
        positions.push(entries[i].current_position);
        assert(positions@ =~= Seq::new((i + 1) as nat, |k: int| entries@[k].current_position));
        i += 1;
    }
    let slots = stable_sort(&positions);
    let ordered = stable_sort(entries);
    proof {
        lemma_isort_len(positions@);
        lemma_isort_len(entries@);
    }
    let mut ids: Vec<u64> = Vec::new();
    let mut current: Vec<i64> = Vec::new();
    let mut k: usize = 0;
    while k < ordered.len()
        invariant
            k <= ordered.len(),
            ids@ == Seq::new(k as nat, |m: int| ordered@[m].lane_id),
            current@ == Seq::new(k as nat, |m: int| ordered@[m].current_position),
        decreases ordered.len() - k,
    {
        ids.push(ordered[k].lane_id);
        current.push(ordered[k].current_position);
        assert(ids@ =~= Seq::new((k + 1) as nat, |m: int| ordered@[m].lane_id));
        assert(current@ =~= Seq::new((k + 1) as nat, |m: int| ordered@[m].current_position));
        k += 1;
    }
    moves(&ids, &current, &slots)
}

#[derive(Debug, Clone, Copy, PartialEq, Eq)]
pub enum LaneSortBlock {
    Ranked,
    Casual,
    StreetBrawl,
}

pub open spec fn block_order_spec(block: LaneSortBlock) -> usize {
    match block {
        LaneSortBlock::Ranked => 0,
        LaneSortBlock::Casual => 1,
        LaneSortBlock::StreetBrawl => 2,
    }
}

/// Position of a block within the category: ranked, casual, street brawl.
pub fn block_order(block: LaneSortBlock) -> (r: usize)
    ensures
        r == block_order_spec(block),
{
    match block {
        LaneSortBlock::Ranked => 0,
        LaneSortBlock::Casual => 1,
        LaneSortBlock::StreetBrawl => 2,
    }
}

#[derive(Debug, Clone, Copy, PartialEq, Eq)]
pub struct UnifiedSortSnapshot {
    pub lane_id: u64,
    pub current_position: i64,
    pub block: LaneSortBlock,
    pub rank_index: usize,
    pub subrank: i64,
    pub stable_order: usize,
}

/// Rank used for ordering: ranked lanes without a rank go last in their block.
pub open spec fn effective_rank(e: UnifiedSortSnapshot) -> usize {
    if e.block == LaneSortBlock::Ranked && e.rank_index == 0 {
        usize::MAX
    } else {
        e.rank_index
    }
}

fn effective_rank_exec(e: &UnifiedSortSnapshot) -> (r: usize)
    ensures
        r == effective_rank(*e),
{
    let ranked = match e.block {
        LaneSortBlock::Ranked => true,
        _ => false,
    };
    if ranked && e.rank_index == 0 {
        usize::MAX
    } else {
        e.rank_index
    }
}

impl SortKey for UnifiedSortSnapshot {
    /// (block, effective rank, sub-rank, input order, lane id), lexicographically.
    open spec fn key_le(self, other: Self) -> bool {
        let (a0, a1) = (block_order_spec(self.block), effective_rank(self));
        let (b0, b1) = (block_order_spec(other.block), effective_rank(other));
        a0 < b0 || (a0 == b0 && (a1 < b1 || (a1 == b1 && (self.subrank < other.subrank || (
        self.subrank == other.subrank && (self.stable_order < other.stable_order || (
        self.stable_order == other.stable_order && self.lane_id <= other.lane_id)))))))
    }

    fn key_le_exec(&self, other: &Self) -> (r: bool) {
        let a0 = block_order(self.block);
        let a1 = effective_rank_exec(self);
        let b0 = block_order(other.block);
        let b1 = effective_rank_exec(other);
        a0 < b0 || (a0 == b0 && (a1 < b1 || (a1 == b1 && (self.subrank < other.subrank || (
        self.subrank == other.subrank && (self.stable_order < other.stable_order || (
        self.stable_order == other.stable_order && self.lane_id <= other.lane_id)))))))
    }
}

pub open spec fn unified_positions_of(entries: Seq<UnifiedSortSnapshot>) -> Seq<i64> {
    Seq::new(entries.len(), |i: int| entries[i].current_position)
}

pub open spec fn unified_reorder_spec(entries: Seq<UnifiedSortSnapshot>) -> Seq<(u64, i64)> {
    if entries.len() <= 1 {
        seq![]
    } else {
        let ordered = isort(entries);
        let slots = isort(unified_positions_of(entries));
        moves_spec(
            Seq::new(ordered.len(), |i: int| ordered[i].lane_id),
            Seq::new(ordered.len(), |i: int| ordered[i].current_position),
            slots,
            entries.len() as int,
        )
    }
}

/// Unified sort entries are ordered by (block, effective rank, sub-rank,
/// input order, lane id).
pub proof fn lemma_unified_total_preorder()
    ensures
        total_preorder::<UnifiedSortSnapshot>(),
{
}

/// A category reorder is a permutation onto the existing slots that puts
/// every ranked lane before every casual lane and every casual lane before
/// every street-brawl lane; within a block the lanes follow (rank, with an
/// unranked ranked lane last; sub-rank; input order; lane id), and a lane is
/// listed exactly when its slot differs from its position.
#[verifier::spinoff_prover]
#[verifier::rlimit(40)]
pub proof fn lemma_category_reorder_is_block_ordered(entries: Seq<UnifiedSortSnapshot>)
    ensures
        entries.len() <= 1 ==> unified_reorder_spec(entries).len() == 0,
        entries.len() > 1 ==> isort(entries).len() == entries.len() && isort(
            unified_positions_of(entries),
        ).len() == entries.len(),
        entries.len() > 1 ==> isort(entries).to_multiset() == entries.to_multiset(),
        entries.len() > 1 ==> isort(unified_positions_of(entries)).to_multiset()
            == unified_positions_of(entries).to_multiset(),
        entries.len() > 1 ==> forall|i: int, j: int|
            0 <= i < j < entries.len() ==> block_order_spec((#[trigger] isort(entries)[i]).block)
                <= block_order_spec((#[trigger] isort(entries)[j]).block) && isort(entries)[i].key_le(
                isort(entries)[j],
            ) && isort(unified_positions_of(entries))[i] <= isort(unified_positions_of(entries))[j],
        entries.len() > 1 ==> forall|q: int|
            0 <= q < unified_reorder_spec(entries).len() ==> exists|k: int|
                0 <= k < entries.len() && isort(entries)[k].current_position != isort(
                    unified_positions_of(entries),
                )[k] && #[trigger] unified_reorder_spec(entries)[q] == (
                    isort(entries)[k].lane_id,
                    isort(unified_positions_of(entries))[k],
                ),
        entries.len() > 1 ==> forall|k: int|
            0 <= k < entries.len() && (#[trigger] isort(entries)[k]).current_position != isort(
                unified_positions_of(entries),
            )[k] ==> unified_reorder_spec(entries).contains(
                (isort(entries)[k].lane_id, isort(unified_positions_of(entries))[k]),
            ),
{
    if entries.len() > 1 {
        let ordered = isort(entries);
        let slots = isort(unified_positions_of(entries));
        lemma_isort_len(entries);
        lemma_isort_len(unified_positions_of(entries));
        lemma_isort_multiset(entries);
        lemma_isort_multiset(unified_positions_of(entries));
        lemma_unified_total_preorder();
        lemma_i64_total_preorder();
        lemma_isort_ascending(entries);
        lemma_isort_ascending(unified_positions_of(entries));
        assert forall|i: int, j: int| 0 <= i < j < entries.len() implies block_order_spec(
            (#[trigger] ordered[i]).block,
        ) <= block_order_spec((#[trigger] ordered[j]).block) && ordered[i].key_le(ordered[j])
            && slots[i] <= slots[j] by {
            assert(ordered[i].key_le(ordered[j]));
            assert(slots[i].key_le(slots[j]));
        }
        let ids = Seq::new(ordered.len(), |i: int| ordered[i].lane_id);
        let cur = Seq::new(ordered.len(), |i: int| ordered[i].current_position);
        assert(unified_reorder_spec(entries) == moves_spec(ids, cur, slots, entries.len() as int));
        lemma_moves_content(ids, cur, slots, entries.len() as int);
        assert forall|k: int|
            0 <= k < entries.len() && (#[trigger] ordered[k]).current_position != slots[k] implies unified_reorder_spec(
            entries,
        ).contains((ordered[k].lane_id, slots[k])) by {
            assert(ids[k] == ordered[k].lane_id);
            assert(cur[k] != slots[k]);
        }
        assert forall|q: int| 0 <= q < unified_reorder_spec(entries).len() implies exists|k: int|
            0 <= k < entries.len() && ordered[k].current_position != slots[k]
                && #[trigger] unified_reorder_spec(entries)[q] == (ordered[k].lane_id, slots[k]) by {
            let k = choose|k: int|
                0 <= k < entries.len() && cur[k] != slots[k] && #[trigger] moves_spec(
                    ids,
                    cur,
                    slots,
                    entries.len() as int,
                )[q] == (ids[k], slots[k]);
            assert(ids[k] == ordered[k].lane_id);
            assert(cur[k] == ordered[k].current_position);
            assert(unified_reorder_spec(entries)[q] == (ordered[k].lane_id, slots[k]));
            assert(0 <= k < entries.len() && ordered[k].current_position != slots[k]);
        }
    }
}

/// Target positions for the one-category layout: blocks ranked, casual,
/// street brawl; within ranked by rank (unranked last), sub-rank and original
/// order; only lanes that change position are listed.
pub fn plan_unified_category_reorder(entries: &[UnifiedSortSnapshot]) -> (r: Vec<(u64, i64)>)
    ensures
        r@ == unified_reorder_spec(entries@),
{
    if entries.len() <= 1 {
        return Vec::new();
    }
    let mut positions: Vec<i64> = Vec::new();
    let mut i: usize = 0;
    while i < entries.len()
        invariant
            i <= entries.len(),
            positions@ == Seq::new(i as nat, |k: int| entries@[k].current_position),
        decreases entries.len() - i,
    {
        positions.push(entries[i].current_position);
        assert(positions@ =~= Seq::new((i + 1) as nat, |k: int| entries@[k].current_position));
        i += 1;
    }
    let slots = stable_sort(&positions);
    let ordered = stable_sort(entries);
    proof {
        lemma_isort_len(positions@);
        lemma_isort_len(entries@);
    }
    let mut ids: Vec<u64> = Vec::new();
    let mut current: Vec<i64> = Vec::new();
    let mut k: usize = 0;
    while k < ordered.len()
        invariant
            k <= ordered.len(),
            ids@ == Seq::new(k as nat, |m: int| ordered@[m].lane_id),
            current@ == Seq::new(k as nat, |m: int| ordered@[m].current_position),
        decreases ordered.len() - k,
    {
        ids.push(ordered[k].lane_id);
        current.push(ordered[k].current_position);
        assert(ids@ =~= Seq::new((k + 1) as nat, |m: int| ordered@[m].lane_id));
        assert(current@ =~= Seq::new((k + 1) as nat, |m: int| ordered@[m].current_position));
        k += 1;
    }
    moves(&ids, &current, &slots)
}

/// Block and rank label of a lowercase, trimmed lane name.
pub open spec fn lane_block_spec(lower: Seq<char>) -> Option<(LaneSortBlock, Seq<char>)> {
    if lower == "ranked"@ || has_prefix(lower, "ranked "@) {
        Some(
            (
                LaneSortBlock::Ranked,
                match crate::text::strip_prefix_spec(lower, "ranked"@) {
                    Some(rest) => trim_spec(rest),
                    None => seq![],
                },
            ),
        )
    } else if lower == "street brawl"@ || has_prefix(lower, "street brawl "@) {
        Some((LaneSortBlock::StreetBrawl, seq![]))
    } else if lower == "chill lane"@ || has_prefix(lower, "chill lane "@) {
        Some((LaneSortBlock::Casual, seq![]))
    } else {
        None
    }
}

pub open spec fn sort_snapshot_spec(
    lane_id: u64,
    lower: Seq<char>,
    current_position: i64,
    stable_order: usize,
) -> Option<UnifiedSortSnapshot> {
    match lane_block_spec(lower) {
        None => None,
        Some((block, label)) => {
            let (rank_index, subrank) = if block == LaneSortBlock::Ranked {
                parse_rank_label_spec(label)
            } else {
                (0usize, 0i64)
            };
            Some(
                UnifiedSortSnapshot {
                    lane_id,
                    current_position,
                    block,
                    rank_index,
                    subrank,
                    stable_order,
                },
            )
        },
    }
}

/// Sort entry of a lane from its lowercase, trimmed name; `None` for names
/// outside the three blocks.
pub fn sort_snapshot_from_lower(
    lane_id: u64,
    lower: &str,
    current_position: i64,
    stable_order: usize,
) -> (r: Option<UnifiedSortSnapshot>)
    ensures
        r == sort_snapshot_spec(lane_id, lower@, current_position, stable_order),
{
    let v = chars_of(lower);
    let block;
    let mut label: Vec<char> = Vec::new();
    if crate::text::chars_eq_str(&v, "ranked") || starts_with_str(&v, "ranked ") {
        let ranked = chars_of("ranked");
        if starts_with_chars(&v, &ranked) {
            let after = slice_chars(&v, ranked.len(), v.len());
            label = trim_chars(&after);
        }
        block = LaneSortBlock::Ranked;
    } else if crate::text::chars_eq_str(&v, "street brawl") || starts_with_str(&v, "street brawl ") {
        block = LaneSortBlock::StreetBrawl;
    } else if crate::text::chars_eq_str(&v, "chill lane") || starts_with_str(&v, "chill lane ") {
        block = LaneSortBlock::Casual;
    } else {
        return None;
    }
    let (rank_index, subrank) = match block {
        LaneSortBlock::Ranked => {
            let label_s = string_of(&label);
            parse_rank_label(label_s.as_str())
        },
        _ => (0, 0),
    };
    Some(
        UnifiedSortSnapshot {
            lane_id,
            current_position,
            block,
            rank_index,
            subrank,
            stable_order,
        },
    )
}

/// Sort entry of a lane from its channel name (trimmed, lowercased).
pub fn sort_snapshot_from_name(
    lane_id: u64,
    name: &str,
    current_position: i64,
    stable_order: usize,
) -> (r: Option<UnifiedSortSnapshot>)
    ensures
        r == sort_snapshot_spec(
            lane_id,
            lowercase_of(trim_spec(name@)),
            current_position,
            stable_order,
        ),
        is_ascii_seq(name@) ==> r == sort_snapshot_spec(
            lane_id,
            ascii_lower(trim_spec(name@)),
            current_position,
            stable_order,
        ),
{
    let trimmed = string_of(&trim_str(name));
    proof {
        if is_ascii_seq(name@) {
            crate::text::lemma_ascii_trim(name@);
        }
    }
    let lower = to_lowercase(trimmed.as_str());
    sort_snapshot_from_lower(lane_id, lower.as_str(), current_position, stable_order)
}


// ── Routing beginners ──────────────────────────────────────────────────────

/// Whether a staging join is redirected into the new-player lanes: eligible
/// staging, not routed within the current window, and a beginner rank of at
/// most [`NP_MAX_RANK_VALUE`].
pub fn new_player_route_eligible(staging_id: u64, already_routed: bool, rank: Option<i64>) -> (r:
    bool)
    ensures
        r == ((staging_id == ELIGIBLE_STAGING_IDS[0] || staging_id == ELIGIBLE_STAGING_IDS[1])
            && !already_routed && rank is Some && rank->0 <= NP_MAX_RANK_VALUE),
{
    if !(staging_id == ELIGIBLE_STAGING_IDS[0] || staging_id == ELIGIBLE_STAGING_IDS[1]) {
        return false;
    }
    if already_routed {
        return false;
    }
    match rank {
        Some(rank) => rank <= NP_MAX_RANK_VALUE,
        None => false,
    }
}

/// A channel of the chill category: (id, name, member count, position).
pub open spec fn is_route_candidate(c: (u64, String, usize, i64)) -> bool {
    c.2 < NP_EXPAND_THRESHOLD && lane_index_spec(
        c.0,
        NP_ANCHOR_CHANNEL_ID,
        NP_LANE_BASE_NAME@,
        c.1@,
    ) is Some
}

/// Preference among candidates: fuller first, then lower position, then id.
pub open spec fn route_key_le(a: (u64, String, usize, i64), b: (u64, String, usize, i64)) -> bool {
    a.2 > b.2 || (a.2 == b.2 && (a.3 < b.3 || (a.3 == b.3 && a.0 <= b.0)))
}

pub open spec fn route_target_ok(channels: Seq<(u64, String, usize, i64)>, r: Option<u64>) -> bool {
    match r {
        None => forall|j: int| 0 <= j < channels.len() ==> !is_route_candidate(#[trigger] channels[j]),
        Some(id) => exists|k: int|
            0 <= k < channels.len() && #[trigger] is_route_candidate(channels[k]) && channels[k].0
                == id && forall|j: int|
                0 <= j < channels.len() && is_route_candidate(#[trigger] channels[j])
                    ==> route_key_le(channels[k], channels[j]),
    }
}

/// Target lane for a beginner: the fullest managed new-player lane that is
/// still below the threshold (anchor included), ties by position then id;
/// `None` when every lane is full.
pub fn new_player_route_target(channels: &[(u64, String, usize, i64)]) -> (r: Option<u64>)
    ensures
        route_target_ok(channels@, r),
{
    let mut best: Option<usize> = None;
    let mut i: usize = 0;
    while i < channels.len()
        invariant
            i <= channels.len(),
            match best {
                None => forall|j: int| 0 <= j < i ==> !is_route_candidate(#[trigger] channels@[j]),
                Some(k) => k < i && is_route_candidate(channels@[k as int]) && forall|j: int|
                    0 <= j < i && is_route_candidate(#[trigger] channels@[j]) ==> route_key_le(
                        channels@[k as int],
                        channels@[j],
                    ),
            },
        decreases channels.len() - i,
    {
        let c = &channels[i];
        let candidate = c.2 < NP_EXPAND_THRESHOLD && parse_lane_index(
            c.0,
            NP_ANCHOR_CHANNEL_ID,
            NP_LANE_BASE_NAME,
            c.1.as_str(),
        ).is_some();
        if candidate {
            match best {
                None => {
                    best = Some(i);
                },
                Some(k) => {
                    let b = &channels[k];
                    let better = c.2 > b.2 || (c.2 == b.2 && (c.3 < b.3 || (c.3 == b.3 && c.0
                        < b.0)));
                    if better {
                        best = Some(i);
                    }
                },
            }
        }
        i += 1;
    }
    match best {
        None => None,
        Some(k) => {
            assert(is_route_candidate(channels@[k as int]));
            Some(channels[k].0)
        },
    }
}

// ── The Discord side ───────────────────────────────────────────────────────

/// What the adaptive lanes read from and do on Discord; the runtime
/// implements it. Nothing is promised of its answers: every decision above
/// takes them as plain values.
pub trait AdaptivePort {
    /// Voice channels of a category: (id, name, member count, position).
    fn category_channels(&self, guild_id: u64, category_id: u64) -> Vec<(u64, String, usize, i64)>;

    fn member_role_pairs(&self, guild_id: u64, user_id: u64) -> Vec<(u64, String)>;

    fn move_member(&self, guild_id: u64, user_id: u64, channel_id: u64) -> Result<(), String>;

    fn rename_channel(&self, channel_id: u64, name: &str) -> Result<(), String>;

    fn delete_channel(&self, channel_id: u64) -> Result<(), String>;

    /// Creates a voice channel next to the anchor, copying its settings.
    fn create_voice_channel(
        &self,
        guild_id: u64,
        category_id: u64,
        anchor_id: u64,
        name: &str,
    ) -> Result<u64, String>;

    fn set_channel_position(&self, channel_id: u64, position: i64) -> Result<(), String>;

    fn set_channel_positions(&self, guild_id: u64, positions: &[(u64, i64)]) -> Result<(), String>;
}

} // verus!
