//! Rank-voice manager: comp/ranked lanes get a rank anchor (first owner or
//! first ranked member). The score window is ±9 sub-rank points; sub-rank
//! roles inside the window may connect, and the channel is named after the
//! anchor ("Phantom 3"). Nobody is ever kicked, only permissions change.

use vstd::prelude::*;
use crate::rank_catalog::{
    capitalize, capitalize_spec, find_short, find_short_chars, short_tier, short_tier_strs,
    tier_name, tier_name_str, tier_value_chars, tier_value_spec, find_tier, lemma_find_tier_names,
    lemma_names_ascii,
};
use crate::lfg_flow::LaneVoiceEvent;
use crate::text::{
    ascii_capitalize, ascii_lower, chars_of, is_ascii_seq, lemma_ascii_lower_twice, lemma_ascii_trim,
    str_eq, int_dec, is_ws, lowercase_of, owned, parse_int_spec, push_i64, slice_chars,
    string_of, to_lowercase, trim_chars, trim_spec, trim_str,
};

verus! {

pub const RANKED_SUBRANK_TOLERANCE: i64 = 9;
pub const SCORE_MIN_ABSOLUTE: i64 = 7;
pub const SCORE_MAX_ABSOLUTE: i64 = 72;
pub const PRESENCE_STALE_SECONDS: i64 = 180;
pub const MAIN_GUILD_ID: u64 = 1289721245281292288;
pub const RRANG_INFO_BALANCING_RULE: &'static str = "Platzhalter";

/// Comp/ranked category (mode "lane").
pub const MONITORED_CATEGORY_ID: u64 = 1412804540994162789;
pub const EXCLUDED_CHANNEL_IDS: [u64; 6] = [
    1375933460841234514,
    1375934283931451512,
    1357422958544420944,
    1412804671432818890,
    1411391356278018245,
    1470126503252721845,
];

/// Main rank roles of the guild: role id → (name, tier).
pub open spec fn major_role_spec(id: u64) -> Option<(Seq<char>, i64)> {
    if id == 1331457571118387210 {
        Some(("Initiate"@, 1))
    } else if id == 1331457652877955072 {
        Some(("Seeker"@, 2))
    } else if id == 1331457699992436829 {
        Some(("Alchemist"@, 3))
    } else if id == 1331457724848017539 {
        Some(("Arcanist"@, 4))
    } else if id == 1331457879345070110 {
        Some(("Ritualist"@, 5))
    } else if id == 1331457898781474836 {
        Some(("Emissary"@, 6))
    } else if id == 1331457949654319114 {
        Some(("Archon"@, 7))
    } else if id == 1316966867033653338 {
        Some(("Oracle"@, 8))
    } else if id == 1331458016356208680 {
        Some(("Phantom"@, 9))
    } else if id == 1331458049637875785 {
        Some(("Ascendant"@, 10))
    } else if id == 1331458087349129296 {
        Some(("Eternus"@, 11))
    } else {
        None
    }
}

/// The main rank role with the given id, as (name, tier).
pub fn major_rank_role(id: u64) -> (r: Option<(&'static str, i64)>)
    ensures
        match r {
            Some((name, tier)) => major_role_spec(id) == Some((name@, tier)),
            None => major_role_spec(id) is None,
        },
{
    if id == 1331457571118387210 {
        Some(("Initiate", 1))
    } else if id == 1331457652877955072 {
        Some(("Seeker", 2))
    } else if id == 1331457699992436829 {
        Some(("Alchemist", 3))
    } else if id == 1331457724848017539 {
        Some(("Arcanist", 4))
    } else if id == 1331457879345070110 {
        Some(("Ritualist", 5))
    } else if id == 1331457898781474836 {
        Some(("Emissary", 6))
    } else if id == 1331457949654319114 {
        Some(("Archon", 7))
    } else if id == 1316966867033653338 {
        Some(("Oracle", 8))
    } else if id == 1331458016356208680 {
        Some(("Phantom", 9))
    } else if id == 1331458049637875785 {
        Some(("Ascendant", 10))
    } else if id == 1331458087349129296 {
        Some(("Eternus", 11))
    } else {
        None
    }
}

/// The role ids of the main rank roles, in tier order.
pub const MAJOR_RANK_ROLE_IDS: [u64; 11] = [
    1331457571118387210,
    1331457652877955072,
    1331457699992436829,
    1331457724848017539,
    1331457879345070110,
    1331457898781474836,
    1331457949654319114,
    1316966867033653338,
    1331458016356208680,
    1331458049637875785,
    1331458087349129296,
];

/// Main rank roles of the guild (id → (name, tier)).
pub fn major_rank_roles() -> (r: std::collections::HashMap<u64, (&'static str, i64)>)
    ensures
        forall|id: u64|
            #![trigger r@.contains_key(id)]
            (r@.contains_key(id) <==> major_role_spec(id) is Some) && (r@.contains_key(id)
                ==> major_role_spec(id) == Some((r@[id].0@, r@[id].1))),
{
    broadcast use vstd::std_specs::hash::group_hash_axioms;

    let mut m: std::collections::HashMap<u64, (&'static str, i64)> =
        std::collections::HashMap::new();
    let mut i: usize = 0;
    while i < 11
        invariant
            i <= 11,
            forall|id: u64|
                #![trigger m@.contains_key(id)]
                m@.contains_key(id) <==> exists|k: int|
                    0 <= k < i && MAJOR_RANK_ROLE_IDS[k] == id,
            forall|id: u64|
                #![trigger m@.contains_key(id)]
                m@.contains_key(id) ==> major_role_spec(id) == Some((m@[id].0@, m@[id].1)),
        decreases 11 - i,
    {
        let id = MAJOR_RANK_ROLE_IDS[i];
        let entry = major_rank_role(id);
        match entry {
            Some(e) => {
                m.insert(id, e);
            },
            None => {
                assert(false);
            },
        }
        i += 1;
    }
    assert forall|id: u64| #![trigger m@.contains_key(id)] major_role_spec(id) is Some
        implies m@.contains_key(id) by {
        if major_role_spec(id) is Some {
            let k: int = if id == 1331457571118387210 {
                0
            } else if id == 1331457652877955072 {
                1
            } else if id == 1331457699992436829 {
                2
            } else if id == 1331457724848017539 {
                3
            } else if id == 1331457879345070110 {
                4
            } else if id == 1331457898781474836 {
                5
            } else if id == 1331457949654319114 {
                6
            } else if id == 1316966867033653338 {
                7
            } else if id == 1331458016356208680 {
                8
            } else if id == 1331458049637875785 {
                9
            } else {
                10
            };
            assert(MAJOR_RANK_ROLE_IDS[k] == id);
        }
    }
    m
}

/// Tier value of a rank name, compared case-insensitively.
pub open spec fn rank_value_spec(name: Seq<char>) -> Option<i64> {
    match tier_value_spec(lowercase_of(name)) {
        Some(v) => Some(v as i64),
        None => None,
    }
}

/// Tier value of an ASCII rank name, lowercased by ASCII rules.
pub open spec fn rank_value_ascii_spec(name: Seq<char>) -> Option<i64> {
    match tier_value_spec(ascii_lower(name)) {
        Some(v) => Some(v as i64),
        None => None,
    }
}

/// Tier value of a rank name (case-insensitive); `None` when unknown.
pub fn rank_value(name: &str) -> (r: Option<i64>)
    ensures
        r == rank_value_spec(name@),
        is_ascii_seq(name@) ==> r == rank_value_ascii_spec(name@),
{
    let lower = to_lowercase(name);
    let v = chars_of(lower.as_str());
    tier_value_chars(&v)
}

/// Split at the last whitespace character: (before, after).
pub open spec fn last_ws_from(s: Seq<char>, i: int) -> Option<int>
    decreases i,
{
    if i <= 0 {
        None
    } else if is_ws(s[i - 1]) {
        Some(i - 1)
    } else {
        last_ws_from(s, i - 1)
    }
}

pub open spec fn rsplit_ws_spec(s: Seq<char>) -> Option<(Seq<char>, Seq<char>)> {
    match last_ws_from(s, s.len() as int) {
        Some(k) => Some((s.subrange(0, k), s.subrange(k + 1, s.len() as int))),
        None => None,
    }
}

fn rsplit_ws(s: &[char]) -> (r: Option<(Vec<char>, Vec<char>)>)
    ensures
        match r {
            Some((a, b)) => rsplit_ws_spec(s@) == Some((a@, b@)),
            None => rsplit_ws_spec(s@) is None,
        },
{
    let mut i: usize = s.len();
    while i > 0
        invariant
            i <= s.len(),
            last_ws_from(s@, s.len() as int) == last_ws_from(s@, i as int),
        decreases i,
    {
        if crate::text::is_whitespace(s[i - 1]) {
            let a = slice_chars(s, 0, i - 1);
            let b = slice_chars(s, i, s.len());
            return Some((a, b));
        }
        i -= 1;
    }
    None
}

/// `SUBRANK_ROLE_RE`: "Asc 3" / "Ascendant 3" → (name, tier, sub-rank).
pub open spec fn subrank_role_spec(role_name: Seq<char>) -> Option<(Seq<char>, i64, i64)> {
    match rsplit_ws_spec(trim_spec(role_name)) {
        None => None,
        Some((name_part, sub_part)) => match parse_int_spec(
            sub_part,
            i64::MIN as int,
            i64::MAX as int,
        ) {
            None => None,
            Some(sub) => if !(1 <= sub <= 6) {
                None
            } else {
                let lower = lowercase_of(trim_spec(name_part));
                match rank_value_spec(lower) {
                    Some(value) => Some((capitalize_spec(lower), value, sub as i64)),
                    None => match find_short(lower, 0) {
                        Some(k) => match rank_value_spec(lowercase_of(short_tier(k).1)) {
                            Some(v) => Some((short_tier(k).1, v, sub as i64)),
                            None => None,
                        },
                        None => None,
                    },
                }
            },
        },
    }
}

/// `subrank_role_spec` for an ASCII role name: lowercasing and
/// capitalising by ASCII rules.
pub open spec fn subrank_role_ascii_spec(role_name: Seq<char>) -> Option<(Seq<char>, i64, i64)> {
    match rsplit_ws_spec(trim_spec(role_name)) {
        None => None,
        Some((name_part, sub_part)) => match parse_int_spec(
            sub_part,
            i64::MIN as int,
            i64::MAX as int,
        ) {
            None => None,
            Some(sub) => if !(1 <= sub <= 6) {
                None
            } else {
                let lower = ascii_lower(trim_spec(name_part));
                match rank_value_ascii_spec(lower) {
                    Some(value) => Some((ascii_capitalize(lower), value, sub as i64)),
                    None => match find_short(lower, 0) {
                        Some(k) => match rank_value_ascii_spec(short_tier(k).1) {
                            Some(v) => Some((short_tier(k).1, v, sub as i64)),
                            None => None,
                        },
                        None => None,
                    },
                }
            },
        },
    }
}

/// Rank name of a tier value by ASCII capitalisation: the same text as
/// `rank_name_spec`.
pub open spec fn rank_name_ascii(value: i64) -> Seq<char> {
    if 0 <= value < 12 {
        ascii_capitalize(tier_name(value as int))
    } else {
        "Obscurus"@
    }
}

proof fn lemma_capitalize_lower_word(s: Seq<char>)
    requires
        crate::rank_catalog::is_capitalized_word(s),
    ensures
        ascii_capitalize(ascii_lower(s)) == s,
{
    let l = ascii_lower(s);
    let c = s[0];
    assert(l[0] as u32 == (c as u32) + 32);
    assert('a' <= l[0] && l[0] <= 'z');
    assert(crate::text::ascii_upper_char(l[0]) as u32 == (l[0] as u32) - 32);
    assert forall|i: int| 1 <= i < s.len() implies #[trigger] l[i] == s[i] by {
        assert('a' <= s[i] <= 'z');
    }
    assert(ascii_capitalize(l) =~= s);
}

proof fn lemma_lower_capitalize(s: Seq<char>)
    requires
        is_ascii_seq(s),
        ascii_lower(s) == s,
    ensures
        ascii_lower(ascii_capitalize(s)) == s,
{
    if s.len() > 0 {
        let c = s[0];
        assert(ascii_lower(s)[0] == c);
        let u = crate::text::ascii_upper_char(c);
        if 'a' <= c && c <= 'z' {
            assert(u as u32 == (c as u32) - 32);
            assert('A' <= u && u <= 'Z');
            assert(crate::text::ascii_lower_char(u) as u32 == (u as u32) + 32);
        }
        assert(crate::text::ascii_lower_char(u) == c);
        assert(ascii_lower(ascii_capitalize(s)) =~= s);
    }
}

proof fn lemma_ascii_sub(s: Seq<char>, a: int, b: int)
    requires
        is_ascii_seq(s),
        0 <= a <= b <= s.len(),
    ensures
        is_ascii_seq(s.subrange(a, b)),
{
    assert forall|i: int| 0 <= i < s.subrange(a, b).len() implies (#[trigger] s.subrange(a, b)[i]
        as int) < 128 by {
        assert(s.subrange(a, b)[i] == s[a + i]);
    }
}

proof fn lemma_last_ws_bound(s: Seq<char>, i: int)
    ensures
        last_ws_from(s, i) matches Some(k) ==> 0 <= k < i,
    decreases i,
{
    if i > 0 {
        lemma_last_ws_bound(s, i - 1);
    }
}

/// Parses a sub-rank role name ("Ascendant 3", short form "Asc 3") into
/// (full name, tier, sub-rank 1..=6).
pub fn parse_subrank_role(role_name: &str) -> (r: Option<(String, i64, i64)>)
    ensures
        match r {
            Some((name, value, sub)) => subrank_role_spec(role_name@) == Some((name@, value, sub))
                && 0 <= value < 12 && 1 <= sub <= 6,
            None => subrank_role_spec(role_name@) is None,
        },
        is_ascii_seq(role_name@) ==> match r {
            Some((name, value, sub)) => subrank_role_ascii_spec(role_name@) == Some(
                (name@, value, sub),
            ) && name@ == rank_name_ascii(value),
            None => subrank_role_ascii_spec(role_name@) is None,
        },
{
    let trimmed = trim_str(role_name);
    proof {
        if is_ascii_seq(role_name@) {
            lemma_ascii_trim(role_name@);
            let t = trim_spec(role_name@);
            lemma_last_ws_bound(t, t.len() as int);
            match last_ws_from(t, t.len() as int) {
                Some(k) => {
                    lemma_ascii_sub(t, 0, k);
                    lemma_ascii_trim(t.subrange(0, k));
                    lemma_ascii_lower_twice(trim_spec(t.subrange(0, k)));
                },
                None => {},
            }
        }
    }
    let (name_part, sub_part) = match rsplit_ws(&trimmed) {
        Some(p) => p,
        None => return None,
    };
    let sub = match crate::text::parse_i64(&sub_part) {
        Some(x) => x,
        None => return None,
    };
    if !(1 <= sub && sub <= 6) {
        return None;
    }
    let name_trim = string_of(&trim_chars(&name_part));
    let lower = to_lowercase(name_trim.as_str());
    if let Some(value) = rank_value(lower.as_str()) {
        proof {
            crate::rank_catalog::lemma_find_tier_bound(lowercase_of(lower@), 0);
            if is_ascii_seq(role_name@) {
                assert(is_ascii_seq(name_trim@));
                lemma_ascii_lower_twice(name_trim@);
                assert(lower@ == ascii_lower(name_trim@));
                assert(is_ascii_seq(lower@));
                assert(Some(value) == rank_value_ascii_spec(lower@));
                if lower@.len() > 0 {
                    assert((lower@[0] as int) < 128);
                }
                assert(subrank_role_ascii_spec(role_name@) == Some((ascii_capitalize(lower@), value, sub)));
                lemma_find_tier_names(ascii_lower(lower@), 0);
                crate::rank_catalog::lemma_find_tier_bound(ascii_lower(lower@), 0);
                lemma_lower_capitalize(lower@);
            }
        }
        let cap = capitalize(lower.as_str());
        proof {
            if is_ascii_seq(role_name@) {
                assert(cap@ == ascii_capitalize(lower@));
                assert(ascii_lower(lower@) == lower@);
                assert(lower@ == tier_name(value as int));
                assert(cap@ == rank_name_ascii(value));
            }
        }
        return Some((cap, value, sub));
    }
    let lv = chars_of(lower.as_str());
    match find_short_chars(&lv) {
        Some(k) => {
            let (_short, full) = short_tier_strs(k);
            proof {
                lemma_names_ascii(k as int);
                lemma_ascii_lower_twice(full@);
            }
            let full_lower = to_lowercase(full);
            match rank_value(full_lower.as_str()) {
                Some(v) => {
                    proof {
                        crate::rank_catalog::lemma_find_tier_bound(lowercase_of(full_lower@), 0);
                        lemma_ascii_lower_twice(ascii_lower(full@));
                        lemma_find_tier_names(ascii_lower(full_lower@), 0);
                        lemma_capitalize_lower_word(full@);
                        crate::rank_catalog::lemma_find_tier_bound(ascii_lower(full_lower@), 0);
                    }
                    Some((owned(full), v, sub))
                },
                None => None,
            }
        },
        None => None,
    }
}


/// Highest rank among roles, with its score: a sub-rank role scores
/// tier·6+sub, a main rank role tier·6; the first role reaching the highest
/// score wins. Starts from ("Obscurus", 0, no sub-rank, score -1).
pub open spec fn rank_fold(roles: Seq<(u64, String)>) -> (Seq<char>, i64, Option<i64>, int)
    decreases roles.len(),
{
    if roles.len() == 0 {
        ("Obscurus"@, 0, None, -1)
    } else {
        let prev = rank_fold(roles.drop_last());
        let (id, name) = roles.last();
        match subrank_role_spec(name@) {
            Some((n, v, sub)) => {
                let score = v * 6 + sub;
                if score > prev.3 {
                    (n, v, Some(sub), score)
                } else {
                    prev
                }
            },
            None => match major_role_spec(id) {
                Some((n, v)) => {
                    if v * 6 > prev.3 {
                        (n, v, None, v * 6)
                    } else {
                        prev
                    }
                },
                None => prev,
            },
        }
    }
}

/// `rank_fold` for ASCII role names.
pub open spec fn rank_fold_ascii(roles: Seq<(u64, String)>) -> (Seq<char>, i64, Option<i64>, int)
    decreases roles.len(),
{
    if roles.len() == 0 {
        ("Obscurus"@, 0, None, -1)
    } else {
        let prev = rank_fold_ascii(roles.drop_last());
        let (id, name) = roles.last();
        match subrank_role_ascii_spec(name@) {
            Some((n, v, sub)) => {
                let score = v * 6 + sub;
                if score > prev.3 {
                    (n, v, Some(sub), score)
                } else {
                    prev
                }
            },
            None => match major_role_spec(id) {
                Some((n, v)) => {
                    if v * 6 > prev.3 {
                        (n, v, None, v * 6)
                    } else {
                        prev
                    }
                },
                None => prev,
            },
        }
    }
}

/// Every role name is ASCII.
pub open spec fn ascii_role_names(roles: Seq<(u64, String)>) -> bool {
    forall|i: int| 0 <= i < roles.len() ==> is_ascii_seq(#[trigger] roles[i].1@)
}

/// The score a role gives: tier·6+sub for a sub-rank role, tier·6 for a
/// main rank role, none otherwise.
pub open spec fn role_score(role: (u64, String)) -> Option<int> {
    match subrank_role_spec(role.1@) {
        Some((_, v, sub)) => Some(v * 6 + sub),
        None => match major_role_spec(role.0) {
            Some((_, v)) => Some(v * 6),
            None => None,
        },
    }
}

/// The highest rank wins: no role scores above the chosen rank; the
/// chosen rank's score is its tier·6 plus its sub-rank (if any); and the
/// default "Obscurus" (score -1) comes exactly when no role scores.
pub proof fn lemma_rank_fold_is_best(roles: Seq<(u64, String)>)
    ensures
        forall|i: int|
            0 <= i < roles.len() ==> (#[trigger] role_score(roles[i]) matches Some(sc) ==> sc
                <= rank_fold(roles).3),
        rank_fold(roles).3 >= 0 ==> rank_fold(roles).3 == rank_fold(roles).1 * 6 + match rank_fold(
            roles,
        ).2 {
            Some(sub) => sub as int,
            None => 0,
        },
        rank_fold(roles).3 == -1 <==> (forall|i: int|
            0 <= i < roles.len() ==> #[trigger] role_score(roles[i]) is None),
        rank_fold(roles).3 == -1 ==> rank_fold(roles).0 == "Obscurus"@ && rank_fold(roles).1 == 0
            && rank_fold(roles).2 is None,
    decreases roles.len(),
{
    if roles.len() > 0 {
        let pre = roles.drop_last();
        lemma_rank_fold_is_best(pre);
        lemma_rank_fold_bounds(roles);
        lemma_rank_fold_bounds(pre);
        assert forall|i: int| 0 <= i < pre.len() implies #[trigger] roles[i] == pre[i] by {}
        let last = roles.last();
        match subrank_role_spec(last.1@) {
            Some((n, v, sub)) => {
                lemma_subrank_nonneg(last.1@);
            },
            None => {
                match major_role_spec(last.0) {
                    Some((n, v)) => {
                        lemma_major_positive(last.0);
                    },
                    None => {},
                }
            },
        }
        if forall|i: int| 0 <= i < roles.len() ==> #[trigger] role_score(roles[i]) is None {
            assert forall|i: int| 0 <= i < pre.len() implies #[trigger] role_score(pre[i]) is None by {
                assert(roles[i] == pre[i]);
                assert(role_score(roles[i]) is None);
            }
            assert(role_score(roles[roles.len() - 1]) is None);
        }
        if rank_fold(roles).3 == -1 {
            assert forall|i: int| 0 <= i < roles.len() implies #[trigger] role_score(roles[i]) is None by {
                if i < pre.len() {
                    assert(roles[i] == pre[i]);
                }
                match role_score(roles[i]) {
                    Some(sc) => {
                        lemma_subrank_nonneg(roles[i].1@);
                        lemma_major_positive(roles[i].0);
                    },
                    None => {},
                }
            }
        }
        assert forall|i: int|
            0 <= i < roles.len() implies (#[trigger] role_score(roles[i]) matches Some(sc) ==> sc
            <= rank_fold(roles).3) by {
            if i < pre.len() {
                assert(roles[i] == pre[i]);
            }
        }
    }
}

proof fn lemma_subrank_nonneg(name: Seq<char>)
    ensures
        subrank_role_spec(name) matches Some((n, v, sub)) ==> 0 <= v < 12 && 1 <= sub <= 6,
{
    match subrank_role_spec(name) {
        Some((n, v, sub)) => {
            let parts = rsplit_ws_spec(trim_spec(name)).unwrap();
            let lower = lowercase_of(trim_spec(parts.0));
            crate::rank_catalog::lemma_find_tier_bound(lowercase_of(lower), 0);
            match find_short(lower, 0) {
                Some(k) => {
                    crate::rank_catalog::lemma_find_tier_bound(
                        lowercase_of(lowercase_of(short_tier(k).1)),
                        0,
                    );
                },
                None => {},
            }
        },
        None => {},
    }
}

proof fn lemma_major_positive(id: u64)
    ensures
        major_role_spec(id) matches Some((n, v)) ==> 1 <= v <= 11,
{
}

proof fn lemma_rank_fold_bounds(roles: Seq<(u64, String)>)
    ensures
        -1 <= rank_fold(roles).3 <= 72,
        0 <= rank_fold(roles).1 < 12,
    decreases roles.len(),
{
    if roles.len() > 0 {
        lemma_rank_fold_bounds(roles.drop_last());
        let (_id, name) = roles.last();
        match subrank_role_spec(name@) {
            Some((n, v, sub)) => {
                let parts = rsplit_ws_spec(trim_spec(name@)).unwrap();
                let lower = lowercase_of(trim_spec(parts.0));
                crate::rank_catalog::lemma_find_tier_bound(lowercase_of(lower), 0);
                match find_short(lower, 0) {
                    Some(k) => {
                        crate::rank_catalog::lemma_find_tier_bound(
                            lowercase_of(lowercase_of(short_tier(k).1)),
                            0,
                        );
                    },
                    None => {},
                }
            },
            None => {},
        }
    }
}

/// Highest rank from roles: (name, tier, sub-rank if a sub-rank role gave it).
pub fn user_rank_from_roles(roles: &[(u64, String)]) -> (r: (String, i64, Option<i64>))
    ensures
        r.0@ == rank_fold(roles@).0,
        r.1 == rank_fold(roles@).1,
        r.2 == rank_fold(roles@).2,
        ascii_role_names(roles@) ==> r.0@ == rank_fold_ascii(roles@).0 && r.1 == rank_fold_ascii(
            roles@,
        ).1 && r.2 == rank_fold_ascii(roles@).2,
{
    let mut best_name = owned("Obscurus");
    let mut best_value: i64 = 0;
    let mut best_sub: Option<i64> = None;
    let mut best_score: i64 = -1;
    let mut i: usize = 0;
    while i < roles.len()
        invariant
            i <= roles.len(),
            best_name@ == rank_fold(roles@.take(i as int)).0,
            best_value == rank_fold(roles@.take(i as int)).1,
            best_sub == rank_fold(roles@.take(i as int)).2,
            best_score as int == rank_fold(roles@.take(i as int)).3,
            ascii_role_names(roles@) ==> rank_fold_ascii(roles@.take(i as int)) == rank_fold(
                roles@.take(i as int),
            ),
        decreases roles.len() - i,
    {
        proof {
            if ascii_role_names(roles@) {
                assert(is_ascii_seq(roles@[i as int].1@));
            }
        }
        let ghost next = roles@.take(i + 1);
        assert(next.drop_last() == roles@.take(i as int));
        assert(next.last() == roles@[i as int]);
        proof {
            lemma_rank_fold_bounds(roles@.take(i as int));
        }
        let (role_id, role_name) = (roles[i].0, &roles[i].1);
        match parse_subrank_role(role_name.as_str()) {
            Some((name, value, sub)) => {
                let score = value * 6 + sub;
                if score > best_score {
                    best_score = score;
                    best_name = name;
                    best_value = value;
                    best_sub = Some(sub);
                }
            },
            None => {
                match major_rank_role(role_id) {
                    Some((name, value)) => {
                        assert(1 <= value <= 11);
                        let score = value * 6;
                        if score > best_score {
                            best_score = score;
                            best_name = owned(name);
                            best_value = value;
                            best_sub = None;
                        }
                    },
                    None => {},
                }
            },
        }
        i += 1;
    }
    assert(roles@.take(roles.len() as int) == roles@);
    (best_name, best_value, best_sub)
}

/// Rust's `/` by 6 (truncating toward zero).
pub open spec fn trunc_div6(a: int) -> int {
    if a >= 0 {
        a / 6
    } else {
        -((-a) / 6)
    }
}

pub open spec fn anchor_range_spec(rank_value: int, subrank: int) -> (i64, i64, i64, i64) {
    let anchor_score = rank_value * 6 + subrank;
    let score_min = if anchor_score - 9 >= 7 {
        anchor_score - 9
    } else {
        7
    };
    let score_max = if anchor_score + 9 <= 72 {
        anchor_score + 9
    } else {
        72
    };
    let allowed_min = if trunc_div6(score_min - 1) >= 1 {
        trunc_div6(score_min - 1)
    } else {
        1
    };
    let allowed_max = if trunc_div6(score_max - 1) <= 11 {
        trunc_div6(score_max - 1)
    } else {
        11
    };
    (score_min as i64, score_max as i64, allowed_min as i64, allowed_max as i64)
}

/// Score window around the anchor and the coarse tier bounds:
/// (score_min, score_max, allowed_min, allowed_max).
pub fn anchor_range(rank_value: i64, subrank: i64) -> (r: (i64, i64, i64, i64))
    requires
        i64::MIN + 10 <= rank_value * 6 + subrank <= i64::MAX - 10,
        i64::MIN <= rank_value * 6 <= i64::MAX,
    ensures
        r == anchor_range_spec(rank_value as int, subrank as int),
{
    let anchor_score = rank_value * 6 + subrank;
    let score_min = if anchor_score - RANKED_SUBRANK_TOLERANCE >= SCORE_MIN_ABSOLUTE {
        anchor_score - RANKED_SUBRANK_TOLERANCE
    } else {
        SCORE_MIN_ABSOLUTE
    };
    let score_max = if anchor_score + RANKED_SUBRANK_TOLERANCE <= SCORE_MAX_ABSOLUTE {
        anchor_score + RANKED_SUBRANK_TOLERANCE
    } else {
        SCORE_MAX_ABSOLUTE
    };
    let lo = (score_min - 1) / 6;
    let hi = (score_max - 1) / 6;
    let allowed_min = if lo >= 1 {
        lo
    } else {
        1
    };
    let allowed_max = if hi <= 11 {
        hi
    } else {
        11
    };
    (score_min, score_max, allowed_min, allowed_max)
}

/// "±N Ränge" with N the tolerance in whole ranks (at least 1).
pub fn balancing_rule_value() -> (r: String)
    ensures
        r@ == "±"@ + int_dec(1) + " Ränge"@,
{
    let full_rank_span: i64 = if RANKED_SUBRANK_TOLERANCE / 6 >= 1 {
        RANKED_SUBRANK_TOLERANCE / 6
    } else {
        1
    };
    let mut v = chars_of("±");
    let ghost a = v@;
    push_i64(&mut v, full_rank_span);
    let ghost b = v@;
    crate::text::append_str(&mut v, " Ränge");
    assert(v@ == a + int_dec(1) + " Ränge"@);
    string_of(&v)
}

/// Whether a role name is a sub-rank role inside the score window.
pub open spec fn in_window(name: Seq<char>, score_min: i64, score_max: i64) -> bool {
    match subrank_role_spec(name) {
        Some((_n, v, sub)) => score_min <= v * 6 + sub <= score_max,
        None => false,
    }
}

/// Which sub-rank roles of the guild fall into the score window.
pub fn allowed_subrank_roles(guild_roles: &[(u64, String)], score_min: i64, score_max: i64) -> (r:
    std::collections::HashSet<u64>)
    ensures
        forall|id: u64|
            #![trigger r@.contains(id)]
            r@.contains(id) <==> exists|i: int|
                0 <= i < guild_roles@.len() && (#[trigger] guild_roles@[i]).0 == id && in_window(
                    guild_roles@[i].1@,
                    score_min,
                    score_max,
                ),
{
    broadcast use vstd::std_specs::hash::group_hash_axioms;

    let mut r: std::collections::HashSet<u64> = std::collections::HashSet::new();
    let mut i: usize = 0;
    while i < guild_roles.len()
        invariant
            i <= guild_roles.len(),
            forall|id: u64|
                #![trigger r@.contains(id)]
                r@.contains(id) <==> exists|k: int|
                    0 <= k < i && (#[trigger] guild_roles@[k]).0 == id && in_window(
                        guild_roles@[k].1@,
                        score_min,
                        score_max,
                    ),
        decreases guild_roles.len() - i,
    {
        match parse_subrank_role(guild_roles[i].1.as_str()) {
            Some((_name, value, sub)) => {
                let score = value * 6 + sub;
                if score_min <= score && score <= score_max {
                    r.insert(guild_roles[i].0);
                }
            },
            None => {},
        }
        i += 1;
    }
    r
}

pub open spec fn channel_name_spec(
    anchor: Option<(Seq<char>, i64)>,
    first_member_rank: Option<(Seq<char>, i64)>,
) -> Seq<char> {
    match anchor {
        Some((name, sub)) => name + " "@ + int_dec(sub as int),
        None => match first_member_rank {
            Some((name, sub)) => name + " "@ + int_dec(sub as int),
            None => "Rang-Sprachkanal"@,
        },
    }
}

fn name_with_sub(name: &str, sub: i64) -> (r: String)
    ensures
        r@ == name@ + " "@ + int_dec(sub as int),
{
    let mut v = chars_of(name);
    crate::text::append_str(&mut v, " ");
    push_i64(&mut v, sub);
    string_of(&v)
}

/// Channel name from the anchor, else the first member's rank, else the
/// generic name (like `update_channel_name`).
pub fn desired_channel_name(anchor: Option<(&str, i64)>, first_member_rank: Option<(&str, i64)>) -> (r:
    String)
    ensures
        r@ == channel_name_spec(
            match anchor {
                Some((n, s)) => Some((n@, s)),
                None => None,
            },
            match first_member_rank {
                Some((n, s)) => Some((n@, s)),
                None => None,
            },
        ),
{
    if let Some((name, sub)) = anchor {
        return name_with_sub(name, sub);
    }
    if let Some((name, sub)) = first_member_rank {
        return name_with_sub(name, sub);
    }
    owned("Rang-Sprachkanal")
}

pub open spec fn rank_name_spec(value: i64) -> Seq<char> {
    if 0 <= value < 12 {
        capitalize_spec(tier_name(value as int))
    } else {
        "Obscurus"@
    }
}

/// Rank name of a tier value (`get_rank_name_from_value`); unknown → "Obscurus".
pub fn rank_name_from_value(value: i64) -> (r: String)
    ensures
        r@ == rank_name_spec(value),
        r@ == rank_name_ascii(value),
{
    if 0 <= value && value < 12 {
        proof {
            lemma_names_ascii(value as int);
        }
        capitalize(tier_name_str(value as usize))
    } else {
        owned("Obscurus")
    }
}


// ── Mentions ───────────────────────────────────────────────────────────────

/// `s` without a leading `p` and trailing `q`, when both are there.
pub open spec fn between_spec(s: Seq<char>, p: Seq<char>, q: char) -> Option<Seq<char>> {
    match crate::text::strip_prefix_spec(s, p) {
        Some(rest) => if rest.len() > 0 && rest.last() == q {
            Some(rest.drop_last())
        } else {
            None
        },
        None => None,
    }
}

fn between(s: &[char], p: &str, q: char) -> (r: Option<Vec<char>>)
    ensures
        match r {
            Some(v) => between_spec(s@, p@, q) == Some(v@),
            None => between_spec(s@, p@, q) is None,
        },
{
    let pv = chars_of(p);
    if !crate::text::starts_with_chars(s, &pv) {
        return None;
    }
    let rest = slice_chars(s, pv.len(), s.len());
    if rest.len() > 0 && rest[rest.len() - 1] == q {
        let inner = slice_chars(&rest, 0, rest.len() - 1);
        assert(inner@ == rest@.drop_last());
        Some(inner)
    } else {
        None
    }
}

pub open spec fn u64_parse(s: Seq<char>) -> Option<u64> {
    match parse_int_spec(s, 0, u64::MAX as int) {
        Some(v) => Some(v as u64),
        None => None,
    }
}

fn parse_u64_opt(v: &[char]) -> (r: Option<u64>)
    ensures
        r == u64_parse(v@),
{
    crate::text::parse_u64(v)
}

pub open spec fn mention_spec(token: Seq<char>) -> Option<u64> {
    match between_spec(token, "<@"@, '>') {
        Some(inner) => if inner.len() > 0 && inner[0] == '!' {
            u64_parse(inner.drop_first())
        } else {
            u64_parse(inner)
        },
        None => None,
    }
}

/// A single user mention (`<@123>` / `<@!123>`).
pub fn parse_mention(token: &str) -> (r: Option<u64>)
    ensures
        r == mention_spec(token@),
{
    let t = chars_of(token);
    let inner = match between(&t, "<@", '>') {
        Some(i) => i,
        None => return None,
    };
    if inner.len() > 0 && inner[0] == '!' {
        let rest = slice_chars(&inner, 1, inner.len());
        assert(rest@ == inner@.drop_first());
        parse_u64_opt(&rest)
    } else {
        parse_u64_opt(&inner)
    }
}

pub open spec fn channel_arg_spec(token: Seq<char>) -> Option<u64> {
    match between_spec(token, "<#"@, '>') {
        Some(inner) => u64_parse(inner),
        None => u64_parse(token),
    }
}

/// A channel mention (`<#123>`) or a bare id.
pub fn parse_channel(token: &str) -> (r: Option<u64>)
    ensures
        r == channel_arg_spec(token@),
{
    let t = chars_of(token);
    match between(&t, "<#", '>') {
        Some(inner) => parse_u64_opt(&inner),
        None => parse_u64_opt(&t),
    }
}

// ── Anchors ────────────────────────────────────────────────────────────────

#[derive(Debug, Clone, PartialEq, Eq)]
pub struct Anchor {
    pub user_id: u64,
    pub rank_name: String,
    pub rank_value: i64,
    pub allowed_min: i64,
    pub allowed_max: i64,
    pub subrank: i64,
    pub score_min: i64,
    pub score_max: i64,
}

/// Sub-rank of the primary Steam account: the stored value clamped to
/// 1..=6, or 3 (the middle) when none is stored.
pub open spec fn effective_subrank_spec(stored: Option<i64>) -> i64 {
    match stored {
        Some(s) => if s < 1 {
            1
        } else if s > 6 {
            6
        } else {
            s
        },
        None => 3,
    }
}

pub fn effective_subrank(stored: Option<i64>) -> (r: i64)
    ensures
        r == effective_subrank_spec(stored),
{
    match stored {
        Some(s) => if s < 1 {
            1
        } else if s > 6 {
            6
        } else {
            s
        },
        None => 3,
    }
}

/// Stored sub-rank of a user among (user id, stored sub-rank) rows: the
/// first row of that user.
pub open spec fn stored_subrank_of(rows: Seq<(u64, i64)>, user_id: u64) -> Option<i64>
    decreases rows.len(),
{
    if rows.len() == 0 {
        None
    } else if rows[0].0 == user_id {
        Some(rows[0].1)
    } else {
        stored_subrank_of(rows.drop_first(), user_id)
    }
}

fn lookup_stored_subrank(rows: &[(u64, i64)], user_id: u64) -> (r: Option<i64>)
    ensures
        r == stored_subrank_of(rows@, user_id),
{
    let mut i: usize = 0;
    assert(rows@.subrange(0, rows.len() as int) =~= rows@);
    while i < rows.len()
        invariant
            i <= rows.len(),
            stored_subrank_of(rows@, user_id) == stored_subrank_of(
                rows@.subrange(i as int, rows.len() as int),
                user_id,
            ),
        decreases rows.len() - i,
    {
        let ghost rest = rows@.subrange(i as int, rows.len() as int);
        assert(rest.drop_first() == rows@.subrange(i + 1, rows.len() as int));
        assert(rest[0] == rows@[i as int]);
        if rows[i].0 == user_id {
            return Some(rows[i].1);
        }
        i += 1;
    }
    None
}

/// (name, tier, sub-rank) of a member: the sub-rank from a sub-rank role,
/// otherwise from the stored Steam rank.
pub open spec fn rank_tuple_spec(user_id: u64, roles: Seq<(u64, String)>, stored: Seq<(u64, i64)>) -> (
    Seq<char>,
    i64,
    i64,
) {
    let (name, value, sub, _score) = rank_fold(roles);
    let sub = match sub {
        Some(s) => s,
        None => effective_subrank_spec(stored_subrank_of(stored, user_id)),
    };
    (name, value, sub)
}

fn rank_tuple(user_id: u64, roles: &[(u64, String)], stored: &[(u64, i64)]) -> (r: (
    String,
    i64,
    i64,
))
    ensures
        (r.0@, r.1, r.2) == rank_tuple_spec(user_id, roles@, stored@),
{
    let (name, value, sub) = user_rank_from_roles(roles);
    let sub = match sub {
        Some(s) => s,
        None => effective_subrank(lookup_stored_subrank(stored, user_id)),
    };
    (name, value, sub)
}

pub open spec fn member_ids(members: Seq<(u64, Vec<(u64, String)>)>) -> Seq<u64> {
    Seq::new(members.len(), |i: int| members[i].0)
}

/// Index of the first member with the given id.
pub open spec fn member_index(members: Seq<(u64, Vec<(u64, String)>)>, id: u64, from: int) -> Option<
    int,
>
    decreases members.len() - from,
{
    if from < 0 || from >= members.len() {
        None
    } else if members[from].0 == id {
        Some(from)
    } else {
        member_index(members, id, from + 1)
    }
}

fn find_member(members: &[(u64, Vec<(u64, String)>)], id: u64) -> (r: Option<usize>)
    ensures
        match r {
            Some(k) => member_index(members@, id, 0) == Some(k as int) && k < members.len(),
            None => member_index(members@, id, 0) is None,
        },
{
    let mut i: usize = 0;
    while i < members.len()
        invariant
            i <= members.len(),
            member_index(members@, id, 0) == member_index(members@, id, i as int),
        decreases members.len() - i,
    {
        if members[i].0 == id {
            return Some(i);
        }
        i += 1;
    }
    None
}

/// `first_ranked` from position `k` of `order`: the first listed member
/// whose rank tier is above 0.
pub open spec fn first_ranked_from(
    order: Seq<u64>,
    k: int,
    members: Seq<(u64, Vec<(u64, String)>)>,
    stored: Seq<(u64, i64)>,
) -> Option<(u64, Seq<char>, i64, i64)>
    decreases order.len() - k,
{
    if k < 0 || k >= order.len() {
        None
    } else {
        match member_index(members, order[k], 0) {
            Some(m) => {
                let t = rank_tuple_spec(order[k], members[m].1@, stored);
                if t.1 > 0 {
                    Some((order[k], t.0, t.1, t.2))
                } else {
                    first_ranked_from(order, k + 1, members, stored)
                }
            },
            None => first_ranked_from(order, k + 1, members, stored),
        }
    }
}

/// Anchor candidate among the members: cohort members first (all members when
/// the cohort is empty), the first ranked one; otherwise the first member.
pub open spec fn first_ranked_spec(
    relevant: Seq<u64>,
    members: Seq<(u64, Vec<(u64, String)>)>,
    stored: Seq<(u64, i64)>,
) -> Option<(u64, Seq<char>, i64, i64)> {
    let order = if relevant.len() == 0 {
        member_ids(members)
    } else {
        relevant
    };
    match first_ranked_from(order, 0, members, stored) {
        Some(t) => Some(t),
        None => if members.len() == 0 {
            None
        } else {
            let t = rank_tuple_spec(members[0].0, members[0].1@, stored);
            Some((members[0].0, t.0, t.1, t.2))
        },
    }
}

fn first_ranked(
    relevant: &[u64],
    members: &[(u64, Vec<(u64, String)>)],
    stored: &[(u64, i64)],
) -> (r: Option<(u64, String, i64, i64)>)
    ensures
        match r {
            Some((id, name, value, sub)) => first_ranked_spec(relevant@, members@, stored@) == Some(
                (id, name@, value, sub),
            ),
            None => first_ranked_spec(relevant@, members@, stored@) is None,
        },
{
    let mut order: Vec<u64> = Vec::new();
    if relevant.len() == 0 {
        let mut i: usize = 0;
        while i < members.len()
            invariant
                i <= members.len(),
                order@ == Seq::new(i as nat, |k: int| members@[k].0),
            decreases members.len() - i,
        {
            order.push(members[i].0);
            assert(order@ =~= Seq::new((i + 1) as nat, |k: int| members@[k].0));
            i += 1;
        }
        assert(order@ =~= member_ids(members@));
    } else {
        let mut i: usize = 0;
        while i < relevant.len()
            invariant
                i <= relevant.len(),
                order@ == relevant@.take(i as int),
            decreases relevant.len() - i,
        {
            order.push(relevant[i]);
            assert(order@ =~= relevant@.take(i + 1));
            i += 1;
        }
        assert(relevant@.take(relevant.len() as int) == relevant@);
    }
    let ghost spec_order = if relevant@.len() == 0 {
        member_ids(members@)
    } else {
        relevant@
    };
    assert(order@ == spec_order);
    let mut k: usize = 0;
    while k < order.len()
        invariant
            k <= order.len(),
            order@ == spec_order,
            spec_order == (if relevant@.len() == 0 {
                member_ids(members@)
            } else {
                relevant@
            }),
            first_ranked_from(order@, 0, members@, stored@) == first_ranked_from(
                order@,
                k as int,
                members@,
                stored@,
            ),
        decreases order.len() - k,
    {
        let user_id = order[k];
        match find_member(members, user_id) {
            Some(m) => {
                let (name, value, sub) = rank_tuple(user_id, &members[m].1, stored);
                if value > 0 {
                    assert(first_ranked_from(order@, k as int, members@, stored@) == Some(
                        (user_id, name@, value, sub),
                    ));
                    return Some((user_id, name, value, sub));
                }
            },
            None => {},
        }
        k += 1;
    }
    if members.len() == 0 {
        return None;
    }
    let (name, value, sub) = rank_tuple(members[0].0, &members[0].1, stored);
    Some((members[0].0, name, value, sub))
}

/// Anchor choice of `reconcile_channel`: the first owner (when ranked) wins;
/// otherwise, with members present, the existing anchor while its user is
/// still there, else the first ranked member of the cohort / channel.
/// `owner` carries the owner's id and roles when the channel has a first
/// owner that is a guild member; `stored` the stored Steam sub-ranks.
pub open spec fn choose_anchor_spec(
    owner: Option<(u64, Seq<(u64, String)>)>,
    existing: Option<Anchor>,
    members: Seq<(u64, Vec<(u64, String)>)>,
    relevant: Seq<u64>,
    stored: Seq<(u64, i64)>,
) -> Option<(u64, Seq<char>, i64, i64)> {
    let from_owner = match owner {
        Some((id, roles)) => {
            let t = rank_tuple_spec(id, roles, stored);
            if t.1 > 0 {
                Some((id, t.0, t.1, t.2))
            } else {
                None
            }
        },
        None => None,
    };
    match from_owner {
        Some(c) => Some(c),
        None => if members.len() == 0 {
            None
        } else {
            match existing {
                Some(a) => if member_index(members, a.user_id, 0) is Some {
                    Some((a.user_id, a.rank_name@, a.rank_value, a.subrank))
                } else {
                    first_ranked_spec(relevant, members, stored)
                },
                None => first_ranked_spec(relevant, members, stored),
            }
        },
    }
}

/// The anchor `reconcile_channel` settles on, as (user, rank name, tier,
/// sub-rank); `None` leaves the channel without anchor.
pub fn choose_anchor(
    owner: Option<(u64, &[(u64, String)])>,
    existing: Option<&Anchor>,
    members: &[(u64, Vec<(u64, String)>)],
    relevant: &[u64],
    stored: &[(u64, i64)],
) -> (r: Option<(u64, String, i64, i64)>)
    ensures
        match r {
            Some((id, name, value, sub)) => choose_anchor_spec(
                match owner {
                    Some((id, roles)) => Some((id, roles@)),
                    None => None,
                },
                match existing {
                    Some(a) => Some(*a),
                    None => None,
                },
                members@,
                relevant@,
                stored@,
            ) == Some((id, name@, value, sub)),
            None => choose_anchor_spec(
                match owner {
                    Some((id, roles)) => Some((id, roles@)),
                    None => None,
                },
                match existing {
                    Some(a) => Some(*a),
                    None => None,
                },
                members@,
                relevant@,
                stored@,
            ) is None,
        },
{
    if let Some((owner_id, roles)) = owner {
        let (name, value, sub) = rank_tuple(owner_id, roles, stored);
        if value > 0 {
            return Some((owner_id, name, value, sub));
        }
    }
    if members.len() == 0 {
        return None;
    }
    if let Some(a) = existing {
        if find_member(members, a.user_id).is_some() {
            return Some((a.user_id, a.rank_name.clone(), a.rank_value, a.subrank));
        }
    }
    first_ranked(relevant, members, stored)
}

/// The anchor record for a chosen (user, rank name, tier, sub-rank).
pub fn anchor_for_choice(user_id: u64, rank_name: String, rank_value: i64, subrank: i64) -> (a:
    Anchor)
    requires
        0 <= rank_value < 12,
        1 <= subrank <= 6,
    ensures
        a.user_id == user_id,
        a.rank_name@ == rank_name@,
        a.rank_value == rank_value,
        a.subrank == subrank,
        (a.score_min, a.score_max, a.allowed_min, a.allowed_max) == anchor_range_spec(
            rank_value as int,
            subrank as int,
        ),
{
    let (score_min, score_max, allowed_min, allowed_max) = anchor_range(rank_value, subrank);
    Anchor {
        user_id,
        rank_name,
        rank_value,
        allowed_min,
        allowed_max,
        subrank,
        score_min,
        score_max,
    }
}

// ── Reconciling a channel ──────────────────────────────────────────────────

/// Whether a channel is watched: in the comp/ranked category and not one of
/// the excluded channels.
pub fn is_monitored_channel(channel_id: u64, category_id: Option<u64>) -> (r: bool)
    ensures
        r == (category_id == Some(MONITORED_CATEGORY_ID) && forall|i: int|
            0 <= i < 6 ==> EXCLUDED_CHANNEL_IDS[i] != channel_id),
{
    let mut i: usize = 0;
    while i < 6
        invariant
            i <= 6,
            forall|k: int| 0 <= k < i ==> EXCLUDED_CHANNEL_IDS[k] != channel_id,
        decreases 6 - i,
    {
        if EXCLUDED_CHANNEL_IDS[i] == channel_id {
            return false;
        }
        i += 1;
    }
    match category_id {
        Some(c) => c == MONITORED_CATEGORY_ID,
        None => false,
    }
}

/// The channels a voice event asks to reconcile: the joined one, then the
/// left one.
pub fn reconcile_channels(event: LaneVoiceEvent) -> (r: Vec<u64>)
    ensures
        match event {
            LaneVoiceEvent::Join { channel_id } => r@ == seq![channel_id],
            LaneVoiceEvent::Leave { channel_id } => r@ == seq![channel_id],
            LaneVoiceEvent::Move { from_channel_id, to_channel_id } => r@ == seq![
                to_channel_id,
                from_channel_id,
            ],
            LaneVoiceEvent::Update => r@.len() == 0,
        },
{
    let mut r: Vec<u64> = Vec::new();
    match event {
        LaneVoiceEvent::Join { channel_id } => r.push(channel_id),
        LaneVoiceEvent::Leave { channel_id } => r.push(channel_id),
        LaneVoiceEvent::Move { from_channel_id, to_channel_id } => {
            r.push(to_channel_id);
            r.push(from_channel_id);
        },
        LaneVoiceEvent::Update => {},
    }
    r
}

/// A rank role: a main rank role, or a guild role named like a sub-rank role.
pub open spec fn is_rank_role(id: u64, guild_roles: Seq<(u64, String)>) -> bool {
    major_role_spec(id) is Some || exists|i: int|
        0 <= i < guild_roles.len() && (#[trigger] guild_roles[i]).0 == id && subrank_role_spec(
            guild_roles[i].1@,
        ) is Some
}

/// The current role overwrites to remove: rank roles that are not kept, in
/// the order given.
pub open spec fn rank_removals_spec(
    current: Seq<u64>,
    guild_roles: Seq<(u64, String)>,
    keep: Set<u64>,
) -> Seq<u64>
    decreases current.len(),
{
    if current.len() == 0 {
        seq![]
    } else {
        let pre = rank_removals_spec(current.drop_last(), guild_roles, keep);
        let id = current.last();
        if is_rank_role(id, guild_roles) && !keep.contains(id) {
            pre.push(id)
        } else {
            pre
        }
    }
}

fn is_rank_role_exec(id: u64, guild_roles: &[(u64, String)]) -> (r: bool)
    ensures
        r == is_rank_role(id, guild_roles@),
{
    if major_rank_role(id).is_some() {
        return true;
    }
    let mut i: usize = 0;
    while i < guild_roles.len()
        invariant
            i <= guild_roles.len(),
            major_role_spec(id) is None,
            forall|k: int|
                0 <= k < i && (#[trigger] guild_roles@[k]).0 == id ==> subrank_role_spec(
                    guild_roles@[k].1@,
                ) is None,
        decreases guild_roles.len() - i,
    {
        if guild_roles[i].0 == id && parse_subrank_role(guild_roles[i].1.as_str()).is_some() {
            return true;
        }
        i += 1;
    }
    false
}

/// Rank-role overwrites of a channel that go: every current overwrite of a
/// rank role (main or sub-rank) that `keep` does not hold. With an empty
/// `keep` this clears all rank roles from the channel. Nothing kept, and no
/// other role, is ever removed.
pub fn rank_overwrite_removals(
    current: &[u64],
    guild_roles: &[(u64, String)],
    keep: &std::collections::HashSet<u64>,
) -> (r: Vec<u64>)
    ensures
        r@ == rank_removals_spec(current@, guild_roles@, keep@),
        forall|k: int|
            0 <= k < r@.len() ==> current@.contains(#[trigger] r@[k]) && is_rank_role(
                r@[k],
                guild_roles@,
            ) && !keep@.contains(r@[k]),
{
    let mut out: Vec<u64> = Vec::new();
    let mut i: usize = 0;
    while i < current.len()
        invariant
            i <= current.len(),
            out@ == rank_removals_spec(current@.take(i as int), guild_roles@, keep@),
            forall|k: int|
                0 <= k < out@.len() ==> current@.contains(#[trigger] out@[k]) && is_rank_role(
                    out@[k],
                    guild_roles@,
                ) && !keep@.contains(out@[k]),
        decreases current.len() - i,
    {
        let ghost next = current@.take(i + 1);
        assert(next.drop_last() == current@.take(i as int));
        assert(next.last() == current@[i as int]);
        let id = current[i];
        if is_rank_role_exec(id, guild_roles) && !keep.contains(&id) {
            assert(current@[i as int] == id);
            out.push(id);
        }
        i += 1;
    }
    assert(current@.take(current.len() as int) == current@);
    out
}

/// Field-wise equality of anchors.
pub open spec fn same_anchor(a: Anchor, b: Anchor) -> bool {
    &&& a.user_id == b.user_id
    &&& a.rank_name@ == b.rank_name@
    &&& a.rank_value == b.rank_value
    &&& a.allowed_min == b.allowed_min
    &&& a.allowed_max == b.allowed_max
    &&& a.subrank == b.subrank
    &&& a.score_min == b.score_min
    &&& a.score_max == b.score_max
}

fn same_anchor_exec(a: &Anchor, b: &Anchor) -> (r: bool)
    ensures
        r == same_anchor(*a, *b),
{
    a.user_id == b.user_id && str_eq(a.rank_name.as_str(), b.rank_name.as_str()) && a.rank_value
        == b.rank_value && a.allowed_min == b.allowed_min && a.allowed_max == b.allowed_max
        && a.subrank == b.subrank && a.score_min == b.score_min && a.score_max == b.score_max
}

/// What a reconcile does with a channel once the anchor is chosen.
#[derive(Debug, Clone, PartialEq, Eq)]
pub enum ReconcileStep {
    /// Nobody to anchor and no anchor to drop.
    Idle,
    /// The channel lost its anchor: forget it and remove all role overwrites.
    Clear,
    /// Hold this anchor: allow the sub-rank roles of its window and remove
    /// the other rank roles; `store` when it differs from the existing
    /// anchor; `rename` to the anchor's name when that is due.
    Settle { anchor: Anchor, store: bool, rename: Option<String> },
}

/// The step of `reconcile_channel` for the chosen anchor. A changed anchor
/// renames the channel only when the rename cooldown has passed
/// (`rename_fresh`).
pub fn reconcile_step(
    existing: Option<&Anchor>,
    chosen: Option<(u64, String, i64, i64)>,
    rename_fresh: bool,
) -> (r: ReconcileStep)
    requires
        chosen matches Some(c) ==> i64::MIN + 10 <= c.2 * 6 + c.3 <= i64::MAX - 10 && i64::MIN
            <= c.2 * 6 <= i64::MAX,
    ensures
        chosen is None && existing is None ==> r == ReconcileStep::Idle,
        chosen is None && existing is Some ==> r == ReconcileStep::Clear,
        chosen matches Some(c) ==> (r matches ReconcileStep::Settle { anchor, store, rename } && {
            let range = anchor_range_spec(c.2 as int, c.3 as int);
            let changed = match existing {
                Some(e) => !same_anchor(*e, anchor),
                None => true,
            };
            &&& anchor.user_id == c.0
            &&& anchor.rank_name@ == c.1@
            &&& anchor.rank_value == c.2
            &&& anchor.subrank == c.3
            &&& (anchor.score_min, anchor.score_max, anchor.allowed_min, anchor.allowed_max)
                == range
            &&& store == changed
            &&& (if rename_fresh && changed {
                rename matches Some(n) && n@ == c.1@ + " "@ + int_dec(c.3 as int)
            } else {
                rename is None
            })
        }),
{
    match chosen {
        None => {
            if existing.is_some() {
                ReconcileStep::Clear
            } else {
                ReconcileStep::Idle
            }
        },
        Some((user_id, rank_name, rank_value, subrank)) => {
            let (score_min, score_max, allowed_min, allowed_max) = anchor_range(
                rank_value,
                subrank,
            );
            let name = name_with_sub(rank_name.as_str(), subrank);
            let anchor = Anchor {
                user_id,
                rank_name,
                rank_value,
                allowed_min,
                allowed_max,
                subrank,
                score_min,
                score_max,
            };
            let changed = match existing {
                Some(e) => !same_anchor_exec(e, &anchor),
                None => true,
            };
            let rename = if rename_fresh && changed {
                Some(name)
            } else {
                None
            };
            ReconcileStep::Settle { anchor, store: changed, rename }
        },
    }
}

/// `id` is the id of one of the channel's members.
pub open spec fn is_member_id(members: Seq<(u64, Vec<(u64, String)>)>, id: u64) -> bool {
    exists|m: int| 0 <= m < members.len() && #[trigger] members[m].0 == id
}

proof fn lemma_member_index_found(members: Seq<(u64, Vec<(u64, String)>)>, id: u64, from: int)
    ensures
        member_index(members, id, from) matches Some(m) ==> from <= m < members.len()
            && members[m].0 == id,
    decreases members.len() - from,
{
    if from >= 0 && from < members.len() && members[from].0 != id {
        lemma_member_index_found(members, id, from + 1);
    }
}

proof fn lemma_first_ranked_from_member(
    order: Seq<u64>,
    k: int,
    members: Seq<(u64, Vec<(u64, String)>)>,
    stored: Seq<(u64, i64)>,
)
    ensures
        first_ranked_from(order, k, members, stored) matches Some(t) ==> is_member_id(members, t.0),
    decreases order.len() - k,
{
    if k >= 0 && k < order.len() {
        lemma_member_index_found(members, order[k], 0);
        match member_index(members, order[k], 0) {
            Some(m) => {
                assert(members[m].0 == order[k]);
            },
            None => {},
        }
        lemma_first_ranked_from_member(order, k + 1, members, stored);
    }
}

/// The anchor of a rank channel is someone who is there: it is the ranked
/// owner, or else a member currently in the channel (a former anchor who
/// left is replaced); and a channel with members always has an anchor.
pub proof fn lemma_anchor_is_present(
    owner: Option<(u64, Seq<(u64, String)>)>,
    existing: Option<Anchor>,
    members: Seq<(u64, Vec<(u64, String)>)>,
    relevant: Seq<u64>,
    stored: Seq<(u64, i64)>,
)
    ensures
        choose_anchor_spec(owner, existing, members, relevant, stored) matches Some(c) ==> (
        owner matches Some(o) && c.0 == o.0) || is_member_id(members, c.0),
        members.len() > 0 ==> choose_anchor_spec(owner, existing, members, relevant, stored) is Some,
        owner is None && members.len() == 0 ==> choose_anchor_spec(
            owner,
            existing,
            members,
            relevant,
            stored,
        ) is None,
{
    let order = if relevant.len() == 0 {
        member_ids(members)
    } else {
        relevant
    };
    lemma_first_ranked_from_member(order, 0, members, stored);
    if members.len() > 0 {
        assert(members[0].0 == members[0].0);
    }
    match existing {
        Some(a) => {
            lemma_member_index_found(members, a.user_id, 0);
            match member_index(members, a.user_id, 0) {
                Some(m) => {
                    assert(members[m].0 == a.user_id);
                },
                None => {},
            }
        },
        None => {},
    }
}

/// Who anchors, in order: a ranked owner; else, with members present, the
/// stored anchor while still in the channel.
pub proof fn lemma_anchor_precedence(
    owner: Option<(u64, Seq<(u64, String)>)>,
    existing: Option<Anchor>,
    members: Seq<(u64, Vec<(u64, String)>)>,
    relevant: Seq<u64>,
    stored: Seq<(u64, i64)>,
)
    ensures
        match owner {
            Some((oid, roles)) => {
                let t = rank_tuple_spec(oid, roles, stored);
                t.1 > 0 ==> choose_anchor_spec(owner, existing, members, relevant, stored) == Some(
                    (oid, t.0, t.1, t.2),
                )
            },
            None => true,
        },
        match existing {
            Some(a) => {
                let owner_unranked = match owner {
                    Some((oid, roles)) => rank_tuple_spec(oid, roles, stored).1 <= 0,
                    None => true,
                };
                owner_unranked && is_member_id(members, a.user_id) ==> choose_anchor_spec(
                    owner,
                    existing,
                    members,
                    relevant,
                    stored,
                ) == Some((a.user_id, a.rank_name@, a.rank_value, a.subrank))
            },
            None => true,
        },
{
    match existing {
        Some(a) => {
            if is_member_id(members, a.user_id) {
                let m = choose|m: int| 0 <= m < members.len() && #[trigger] members[m].0 == a.user_id;
                lemma_member_index_some(members, a.user_id, 0, m);
            }
        },
        None => {},
    }
}

proof fn lemma_member_index_some(members: Seq<(u64, Vec<(u64, String)>)>, id: u64, from: int, m: int)
    requires
        0 <= from <= m < members.len(),
        members[m].0 == id,
    ensures
        member_index(members, id, from) is Some,
    decreases m - from,
{
    if members[from].0 != id {
        lemma_member_index_some(members, id, from + 1, m);
    }
}

/// Candidate `k` of `order` is in the channel and holds a rank above 0.
pub open spec fn ranked_candidate(
    order: Seq<u64>,
    k: int,
    members: Seq<(u64, Vec<(u64, String)>)>,
    stored: Seq<(u64, i64)>,
) -> bool {
    0 <= k < order.len() && match member_index(members, order[k], 0) {
        Some(m) => rank_tuple_spec(order[k], members[m].1@, stored).1 > 0,
        None => false,
    }
}

proof fn lemma_first_ranked_from_finds(
    order: Seq<u64>,
    k: int,
    j: int,
    members: Seq<(u64, Vec<(u64, String)>)>,
    stored: Seq<(u64, i64)>,
)
    requires
        0 <= k <= j,
        ranked_candidate(order, j, members, stored),
    ensures
        first_ranked_from(order, k, members, stored) matches Some(t) && t.2 > 0,
    decreases j - k,
{
    if k < j {
        lemma_first_ranked_from_finds(order, k + 1, j, members, stored);
    }
}

/// Without a ranked owner and without a stored anchor still in the channel,
/// the anchor is ranked whenever a ranked member is there: the first ranked
/// member of the game cohort (of all members when the cohort is empty).
pub proof fn lemma_anchor_prefers_ranked(
    owner: Option<(u64, Seq<(u64, String)>)>,
    existing: Option<Anchor>,
    members: Seq<(u64, Vec<(u64, String)>)>,
    relevant: Seq<u64>,
    stored: Seq<(u64, i64)>,
    k: int,
)
    requires
        match owner {
            Some((oid, roles)) => rank_tuple_spec(oid, roles, stored).1 <= 0,
            None => true,
        },
        match existing {
            Some(a) => !is_member_id(members, a.user_id),
            None => true,
        },
        members.len() > 0,
        ranked_candidate(
            if relevant.len() == 0 {
                member_ids(members)
            } else {
                relevant
            },
            k,
            members,
            stored,
        ),
    ensures
        choose_anchor_spec(owner, existing, members, relevant, stored) matches Some(c) && c.2 > 0,
{
    let order = if relevant.len() == 0 {
        member_ids(members)
    } else {
        relevant
    };
    lemma_first_ranked_from_finds(order, 0, k, members, stored);
    match existing {
        Some(a) => {
            lemma_member_index_found(members, a.user_id, 0);
            match member_index(members, a.user_id, 0) {
                Some(m) => {
                    assert(members[m].0 == a.user_id);
                },
                None => {},
            }
        },
        None => {},
    }
}

} // verus!
