//! The rank catalogues: the lane rank order used by TempVoice lanes and the
//! LFG forms, and the tier table of the rank-voice manager.

use vstd::prelude::*;
use crate::text::{
    ascii_capitalize, ascii_upper_char, is_ascii_seq, char_to_uppercase, chars_eq_str, chars_of, lowercase_of,
    slice_chars, string_of, uppercase_of,
};

verus! {

/// Number of entries of the lane rank order (index 0 = unranked).
pub const RANK_ORDER_LEN: usize = 12;

/// The lane rank order: index 0 is the unranked placeholder, 1..=11 the
/// ranks from lowest to highest.
pub open spec fn rank_order(i: int) -> Seq<char> {
    if i == 0 {
        "obscurus"@
    } else if i == 1 {
        "initiate"@
    } else if i == 2 {
        "seeker"@
    } else if i == 3 {
        "acolyte"@
    } else if i == 4 {
        "sentinel"@
    } else if i == 5 {
        "mystic"@
    } else if i == 6 {
        "ritualist"@
    } else if i == 7 {
        "emissary"@
    } else if i == 8 {
        "oracle"@
    } else if i == 9 {
        "phantom"@
    } else if i == 10 {
        "ascendant"@
    } else {
        "eternus"@
    }
}

/// Names of the current rank set that share a slot of the lane rank order.
pub open spec fn rank_alias(s: Seq<char>) -> int {
    if s == "alchemist"@ {
        3
    } else if s == "arcanist"@ {
        4
    } else if s == "archon"@ {
        7
    } else {
        0
    }
}

/// First index `>= i` of the lane rank order whose name is `s`; otherwise the
/// alias slot (0 when unknown).
pub open spec fn find_rank(s: Seq<char>, i: int) -> int
    decreases 12 - i,
{
    if i >= 12 {
        rank_alias(s)
    } else if s == rank_order(i) {
        i
    } else {
        find_rank(s, i + 1)
    }
}

/// Lane rank index of an exact (lowercase) rank name; 0 when unknown.
pub open spec fn rank_index_spec(s: Seq<char>) -> int {
    find_rank(s, 1)
}

/// Name of entry `i` of the lane rank order.
pub fn rank_order_name(i: usize) -> (r: &'static str)
    requires
        i < 12,
    ensures
        r@ == rank_order(i as int),
{
    match i {
        0 => "obscurus",
        1 => "initiate",
        2 => "seeker",
        3 => "acolyte",
        4 => "sentinel",
        5 => "mystic",
        6 => "ritualist",
        7 => "emissary",
        8 => "oracle",
        9 => "phantom",
        10 => "ascendant",
        _ => "eternus",
    }
}

/// Lane rank index of an exact rank name (`rank_index`); 0 when unknown.
pub fn rank_index_chars(name: &[char]) -> (r: usize)
    ensures
        r as int == rank_index_spec(name@),
        r < 12,
{
    let mut i: usize = 1;
    while i < 12
        invariant
            1 <= i <= 12,
            find_rank(name@, 1) == find_rank(name@, i as int),
        decreases 12 - i,
    {
        if chars_eq_str(name, rank_order_name(i)) {
            return i;
        }
        i += 1;
    }
    if chars_eq_str(name, "alchemist") {
        3
    } else if chars_eq_str(name, "arcanist") {
        4
    } else if chars_eq_str(name, "archon") {
        7
    } else {
        0
    }
}

/// Lane rank index of an exact rank name; 0 when unknown.
pub fn rank_index(name: &str) -> (r: usize)
    ensures
        r as int == rank_index_spec(name@),
        r < 12,
{
    let v = chars_of(name);
    rank_index_chars(&v)
}

/// Highest lane rank among role names (matched case-insensitively).
pub open spec fn member_rank_spec(names: Seq<Seq<char>>) -> int
    decreases names.len(),
{
    if names.len() == 0 {
        0
    } else {
        let rest = member_rank_spec(names.drop_last());
        let here = rank_index_spec(lowercase_of(names.last()));
        if here > rest {
            here
        } else {
            rest
        }
    }
}

/// `capitalize`: first character uppercased, the rest unchanged.
pub open spec fn capitalize_spec(s: Seq<char>) -> Seq<char> {
    if s.len() == 0 {
        s
    } else {
        uppercase_of(s[0]) + s.drop_first()
    }
}

/// First character uppercased, the rest unchanged.
pub fn capitalize(s: &str) -> (r: String)
    ensures
        r@ == capitalize_spec(s@),
        s@.len() > 0 && 'a' <= s@[0] && s@[0] <= 'z' ==> r@ == seq![ascii_upper_char(s@[0])]
            + s@.drop_first(),
        s@.len() == 0 || (s@[0] as int) < 128 ==> r@ == ascii_capitalize(s@),
{
    let v = chars_of(s);
    if v.len() == 0 {
        return String::new();
    }
    let mut r = char_to_uppercase(v[0]);
    let rest = slice_chars(&v, 1, v.len());
    let rest_s = string_of(&rest);
    r.append(rest_s.as_str());
    assert(v@.subrange(1, v@.len() as int) == v@.drop_first());
    r
}

// ── Tier table of the rank-voice manager ───────────────────────────────────

/// Tier names (lowercase) indexed by tier value 0..=11.
pub open spec fn tier_name(i: int) -> Seq<char> {
    if i == 0 {
        "obscurus"@
    } else if i == 1 {
        "initiate"@
    } else if i == 2 {
        "seeker"@
    } else if i == 3 {
        "alchemist"@
    } else if i == 4 {
        "arcanist"@
    } else if i == 5 {
        "ritualist"@
    } else if i == 6 {
        "emissary"@
    } else if i == 7 {
        "archon"@
    } else if i == 8 {
        "oracle"@
    } else if i == 9 {
        "phantom"@
    } else if i == 10 {
        "ascendant"@
    } else {
        "eternus"@
    }
}

pub fn tier_name_str(i: usize) -> (r: &'static str)
    requires
        i < 12,
    ensures
        r@ == tier_name(i as int),
{
    match i {
        0 => "obscurus",
        1 => "initiate",
        2 => "seeker",
        3 => "alchemist",
        4 => "arcanist",
        5 => "ritualist",
        6 => "emissary",
        7 => "archon",
        8 => "oracle",
        9 => "phantom",
        10 => "ascendant",
        _ => "eternus",
    }
}

/// First tier value `>= i` whose name is `s`.
pub open spec fn find_tier(s: Seq<char>, i: int) -> Option<int>
    decreases 12 - i,
{
    if i >= 12 || i < 0 {
        None
    } else if s == tier_name(i) {
        Some(i)
    } else {
        find_tier(s, i + 1)
    }
}

/// Tier value of an exact lowercase tier name.
pub open spec fn tier_value_spec(s: Seq<char>) -> Option<int> {
    find_tier(s, 0)
}

pub fn tier_value_chars(name: &[char]) -> (r: Option<i64>)
    ensures
        match r {
            Some(v) => tier_value_spec(name@) == Some(v as int),
            None => tier_value_spec(name@) is None,
        },
{
    let mut i: usize = 0;
    while i < 12
        invariant
            i <= 12,
            find_tier(name@, 0) == find_tier(name@, i as int),
        decreases 12 - i,
    {
        if chars_eq_str(name, tier_name_str(i)) {
            return Some(i as i64);
        }
        i += 1;
    }
    None
}

/// Short forms accepted in sub-rank role names, with their full tier name.
pub open spec fn short_tier(i: int) -> (Seq<char>, Seq<char>) {
    if i == 0 {
        ("ini"@, "Initiate"@)
    } else if i == 1 {
        ("see"@, "Seeker"@)
    } else if i == 2 {
        ("alc"@, "Alchemist"@)
    } else if i == 3 {
        ("arc"@, "Arcanist"@)
    } else if i == 4 {
        ("rit"@, "Ritualist"@)
    } else if i == 5 {
        ("emi"@, "Emissary"@)
    } else if i == 6 {
        ("arch"@, "Archon"@)
    } else if i == 7 {
        ("ora"@, "Oracle"@)
    } else if i == 8 {
        ("pha"@, "Phantom"@)
    } else if i == 9 {
        ("asc"@, "Ascendant"@)
    } else {
        ("ete"@, "Eternus"@)
    }
}

pub fn short_tier_strs(i: usize) -> (r: (&'static str, &'static str))
    requires
        i < 11,
    ensures
        r.0@ == short_tier(i as int).0,
        r.1@ == short_tier(i as int).1,
{
    match i {
        0 => ("ini", "Initiate"),
        1 => ("see", "Seeker"),
        2 => ("alc", "Alchemist"),
        3 => ("arc", "Arcanist"),
        4 => ("rit", "Ritualist"),
        5 => ("emi", "Emissary"),
        6 => ("arch", "Archon"),
        7 => ("ora", "Oracle"),
        8 => ("pha", "Phantom"),
        9 => ("asc", "Ascendant"),
        _ => ("ete", "Eternus"),
    }
}

/// First short form `>= i` equal to `s`.
pub open spec fn find_short(s: Seq<char>, i: int) -> Option<int>
    decreases 11 - i,
{
    if i >= 11 || i < 0 {
        None
    } else if s == short_tier(i).0 {
        Some(i)
    } else {
        find_short(s, i + 1)
    }
}

pub fn find_short_chars(name: &[char]) -> (r: Option<usize>)
    ensures
        match r {
            Some(i) => find_short(name@, 0) == Some(i as int) && i < 11,
            None => find_short(name@, 0) is None,
        },
{
    let mut i: usize = 0;
    while i < 11
        invariant
            i <= 11,
            find_short(name@, 0) == find_short(name@, i as int),
        decreases 11 - i,
    {
        let (short, _full) = short_tier_strs(i);
        if chars_eq_str(name, short) {
            return Some(i);
        }
        i += 1;
    }
    None
}


pub proof fn lemma_find_tier_bound(s: Seq<char>, i: int)
    ensures
        find_tier(s, i) matches Some(v) ==> i <= v < 12,
    decreases 12 - i,
{
    if 0 <= i < 12 && s != tier_name(i) {
        lemma_find_tier_bound(s, i + 1);
    }
}

/// A found tier value names its tier.
pub proof fn lemma_find_tier_names(s: Seq<char>, i: int)
    ensures
        find_tier(s, i) matches Some(v) ==> s == tier_name(v),
    decreases 12 - i,
{
    if 0 <= i < 12 && s != tier_name(i) {
        lemma_find_tier_names(s, i + 1);
    }
}

/// An ASCII word with a capital first letter and lowercase letters after it.
pub open spec fn is_capitalized_word(s: Seq<char>) -> bool {
    &&& s.len() > 0
    &&& 'A' <= s[0] <= 'Z'
    &&& forall|i: int| 1 <= i < s.len() ==> 'a' <= #[trigger] s[i] <= 'z'
}

/// The tier names and the full names of the short forms are ASCII, and a
/// tier name starts with a lowercase letter.
pub proof fn lemma_names_ascii(i: int)
    ensures
        0 <= i < 12 ==> is_ascii_seq(tier_name(i)) && tier_name(i).len() > 0 && 'a' <= tier_name(
            i,
        )[0] <= 'z',
        0 <= i < 11 ==> is_ascii_seq(short_tier(i).1),
        0 <= i < 11 ==> is_capitalized_word(short_tier(i).1),
{
    reveal_strlit("obscurus");
    reveal_strlit("initiate");
    reveal_strlit("seeker");
    reveal_strlit("alchemist");
    reveal_strlit("arcanist");
    reveal_strlit("ritualist");
    reveal_strlit("emissary");
    reveal_strlit("archon");
    reveal_strlit("oracle");
    reveal_strlit("phantom");
    reveal_strlit("ascendant");
    reveal_strlit("eternus");
    reveal_strlit("Initiate");
    reveal_strlit("Seeker");
    reveal_strlit("Alchemist");
    reveal_strlit("Arcanist");
    reveal_strlit("Ritualist");
    reveal_strlit("Emissary");
    reveal_strlit("Archon");
    reveal_strlit("Oracle");
    reveal_strlit("Phantom");
    reveal_strlit("Ascendant");
    reveal_strlit("Eternus");
}

} // verus!
