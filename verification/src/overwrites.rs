//! Permission-overwrite lists of a voice channel: what a CONNECT batch, a
//! restricted lane, an inherited category and a rank lane write back.

use vstd::prelude::*;
use crate::glue::{
    merge_connect_overwrite, merge_connect_spec, sanitize_inherited_allow, VoicePairLock,
    CONNECT_BIT, FORBIDDEN_INHERITED_ALLOW, VIEW_CHANNEL_BIT,
};
use crate::sorting::{isort, stable_sort, SortKey};
use std::collections::BTreeSet;
use crate::id_sets::{add_id, ascending_ids};
use crate::text::owned;

verus! {

/// Discord permission bit SPEAK.
pub const SPEAK_BIT: u64 = 1u64 << 21;

/// Overwrite kind of a role.
pub const KIND_ROLE: u8 = 0;

/// Overwrite kind of a member.
pub const KIND_MEMBER: u8 = 1;

/// One permission overwrite of a channel. `kind` 0 targets a role, 1 a
/// member; other kinds are carried but never written back.
#[derive(Debug, Clone, Copy, PartialEq, Eq)]
pub struct OverwriteEntry {
    pub id: u64,
    pub kind: u8,
    pub allow: u64,
    pub deny: u64,
}

/// A requested CONNECT change of one target: allow, deny or clear.
#[derive(Debug, Clone, Copy, PartialEq, Eq)]
pub struct ConnectChange {
    pub target_id: u64,
    pub connect: Option<bool>,
}

impl SortKey for ConnectChange {
    open spec fn key_le(self, other: Self) -> bool {
        self.target_id <= other.target_id
    }

    fn key_le_exec(&self, other: &Self) -> (r: bool) {
        self.target_id <= other.target_id
    }
}

pub open spec fn entry(id: u64, kind: u8, allow: u64, deny: u64) -> OverwriteEntry {
    OverwriteEntry { id, kind, allow, deny }
}

pub open spec fn is_written_kind(kind: u8) -> bool {
    kind == KIND_ROLE || kind == KIND_MEMBER
}

/// No target is named twice in a change list (the changes are keyed by
/// target id).
pub open spec fn distinct_targets(changes: Seq<ConnectChange>) -> bool {
    forall|i: int, j: int|
        0 <= i < j < changes.len() ==> (#[trigger] changes[i]).target_id != (#[trigger] changes[j]).target_id
}

/// The change requested for `id`, if any.
pub open spec fn change_of(changes: Seq<ConnectChange>, id: u64) -> Option<Option<bool>>
    decreases changes.len(),
{
    if changes.len() == 0 {
        None
    } else if changes[0].target_id == id {
        Some(changes[0].connect)
    } else {
        change_of(changes.drop_first(), id)
    }
}

/// Whether `existing` holds an overwrite of this kind for `id`.
pub open spec fn targets_kind(existing: Seq<OverwriteEntry>, kind: u8, id: u64) -> bool {
    exists|i: int| 0 <= i < existing.len() && existing[i].kind == kind && existing[i].id == id
}

/// The existing overwrites with the requested changes merged in, in their
/// order; an overwrite that a change empties is dropped.
pub open spec fn merged_existing(
    existing: Seq<OverwriteEntry>,
    roles: Seq<ConnectChange>,
    members: Seq<ConnectChange>,
) -> Seq<OverwriteEntry>
    decreases existing.len(),
{
    if existing.len() == 0 {
        Seq::empty()
    } else {
        let prev = merged_existing(existing.drop_last(), roles, members);
        let ow = existing.last();
        if !is_written_kind(ow.kind) {
            prev
        } else {
            let changes = if ow.kind == KIND_ROLE {
                roles
            } else {
                members
            };
            match change_of(changes, ow.id) {
                Some(c) => match merge_connect_spec(ow.allow, ow.deny, c) {
                    Some((a, d)) => prev.push(entry(ow.id, ow.kind, a, d)),
                    None => prev,
                },
                None => prev.push(ow),
            }
        }
    }
}

/// New overwrites for the changes (in the given order) whose target had no
/// overwrite of this kind yet; a change that clears nothing adds nothing.
pub open spec fn added_changes(
    changes: Seq<ConnectChange>,
    kind: u8,
    existing: Seq<OverwriteEntry>,
) -> Seq<OverwriteEntry>
    decreases changes.len(),
{
    if changes.len() == 0 {
        Seq::empty()
    } else {
        let prev = added_changes(changes.drop_last(), kind, existing);
        let c = changes.last();
        if targets_kind(existing, kind, c.target_id) {
            prev
        } else {
            match merge_connect_spec(0, 0, c.connect) {
                Some((a, d)) => prev.push(entry(c.target_id, kind, a, d)),
                None => prev,
            }
        }
    }
}

/// The overwrite list of a CONNECT batch: existing overwrites merged, then
/// new role overwrites and new member overwrites, each by ascending id.
pub open spec fn connect_batch_spec(
    existing: Seq<OverwriteEntry>,
    roles: Seq<ConnectChange>,
    members: Seq<ConnectChange>,
) -> Seq<OverwriteEntry> {
    merged_existing(existing, roles, members) + added_changes(isort(roles), KIND_ROLE, existing)
        + added_changes(isort(members), KIND_MEMBER, existing)
}

fn find_change(changes: &[ConnectChange], id: u64) -> (r: Option<Option<bool>>)
    ensures
        r == change_of(changes@, id),
{
    let mut i: usize = 0;
    assert(changes@.subrange(0, changes@.len() as int) == changes@);
    while i < changes.len()
        invariant
            i <= changes.len(),
            change_of(changes@, id) == change_of(changes@.subrange(i as int, changes@.len() as int), id),
        decreases changes.len() - i,
    {
        let ghost rest = changes@.subrange(i as int, changes@.len() as int);
        assert(rest.drop_first() == changes@.subrange(i + 1, changes@.len() as int));
        assert(rest[0] == changes@[i as int]);
        if changes[i].target_id == id {
            return Some(changes[i].connect);
        }
        i += 1;
    }
    None
}

fn has_target(existing: &[OverwriteEntry], kind: u8, id: u64) -> (r: bool)
    ensures
        r == targets_kind(existing@, kind, id),
{
    let mut i: usize = 0;
    while i < existing.len()
        invariant
            i <= existing.len(),
            forall|k: int| 0 <= k < i ==> !(existing@[k].kind == kind && existing@[k].id == id),
        decreases existing.len() - i,
    {
        if existing[i].kind == kind && existing[i].id == id {
            return true;
        }
        i += 1;
    }
    false
}

/// Appends an overwrite for each change whose target has none of this kind
/// in `existing`, by ascending target id.
pub fn push_changed_overwrites(
    overwrites: &mut Vec<OverwriteEntry>,
    kind: u8,
    changes: &[ConnectChange],
    existing: &[OverwriteEntry],
)
    requires
        distinct_targets(changes@),
    ensures
        final(overwrites)@ == old(overwrites)@ + added_changes(isort(changes@), kind, existing@),
{
    let sorted = stable_sort(changes);
    let ghost start = overwrites@;
    let mut i: usize = 0;
    while i < sorted.len()
        invariant
            i <= sorted.len(),
            overwrites@ == start + added_changes(sorted@.take(i as int), kind, existing@),
        decreases sorted.len() - i,
    {
        let ghost next = sorted@.take(i + 1);
        assert(next.drop_last() == sorted@.take(i as int));
        assert(next.last() == sorted@[i as int]);
        let c = sorted[i];
        if !has_target(existing, kind, c.target_id) {
            match merge_connect_overwrite(0, 0, c.connect) {
                Some((a, d)) => {
                    overwrites.push(OverwriteEntry { id: c.target_id, kind, allow: a, deny: d });
                },
                None => {},
            }
        }
        i += 1;
    }
    assert(sorted@.take(sorted@.len() as int) == sorted@);
}

/// The overwrite list of a CONNECT batch over the channel's current
/// overwrites: each existing role or member overwrite with a requested
/// change gets CONNECT merged in (and is dropped once empty), the others are
/// kept as they are; targets without an overwrite get a new one.
pub fn build_from_overwrites(
    existing: &[OverwriteEntry],
    role_changes: &[ConnectChange],
    member_changes: &[ConnectChange],
) -> (r: Vec<OverwriteEntry>)
    requires
        distinct_targets(role_changes@),
        distinct_targets(member_changes@),
    ensures
        r@ == connect_batch_spec(existing@, role_changes@, member_changes@),
{
    let mut out: Vec<OverwriteEntry> = Vec::new();
    let mut i: usize = 0;
    while i < existing.len()
        invariant
            i <= existing.len(),
            out@ == merged_existing(existing@.take(i as int), role_changes@, member_changes@),
        decreases existing.len() - i,
    {
        let ghost next = existing@.take(i + 1);
        assert(next.drop_last() == existing@.take(i as int));
        assert(next.last() == existing@[i as int]);
        let ow = existing[i];
        if ow.kind == KIND_ROLE || ow.kind == KIND_MEMBER {
            let found = if ow.kind == KIND_ROLE {
                find_change(role_changes, ow.id)
            } else {
                find_change(member_changes, ow.id)
            };
            match found {
                Some(c) => {
                    match merge_connect_overwrite(ow.allow, ow.deny, c) {
                        Some((a, d)) => {
                            out.push(OverwriteEntry { id: ow.id, kind: ow.kind, allow: a, deny: d });
                        },
                        None => {},
                    }
                },
                None => {
                    out.push(ow);
                },
            }
        }
        i += 1;
    }
    assert(existing@.take(existing@.len() as int) == existing@);
    push_changed_overwrites(&mut out, KIND_ROLE, role_changes, existing);
    push_changed_overwrites(&mut out, KIND_MEMBER, member_changes, existing);
    out
}

// ── Cache lookup of a CONNECT batch ─────────────────────────────────────────

/// A channel as the gateway cache holds it: its id and overwrites.
#[derive(Debug, Clone, PartialEq, Eq)]
pub struct CachedChannel {
    pub id: u64,
    pub overwrites: Vec<OverwriteEntry>,
}

/// A guild as the gateway cache holds it: its id and channels.
#[derive(Debug, Clone, PartialEq, Eq)]
pub struct CachedGuild {
    pub id: u64,
    pub channels: Vec<CachedChannel>,
}

/// The first cached guild with this id.
pub open spec fn cached_guild(guilds: Seq<CachedGuild>, id: u64) -> Option<CachedGuild>
    decreases guilds.len(),
{
    if guilds.len() == 0 {
        None
    } else if guilds[0].id == id {
        Some(guilds[0])
    } else {
        cached_guild(guilds.drop_first(), id)
    }
}

/// The first channel of a guild with this id.
pub open spec fn cached_channel(channels: Seq<CachedChannel>, id: u64) -> Option<CachedChannel>
    decreases channels.len(),
{
    if channels.len() == 0 {
        None
    } else if channels[0].id == id {
        Some(channels[0])
    } else {
        cached_channel(channels.drop_first(), id)
    }
}

/// The channel with this id in the first cached guild that holds it.
pub open spec fn channel_in_any_guild(guilds: Seq<CachedGuild>, id: u64) -> Option<CachedChannel>
    decreases guilds.len(),
{
    if guilds.len() == 0 {
        None
    } else {
        match cached_channel(guilds[0].channels@, id) {
            Some(c) => Some(c),
            None => channel_in_any_guild(guilds.drop_first(), id),
        }
    }
}

/// The overwrite list of a CONNECT batch read from the cache. With a guild
/// id the guild must be cached (else "Guild nicht im Cache") and hold the
/// channel (else "Channel nicht im Cache"); without one every cached guild
/// is searched for the channel (else "Channel nicht im Cache").
pub open spec fn connect_payload_spec(
    guilds: Seq<CachedGuild>,
    guild_id: Option<u64>,
    channel_id: u64,
    roles: Seq<ConnectChange>,
    members: Seq<ConnectChange>,
) -> Result<Seq<OverwriteEntry>, Seq<char>> {
    let channel = match guild_id {
        Some(g) => match cached_guild(guilds, g) {
            Some(guild) => match cached_channel(guild.channels@, channel_id) {
                Some(c) => Ok(c),
                None => Err("Channel nicht im Cache"@),
            },
            None => Err("Guild nicht im Cache"@),
        },
        None => match channel_in_any_guild(guilds, channel_id) {
            Some(c) => Ok(c),
            None => Err("Channel nicht im Cache"@),
        },
    };
    match channel {
        Ok(c) => Ok(connect_batch_spec(c.overwrites@, roles, members)),
        Err(e) => Err(e),
    }
}

fn find_cached_guild(guilds: &[CachedGuild], id: u64) -> (r: Option<usize>)
    ensures
        match r {
            Some(i) => i < guilds.len() && cached_guild(guilds@, id) == Some(guilds@[i as int]),
            None => cached_guild(guilds@, id) is None,
        },
{
    let mut i: usize = 0;
    assert(guilds@.subrange(0, guilds@.len() as int) == guilds@);
    while i < guilds.len()
        invariant
            i <= guilds.len(),
            cached_guild(guilds@, id) == cached_guild(guilds@.subrange(i as int, guilds@.len() as int), id),
        decreases guilds.len() - i,
    {
        let ghost rest = guilds@.subrange(i as int, guilds@.len() as int);
        assert(rest.drop_first() == guilds@.subrange(i + 1, guilds@.len() as int));
        assert(rest[0] == guilds@[i as int]);
        if guilds[i].id == id {
            return Some(i);
        }
        i += 1;
    }
    None
}

fn find_cached_channel(channels: &[CachedChannel], id: u64) -> (r: Option<usize>)
    ensures
        match r {
            Some(i) => i < channels.len() && cached_channel(channels@, id) == Some(channels@[i as int]),
            None => cached_channel(channels@, id) is None,
        },
{
    let mut i: usize = 0;
    assert(channels@.subrange(0, channels@.len() as int) == channels@);
    while i < channels.len()
        invariant
            i <= channels.len(),
            cached_channel(channels@, id) == cached_channel(
                channels@.subrange(i as int, channels@.len() as int),
                id,
            ),
        decreases channels.len() - i,
    {
        let ghost rest = channels@.subrange(i as int, channels@.len() as int);
        assert(rest.drop_first() == channels@.subrange(i + 1, channels@.len() as int));
        assert(rest[0] == channels@[i as int]);
        if channels[i].id == id {
            return Some(i);
        }
        i += 1;
    }
    None
}

/// The overwrite list of a CONNECT batch for a channel of the cache: the
/// channel is looked up (in the given guild, or in every cached guild when
/// no guild is given) and its overwrites merged with the changes, as
/// [`build_from_overwrites`] does.
pub fn build_connect_batch_payload(
    guilds: &[CachedGuild],
    guild_id: Option<u64>,
    channel_id: u64,
    role_changes: &[ConnectChange],
    member_changes: &[ConnectChange],
) -> (r: Result<Vec<OverwriteEntry>, String>)
    requires
        distinct_targets(role_changes@),
        distinct_targets(member_changes@),
    ensures
        connect_payload_spec(guilds@, guild_id, channel_id, role_changes@, member_changes@)
            == match r {
            Ok(v) => Ok(v@),
            Err(e) => Err(e@),
        },
{
    match guild_id {
        Some(g) => {
            let gi = match find_cached_guild(guilds, g) {
                Some(gi) => gi,
                None => return Err(owned("Guild nicht im Cache")),
            };
            let channels = guilds[gi].channels.as_slice();
            match find_cached_channel(channels, channel_id) {
                Some(ci) => Ok(
                    build_from_overwrites(
                        channels[ci].overwrites.as_slice(),
                        role_changes,
                        member_changes,
                    ),
                ),
                None => Err(owned("Channel nicht im Cache")),
            }
        },
        None => {
            let mut i: usize = 0;
            assert(guilds@.subrange(0, guilds@.len() as int) == guilds@);
            while i < guilds.len()
                invariant
                    i <= guilds.len(),
                    guild_id is None,
                    distinct_targets(role_changes@),
                    distinct_targets(member_changes@),
                    channel_in_any_guild(guilds@, channel_id) == channel_in_any_guild(
                        guilds@.subrange(i as int, guilds@.len() as int),
                        channel_id,
                    ),
                decreases guilds.len() - i,
            {
                let ghost rest = guilds@.subrange(i as int, guilds@.len() as int);
                assert(rest.drop_first() == guilds@.subrange(i + 1, guilds@.len() as int));
                assert(rest[0] == guilds@[i as int]);
                let channels = guilds[i].channels.as_slice();
                match find_cached_channel(channels, channel_id) {
                    Some(ci) => {
                        assert(channel_in_any_guild(guilds@, channel_id) == Some(channels@[ci as int]));
                        return Ok(
                            build_from_overwrites(
                                channels[ci].overwrites.as_slice(),
                                role_changes,
                                member_changes,
                            ),
                        );
                    },
                    None => {},
                }
                i += 1;
            }
            Err(owned("Channel nicht im Cache"))
        },
    }
}

/// The overwrites a lane takes over from its category, with the forbidden
/// moderation rights removed from each allow mask; deny masks stay as they
/// are, and kinds other than role and member are left out.
pub open spec fn inherited_spec(overwrites: Seq<OverwriteEntry>) -> Seq<OverwriteEntry>
    decreases overwrites.len(),
{
    if overwrites.len() == 0 {
        Seq::empty()
    } else {
        let prev = inherited_spec(overwrites.drop_last());
        let ow = overwrites.last();
        if is_written_kind(ow.kind) {
            prev.push(entry(ow.id, ow.kind, ow.allow & !FORBIDDEN_INHERITED_ALLOW, ow.deny))
        } else {
            prev
        }
    }
}

pub fn inherit_category_overwrites(overwrites: &[OverwriteEntry]) -> (r: Vec<OverwriteEntry>)
    ensures
        r@ == inherited_spec(overwrites@),
{
    let mut out: Vec<OverwriteEntry> = Vec::new();
    let mut i: usize = 0;
    while i < overwrites.len()
        invariant
            i <= overwrites.len(),
            out@ == inherited_spec(overwrites@.take(i as int)),
        decreases overwrites.len() - i,
    {
        let ghost next = overwrites@.take(i + 1);
        assert(next.drop_last() == overwrites@.take(i as int));
        assert(next.last() == overwrites@[i as int]);
        let ow = overwrites[i];
        if ow.kind == KIND_ROLE || ow.kind == KIND_MEMBER {
            out.push(
                OverwriteEntry {
                    id: ow.id,
                    kind: ow.kind,
                    allow: sanitize_inherited_allow(ow.allow),
                    deny: ow.deny,
                },
            );
        }
        i += 1;
    }
    assert(overwrites@.take(overwrites@.len() as int) == overwrites@);
    out
}

pub open spec fn strictly_increasing(s: Seq<u64>) -> bool {
    forall|i: int, j: int| 0 <= i < j < s.len() ==> s[i] < s[j]
}

/// The overwrites of a restricted lane at creation: `@everyone` (the guild
/// id as role) sees but cannot connect, and each positive id among the
/// allowed users and the bot may connect, once, by ascending id.
pub fn restricted_voice_overwrites(guild_id: u64, bot_user_id: u64, connect_user_ids: &[u64]) -> (r:
    Vec<OverwriteEntry>)
    ensures
        r@.len() >= 1,
        r@[0] == entry(guild_id, KIND_ROLE, VIEW_CHANNEL_BIT, CONNECT_BIT),
        strictly_increasing(r@.drop_first().map_values(|e: OverwriteEntry| e.id)),
        forall|k: int|
            1 <= k < r@.len() ==> r@[k].kind == KIND_MEMBER && r@[k].allow == (VIEW_CHANNEL_BIT
                | CONNECT_BIT) && r@[k].deny == 0,
        forall|u: u64|
            r@.drop_first().map_values(|e: OverwriteEntry| e.id).contains(u) <==> (u > 0 && (
            connect_user_ids@.contains(u) || u == bot_user_id)),
{
    let mut set: BTreeSet<u64> = BTreeSet::new();
    let mut i: usize = 0;
    while i < connect_user_ids.len()
        invariant
            i <= connect_user_ids.len(),
            forall|u: u64|
                set@.contains(u) <==> (u > 0 && connect_user_ids@.take(i as int).contains(u)),
        decreases connect_user_ids.len() - i,
    {
        let u = connect_user_ids[i];
        proof {
            let pre = connect_user_ids@.take(i as int);
            let next = connect_user_ids@.take(i + 1);
            assert(next == pre.push(u));
            assert forall|y: u64| next.contains(y) <==> (pre.contains(y) || y == u) by {
                if next.contains(y) {
                    let k = choose|k: int| 0 <= k < next.len() && next[k] == y;
                    if k < pre.len() {
                        assert(pre[k] == y);
                    }
                }
                if pre.contains(y) {
                    let k = choose|k: int| 0 <= k < pre.len() && pre[k] == y;
                    assert(next[k] == y);
                }
                if y == u {
                    assert(next[i as int] == y);
                }
            }
        }
        if u > 0 {
            add_id(&mut set, u);
        }
        i += 1;
    }
    assert(connect_user_ids@.take(connect_user_ids@.len() as int) == connect_user_ids@);
    if bot_user_id > 0 {
        add_id(&mut set, bot_user_id);
    }
    let ids = ascending_ids(&set);
    let mut out: Vec<OverwriteEntry> = Vec::new();
    out.push(
        OverwriteEntry {
            id: guild_id,
            kind: KIND_ROLE,
            allow: VIEW_CHANNEL_BIT,
            deny: CONNECT_BIT,
        },
    );
    let mut k: usize = 0;
    while k < ids.len()
        invariant
            k <= ids.len(),
            out@.len() == k + 1,
            out@[0] == entry(guild_id, KIND_ROLE, VIEW_CHANNEL_BIT, CONNECT_BIT),
            forall|m: int|
                1 <= m < out@.len() ==> out@[m] == entry(
                    ids@[m - 1],
                    KIND_MEMBER,
                    VIEW_CHANNEL_BIT | CONNECT_BIT,
                    0,
                ),
        decreases ids.len() - k,
    {
        out.push(
            OverwriteEntry {
                id: ids[k],
                kind: KIND_MEMBER,
                allow: VIEW_CHANNEL_BIT | CONNECT_BIT,
                deny: 0,
            },
        );
        k += 1;
    }
    let ghost tail = out@.drop_first().map_values(|e: OverwriteEntry| e.id);
    assert(tail == ids@);
    out
}

/// Whether an active lock of this channel blocks `user`.
pub open spec fn is_guarded(locks: Seq<VoicePairLock>, guild_id: u64, channel_id: u64, user: u64) -> bool {
    exists|i: int|
        0 <= i < locks.len() && #[trigger] locks[i].blocked_user_id == user && locks[i].active
            && locks[i].guild_id == guild_id && locks[i].channel_id == channel_id
}

/// The existing overwrites a rank lane keeps: role overwrites that the rank
/// rules remove or set anew and the `@everyone` overwrite are dropped, a
/// blocked member's overwrite gets CONNECT denied, the rest stays.
pub open spec fn rank_kept(
    existing: Seq<OverwriteEntry>,
    guild_id: u64,
    channel_id: u64,
    allowed_role_ids: Seq<u64>,
    removes: Seq<u64>,
    locks: Seq<VoicePairLock>,
) -> Seq<OverwriteEntry>
    decreases existing.len(),
{
    if existing.len() == 0 {
        Seq::empty()
    } else {
        let prev = rank_kept(existing.drop_last(), guild_id, channel_id, allowed_role_ids, removes, locks);
        let ow = existing.last();
        if !is_written_kind(ow.kind) {
            prev
        } else if ow.kind == KIND_ROLE && (removes.contains(ow.id) || allowed_role_ids.contains(ow.id)) {
            prev
        } else if ow.kind == KIND_ROLE && ow.id == guild_id {
            prev
        } else if ow.kind == KIND_MEMBER && is_guarded(locks, guild_id, channel_id, ow.id) {
            match merge_connect_spec(ow.allow, ow.deny, Some(false)) {
                Some((a, d)) => prev.push(entry(ow.id, ow.kind, a, d)),
                None => prev,
            }
        } else {
            prev.push(ow)
        }
    }
}

pub open spec fn allowed_role_entries(allowed_role_ids: Seq<u64>) -> Seq<OverwriteEntry> {
    allowed_role_ids.map_values(
        |id: u64| entry(id, KIND_ROLE, VIEW_CHANNEL_BIT | CONNECT_BIT | SPEAK_BIT, 0),
    )
}

fn contains_id(v: &[u64], x: u64) -> (r: bool)
    ensures
        r == v@.contains(x),
{
    let mut i: usize = 0;
    while i < v.len()
        invariant
            i <= v.len(),
            forall|k: int| 0 <= k < i ==> v@[k] != x,
        decreases v.len() - i,
    {
        if v[i] == x {
            return true;
        }
        i += 1;
    }
    false
}

/// The blocked users of the active locks of this channel, ascending.
fn guard_ids(locks: &[VoicePairLock], guild_id: u64, channel_id: u64) -> (r: Vec<u64>)
    ensures
        strictly_increasing(r@),
        forall|u: u64| r@.contains(u) <==> is_guarded(locks@, guild_id, channel_id, u),
{
    let mut set: BTreeSet<u64> = BTreeSet::new();
    let mut i: usize = 0;
    while i < locks.len()
        invariant
            i <= locks.len(),
            forall|u: u64|
                set@.contains(u) <==> is_guarded(locks@.take(i as int), guild_id, channel_id, u),
        decreases locks.len() - i,
    {
        let l = locks[i];
        proof {
            let pre = locks@.take(i as int);
            let next = locks@.take(i + 1);
            assert forall|u: u64|
                is_guarded(next, guild_id, channel_id, u) <==> (is_guarded(pre, guild_id, channel_id, u)
                    || (u == l.blocked_user_id && l.active && l.guild_id == guild_id
                    && l.channel_id == channel_id)) by {
                if is_guarded(next, guild_id, channel_id, u) {
                    let k = choose|k: int|
                        0 <= k < next.len() && #[trigger] next[k].blocked_user_id == u && next[k].active
                            && next[k].guild_id == guild_id && next[k].channel_id == channel_id;
                    if k < i {
                        assert(pre[k] == next[k]);
                    }
                }
                if is_guarded(pre, guild_id, channel_id, u) {
                    let k = choose|k: int|
                        0 <= k < pre.len() && #[trigger] pre[k].blocked_user_id == u && pre[k].active
                            && pre[k].guild_id == guild_id && pre[k].channel_id == channel_id;
                    assert(next[k] == pre[k]);
                }
                if u == l.blocked_user_id && l.active && l.guild_id == guild_id && l.channel_id
                    == channel_id {
                    assert(next[i as int] == l);
                }
            }
        }
        if l.active && l.guild_id == guild_id && l.channel_id == channel_id {
            add_id(&mut set, l.blocked_user_id);
        }
        i += 1;
    }
    assert(locks@.take(locks@.len() as int) == locks@);
    ascending_ids(&set)
}

/// The overwrite list a rank lane is written with: the kept existing
/// overwrites, a CONNECT deny for each blocked user without a member
/// overwrite (ascending), `@everyone` seeing without connecting, and each
/// allowed role with view, connect and speak, in the order given.
pub fn build_rank_overwrites_payload(
    existing: &[OverwriteEntry],
    guild_id: u64,
    channel_id: u64,
    allowed_role_ids: &[u64],
    removes: &[u64],
    locks: &[VoicePairLock],
) -> (r: Vec<OverwriteEntry>)
    ensures
        ({
            let kept = rank_kept(existing@, guild_id, channel_id, allowed_role_ids@, removes@, locks@);
            let tail = seq![entry(guild_id, KIND_ROLE, VIEW_CHANNEL_BIT, CONNECT_BIT)]
                + allowed_role_entries(allowed_role_ids@);
            let mid = r@.subrange(kept.len() as int, r@.len() - tail.len());
            &&& kept.len() + tail.len() <= r@.len()
            &&& r@.subrange(0, kept.len() as int) == kept
            &&& r@.subrange(r@.len() - tail.len(), r@.len() as int) == tail
            &&& strictly_increasing(mid.map_values(|e: OverwriteEntry| e.id))
            &&& forall|k: int|
                0 <= k < mid.len() ==> mid[k].kind == KIND_MEMBER && mid[k].allow == 0
                    && mid[k].deny == CONNECT_BIT
            &&& forall|u: u64|
                mid.map_values(|e: OverwriteEntry| e.id).contains(u) <==> (is_guarded(
                    locks@,
                    guild_id,
                    channel_id,
                    u,
                ) && !targets_kind(existing@, KIND_MEMBER, u))
        }),
{
    let guards = guard_ids(locks, guild_id, channel_id);
    let mut out: Vec<OverwriteEntry> = Vec::new();
    let mut i: usize = 0;
    while i < existing.len()
        invariant
            i <= existing.len(),
            forall|u: u64| guards@.contains(u) <==> is_guarded(locks@, guild_id, channel_id, u),
            out@ == rank_kept(
                existing@.take(i as int),
                guild_id,
                channel_id,
                allowed_role_ids@,
                removes@,
                locks@,
            ),
        decreases existing.len() - i,
    {
        let ghost next = existing@.take(i + 1);
        assert(next.drop_last() == existing@.take(i as int));
        assert(next.last() == existing@[i as int]);
        let ow = existing[i];
        if ow.kind == KIND_ROLE || ow.kind == KIND_MEMBER {
            if ow.kind == KIND_ROLE && (contains_id(removes, ow.id) || contains_id(
                allowed_role_ids,
                ow.id,
            )) {
            } else if ow.kind == KIND_ROLE && ow.id == guild_id {
            } else if ow.kind == KIND_MEMBER && contains_id(&guards, ow.id) {
                match merge_connect_overwrite(ow.allow, ow.deny, Some(false)) {
                    Some((a, d)) => {
                        out.push(OverwriteEntry { id: ow.id, kind: ow.kind, allow: a, deny: d });
                    },
                    None => {},
                }
            } else {
                out.push(ow);
            }
        }
        i += 1;
    }
    assert(existing@.take(existing@.len() as int) == existing@);
    let ghost kept = out@;
    let mut g: usize = 0;
    let ghost mut mid_ids: Seq<u64> = Seq::empty();
    while g < guards.len()
        invariant
            g <= guards.len(),
            strictly_increasing(guards@),
            forall|u: u64| guards@.contains(u) <==> is_guarded(locks@, guild_id, channel_id, u),
            out@.len() == kept.len() + mid_ids.len(),
            out@.subrange(0, kept.len() as int) == kept,
            forall|k: int|
                0 <= k < mid_ids.len() ==> out@[kept.len() + k] == entry(
                    mid_ids[k],
                    KIND_MEMBER,
                    0,
                    CONNECT_BIT,
                ),
            forall|a: int, b: int|
                0 <= a < mid_ids.len() && g <= b < guards@.len() ==> mid_ids[a] < guards@[b],
            strictly_increasing(mid_ids),
            forall|u: u64|
                mid_ids.contains(u) <==> (guards@.take(g as int).contains(u) && !targets_kind(
                    existing@,
                    KIND_MEMBER,
                    u,
                )),
        decreases guards.len() - g,
    {
        let u = guards[g];
        proof {
            let pre = guards@.take(g as int);
            let next = guards@.take(g + 1);
            assert(next == pre.push(u));
            assert forall|y: u64| next.contains(y) <==> (pre.contains(y) || y == u) by {
                if next.contains(y) {
                    let k = choose|k: int| 0 <= k < next.len() && next[k] == y;
                    if k < pre.len() {
                        assert(pre[k] == y);
                    }
                }
                if pre.contains(y) {
                    let k = choose|k: int| 0 <= k < pre.len() && pre[k] == y;
                    assert(next[k] == y);
                }
                if y == u {
                    assert(next[g as int] == y);
                }
            }
        }
        if !has_target(existing, KIND_MEMBER, u) {
            out.push(OverwriteEntry { id: u, kind: KIND_MEMBER, allow: 0, deny: CONNECT_BIT });
            proof {
                let old_mid = mid_ids;
                mid_ids = mid_ids.push(u);
                assert forall|y: u64| mid_ids.contains(y) <==> (old_mid.contains(y) || y == u) by {
                    if mid_ids.contains(y) {
                        let k = choose|k: int| 0 <= k < mid_ids.len() && mid_ids[k] == y;
                        if k < old_mid.len() {
                            assert(old_mid[k] == y);
                        }
                    }
                    if old_mid.contains(y) {
                        let k = choose|k: int| 0 <= k < old_mid.len() && old_mid[k] == y;
                        assert(mid_ids[k] == y);
                    }
                    if y == u {
                        assert(mid_ids[old_mid.len() as int] == y);
                    }
                }
                assert(out@.subrange(0, kept.len() as int) =~= kept);
            }
        }
        g += 1;
    }
    assert(guards@.take(guards@.len() as int) == guards@);
    let ghost before_tail = out@;
    out.push(OverwriteEntry { id: guild_id, kind: KIND_ROLE, allow: VIEW_CHANNEL_BIT, deny: CONNECT_BIT });
    let mut a: usize = 0;
    while a < allowed_role_ids.len()
        invariant
            a <= allowed_role_ids.len(),
            out@ == before_tail + seq![entry(guild_id, KIND_ROLE, VIEW_CHANNEL_BIT, CONNECT_BIT)]
                + allowed_role_entries(allowed_role_ids@.take(a as int)),
        decreases allowed_role_ids.len() - a,
    {
        let id = allowed_role_ids[a];
        out.push(
            OverwriteEntry {
                id,
                kind: KIND_ROLE,
                allow: VIEW_CHANNEL_BIT | CONNECT_BIT | SPEAK_BIT,
                deny: 0,
            },
        );
        assert(allowed_role_entries(allowed_role_ids@.take(a + 1)) =~= allowed_role_entries(
            allowed_role_ids@.take(a as int),
        ).push(entry(id, KIND_ROLE, VIEW_CHANNEL_BIT | CONNECT_BIT | SPEAK_BIT, 0)));
        a += 1;
    }
    assert(allowed_role_ids@.take(allowed_role_ids@.len() as int) == allowed_role_ids@);
    proof {
        let tail = seq![entry(guild_id, KIND_ROLE, VIEW_CHANNEL_BIT, CONNECT_BIT)]
            + allowed_role_entries(allowed_role_ids@);
        let r = out@;
        let mid = r.subrange(kept.len() as int, r.len() - tail.len());
        assert(r.subrange(r.len() - tail.len(), r.len() as int) =~= tail);
        assert(r.subrange(0, kept.len() as int) =~= kept);
        assert(mid.len() == mid_ids.len());
        assert forall|k: int| 0 <= k < mid.len() implies mid[k] == entry(
            mid_ids[k],
            KIND_MEMBER,
            0,
            CONNECT_BIT,
        ) by {
            assert(mid[k] == r[kept.len() + k]);
        }
        assert(mid.map_values(|e: OverwriteEntry| e.id) =~= mid_ids);
        assert forall|u: u64|
            mid.map_values(|e: OverwriteEntry| e.id).contains(u) <==> (is_guarded(
                locks@,
                guild_id,
                channel_id,
                u,
            ) && !targets_kind(existing@, KIND_MEMBER, u)) by {
            assert(mid_ids.contains(u) <==> (guards@.contains(u) && !targets_kind(
                existing@,
                KIND_MEMBER,
                u,
            )));
        }
    }
    out
}

} // verus!
