//! Pure parts of the gateway glue: permission-overwrite arithmetic and the
//! small helpers of the raw Discord message calls.

use vstd::prelude::*;
use crate::text::{chars_of, int_dec, owned, parse_int_spec, push_u64, string_of};

verus! {

/// Discord permission bit CONNECT (voice).
pub const CONNECT_BIT: u64 = 1u64 << 20;
pub const VIEW_CHANNEL_BIT: u64 = 1u64 << 10;

/// Moderation rights a created lane never inherits from an overwrite:
/// KICK_MEMBERS (1), BAN_MEMBERS (2), ADMINISTRATOR (3), MANAGE_CHANNELS (4),
/// PRIORITY_SPEAKER (8), MANAGE_MESSAGES (13), MUTE_MEMBERS (22),
/// DEAFEN_MEMBERS (23), MOVE_MEMBERS (24), MANAGE_ROLES (28) and
/// MODERATE_MEMBERS (40).
pub const FORBIDDEN_INHERITED_ALLOW: u64 = (1u64 << 22) | (1u64 << 23) | (1u64 << 24) | (1u64
    << 1) | (1u64 << 2) | (1u64 << 4) | (1u64 << 28) | (1u64 << 13) | (1u64 << 40) | (1u64 << 3)
    | (1u64 << 8);

pub open spec fn merge_connect_spec(existing_allow: u64, existing_deny: u64, connect: Option<bool>) -> Option<
    (u64, u64),
> {
    let allow_base = existing_allow & !CONNECT_BIT;
    let deny_base = existing_deny & !CONNECT_BIT;
    let allow_bits = if connect == Some(true) {
        allow_base | CONNECT_BIT
    } else {
        allow_base
    };
    let deny_bits = if connect == Some(false) {
        deny_base | CONNECT_BIT
    } else {
        deny_base
    };
    if allow_bits != 0 || deny_bits != 0 {
        Some((allow_bits, deny_bits))
    } else {
        None
    }
}

/// Member overwrite after setting CONNECT: `Some(true)` allows, `Some(false)`
/// denies, `None` clears it; every other bit stays. `None` when nothing is
/// left of the overwrite.
pub fn merge_connect_overwrite(existing_allow: u64, existing_deny: u64, connect: Option<bool>) -> (r:
    Option<(u64, u64)>)
    ensures
        r == merge_connect_spec(existing_allow, existing_deny, connect),
{
    let mut allow_bits = existing_allow & !CONNECT_BIT;
    let mut deny_bits = existing_deny & !CONNECT_BIT;
    match connect {
        Some(true) => allow_bits = allow_bits | CONNECT_BIT,
        Some(false) => deny_bits = deny_bits | CONNECT_BIT,
        None => {},
    }
    if allow_bits != 0 || deny_bits != 0 {
        Some((allow_bits, deny_bits))
    } else {
        None
    }
}

/// An inherited allow mask without the forbidden moderation rights.
pub fn sanitize_inherited_allow(allow: u64) -> (r: u64)
    ensures
        r == allow & !FORBIDDEN_INHERITED_ALLOW,
{
    allow & !FORBIDDEN_INHERITED_ALLOW
}

/// A voice-pair lock: `blocked_user_id` may not connect to the channel while
/// the lock is active. The member overwrite it replaced is kept so that it
/// can be restored.
#[derive(Debug, Clone, Copy, PartialEq, Eq)]
pub struct VoicePairLock {
    pub guild_id: u64,
    pub channel_id: u64,
    pub blocked_user_id: u64,
    pub previous_allow: u64,
    pub previous_deny: u64,
    pub had_overwrite: bool,
    pub active: bool,
}

/// Member changes after the active locks of the channel forced a deny.
pub open spec fn overlay_spec(
    locks: Seq<VoicePairLock>,
    guild_id: u64,
    channel_id: u64,
    changes: Map<u64, Option<bool>>,
) -> Map<u64, Option<bool>>
    decreases locks.len(),
{
    if locks.len() == 0 {
        changes
    } else {
        let prev = overlay_spec(locks.drop_last(), guild_id, channel_id, changes);
        let l = locks.last();
        if l.active && l.guild_id == guild_id && l.channel_id == channel_id {
            prev.insert(l.blocked_user_id, Some(false))
        } else {
            prev
        }
    }
}

/// Every active lock of this channel turns into a CONNECT deny for its
/// blocked user, overriding what the change set said for that user.
pub fn overlay_active_voice_pair_locks(
    locks: &[VoicePairLock],
    guild_id: u64,
    channel_id: u64,
    member_changes: &mut std::collections::HashMap<u64, Option<bool>>,
)
    ensures
        final(member_changes)@ == overlay_spec(locks@, guild_id, channel_id, old(member_changes)@),
{
    broadcast use vstd::std_specs::hash::group_hash_axioms;

    let mut i: usize = 0;
    while i < locks.len()
        invariant
            i <= locks.len(),
            member_changes@ == overlay_spec(
                locks@.take(i as int),
                guild_id,
                channel_id,
                old(member_changes)@,
            ),
        decreases locks.len() - i,
    {
        let ghost next = locks@.take(i + 1);
        assert(next.drop_last() == locks@.take(i as int));
        assert(next.last() == locks@[i as int]);
        let lock = locks[i];
        if lock.active && lock.guild_id == guild_id && lock.channel_id == channel_id {
            member_changes.insert(lock.blocked_user_id, Some(false));
        }
        i += 1;
    }
    assert(locks@.take(locks.len() as int) == locks@);
}

/// Multipart part name of an attachment: `files[<id>]`.
pub fn router_file_part_name(id: u8) -> (r: String)
    ensures
        r@ == "files["@ + int_dec(id as int) + "]"@,
{
    let mut v = chars_of("files[");
    push_u64(&mut v, id as u64);
    crate::text::append_str(&mut v, "]");
    string_of(&v)
}

/// The first 300 characters of a response body, for error messages.
pub fn router_discord_body_preview(body: &str) -> (r: String)
    ensures
        r@ == (if body@.len() <= 300 {
            body@
        } else {
            body@.take(300)
        }),
{
    let v = chars_of(body);
    if v.len() <= 300 {
        string_of(&v)
    } else {
        let head = crate::text::slice_chars(&v, 0, 300);
        string_of(&head)
    }
}

/// Message id from a Discord write response; the error text otherwise.
pub fn parse_router_message_id(value: &str) -> (r: Result<u64, String>)
    ensures
        match r {
            Ok(id) => parse_int_spec(value@, 0, u64::MAX as int) == Some(id as int),
            Err(e) => parse_int_spec(value@, 0, u64::MAX as int) is None && e@
                == "Discord POST lieferte keine gueltige Message-ID"@,
        },
{
    let v = chars_of(value);
    match crate::text::parse_u64(&v) {
        Some(id) => Ok(id),
        None => Err(owned("Discord POST lieferte keine gueltige Message-ID")),
    }
}

/// The error text of a failed Discord call: `Discord <method> fehlgeschlagen:
/// HTTP <status>: <body preview>`.
pub open spec fn discord_failure_text(method: Seq<char>, status: u16, body: Seq<char>) -> Seq<char> {
    "Discord "@ + method + " fehlgeschlagen: HTTP "@ + int_dec(status as int) + ": "@ + (if body.len()
        <= 300 {
        body
    } else {
        body.take(300)
    })
}

/// The outcome of a Discord call without an answer body to read: `Ok` for a
/// 2xx status, the failure text otherwise.
pub fn router_discord_success(status: u16, body: &str, method: &str) -> (r: Result<(), String>)
    ensures
        match r {
            Ok(()) => 200 <= status <= 299,
            Err(e) => !(200 <= status <= 299) && e@ == discord_failure_text(method@, status, body@),
        },
{
    if 200 <= status && status <= 299 {
        return Ok(());
    }
    let mut v = chars_of("Discord ");
    crate::text::append_str(&mut v, method);
    crate::text::append_str(&mut v, " fehlgeschlagen: HTTP ");
    push_u64(&mut v, status as u64);
    crate::text::append_str(&mut v, ": ");
    let preview = router_discord_body_preview(body);
    crate::text::append_str(&mut v, preview.as_str());
    Err(string_of(&v))
}

/// Whether a failed call means the target is gone or out of reach (HTTP 403
/// or 404).
pub fn is_missing_or_forbidden(status: u16) -> (r: bool)
    ensures
        r == (status == 403 || status == 404),
{
    status == 403 || status == 404
}

/// Highest voice bitrate (bit/s) of a guild by its boost tier (0 to 3).
pub fn guild_voice_bitrate_limit(premium_tier: u8) -> (r: u32)
    ensures
        r == (if premium_tier == 3 {
            384_000u32
        } else if premium_tier == 2 {
            256_000u32
        } else if premium_tier == 1 {
            128_000u32
        } else {
            96_000u32
        }),
{
    match premium_tier {
        3 => 384_000,
        2 => 256_000,
        1 => 128_000,
        _ => 96_000,
    }
}

// ── Laws ────────────────────────────────────────────────────────────────────

/// Setting CONNECT touches nothing else: every other allow and deny bit
/// stays; CONNECT ends up allowed exactly for `Some(true)` and denied
/// exactly for `Some(false)`; the overwrite disappears only when no bit is
/// left.
pub proof fn lemma_merge_connect_keeps_other_bits(allow: u64, deny: u64, connect: Option<bool>)
    ensures
        match merge_connect_spec(allow, deny, connect) {
            Some((a, d)) => {
                &&& a & !CONNECT_BIT == allow & !CONNECT_BIT
                &&& d & !CONNECT_BIT == deny & !CONNECT_BIT
                &&& (a & CONNECT_BIT != 0 <==> connect == Some(true))
                &&& (d & CONNECT_BIT != 0 <==> connect == Some(false))
            },
            None => allow & !CONNECT_BIT == 0 && deny & !CONNECT_BIT == 0 && connect is None,
        },
{
    let ab = allow & !CONNECT_BIT;
    let db = deny & !CONNECT_BIT;
    assert(CONNECT_BIT == 1u64 << 20) by (bit_vector);
    assert(ab & !CONNECT_BIT == ab && ab & CONNECT_BIT == 0) by (bit_vector)
        requires
            ab == allow & !(1u64 << 20),
            CONNECT_BIT == 1u64 << 20,
    ;
    assert(db & !CONNECT_BIT == db && db & CONNECT_BIT == 0) by (bit_vector)
        requires
            db == deny & !(1u64 << 20),
            CONNECT_BIT == 1u64 << 20,
    ;
    assert((ab | CONNECT_BIT) & !CONNECT_BIT == ab && (ab | CONNECT_BIT) & CONNECT_BIT != 0
        && (ab | CONNECT_BIT) != 0) by (bit_vector)
        requires
            ab == allow & !(1u64 << 20),
            CONNECT_BIT == 1u64 << 20,
    ;
    assert((db | CONNECT_BIT) & !CONNECT_BIT == db && (db | CONNECT_BIT) & CONNECT_BIT != 0
        && (db | CONNECT_BIT) != 0) by (bit_vector)
        requires
            db == deny & !(1u64 << 20),
            CONNECT_BIT == 1u64 << 20,
    ;
    match connect {
        Some(true) => {
            assert(merge_connect_spec(allow, deny, connect) == Some((ab | CONNECT_BIT, db)));
        },
        Some(false) => {
            assert(merge_connect_spec(allow, deny, connect) == Some((ab, db | CONNECT_BIT)));
        },
        None => {
            if ab != 0 || db != 0 {
                assert(merge_connect_spec(allow, deny, connect) == Some((ab, db)));
            } else {
                assert(merge_connect_spec(allow, deny, connect) is None);
            }
        },
    }
}

/// An inherited allow mask loses exactly the forbidden moderation rights:
/// none of them is left and every other bit stays.
pub proof fn lemma_sanitize_removes_only_forbidden(allow: u64)
    ensures
        (allow & !FORBIDDEN_INHERITED_ALLOW) & FORBIDDEN_INHERITED_ALLOW == 0,
        (allow & !FORBIDDEN_INHERITED_ALLOW) | (allow & FORBIDDEN_INHERITED_ALLOW) == allow,
{
    let f = FORBIDDEN_INHERITED_ALLOW;
    assert((allow & !f) & f == 0 && (allow & !f) | (allow & f) == allow) by (bit_vector);
}

/// After the overlay every user blocked by an active lock of the channel is
/// denied CONNECT; every other user keeps the change requested for them.
pub proof fn lemma_overlay_denies_blocked_users(
    locks: Seq<VoicePairLock>,
    guild_id: u64,
    channel_id: u64,
    changes: Map<u64, Option<bool>>,
)
    ensures
        forall|i: int|
            0 <= i < locks.len() && locks[i].active && locks[i].guild_id == guild_id
                && locks[i].channel_id == channel_id ==> overlay_spec(locks, guild_id, channel_id, changes).contains_key(
                #[trigger] locks[i].blocked_user_id,
            ) && overlay_spec(locks, guild_id, channel_id, changes)[locks[i].blocked_user_id]
                == Some(false),
        forall|u: u64|
            #![trigger overlay_spec(locks, guild_id, channel_id, changes).contains_key(u)]
            (forall|i: int|
                0 <= i < locks.len() && locks[i].active && locks[i].guild_id == guild_id
                    && locks[i].channel_id == channel_id ==> locks[i].blocked_user_id != u) ==> (
            overlay_spec(locks, guild_id, channel_id, changes).contains_key(u) == changes.contains_key(u)
                && (changes.contains_key(u) ==> overlay_spec(locks, guild_id, channel_id, changes)[u]
                == changes[u])),
    decreases locks.len(),
{
    if locks.len() > 0 {
        let pre = locks.drop_last();
        lemma_overlay_denies_blocked_users(pre, guild_id, channel_id, changes);
        let prev = overlay_spec(pre, guild_id, channel_id, changes);
        let l = locks.last();
        assert forall|i: int|
            0 <= i < locks.len() && locks[i].active && locks[i].guild_id == guild_id
                && locks[i].channel_id == channel_id implies overlay_spec(locks, guild_id, channel_id, changes).contains_key(
            #[trigger] locks[i].blocked_user_id,
        ) && overlay_spec(locks, guild_id, channel_id, changes)[locks[i].blocked_user_id] == Some(
            false,
        ) by {
            if i < pre.len() {
                assert(pre[i] == locks[i]);
            }
        }
        assert forall|u: u64|
            (forall|i: int|
                0 <= i < locks.len() && locks[i].active && locks[i].guild_id == guild_id
                    && locks[i].channel_id == channel_id ==> locks[i].blocked_user_id != u) implies (
        overlay_spec(locks, guild_id, channel_id, changes).contains_key(u) == changes.contains_key(u)
            && (changes.contains_key(u) ==> overlay_spec(locks, guild_id, channel_id, changes)[u]
            == changes[u])) by {
            assert forall|i: int|
                0 <= i < pre.len() && pre[i].active && pre[i].guild_id == guild_id && pre[i].channel_id
                    == channel_id implies pre[i].blocked_user_id != u by {
                assert(pre[i] == locks[i]);
            }
            assert(locks[locks.len() - 1] == l);
        }
    }
}

} // verus!
