use std::collections::HashMap;

use dl_voice::glue::{
    guild_voice_bitrate_limit, is_missing_or_forbidden, router_discord_success,
    merge_connect_overwrite, overlay_active_voice_pair_locks, parse_router_message_id,
    router_discord_body_preview, router_file_part_name, sanitize_inherited_allow, VoicePairLock,
    CONNECT_BIT,
};
use dl_voice::overwrites::{
    build_connect_batch_payload, build_from_overwrites, build_rank_overwrites_payload,
    inherit_category_overwrites, restricted_voice_overwrites, CachedChannel, CachedGuild,
    ConnectChange, OverwriteEntry,
};

const MUTE_MEMBERS: u64 = 1 << 22;
const BAN_MEMBERS: u64 = 1 << 2;
const VIEW_CHANNEL: u64 = 1 << 10;

fn lock(blocked: u64, previous_allow: u64, previous_deny: u64, had: bool) -> VoicePairLock {
    VoicePairLock {
        guild_id: 7,
        channel_id: 42,
        blocked_user_id: blocked,
        previous_allow,
        previous_deny,
        had_overwrite: had,
        active: true,
    }
}

fn changes(map: &HashMap<u64, Option<bool>>) -> Vec<ConnectChange> {
    map.iter()
        .map(|(id, c)| ConnectChange { target_id: *id, connect: *c })
        .collect()
}

/// A cache holding guild 7 with channel 42 and the given overwrites.
fn cache_with_overwrites(overwrites: Vec<OverwriteEntry>) -> Vec<CachedGuild> {
    vec![CachedGuild { id: 7, channels: vec![CachedChannel { id: 42, overwrites }] }]
}

#[test]
fn inherited_allow_masks_incident_value_281475009217536() {
    let incident_allow = 281475009217536;

    let sanitized = sanitize_inherited_allow(incident_allow);

    assert_eq!(sanitized & (1 << 22), 0, "MUTE_MEMBERS must be removed");
    assert_eq!(sanitized & (1 << 23), 0, "DEAFEN_MEMBERS must be removed");
    assert_eq!(sanitized & (1 << 24), 0, "MOVE_MEMBERS must be removed");
    assert_ne!(sanitized & (1 << 10), 0, "VIEW_CHANNEL must remain");
    assert_ne!(sanitized & (1 << 20), 0, "CONNECT must remain");
    assert_ne!(sanitized & (1 << 21), 0, "SPEAK must remain");
}

#[test]
fn inherited_allow_without_forbidden_permissions_is_unchanged() {
    let allow = (1 << 10) | (1 << 20) | (1 << 21);

    assert_eq!(sanitize_inherited_allow(allow), allow);
}

#[test]
fn member_connect_merge_erhaelt_fremde_bits() {
    let view_channel = 1 << 10;
    let speak = 1 << 21;

    assert_eq!(
        merge_connect_overwrite(view_channel, speak, Some(false)),
        Some((view_channel, speak | CONNECT_BIT))
    );
    assert_eq!(
        merge_connect_overwrite(view_channel | CONNECT_BIT, speak, None),
        Some((view_channel, speak))
    );
    assert_eq!(merge_connect_overwrite(CONNECT_BIT, 0, None), None);
}

#[test]
fn router_multipart_part_names_nutzen_attachment_ids() {
    assert_eq!(router_file_part_name(0), "files[0]");
    assert_eq!(router_file_part_name(1), "files[1]");
    assert_eq!(router_file_part_name(2), "files[2]");
}

#[test]
fn inherited_overwrite_never_changes_deny() {
    let deny = MUTE_MEMBERS | BAN_MEMBERS;
    let body = inherit_category_overwrites(&[OverwriteEntry {
        id: 9,
        kind: 1,
        allow: VIEW_CHANNEL,
        deny,
    }]);

    assert_eq!(body[0].deny, deny);
}

#[test]
fn inherited_category_overwrite_sanitizes_created_channel_body() {
    let incident_allow = 281475009217536;
    let body = inherit_category_overwrites(&[OverwriteEntry {
        id: 7,
        kind: 0,
        allow: incident_allow,
        deny: 0,
    }]);

    let inherited_allow = body[0].allow;
    assert_eq!(inherited_allow & MUTE_MEMBERS, 0);
    assert_ne!(inherited_allow & VIEW_CHANNEL, 0);
}

#[test]
fn scrim_overwrites_enthalten_endzustand_bereits_beim_create() {
    let overwrites = restricted_voice_overwrites(42, 99, &[7, 8]);

    assert_eq!(
        overwrites,
        vec![
            OverwriteEntry { id: 42, kind: 0, allow: 1_u64 << 10, deny: CONNECT_BIT },
            OverwriteEntry { id: 7, kind: 1, allow: (1_u64 << 10) | CONNECT_BIT, deny: 0 },
            OverwriteEntry { id: 8, kind: 1, allow: (1_u64 << 10) | CONNECT_BIT, deny: 0 },
            OverwriteEntry { id: 99, kind: 1, allow: (1_u64 << 10) | CONNECT_BIT, deny: 0 },
        ]
    );
}

#[test]
fn payload_role_connect_merge_erhaelt_fremde_bits() {
    let view = 1 << 10;
    let speak = 1 << 21;
    let cache = cache_with_overwrites(vec![OverwriteEntry { id: 8, kind: 0, allow: view, deny: speak }]);

    let payload = build_connect_batch_payload(
        &cache,
        Some(7),
        42,
        &changes(&HashMap::from([(8, Some(true))])),
        &[],
    )
    .expect("payload");

    assert_eq!(
        payload,
        vec![OverwriteEntry { id: 8, kind: 0, allow: view | CONNECT_BIT, deny: speak }]
    );
}

#[test]
fn payload_role_change_enthaelt_aktiven_guard_trotz_stale_cache() {
    let mut member_changes = HashMap::new();
    overlay_active_voice_pair_locks(&[lock(9, 0, 0, false)], 7, 42, &mut member_changes);
    let cache = cache_with_overwrites(Vec::new());

    let payload = build_connect_batch_payload(
        &cache,
        Some(7),
        42,
        &changes(&HashMap::from([(8, Some(true))])),
        &changes(&member_changes),
    )
    .expect("payload");

    assert!(payload.contains(&OverwriteEntry { id: 9, kind: 1, allow: 0, deny: CONNECT_BIT }));
}

#[test]
fn guard_overlay_erhaelt_fremde_member_bits() {
    let view = 1 << 10;
    let speak = 1 << 21;
    let cache = cache_with_overwrites(vec![OverwriteEntry { id: 9, kind: 1, allow: view, deny: speak }]);
    let mut member_changes = HashMap::new();
    overlay_active_voice_pair_locks(&[lock(9, view, speak, true)], 7, 42, &mut member_changes);

    let payload = build_connect_batch_payload(
        &cache,
        Some(7),
        42,
        &changes(&HashMap::from([(8, Some(true))])),
        &changes(&member_changes),
    )
    .expect("payload");

    assert!(payload.contains(&OverwriteEntry {
        id: 9,
        kind: 1,
        allow: view,
        deny: speak | CONNECT_BIT,
    }));
}

#[test]
fn rank_payload_overlay_enthaelt_aktiven_guard_trotz_stale_cache() {
    let payload = build_rank_overwrites_payload(&[], 7, 42, &[8], &[], &[lock(9, 0, 0, false)]);

    assert!(payload.contains(&OverwriteEntry { id: 9, kind: 1, allow: 0, deny: CONNECT_BIT }));
}

#[test]
fn rank_payload_overlay_erhaelt_fremde_member_bits() {
    let view = 1 << 10;
    let speak = 1 << 21;
    let existing = vec![OverwriteEntry { id: 9, kind: 1, allow: view | CONNECT_BIT, deny: speak }];

    let payload = build_rank_overwrites_payload(
        &existing,
        7,
        42,
        &[8],
        &[],
        &[lock(9, view | CONNECT_BIT, speak, true)],
    );

    assert!(payload.contains(&OverwriteEntry {
        id: 9,
        kind: 1,
        allow: view,
        deny: speak | CONNECT_BIT,
    }));
}

#[test]
fn payload_member_none_entfernt_nur_connect() {
    let view = 1 << 10;
    let speak = 1 << 21;
    let mut cache = cache_with_overwrites(vec![
        OverwriteEntry { id: 9, kind: 1, allow: view | CONNECT_BIT, deny: speak },
        OverwriteEntry { id: 10, kind: 1, allow: CONNECT_BIT, deny: 0 },
    ]);
    let member_changes = changes(&HashMap::from([(9, None), (10, None)]));

    let payload = build_connect_batch_payload(&cache, Some(7), 42, &[], &member_changes)
        .expect("payload");

    assert_eq!(payload, vec![OverwriteEntry { id: 9, kind: 1, allow: view, deny: speak }]);

    cache.clear();
    assert_eq!(
        build_connect_batch_payload(&cache, Some(7), 42, &[], &member_changes),
        Err("Guild nicht im Cache".to_string())
    );
}

#[test]
fn connect_batch_meldet_fehlenden_channel_und_sucht_ohne_guild_alle_guilds() {
    let overwrites = vec![OverwriteEntry { id: 8, kind: 0, allow: 1 << 10, deny: 0 }];
    let cache = vec![
        CachedGuild { id: 3, channels: vec![CachedChannel { id: 41, overwrites: Vec::new() }] },
        CachedGuild { id: 7, channels: vec![CachedChannel { id: 42, overwrites: overwrites.clone() }] },
    ];
    let roles = [ConnectChange { target_id: 8, connect: Some(true) }];

    assert_eq!(
        build_connect_batch_payload(&cache, Some(3), 42, &roles, &[]),
        Err("Channel nicht im Cache".to_string())
    );
    assert_eq!(
        build_connect_batch_payload(&cache, None, 42, &roles, &[]),
        Ok(vec![OverwriteEntry { id: 8, kind: 0, allow: (1 << 10) | CONNECT_BIT, deny: 0 }])
    );
    assert_eq!(
        build_connect_batch_payload(&cache, Some(7), 42, &roles, &[]),
        build_connect_batch_payload(&cache, None, 42, &roles, &[])
    );
    assert_eq!(
        build_connect_batch_payload(&cache, None, 99, &roles, &[]),
        Err("Channel nicht im Cache".to_string())
    );
}

#[test]
fn neue_ziele_kommen_nach_id_sortiert_ans_ende() {
    let existing = vec![OverwriteEntry { id: 5, kind: 0, allow: 1, deny: 0 }];
    let payload = build_from_overwrites(
        &existing,
        &[
            ConnectChange { target_id: 30, connect: Some(false) },
            ConnectChange { target_id: 20, connect: Some(true) },
            ConnectChange { target_id: 25, connect: None },
        ],
        &[ConnectChange { target_id: 3, connect: Some(true) }],
    );
    assert_eq!(
        payload,
        vec![
            OverwriteEntry { id: 5, kind: 0, allow: 1, deny: 0 },
            OverwriteEntry { id: 20, kind: 0, allow: CONNECT_BIT, deny: 0 },
            OverwriteEntry { id: 30, kind: 0, allow: 0, deny: CONNECT_BIT },
            OverwriteEntry { id: 3, kind: 1, allow: CONNECT_BIT, deny: 0 },
        ]
    );
}

#[test]
fn rank_payload_ordnung_und_rollen() {
    let existing = vec![
        OverwriteEntry { id: 7, kind: 0, allow: 1, deny: 2 },
        OverwriteEntry { id: 8, kind: 0, allow: 1, deny: 0 },
        OverwriteEntry { id: 11, kind: 0, allow: 4, deny: 0 },
        OverwriteEntry { id: 12, kind: 0, allow: 4, deny: 0 },
        OverwriteEntry { id: 30, kind: 1, allow: 16, deny: 0 },
    ];
    let payload = build_rank_overwrites_payload(
        &existing,
        7,
        42,
        &[8, 13],
        &[11],
        &[lock(50, 0, 0, false), lock(40, 0, 0, false), lock(30, 16, 0, true)],
    );
    assert_eq!(
        payload,
        vec![
            OverwriteEntry { id: 12, kind: 0, allow: 4, deny: 0 },
            OverwriteEntry { id: 30, kind: 1, allow: 16, deny: CONNECT_BIT },
            OverwriteEntry { id: 40, kind: 1, allow: 0, deny: CONNECT_BIT },
            OverwriteEntry { id: 50, kind: 1, allow: 0, deny: CONNECT_BIT },
            OverwriteEntry { id: 7, kind: 0, allow: 1 << 10, deny: CONNECT_BIT },
            OverwriteEntry { id: 8, kind: 0, allow: (1 << 10) | CONNECT_BIT | (1 << 21), deny: 0 },
            OverwriteEntry { id: 13, kind: 0, allow: (1 << 10) | CONNECT_BIT | (1 << 21), deny: 0 },
        ]
    );
}

#[test]
fn overlay_ignoriert_fremde_und_inaktive_locks() {
    let mut member_changes = HashMap::from([(9, Some(true)), (3, None)]);
    let mut inactive = lock(3, 0, 0, false);
    inactive.active = false;
    let mut other_channel = lock(4, 0, 0, false);
    other_channel.channel_id = 43;
    overlay_active_voice_pair_locks(
        &[lock(9, 0, 0, false), inactive, other_channel],
        7,
        42,
        &mut member_changes,
    );
    assert_eq!(member_changes, HashMap::from([(9, Some(false)), (3, None)]));
}

#[test]
fn discord_antwort_vorschau_und_message_id() {
    let long: String = "x".repeat(350);
    assert_eq!(router_discord_body_preview(&long).chars().count(), 300);
    assert_eq!(router_discord_body_preview("kurz"), "kurz");
    assert_eq!(parse_router_message_id("123"), Ok(123));
    assert_eq!(
        parse_router_message_id("abc"),
        Err("Discord POST lieferte keine gueltige Message-ID".to_string())
    );
}

#[test]
fn discord_fehler_tragen_methode_status_und_vorschau() {
    assert_eq!(router_discord_success(204, "", "PATCH"), Ok(()));
    assert_eq!(
        router_discord_success(404, "{\"message\": \"Unknown Message\"}", "PATCH"),
        Err("Discord PATCH fehlgeschlagen: HTTP 404: {\"message\": \"Unknown Message\"}".to_string())
    );
    let long = "x".repeat(400);
    let err = router_discord_success(500, &long, "POST").unwrap_err();
    assert_eq!(err, format!("Discord POST fehlgeschlagen: HTTP 500: {}", "x".repeat(300)));
    assert!(router_discord_success(300, "", "GET").is_err());
}

#[test]
fn fehlend_oder_verboten_und_bitrate_nach_boost_stufe() {
    assert!(is_missing_or_forbidden(403));
    assert!(is_missing_or_forbidden(404));
    assert!(!is_missing_or_forbidden(429));
    assert_eq!(guild_voice_bitrate_limit(0), 96_000);
    assert_eq!(guild_voice_bitrate_limit(1), 128_000);
    assert_eq!(guild_voice_bitrate_limit(2), 256_000);
    assert_eq!(guild_voice_bitrate_limit(3), 384_000);
}
