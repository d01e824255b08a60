use std::collections::HashSet;

use dl_voice::lfg_flow::LaneVoiceEvent;
use dl_voice::rank::{
    is_monitored_channel, rank_overwrite_removals, reconcile_channels, reconcile_step, Anchor,
    ReconcileStep, EXCLUDED_CHANNEL_IDS, MONITORED_CATEGORY_ID,
};
use dl_voice::rank_commands::{
    anchor_line, anchor_status_value, force_updated_reply, not_monitored_reply, parse_rrang,
    stale_anchor_line, toggle_outcome, toggle_reply, unknown_subcommand_reply, RrangCommand,
    ToggleAction, ToggleOutcome, NO_ANCHOR_TEXT, SYSTEM_DISABLED_TEXT, TOGGLE_USAGE_REPLY,
};

fn anchor() -> Anchor {
    Anchor {
        user_id: 5,
        rank_name: "Phantom".to_string(),
        rank_value: 9,
        allowed_min: 7,
        allowed_max: 10,
        subrank: 3,
        score_min: 48,
        score_max: 66,
    }
}

#[test]
fn rrang_befehle_werden_erkannt() {
    assert_eq!(parse_rrang("hallo"), None);
    assert_eq!(parse_rrang(""), None);
    assert_eq!(parse_rrang("!RRANG"), Some(RrangCommand::Help));
    assert_eq!(
        parse_rrang("!rrang toggle EIN"),
        Some(RrangCommand::Toggle { action: Some(ToggleAction::On) })
    );
    assert_eq!(
        parse_rrang("!rrang toggle off"),
        Some(RrangCommand::Toggle { action: Some(ToggleAction::Off) })
    );
    assert_eq!(
        parse_rrang("!rrang toggle vielleicht"),
        Some(RrangCommand::Toggle { action: Some(ToggleAction::Other) })
    );
    assert_eq!(parse_rrang("!rrang toggle"), Some(RrangCommand::Toggle { action: None }));
    assert_eq!(parse_rrang("!rrang Anker"), Some(RrangCommand::Anchors));
    assert_eq!(parse_rrang("!rrang vcstatus"), Some(RrangCommand::VcStatus));
    assert_eq!(parse_rrang("!rrang debug <@!42>"), Some(RrangCommand::Debug { target: Some(42) }));
    assert_eq!(parse_rrang("!rrang debug abc"), Some(RrangCommand::Debug { target: None }));
    assert_eq!(
        parse_rrang("!rrang aktualisieren <#77>"),
        Some(RrangCommand::ForceUpdate { channel: Some(77) })
    );
    assert_eq!(
        parse_rrang("!rrang aktualisieren 78"),
        Some(RrangCommand::ForceUpdate { channel: Some(78) })
    );
    assert_eq!(parse_rrang("!rrang rollen"), Some(RrangCommand::Roles));
    assert_eq!(parse_rrang("!rrang kanäle"), Some(RrangCommand::Channels));
    assert_eq!(parse_rrang("!rrang channels"), Some(RrangCommand::Channels));
    assert_eq!(parse_rrang("!rrang status"), Some(RrangCommand::Status));
    assert_eq!(parse_rrang("!rrang info <@9>"), Some(RrangCommand::Info { target: Some(9) }));
    assert_eq!(
        parse_rrang("  !rrang   Quatsch  "),
        Some(RrangCommand::Unknown { sub: "quatsch".to_string() })
    );
}

#[test]
fn toggle_entscheidung_und_antworten() {
    assert_eq!(toggle_outcome(true, None), ToggleOutcome::Report { enabled: true });
    assert_eq!(toggle_outcome(true, Some(ToggleAction::On)), ToggleOutcome::AlreadyEnabled);
    assert_eq!(toggle_outcome(false, Some(ToggleAction::On)), ToggleOutcome::Enable);
    assert_eq!(toggle_outcome(false, Some(ToggleAction::Off)), ToggleOutcome::AlreadyDisabled);
    assert_eq!(toggle_outcome(true, Some(ToggleAction::Off)), ToggleOutcome::Disable);
    assert_eq!(toggle_outcome(true, Some(ToggleAction::Other)), ToggleOutcome::Usage);

    assert_eq!(
        toggle_reply("Lane", ToggleOutcome::Report { enabled: true }),
        "🔧 Rang-System für **Lane**: ✅ Aktiviert"
    );
    assert_eq!(
        toggle_reply("Lane", ToggleOutcome::Report { enabled: false }),
        "🔧 Rang-System für **Lane**: ❌ Deaktiviert"
    );
    assert_eq!(toggle_reply("Lane", ToggleOutcome::AlreadyEnabled), "ℹ️ Bereits aktiviert für **Lane**.");
    assert_eq!(toggle_reply("Lane", ToggleOutcome::Enable), "✅ Aktiviert: **Lane**");
    assert_eq!(
        toggle_reply("Lane", ToggleOutcome::AlreadyDisabled),
        "ℹ️ Bereits deaktiviert für **Lane**."
    );
    assert_eq!(toggle_reply("Lane", ToggleOutcome::Disable), "❌ Deaktiviert: **Lane**");
    assert_eq!(toggle_reply("Lane", ToggleOutcome::Usage), TOGGLE_USAGE_REPLY);
    assert_eq!(not_monitored_reply("Lane"), "❌ **Lane** wird nicht überwacht.");
    assert_eq!(unknown_subcommand_reply("foo"), "❌ Unbekannter Subcommand `foo`.");
    assert_eq!(force_updated_reply("Lane"), "✅ Kanal **Lane** aktualisiert.");
}

#[test]
fn anker_texte() {
    assert_eq!(
        anchor_line("Lane 1", "Anna", &anchor(), 4),
        "**Lane 1**\n🔗 Anker: Anna (Phantom 3)\n📊 Tiers: Archon–Ascendant | Score: 48–66\n👥 Aktuelle User: 4\n"
    );
    assert_eq!(stale_anchor_line(7, 5), "❓ Veralteter Eintrag (Kanal 7, User 5)");
    assert_eq!(
        anchor_status_value(Some((&anchor(), "Anna")), true),
        "Anna (Phantom 3)\nTiers: Archon–Ascendant\nScore: 48–66"
    );
    assert_eq!(anchor_status_value(None, true), NO_ANCHOR_TEXT);
    assert_eq!(anchor_status_value(Some((&anchor(), "Anna")), false), SYSTEM_DISABLED_TEXT);
}

#[test]
fn ueberwachung_und_events() {
    assert!(is_monitored_channel(1, Some(MONITORED_CATEGORY_ID)));
    assert!(!is_monitored_channel(1, Some(2)));
    assert!(!is_monitored_channel(1, None));
    assert!(!is_monitored_channel(EXCLUDED_CHANNEL_IDS[3], Some(MONITORED_CATEGORY_ID)));
    assert_eq!(reconcile_channels(LaneVoiceEvent::Join { channel_id: 3 }), vec![3]);
    assert_eq!(
        reconcile_channels(LaneVoiceEvent::Move { from_channel_id: 3, to_channel_id: 4 }),
        vec![4, 3]
    );
    assert!(reconcile_channels(LaneVoiceEvent::Update).is_empty());
}

#[test]
fn rang_overwrites_raeumen_nur_rangrollen() {
    let guild_roles = vec![
        (500, "Phantom 3".to_string()),
        (501, "Moderator".to_string()),
        (502, "Seeker 1".to_string()),
    ];
    // 1331457571118387210 is the main Initiate role.
    let current = vec![1331457571118387210, 500, 501, 502, 999];
    let keep: HashSet<u64> = [500].into_iter().collect();
    assert_eq!(
        rank_overwrite_removals(&current, &guild_roles, &keep),
        vec![1331457571118387210, 502]
    );
    assert_eq!(
        rank_overwrite_removals(&current, &guild_roles, &HashSet::new()),
        vec![1331457571118387210, 500, 502]
    );
}

#[test]
fn reconcile_schritt() {
    assert_eq!(reconcile_step(None, None, true), ReconcileStep::Idle);
    assert_eq!(reconcile_step(Some(&anchor()), None, true), ReconcileStep::Clear);
    let same = reconcile_step(Some(&anchor()), Some((5, "Phantom".to_string(), 9, 3)), true);
    match same {
        ReconcileStep::Settle { anchor: a, store, rename } => {
            assert_eq!(a, anchor());
            assert!(!store);
            assert_eq!(rename, None);
        }
        other => panic!("unexpected {other:?}"),
    }
    let changed = reconcile_step(Some(&anchor()), Some((6, "Seeker".to_string(), 2, 5)), true);
    match changed {
        ReconcileStep::Settle { anchor: a, store, rename } => {
            assert_eq!(a.user_id, 6);
            assert_eq!((a.score_min, a.score_max, a.allowed_min, a.allowed_max), (8, 26, 1, 4));
            assert!(store);
            assert_eq!(rename.as_deref(), Some("Seeker 5"));
        }
        other => panic!("unexpected {other:?}"),
    }
    let cooling = reconcile_step(None, Some((6, "Seeker".to_string(), 2, 5)), false);
    match cooling {
        ReconcileStep::Settle { store, rename, .. } => {
            assert!(store);
            assert_eq!(rename, None);
        }
        other => panic!("unexpected {other:?}"),
    }
}
