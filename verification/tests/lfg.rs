use dl_voice::lfg::{
    derive_lfg_forum_tag_ids, discord_id_i64, db_i64_to_u64, find_existing_lfg_v2_panel,
    is_not_found_error, lfg_draft_content, lfg_draft_rank_summary, lfg_draft_slots_summary,
    lfg_edit_delay_from_last, lfg_join_custom_id, lfg_open_lane_custom_id, lfg_panel_attachments,
    lfg_post_body, lfg_post_custom_id, lfg_post_draft, lfg_rank_label_from_index,
    lfg_rank_range_from_draft, lfg_watch_expires_at_sql, mode_from_lane_base,
    mode_from_lane_record, normalize_lfg_rank_value, parse_i64_suffix, parse_rank_range,
    parse_requested_slots, play_window_dm_suffix, rank_name, rank_range_label, render_change,
    rendered_capacity, LfgDraft, LfgLaneOccupancy, LfgMode, LfgPanelChannelKind,
    LfgPanelMessage, LfgPlayWindow, LfgRankRange, LfgUserPreset, RouterIds,
    LFG_FORUM_MAX_APPLIED_TAGS, LFG_FORUM_TAG_MODE_CASUAL, LFG_FORUM_TAG_MODE_RANKED,
    LFG_FORUM_TAG_MODE_STREET_BRAWL, LFG_FORUM_TAG_RANK_ADVANCED, LFG_FORUM_TAG_RANK_ANY,
    LFG_FORUM_TAG_RANK_BEGINNER, LFG_FORUM_TAG_RANK_ELITE, LFG_FORUM_TAG_RANK_EXPERIENCED,
    LFG_FORUM_TAG_STATUS_ACTIVE, LFG_FORUM_TAG_STATUS_LOOKING,
};
use dl_voice::lfg_watch::LfgWatchWindow;

const IDS: RouterIds = RouterIds {
    ranked_category: 101,
    street_brawl_category: 102,
    chill_category: 103,
    ranked_staging: 201,
    street_brawl_staging: 202,
    casual_staging: 203,
};

#[test]
fn preset_roundtrip_preserves_play_window() {
    let draft = LfgDraft {
        mode: LfgMode::Casual,
        rank_from: None,
        rank_to: None,
        slots: Some(2),
        play_window: Some(LfgPlayWindow::HeuteAbend),
        lane_id: None,
    };
    let preset = LfgUserPreset::from_draft(&draft);
    let back = preset.into_draft(LfgMode::Casual).expect("preset -> draft");
    assert_eq!(back.play_window, Some(LfgPlayWindow::HeuteAbend));
}

#[test]
fn lfg_rank_parser_akzeptiert_nur_bekannte_grammatik() {
    assert_eq!(
        parse_rank_range("phantom"),
        Some(LfgRankRange {
            min: Some(9),
            max: Some(9)
        })
    );
    assert_eq!(
        parse_rank_range("oracle  bis  phantom"),
        Some(LfgRankRange {
            min: Some(8),
            max: Some(9)
        })
    );
    assert_eq!(
        parse_rank_range("Ritualist bis Phantom"),
        Some(LfgRankRange {
            min: Some(6),
            max: Some(9)
        })
    );
    assert_eq!(
        parse_rank_range(""),
        Some(LfgRankRange {
            min: None,
            max: None
        })
    );

    for raw in [
        "Phantom bis Kartoffel",
        "Kartoffel bis Ritualist",
        "PHANTOM  bis  oracle",
        "Phantom-Oracle",
        "Müll",
        "Phantom Ritualist",
    ] {
        assert_eq!(parse_rank_range(raw), None, "raw={raw}");
    }
}

#[test]
fn lfg_forum_tags_werden_aus_modus_rang_und_lane_status_abgeleitet() {
    let range = |min, max| LfgRankRange {
        min: Some(min),
        max: Some(max),
    };

    assert_eq!(
        derive_lfg_forum_tag_ids(
            LfgMode::Casual,
            LfgRankRange {
                min: None,
                max: None
            },
            false,
        ),
        vec![
            LFG_FORUM_TAG_MODE_CASUAL,
            LFG_FORUM_TAG_RANK_ANY,
            LFG_FORUM_TAG_STATUS_LOOKING,
        ]
    );
    assert_eq!(
        derive_lfg_forum_tag_ids(LfgMode::Ranked, range(1, 2), false),
        vec![
            LFG_FORUM_TAG_MODE_RANKED,
            LFG_FORUM_TAG_RANK_BEGINNER,
            LFG_FORUM_TAG_STATUS_LOOKING,
        ]
    );
    assert_eq!(
        derive_lfg_forum_tag_ids(LfgMode::Ranked, range(2, 3), false),
        vec![
            LFG_FORUM_TAG_MODE_RANKED,
            LFG_FORUM_TAG_RANK_BEGINNER,
            LFG_FORUM_TAG_RANK_ADVANCED,
            LFG_FORUM_TAG_STATUS_LOOKING,
        ]
    );
    assert_eq!(
        derive_lfg_forum_tag_ids(LfgMode::StreetBrawl, range(9, 11), true),
        vec![
            LFG_FORUM_TAG_MODE_STREET_BRAWL,
            LFG_FORUM_TAG_RANK_ANY,
            LFG_FORUM_TAG_STATUS_ACTIVE,
        ]
    );
    assert_eq!(
        derive_lfg_forum_tag_ids(LfgMode::Ranked, range(9, 11), true),
        vec![
            LFG_FORUM_TAG_MODE_RANKED,
            LFG_FORUM_TAG_RANK_ELITE,
            LFG_FORUM_TAG_STATUS_ACTIVE,
        ]
    );
    assert_eq!(
        derive_lfg_forum_tag_ids(
            LfgMode::Ranked,
            LfgRankRange {
                min: Some(7),
                max: None,
            },
            false,
        ),
        vec![
            LFG_FORUM_TAG_MODE_RANKED,
            LFG_FORUM_TAG_RANK_EXPERIENCED,
            LFG_FORUM_TAG_RANK_ELITE,
            LFG_FORUM_TAG_STATUS_LOOKING,
        ]
    );

    let capped = derive_lfg_forum_tag_ids(LfgMode::Ranked, range(1, 11), true);
    assert_eq!(capped.len(), LFG_FORUM_MAX_APPLIED_TAGS);
    assert!(capped.contains(&LFG_FORUM_TAG_MODE_RANKED));
    assert!(capped.contains(&LFG_FORUM_TAG_STATUS_ACTIVE));
}

#[test]
fn lfg_draft_rank_range_tauscht_vertauchte_werte_und_erlaubt_offene_bereiche() {
    let mut draft = LfgDraft::new(LfgMode::Ranked, None);
    draft.rank_from = Some("phantom".to_string());
    draft.rank_to = Some("archon".to_string());
    assert_eq!(
        lfg_rank_range_from_draft(&draft),
        Some(LfgRankRange {
            min: Some(7),
            max: Some(9),
        })
    );

    draft.rank_from = Some("archon".to_string());
    draft.rank_to = None;
    assert_eq!(
        lfg_rank_range_from_draft(&draft),
        Some(LfgRankRange {
            min: Some(7),
            max: None,
        })
    );
}

#[test]
fn lfg_draft_content_zeigt_live_zusammenfassung_mit_rangrichtung() {
    let mut draft = LfgDraft::new(LfgMode::Ranked, None);
    draft.rank_from = Some("archon".to_string());
    draft.rank_to = Some("phantom".to_string());
    draft.slots = Some(3);

    assert_eq!(
        lfg_draft_content(&draft),
        "**Ranked** · Emissary → Phantom · 3 Plätze\nWähl Rang-Bereich und Plätze, dann **Suche veröffentlichen**."
    );

    draft.play_window = Some(LfgPlayWindow::HeuteAbend);
    assert_eq!(
        lfg_draft_content(&draft),
        "**Ranked** · Emissary → Phantom · 3 Plätze · 🌙 Heute Abend\nWähl Rang-Bereich und Plätze, dann **Suche veröffentlichen**."
    );
}

#[test]
fn lfg_one_category_mode_nutzt_source_staging_vor_namen() {
    assert_eq!(
        mode_from_lane_record(&IDS, IDS.chill_category, Some(IDS.ranked_staging), "Custom Name"),
        Some(LfgMode::Ranked)
    );
    assert_eq!(
        mode_from_lane_record(
            &IDS,
            IDS.chill_category,
            Some(IDS.street_brawl_staging),
            "Custom Name"
        ),
        Some(LfgMode::StreetBrawl)
    );
}

#[test]
fn lane_modus_aus_namen_und_kategorie() {
    assert_eq!(mode_from_lane_base("  Ranked Lane 3"), Some(LfgMode::Ranked));
    assert_eq!(mode_from_lane_base("street brawl 1"), Some(LfgMode::StreetBrawl));
    assert_eq!(mode_from_lane_base("Chill Lane"), Some(LfgMode::Casual));
    assert_eq!(mode_from_lane_base("Off Topic"), None);
    assert_eq!(
        mode_from_lane_record(&IDS, IDS.ranked_category, None, "Off Topic"),
        Some(LfgMode::Ranked)
    );
    assert_eq!(
        mode_from_lane_record(&IDS, IDS.ranked_category, Some(999), "Chill Lane"),
        Some(LfgMode::Casual)
    );
    assert_eq!(mode_from_lane_record(&IDS, 5, None, "Off Topic"), None);
}

#[test]
fn modus_und_fenster_namen_round_trip() {
    for mode in [LfgMode::Casual, LfgMode::Ranked, LfgMode::StreetBrawl] {
        assert_eq!(LfgMode::from_str(mode.as_str()), Some(mode));
    }
    for w in [
        LfgPlayWindow::Jetzt,
        LfgPlayWindow::HeuteAbend,
        LfgPlayWindow::Wochenende,
        LfgPlayWindow::Flexibel,
    ] {
        assert_eq!(LfgPlayWindow::from_str(w.as_str()), Some(w));
    }
    assert_eq!(LfgMode::from_str("Ranked"), None);
    assert_eq!(LfgMode::Ranked.mode_custom_id(), "lfg:create:mode:ranked");
    assert_eq!(LfgMode::StreetBrawl.watch_mode_custom_id(), "lfg:watch:mode:street_brawl");
    assert_eq!(play_window_dm_suffix("jetzt").as_deref(), Some(" · ⚡ Jetzt / bin bereit"));
    assert_eq!(play_window_dm_suffix("nie"), None);
}

#[test]
fn rang_namen_und_labels() {
    assert_eq!(rank_name(0), "Obscurus");
    assert_eq!(rank_name(11), "Eternus");
    assert_eq!(
        rank_name(12),
        "Wähl deinen Rang oben aus der Liste — oder lass ihn auf „Rang egal“."
    );
    assert_eq!(lfg_rank_label_from_index(7), "Emissary");
    assert_eq!(lfg_rank_label_from_index(0), "Obscurus");
    assert_eq!(
        rank_range_label(LfgRankRange { min: Some(3), max: Some(3) }),
        "Acolyte"
    );
    assert_eq!(
        rank_range_label(LfgRankRange { min: Some(3), max: None }),
        "Acolyte bis Eternus"
    );
    assert_eq!(
        rank_range_label(LfgRankRange { min: None, max: Some(4) }),
        "Initiate bis Sentinel"
    );
    assert_eq!(rank_range_label(LfgRankRange { min: None, max: None }), "Alle Ränge");
}

#[test]
fn draft_zusammenfassungen() {
    let mut draft = LfgDraft::new(LfgMode::Casual, None);
    assert_eq!(lfg_draft_rank_summary(&draft), "Rang egal");
    draft.rank_to = Some("oracle".to_string());
    assert_eq!(lfg_draft_rank_summary(&draft), "bis Oracle");
    draft.rank_to = Some("kartoffel".to_string());
    assert_eq!(lfg_draft_rank_summary(&draft), "Rang egal");
    draft.rank_from = Some("seeker".to_string());
    draft.rank_to = None;
    assert_eq!(lfg_draft_rank_summary(&draft), "ab Seeker");
    assert_eq!(lfg_draft_slots_summary(None), "Plätze offen");
    assert_eq!(lfg_draft_slots_summary(Some(1)), "1 Platz");
    assert_eq!(lfg_draft_slots_summary(Some(4)), "4 Plätze");
}

#[test]
fn slots_und_rangwerte_werden_geprueft() {
    assert_eq!(parse_requested_slots(" 5 ", LfgMode::Ranked), Some(5));
    assert_eq!(parse_requested_slots("5", LfgMode::StreetBrawl), None);
    assert_eq!(parse_requested_slots("0", LfgMode::Casual), None);
    assert_eq!(parse_requested_slots("x", LfgMode::Casual), None);
    assert_eq!(normalize_lfg_rank_value(" EGAL "), Some(None));
    assert_eq!(normalize_lfg_rank_value(" Phantom "), Some(Some("phantom".to_string())));
    assert_eq!(normalize_lfg_rank_value("kartoffel"), None);
    let preset = LfgUserPreset {
        rank_from: Some("Phantom".to_string()),
        rank_to: None,
        slots: Some(9),
        play_window: Some("unbekannt".to_string()),
    };
    let draft = preset.into_draft(LfgMode::StreetBrawl).expect("draft");
    assert_eq!(draft.rank_from.as_deref(), Some("phantom"));
    assert_eq!(draft.slots, Some(4));
    assert_eq!(draft.play_window, None);
    let bad = LfgUserPreset { rank_from: Some("x".to_string()), rank_to: None, slots: None, play_window: None };
    assert!(bad.into_draft(LfgMode::Casual).is_none());
}

#[test]
fn kapazitaet_und_post_text() {
    let occ = LfgLaneOccupancy { member_count: 3, user_limit: 4 };
    let cap = rendered_capacity(LfgMode::Casual, 2, Some(occ));
    assert_eq!((cap.free, cap.total, cap.full), (1, 4, false));
    let cap = rendered_capacity(LfgMode::StreetBrawl, 2, Some(LfgLaneOccupancy { member_count: 4, user_limit: 0 }));
    assert_eq!((cap.free, cap.total, cap.full), (0, 4, true));
    let cap = rendered_capacity(LfgMode::Casual, 3, None);
    assert_eq!((cap.free, cap.total, cap.full), (3, 3, false));

    let body = lfg_post_body(
        42,
        LfgMode::Ranked,
        LfgRankRange { min: Some(8), max: Some(9) },
        3,
        Some(occ),
        Some(LfgPlayWindow::Jetzt),
    );
    assert_eq!(
        body,
        "## Mitspieler gesucht\nSuche von: <@42>\nModus: Ranked\nRang: Oracle bis Phantom\n🕒 Wann: ⚡ Jetzt / bin bereit\nPlätze frei: 1/4\nKlick auf **Beitreten**, dann ziehen wir dich direkt in die Lane."
    );
    let draft = lfg_post_draft(5, 42, LfgMode::Casual, LfgRankRange { min: None, max: None }, 2, None, false, None);
    assert_eq!(draft.post_id, 5);
    assert_eq!(draft.title, "LFG: Normale Lane · Alle Ränge · sucht 2");
    assert!(draft.body.ends_with("Plätze frei: 2/2\nKlick auf **Beitreten**, dann ziehen wir dich direkt in die Lane."));
    assert_eq!(draft.applied_tags, vec![LFG_FORUM_TAG_MODE_CASUAL, LFG_FORUM_TAG_RANK_ANY, LFG_FORUM_TAG_STATUS_LOOKING]);
}

#[test]
fn render_hash_ist_sha256_hex() {
    assert_eq!(
        render_change(None, "abc").0,
        "ba7816bf8f01cfea414140de5dae2223b00361a396177a9cb410ff61f20015ad"
    );
    let (hash, changed) = render_change(
        Some("ba7816bf8f01cfea414140de5dae2223b00361a396177a9cb410ff61f20015ad"),
        "abc",
    );
    assert!(!changed);
    assert_eq!(hash.len(), 64);
    assert!(render_change(None, "abc").1);
    assert!(render_change(Some("x"), "abc").1);
}

#[test]
fn ids_und_custom_ids() {
    assert_eq!(discord_id_i64(5, "lane_id"), Ok(5));
    assert_eq!(
        discord_id_i64(u64::MAX, "lane_id"),
        Err("lane_id ist keine gueltige BIGINT-Discord-ID".to_string())
    );
    assert_eq!(db_i64_to_u64(7, "owner"), Ok(7));
    assert_eq!(db_i64_to_u64(-1, "owner"), Err("owner ist keine gueltige Discord-ID".to_string()));
    assert_eq!(parse_i64_suffix("lfg:join:17", "lfg:join:"), Some(17));
    assert_eq!(parse_i64_suffix("lfg:join:x", "lfg:join:"), None);
    assert_eq!(parse_i64_suffix("lfg:post:17", "lfg:join:"), None);
    assert_eq!(lfg_join_custom_id(17), "lfg:join:17");
    assert_eq!(lfg_open_lane_custom_id(-3), "lfg:open_lane:-3");
    assert_eq!(lfg_post_custom_id(LfgMode::Casual), "lfg:post:casual");
}

#[test]
fn panel_erkennung_und_fehler() {
    let msg = |id, embeds, components, ids: &[&str]| LfgPanelMessage {
        message_id: id,
        has_embeds: embeds,
        has_components: components,
        custom_ids: ids.iter().map(|s| s.to_string()).collect(),
    };
    let messages = vec![
        msg(1, false, true, &["lfg:create:start"]),
        msg(2, false, true, &["lfg:create:start"]),
        msg(3, true, true, &["lfg:create:start"]),
        msg(4, false, true, &["other"]),
    ];
    assert_eq!(find_existing_lfg_v2_panel(&messages), Some(2));
    assert_eq!(find_existing_lfg_v2_panel(&messages[2..]), None);
    assert!(is_not_found_error("HTTP 404 Not Found"));
    assert!(!is_not_found_error("HTTP 500"));
    assert!(LfgPanelChannelKind::News.supports_regular_messages());
    assert!(!LfgPanelChannelKind::Forum.supports_regular_messages());
    assert_eq!(LfgPanelChannelKind::Other("stage".to_string()).as_reason_fragment(), "stage");
    let att = lfg_panel_attachments();
    assert_eq!(att[0].relative_path, "assets/welcome-banners/router-hero.png");
}

#[test]
fn watch_ablauf_sql_und_edit_abstand() {
    assert_eq!(
        lfg_watch_expires_at_sql("now()", LfgWatchWindow::Now3h),
        "SELECT GREATEST(((now()) + interval '3 hours'), (now()) + interval '1 minute')"
    );
    assert!(lfg_watch_expires_at_sql("now()", LfgWatchWindow::Today).contains("time '02:00'"));
    assert_eq!(lfg_edit_delay_from_last(10_000_000_000, None), None);
    assert_eq!(lfg_edit_delay_from_last(10_000_000_000, Some(8_000_000_000)), Some(3_000_000_000));
    assert_eq!(lfg_edit_delay_from_last(10_000_000_000, Some(5_050_000_000)), Some(100_000_000));
    assert_eq!(lfg_edit_delay_from_last(10_000_000_000, Some(5_000_000_000)), None);
}

#[test]
fn preset_gibt_den_draft_ohne_lane_zurueck() {
    let draft = LfgDraft {
        mode: LfgMode::Ranked,
        rank_from: Some("phantom".to_string()),
        rank_to: Some("eternus".to_string()),
        slots: Some(3),
        play_window: Some(LfgPlayWindow::Wochenende),
        lane_id: Some(555),
    };
    let back = LfgUserPreset::from_draft(&draft).into_draft(draft.mode).expect("draft");
    assert_eq!(back, LfgDraft { lane_id: None, ..draft });
}
