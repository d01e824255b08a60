use dl_voice::lfg::{
    LfgDraft, LfgLaneOccupancy, LfgMode, LfgPlayWindow, LfgRankRange, LfgWatchDraft,
    LFG_ERR_RANG_UNBEKANNT,
};
use dl_voice::lfg_flow::{
    adoptable_panel, apply_draft_select, panel_channel_blocked_reason, apply_watch_select, join_capacity, join_post_check,
    join_voice_check, lane_post_owner, lanes_of_event, missing_selection_error, open_lane_check,
    planned_panel_action, post_create_error_reply, post_draft_check, post_record_from_row,
    route_interaction, spawn_outcome_error, watch_activation, watch_confirmation, JoinCapacity,
    LaneSpawnOutcome, LaneVoiceEvent, LfgPostCreateError, LfgPostRow, LfgPostState, LfgRoute,
    LFG_ERR_ERSTELLUNG_FEHLGESCHLAGEN, LFG_ERR_JOIN_EIGENER_POST, LFG_ERR_JOIN_LANE_TOT,
    LFG_ERR_JOIN_NICHT_IN_VOICE, LFG_ERR_JOIN_SCHON_DRIN, LFG_ERR_OPEN_LANE_SCHON_VERKNUEPFT,
    LFG_ERR_OPEN_NICHT_DEIN_POST, LFG_ERR_OPEN_NICHT_IN_VOICE, LFG_ERR_PLAETZE_UNGUELTIG,
    LFG_ERR_PUBLISH_LANE_SCHON_VEROEFFENTLICHT, LFG_ERR_SCHON_AKTIVE_SUCHE,
    LFG_WATCH_ERR_UNVOLLSTAENDIG,
};
use dl_voice::lfg::LfgPanelChannelKind;
use dl_voice::lfg_watch::LfgWatchWindow;

fn post(status: &str, owner_id: u64, lane_id: Option<u64>) -> LfgPostState {
    LfgPostState {
        status: status.to_string(),
        owner_id,
        lane_id,
        mode: LfgMode::Casual,
        requested_slots: 3,
    }
}

fn row() -> LfgPostRow {
    LfgPostRow {
        id: 7,
        guild_id: 100,
        thread_id: Some(200),
        starter_message_id: None,
        lane_id: Some(300),
        owner_id: 400,
        mode: "ranked".to_string(),
        rank_min: Some(7),
        rank_max: Some(9),
        requested_slots: 2,
        play_window: Some("heute_abend".to_string()),
        status: "open".to_string(),
        last_render_hash: Some("abc".to_string()),
        last_post_edit_at: Some(5),
    }
}

#[test]
fn routing_der_panel_ids() {
    assert_eq!(route_interaction("lfg:create:start"), LfgRoute::Start);
    assert_eq!(route_interaction("lfg:watch:start"), LfgRoute::WatchStart);
    assert_eq!(route_interaction("lfg:create:mode:ranked"), LfgRoute::Mode(LfgMode::Ranked));
    assert_eq!(
        route_interaction("lfg:watch:mode:street_brawl"),
        LfgRoute::WatchMode(LfgMode::StreetBrawl)
    );
    assert_eq!(route_interaction("lfg:rank_von"), LfgRoute::DraftSelect);
    assert_eq!(route_interaction("lfg:when"), LfgRoute::DraftSelect);
    assert_eq!(route_interaction("lfg:watch:window"), LfgRoute::WatchSelect);
    assert_eq!(route_interaction("lfg:watch:activate"), LfgRoute::WatchActivate);
    assert_eq!(route_interaction("lfg:post:casual"), LfgRoute::PostDraft(LfgMode::Casual));
    assert_eq!(route_interaction("lfg:open_lane:42"), LfgRoute::OpenLane(42));
    assert_eq!(route_interaction("lfg:join:-3"), LfgRoute::Join(-3));
    assert_eq!(route_interaction("lfg:create:mode:quatsch"), LfgRoute::Unknown);
    assert_eq!(route_interaction("lfg:join:x"), LfgRoute::Unknown);
    assert_eq!(route_interaction(""), LfgRoute::Unknown);
}

#[test]
fn fehlende_auswahl_meldet_passenden_fehler() {
    assert_eq!(missing_selection_error("lfg:rank_bis"), LFG_ERR_RANG_UNBEKANNT);
    assert_eq!(missing_selection_error("lfg:slots"), LFG_ERR_PLAETZE_UNGUELTIG);
    assert_eq!(missing_selection_error("lfg:when"), LFG_ERR_ERSTELLUNG_FEHLGESCHLAGEN);
}

#[test]
fn draft_select_setzt_nur_das_gewaehlte_feld() {
    let mut draft = LfgDraft::new(LfgMode::Ranked, Some(5));
    assert_eq!(apply_draft_select(&mut draft, "lfg:rank_von", " Phantom "), Ok(()));
    assert_eq!(draft.rank_from.as_deref(), Some("phantom"));
    assert_eq!(apply_draft_select(&mut draft, "lfg:rank_bis", "egal"), Ok(()));
    assert_eq!(draft.rank_to, None);
    assert_eq!(apply_draft_select(&mut draft, "lfg:slots", "3"), Ok(()));
    assert_eq!(draft.slots, Some(3));
    assert_eq!(apply_draft_select(&mut draft, "lfg:when", "heute_abend"), Ok(()));
    assert_eq!(draft.play_window, Some(LfgPlayWindow::HeuteAbend));
    assert_eq!(draft.lane_id, Some(5));

    let before = draft.clone();
    assert_eq!(
        apply_draft_select(&mut draft, "lfg:rank_von", "Kartoffel"),
        Err(LFG_ERR_RANG_UNBEKANNT)
    );
    assert_eq!(apply_draft_select(&mut draft, "lfg:slots", "0"), Err(LFG_ERR_PLAETZE_UNGUELTIG));
    assert_eq!(apply_draft_select(&mut draft, "lfg:slots", "9"), Err(LFG_ERR_PLAETZE_UNGUELTIG));
    assert_eq!(
        apply_draft_select(&mut draft, "lfg:fremd", "3"),
        Err(LFG_ERR_ERSTELLUNG_FEHLGESCHLAGEN)
    );
    assert_eq!(draft, before);

    assert_eq!(apply_draft_select(&mut draft, "lfg:when", "irgendwann"), Ok(()));
    assert_eq!(draft.play_window, None);
}

#[test]
fn post_button_prueft_modus_plaetze_und_rang() {
    let mut draft = LfgDraft::new(LfgMode::Ranked, None);
    assert_eq!(post_draft_check(&draft, LfgMode::Casual), Err(LFG_ERR_ERSTELLUNG_FEHLGESCHLAGEN));
    assert_eq!(post_draft_check(&draft, LfgMode::Ranked), Err(LFG_ERR_PLAETZE_UNGUELTIG));
    draft.slots = Some(2);
    draft.rank_from = Some("kartoffel".to_string());
    assert_eq!(post_draft_check(&draft, LfgMode::Ranked), Err(LFG_ERR_RANG_UNBEKANNT));
    draft.rank_from = Some("phantom".to_string());
    draft.rank_to = Some("archon".to_string());
    assert_eq!(
        post_draft_check(&draft, LfgMode::Ranked),
        Ok((2, LfgRankRange { min: Some(7), max: Some(9) }))
    );
}

#[test]
fn lane_post_nur_fuer_besitzer_oder_moderation() {
    assert_eq!(
        lane_post_owner(1, false, None, LfgMode::Casual),
        Err(LFG_ERR_ERSTELLUNG_FEHLGESCHLAGEN)
    );
    assert_eq!(
        lane_post_owner(1, false, Some((1, LfgMode::Ranked)), LfgMode::Casual),
        Err(LFG_ERR_ERSTELLUNG_FEHLGESCHLAGEN)
    );
    assert_eq!(
        lane_post_owner(2, false, Some((1, LfgMode::Casual)), LfgMode::Casual),
        Err(LFG_ERR_OPEN_NICHT_DEIN_POST)
    );
    assert_eq!(lane_post_owner(2, true, Some((1, LfgMode::Casual)), LfgMode::Casual), Ok(1));
    assert_eq!(lane_post_owner(1, false, Some((1, LfgMode::Casual)), LfgMode::Casual), Ok(1));
}

#[test]
fn erstellungsfehler_antworten() {
    assert_eq!(
        post_create_error_reply(LfgPostCreateError::AlreadyOpen, true),
        LFG_ERR_PUBLISH_LANE_SCHON_VEROEFFENTLICHT
    );
    assert_eq!(
        post_create_error_reply(LfgPostCreateError::AlreadyOpen, false),
        LFG_ERR_SCHON_AKTIVE_SUCHE
    );
    assert_eq!(
        post_create_error_reply(LfgPostCreateError::Failed, true),
        LFG_ERR_ERSTELLUNG_FEHLGESCHLAGEN
    );
}

#[test]
fn watch_flow_von_auswahl_bis_bestaetigung() {
    let mut draft = LfgWatchDraft::default();
    assert_eq!(watch_activation(&draft), Err(LFG_WATCH_ERR_UNVOLLSTAENDIG));
    draft.mode = Some(LfgMode::Ranked);
    assert_eq!(apply_watch_select(&mut draft, "lfg:watch:rank_von", "archon"), Ok(()));
    assert_eq!(
        apply_watch_select(&mut draft, "lfg:watch:window", "nie"),
        Err(LFG_ERR_ERSTELLUNG_FEHLGESCHLAGEN)
    );
    assert_eq!(draft.window, None);
    assert_eq!(watch_activation(&draft), Err(LFG_WATCH_ERR_UNVOLLSTAENDIG));
    assert_eq!(apply_watch_select(&mut draft, "lfg:watch:window", "today"), Ok(()));
    assert_eq!(apply_watch_select(&mut draft, "lfg:watch:rank_bis", "Phantom"), Ok(()));
    assert_eq!(
        apply_watch_select(&mut draft, "lfg:watch:rank_bis", "Müll"),
        Err(LFG_ERR_RANG_UNBEKANNT)
    );
    assert_eq!(
        apply_watch_select(&mut draft, "lfg:rank_von", "archon"),
        Err(LFG_ERR_ERSTELLUNG_FEHLGESCHLAGEN)
    );
    let (mode, window, range) = watch_activation(&draft).unwrap();
    assert_eq!(mode, LfgMode::Ranked);
    assert_eq!(window, LfgWatchWindow::Today);
    assert_eq!(range, LfgRankRange { min: Some(7), max: Some(9) });
    assert_eq!(
        watch_confirmation(mode, range),
        "🔔 Alles klar — ich halte Ausschau nach **Ranked** · Emissary bis Phantom und schicke dir eine DM, sobald was Passendes auftaucht. (Einmalig; danach kannst du dich wieder eintragen.)"
    );
}

#[test]
fn lane_aufmachen_nur_fuer_offenen_eigenen_post() {
    assert_eq!(open_lane_check(None, 1), Err(LFG_ERR_OPEN_NICHT_DEIN_POST));
    assert_eq!(open_lane_check(Some(&post("closed", 1, None)), 1), Err(LFG_ERR_OPEN_NICHT_DEIN_POST));
    assert_eq!(open_lane_check(Some(&post("open", 2, None)), 1), Err(LFG_ERR_OPEN_NICHT_DEIN_POST));
    assert_eq!(
        open_lane_check(Some(&post("open", 1, Some(9))), 1),
        Err(LFG_ERR_OPEN_LANE_SCHON_VERKNUEPFT)
    );
    assert_eq!(open_lane_check(Some(&post("open", 1, None)), 1), Ok(()));
}

#[test]
fn spawn_ergebnisse_werden_zu_antworten() {
    assert_eq!(spawn_outcome_error(LaneSpawnOutcome::Created { lane_id: 5 }), None);
    assert_eq!(spawn_outcome_error(LaneSpawnOutcome::NotInVoice), Some(LFG_ERR_OPEN_NICHT_IN_VOICE));
    assert_eq!(
        spawn_outcome_error(LaneSpawnOutcome::AlreadyOwnLane { lane_id: 5 }),
        Some(LFG_ERR_OPEN_LANE_SCHON_VERKNUEPFT)
    );
    assert_eq!(
        spawn_outcome_error(LaneSpawnOutcome::FloodLimited),
        Some(LFG_ERR_ERSTELLUNG_FEHLGESCHLAGEN)
    );
}

#[test]
fn join_pruefungen_der_reihe_nach() {
    assert_eq!(join_post_check(None, 1), Err(LFG_ERR_JOIN_LANE_TOT));
    assert_eq!(join_post_check(Some(&post("closed", 2, Some(9))), 1), Err(LFG_ERR_JOIN_LANE_TOT));
    assert_eq!(join_post_check(Some(&post("open", 1, Some(9))), 1), Err(LFG_ERR_JOIN_EIGENER_POST));
    assert_eq!(join_post_check(Some(&post("open", 2, None)), 1), Err(LFG_ERR_JOIN_LANE_TOT));
    assert_eq!(join_post_check(Some(&post("open", 2, Some(9))), 1), Ok(9));

    assert_eq!(join_voice_check(None, 9), Err(LFG_ERR_JOIN_NICHT_IN_VOICE));
    assert_eq!(join_voice_check(Some(9), 9), Err(LFG_ERR_JOIN_SCHON_DRIN));
    assert_eq!(join_voice_check(Some(8), 9), Ok(()));

    assert_eq!(join_capacity(None, LfgMode::Casual, 3), JoinCapacity::Gone);
    let full = LfgLaneOccupancy { member_count: 6, user_limit: 0 };
    assert_eq!(join_capacity(Some(full), LfgMode::Casual, 3), JoinCapacity::Full);
    let room = LfgLaneOccupancy { member_count: 2, user_limit: 4 };
    assert_eq!(join_capacity(Some(room), LfgMode::Casual, 3), JoinCapacity::Room);
    let limit = LfgLaneOccupancy { member_count: 4, user_limit: 4 };
    assert_eq!(join_capacity(Some(limit), LfgMode::StreetBrawl, 1), JoinCapacity::Full);
}

#[test]
fn voice_events_nennen_jede_lane_einmal() {
    assert_eq!(lanes_of_event(LaneVoiceEvent::Join { channel_id: 3 }), vec![3]);
    assert_eq!(lanes_of_event(LaneVoiceEvent::Leave { channel_id: 4 }), vec![4]);
    assert_eq!(
        lanes_of_event(LaneVoiceEvent::Move { from_channel_id: 3, to_channel_id: 4 }),
        vec![3, 4]
    );
    assert_eq!(
        lanes_of_event(LaneVoiceEvent::Move { from_channel_id: 3, to_channel_id: 3 }),
        vec![3]
    );
    assert!(lanes_of_event(LaneVoiceEvent::Update).is_empty());
}

#[test]
fn panel_plan_und_uebernahme() {
    assert_eq!(planned_panel_action(false, Some(1), None), ("blocked_missing_channel", Some(1)));
    assert_eq!(planned_panel_action(true, Some(1), Some(2)), ("planned_edit", Some(1)));
    assert_eq!(planned_panel_action(true, None, Some(2)), ("planned_edit", Some(2)));
    assert_eq!(planned_panel_action(true, None, None), ("planned_post", None));
    assert_eq!(adoptable_panel(Some(5), Some(5)), None);
    assert_eq!(adoptable_panel(Some(5), Some(6)), Some(5));
    assert_eq!(adoptable_panel(Some(5), None), Some(5));
    assert_eq!(adoptable_panel(None, Some(5)), None);
}

#[test]
fn post_aus_zeile() {
    let rec = post_record_from_row(&row()).unwrap();
    assert_eq!(rec.id, 7);
    assert_eq!(rec.guild_id, 100);
    assert_eq!(rec.thread_id, Some(200));
    assert_eq!(rec.starter_message_id, None);
    assert_eq!(rec.lane_id, Some(300));
    assert_eq!(rec.owner_id, 400);
    assert_eq!(rec.mode, LfgMode::Ranked);
    assert_eq!(rec.rank_range, LfgRankRange { min: Some(7), max: Some(9) });
    assert_eq!(rec.play_window, Some(LfgPlayWindow::HeuteAbend));
    assert_eq!(rec.status, "open");
    assert_eq!(rec.last_render_hash.as_deref(), Some("abc"));
    assert_eq!(rec.open_thread(), Some(200));

    let mut unknown_window = row();
    unknown_window.play_window = Some("nie".to_string());
    assert_eq!(post_record_from_row(&unknown_window).unwrap().play_window, None);

    let mut closed = row();
    closed.status = "closed".to_string();
    assert_eq!(post_record_from_row(&closed).unwrap().open_thread(), None);

    let mut bad_mode = row();
    bad_mode.mode = "solo".to_string();
    assert_eq!(post_record_from_row(&bad_mode).unwrap_err(), "unbekannter LFG-Modus `solo`");

    let mut bad_guild = row();
    bad_guild.guild_id = -1;
    assert_eq!(
        post_record_from_row(&bad_guild).unwrap_err(),
        "lfg_posts.guild_id ist keine gueltige Discord-ID"
    );

    let mut bad_lane = row();
    bad_lane.lane_id = Some(-5);
    assert_eq!(
        post_record_from_row(&bad_lane).unwrap_err(),
        "lfg_posts.lane_id ist keine gueltige Discord-ID"
    );
}

#[test]
fn post_zeile_liefert_text_und_tags() {
    let rec = post_record_from_row(&row()).unwrap();
    let body = rec.body_with(Some(LfgLaneOccupancy { member_count: 2, user_limit: 6 }));
    assert!(body.contains("<@400>"));
    assert!(body.contains("Emissary bis Phantom"));
    let tags = rec.forum_tag_ids(true);
    assert_eq!(tags, dl_voice::lfg::derive_lfg_forum_tag_ids(LfgMode::Ranked, rec.rank_range, true));
}

#[test]
fn render_nur_bei_geaendertem_text() {
    let mut rec = post_record_from_row(&row()).unwrap();
    let occupancy = LfgLaneOccupancy { member_count: 2, user_limit: 6 };
    assert_eq!(rec.render_edit(None), None);
    let edit = rec.render_edit(Some(occupancy)).unwrap();
    assert_eq!(edit.thread_id, 200);
    assert_eq!(edit.starter_message_id, None);
    assert_eq!(edit.body, rec.body_with(Some(occupancy)));
    assert_eq!(edit.hash.len(), 64);
    assert_eq!(edit.tag_ids, rec.forum_tag_ids(true));
    rec.last_render_hash = Some(edit.hash.clone());
    assert_eq!(rec.render_edit(Some(occupancy)), None);
    let fuller = LfgLaneOccupancy { member_count: 3, user_limit: 6 };
    assert!(rec.render_edit(Some(fuller)).is_some());
    rec.status = "closed".to_string();
    assert_eq!(rec.render_edit(Some(fuller)), None);

    let mut laneless = post_record_from_row(&row()).unwrap();
    laneless.lane_id = None;
    let edit = laneless.render_edit(None).unwrap();
    assert_eq!(edit.body, laneless.body_with(None));
    assert_eq!(edit.tag_ids, laneless.forum_tag_ids(false));
}

#[test]
fn panel_ziel_muss_ein_text_kanal_sein() {
    assert_eq!(
        panel_channel_blocked_reason(None, None, None),
        Some("DL_LFG_PANEL_CHANNEL_ID fehlt".to_string())
    );
    assert_eq!(
        panel_channel_blocked_reason(None, Some("Panel-Kanal nicht gesetzt"), None),
        Some("Panel-Kanal nicht gesetzt".to_string())
    );
    assert_eq!(
        panel_channel_blocked_reason(Some(5), None, Some(&LfgPanelChannelKind::Text)),
        None
    );
    assert_eq!(
        panel_channel_blocked_reason(Some(5), None, Some(&LfgPanelChannelKind::News)),
        None
    );
    assert_eq!(
        panel_channel_blocked_reason(Some(5), None, Some(&LfgPanelChannelKind::Forum)),
        Some(
            "DL_LFG_PANEL_CHANNEL_ID zeigt auf forum-Kanal; Panel-Ziel muss ein Text-Kanal sein"
                .to_string()
        )
    );
    assert_eq!(panel_channel_blocked_reason(Some(5), None, None), None);
}

#[test]
fn post_record_nennt_die_erste_ungueltige_id_spalte() {
    let mut bad = row();
    bad.lane_id = Some(-3);
    bad.owner_id = -1;
    assert_eq!(
        post_record_from_row(&bad).unwrap_err(),
        "lfg_posts.lane_id ist keine gueltige Discord-ID"
    );
    bad.thread_id = Some(-2);
    assert_eq!(
        post_record_from_row(&bad).unwrap_err(),
        "lfg_posts.thread_id ist keine gueltige Discord-ID"
    );
    let mut owner = row();
    owner.owner_id = -1;
    assert_eq!(
        post_record_from_row(&owner).unwrap_err(),
        "lfg_posts.owner_id ist keine gueltige Discord-ID"
    );
    let mut starter = row();
    starter.starter_message_id = Some(-9);
    assert_eq!(
        post_record_from_row(&starter).unwrap_err(),
        "lfg_posts.starter_message_id ist keine gueltige Discord-ID"
    );
}
