use dl_voice::adaptive::{plan_lane_reorder, plan_lanes, LaneSnapshot, SortSnapshot};
use dl_voice::feedback::{build_message, 
    start_button_reply, StartButton, FEEDBACK_ALREADY_RESPONDED_TEXT, FEEDBACK_NOT_OPEN_TEXT,
    FEEDBACK_WINDOW_EXPIRED_TEXT,
};
use dl_voice::json::JsonNode;
use dl_voice::lfg::{LfgMode, LfgRankRange, LFG_FORUM_TAG_MODE_CASUAL, LFG_FORUM_TAG_RANK_ANY};
use dl_voice::lfg_flow::{
    create_post_step, panel_apply_step, panel_report_notes, reconcile_verdict, CloseStatus, CreatePostAction,
    CreatePostEvent, CreatePostPhase, LfgPostCreateError, LfgPostRecord, PanelAction,
    PanelChannel, PanelEvent, PanelFailure, PanelInputs, PanelOp, PanelPhase, PanelReport,
    ReconcileVerdict,
};
use dl_voice::lfg_watch::{watch_run_step, WatchAction, WatchEvent, WatchRun};
use dl_voice::rank::Anchor;
use dl_voice::rank_commands::vcstatus_reply;

fn inputs(stored: Option<u64>, history: Option<Option<u64>>, confirm: bool) -> PanelInputs {
    PanelInputs {
        cutover_active: true,
        channel: PanelChannel::Usable,
        stored,
        history,
        attachments_ok: true,
        confirm,
    }
}

fn op(r: (PanelPhase, PanelAction)) -> PanelOp {
    r.1.op
}

#[test]
fn feedback_knopf_antworten() {
    assert_eq!(start_button_reply(StartButton::NotOpen), Some(FEEDBACK_NOT_OPEN_TEXT));
    assert_eq!(
        start_button_reply(StartButton::AlreadyResponded),
        Some(FEEDBACK_ALREADY_RESPONDED_TEXT)
    );
    assert_eq!(start_button_reply(StartButton::Expired), Some(FEEDBACK_WINDOW_EXPIRED_TEXT));
    assert_eq!(start_button_reply(StartButton::OpenModal { request_id: 3 }), None);
}

#[test]
fn watch_wird_erst_geclaimt_dann_benachrichtigt() {
    let (s, a) = watch_run_step(WatchRun::Check, WatchEvent::Checked { watcher: Some(43), actionable: true });
    assert_eq!(a, WatchAction::Claim);
    assert_eq!(s, WatchRun::AwaitClaim { watcher_id: 43 });
    let (s2, a2) = watch_run_step(s, WatchEvent::Claimed { won: true });
    assert_eq!(a2, WatchAction::SendDm { watcher_id: 43 });
    assert_eq!(s2, WatchRun::Finished);
    let (_, lost) = watch_run_step(s, WatchEvent::Claimed { won: false });
    assert_eq!(lost, WatchAction::Skip);
    let (_, again) = watch_run_step(s2, WatchEvent::Claimed { won: true });
    assert_eq!(again, WatchAction::Skip);
    let (_, late) = watch_run_step(WatchRun::Check, WatchEvent::Checked { watcher: Some(43), actionable: false });
    assert_eq!(late, WatchAction::Skip);
    let (_, none) = watch_run_step(WatchRun::Check, WatchEvent::Checked { watcher: None, actionable: true });
    assert_eq!(none, WatchAction::Skip);
}

#[test]
fn panel_dry_run_und_blockaden() {
    let dry = op(panel_apply_step(inputs(None, Some(Some(77)), false), PanelPhase::Start, PanelEvent::Begin));
    assert_eq!(
        dry,
        PanelOp::Report { report: PanelReport::PlannedEdit, message_id: Some(77), dry_run: true, store: false }
    );
    let mut blocked = inputs(Some(5), Some(None), true);
    blocked.cutover_active = false;
    assert_eq!(
        op(panel_apply_step(blocked, PanelPhase::Start, PanelEvent::Begin)),
        PanelOp::Report { report: PanelReport::BlockedCutoverDisabled, message_id: Some(5), dry_run: true, store: false }
    );
    let mut forum = inputs(None, Some(None), true);
    forum.channel = PanelChannel::InvalidType;
    assert_eq!(
        op(panel_apply_step(forum, PanelPhase::Start, PanelEvent::Begin)),
        PanelOp::Report { report: PanelReport::BlockedInvalidChannelType, message_id: None, dry_run: true, store: false }
    );
    assert_eq!(PanelReport::AdoptedEdit.as_str(), "adopted_edit");
}

#[test]
fn panel_editiert_gespeichert_sonst_adoptiert_sonst_postet() {
    let i = inputs(Some(5), Some(Some(5)), true);
    let (p, a) = panel_apply_step(i, PanelPhase::Start, PanelEvent::Begin);
    assert_eq!(a.op, PanelOp::EditStored { message_id: 5 });
    let edited = panel_apply_step(i, p, PanelEvent::Edited);
    assert_eq!(
        edited.1.op,
        PanelOp::Report { report: PanelReport::Edited, message_id: Some(5), dry_run: false, store: true }
    );
    // The stored message is gone and history only knows that one: post anew.
    let (p2, a2) = panel_apply_step(i, p, PanelEvent::EditNotFound);
    assert!(a2.forget_stored);
    assert_eq!(a2.op, PanelOp::Post);
    let posted = panel_apply_step(i, p2, PanelEvent::Posted { message_id: 9 });
    assert_eq!(
        posted.1.op,
        PanelOp::Report { report: PanelReport::Posted, message_id: Some(9), dry_run: false, store: true }
    );
    // Another panel in the history is adopted.
    let j = inputs(Some(5), Some(Some(6)), true);
    let (p3, a3) = panel_apply_step(j, p, PanelEvent::EditNotFound);
    assert_eq!(a3.op, PanelOp::EditAdopted { message_id: 6 });
    assert_eq!(
        panel_apply_step(j, p3, PanelEvent::Edited).1.op,
        PanelOp::Report { report: PanelReport::AdoptedEdit, message_id: Some(6), dry_run: false, store: true }
    );
    // Without a history scan nothing new is posted.
    let k = inputs(None, None, true);
    assert_eq!(
        op(panel_apply_step(k, PanelPhase::Start, PanelEvent::Begin)),
        PanelOp::Fail { failure: PanelFailure::NoHistory }
    );
}

#[test]
fn post_erstellung_raeumt_bei_fehlern_auf() {
    let (p, a) = create_post_step(true, CreatePostPhase::Start, CreatePostEvent::Begin { forum_channel_id: Some(1) });
    assert_eq!(a, CreatePostAction::Reserve { forum_channel_id: 1 });
    assert_eq!(
        create_post_step(true, p, CreatePostEvent::ReservationAlreadyOpen).1,
        CreatePostAction::Fail { error: LfgPostCreateError::AlreadyOpen, delete_reservation: None, archive_thread: None }
    );
    let (p, a) = create_post_step(true, p, CreatePostEvent::Reserved { post_id: 7 });
    assert_eq!(a, CreatePostAction::ReadOccupancy { post_id: 7 });
    let (p, a) = create_post_step(true, p, CreatePostEvent::OccupancyRead);
    assert_eq!(a, CreatePostAction::CreateForumPost { post_id: 7 });
    assert_eq!(
        create_post_step(true, p, CreatePostEvent::ForumPostFailed).1,
        CreatePostAction::Fail { error: LfgPostCreateError::Failed, delete_reservation: Some(7), archive_thread: None }
    );
    let (p, a) = create_post_step(true, p, CreatePostEvent::ForumPostCreated { thread_id: 90 });
    assert_eq!(a, CreatePostAction::FetchStarter { thread_id: 90 });
    let (p, a) = create_post_step(true, p, CreatePostEvent::StarterFetched { message_id: None });
    assert_eq!(a, CreatePostAction::Persist { post_id: 7, thread_id: 90, starter_message_id: None });
    assert_eq!(
        create_post_step(true, p, CreatePostEvent::PersistFailed).1,
        CreatePostAction::Fail { error: LfgPostCreateError::Failed, delete_reservation: Some(7), archive_thread: Some(90) }
    );
    assert_eq!(
        create_post_step(true, p, CreatePostEvent::Persisted).1,
        CreatePostAction::Done { post_id: 7, thread_id: 90 }
    );
    assert_eq!(
        create_post_step(false, CreatePostPhase::Start, CreatePostEvent::Begin { forum_channel_id: None }).1,
        CreatePostAction::Fail { error: LfgPostCreateError::Failed, delete_reservation: None, archive_thread: None }
    );
}

fn record(status: &str, thread_id: Option<u64>) -> LfgPostRecord {
    LfgPostRecord {
        id: 1,
        guild_id: 2,
        thread_id,
        starter_message_id: None,
        lane_id: None,
        owner_id: 3,
        mode: LfgMode::Casual,
        rank_range: LfgRankRange { min: None, max: None },
        requested_slots: 2,
        play_window: None,
        status: status.to_string(),
        last_render_hash: None,
        last_post_edit_at: None,
    }
}

#[test]
fn reconcile_schliesst_einmal() {
    let now = 1_000_000;
    assert_eq!(reconcile_verdict(true, "creating", None, false, now - 301, None, now), ReconcileVerdict::DeleteStale);
    assert_eq!(reconcile_verdict(true, "creating", None, false, now - 299, None, now), ReconcileVerdict::Keep);
    assert_eq!(
        reconcile_verdict(true, "open", Some(5), false, now, None, now),
        ReconcileVerdict::Close { status: CloseStatus::Closed }
    );
    assert_eq!(reconcile_verdict(true, "open", Some(5), true, now, None, now), ReconcileVerdict::Keep);
    assert_eq!(
        reconcile_verdict(true, "open", None, false, now, Some(now - 1), now),
        ReconcileVerdict::Close { status: CloseStatus::Expired }
    );
    assert_eq!(reconcile_verdict(true, "closed", Some(5), false, now, Some(0), now), ReconcileVerdict::Keep);
    assert_eq!(reconcile_verdict(false, "open", Some(5), false, now, None, now), ReconcileVerdict::Keep);
    let plan = record("open", Some(99)).close_plan().expect("open post closes");
    assert_eq!(plan.thread_id, Some(99));
    assert!(plan.tags.contains(&LFG_FORUM_TAG_MODE_CASUAL));
    assert!(plan.tags.contains(&LFG_FORUM_TAG_RANK_ANY));
    assert!(record("closed", Some(99)).close_plan().is_none());
    assert_eq!(CloseStatus::Expired.as_str(), "expired");
}

fn text_of(node: &JsonNode) -> Option<&str> {
    match node {
        JsonNode::Str(s) => Some(s.as_str()),
        _ => None,
    }
}

fn get<'a>(node: &'a JsonNode, key: &str) -> Option<&'a JsonNode> {
    match node {
        JsonNode::Object(entries) => entries.iter().find(|(k, _)| k == key).map(|(_, v)| v),
        _ => None,
    }
}

#[test]
fn vcstatus_zeigt_kanal_ueberwachung_und_anker() {
    let a = Anchor {
        user_id: 5,
        rank_name: "Phantom".to_string(),
        rank_value: 9,
        allowed_min: 7,
        allowed_max: 10,
        subrank: 3,
        score_min: 48,
        score_max: 66,
    };
    let embed = vcstatus_reply(42, Some("Lane 2"), None, 3, true, true, Some((&a, "Anna")));
    assert_eq!(text_of(get(&embed, "title").unwrap()), Some("🔊 Status: Lane 2"));
    let fields = match get(&embed, "fields") {
        Some(JsonNode::Array(f)) => f,
        _ => panic!("fields"),
    };
    assert_eq!(fields.len(), 4);
    assert_eq!(text_of(get(&fields[0], "value").unwrap()), Some("ID: 42\nKategorie: –\nMitglieder: 3"));
    assert_eq!(text_of(get(&fields[1], "value").unwrap()), Some("✅ Überwacht"));
    assert_eq!(text_of(get(&fields[2], "value").unwrap()), Some("✅ Aktiviert"));
    assert_eq!(
        text_of(get(&fields[3], "value").unwrap()),
        Some("Anna (Phantom 3)\nTiers: Archon–Ascendant\nScore: 48–66")
    );
    let plain = vcstatus_reply(42, None, Some("Chill"), 0, false, false, None);
    assert_eq!(text_of(get(&plain, "title").unwrap()), Some("🔊 Status: 42"));
    match get(&plain, "fields") {
        Some(JsonNode::Array(f)) => assert_eq!(f.len(), 2),
        _ => panic!("fields"),
    }
}

fn snap(channel_id: u64, current_index: usize, member_count: usize) -> LaneSnapshot {
    LaneSnapshot { channel_id, current_index, member_count }
}

#[test]
fn plan_nummeriert_lueckenlos_und_zaehlt_jede_lane_einmal() {
    let lanes = vec![snap(10, 4, 0), snap(11, 2, 3), snap(12, 3, 0), snap(13, 5, 4)];
    let plan = plan_lanes(0, &lanes, 4, None);
    // Occupied lanes first in their old order, one spare since lane 13 is full.
    assert_eq!(plan.reassignments, vec![(11, 2), (13, 3), (12, 4)]);
    assert_eq!(plan.delete_ids, vec![10]);
    assert!(plan.create_indices.is_empty());
    let mut ids: Vec<u64> = plan.reassignments.iter().map(|r| r.0).collect();
    ids.extend(plan.delete_ids.iter().copied());
    ids.sort();
    assert_eq!(ids, vec![10, 11, 12, 13]);
    // Nobody full: no spare lane beyond the occupied ones.
    let calm = plan_lanes(0, &[snap(11, 2, 1), snap(12, 3, 0)], 4, None);
    assert_eq!(calm.reassignments, vec![(11, 2)]);
    assert_eq!(calm.delete_ids, vec![12]);
    // No lane at all and a full anchor: exactly one new lane.
    let fresh = plan_lanes(5, &[], 4, None);
    assert_eq!(fresh.create_indices, vec![2]);
}

#[test]
fn lane_reihenfolge_ist_sortierte_permutation() {
    let e = |lane_id: u64, pos: i64, rank: usize, order: usize| SortSnapshot {
        lane_id,
        current_position: pos,
        rank_index: rank,
        subrank: 0,
        stable_order: order,
    };
    let moves = plan_lane_reorder(&[e(1, 10, 5, 0), e(2, 11, 2, 1), e(3, 12, 9, 2)]);
    assert_eq!(moves, vec![(2, 10), (1, 11)]);
    assert!(plan_lane_reorder(&[e(1, 10, 5, 0)]).is_empty());
    assert!(plan_lane_reorder(&[e(2, 10, 2, 0), e(1, 11, 5, 1)]).is_empty());
}

#[test]
fn feedback_dm_endet_mit_den_mitspielern() {
    let names = vec!["Bo".to_string(), "Cy".to_string()];
    let text = build_message("Anna", "first", &names);
    assert!(text.starts_with("Hey Anna!"));
    assert!(text.ends_with("\n\nMit im Call waren u.a.: Bo, Cy"));
    let alone = build_message("Anna", "second", &[]);
    assert!(alone.starts_with("Hey Anna, danke"));
    assert!(!alone.contains("Mit im Call"));
}

#[test]
fn panel_notes_ohne_cutover_blockt_mit_grund_und_warnungen() {
    let mut i = inputs(Some(5), Some(None), true);
    i.cutover_active = false;
    for confirm in [false, true] {
        i.confirm = confirm;
        assert_eq!(
            op(panel_apply_step(i, PanelPhase::Start, PanelEvent::Begin)),
            PanelOp::Report {
                report: PanelReport::BlockedCutoverDisabled,
                message_id: Some(5),
                dry_run: true,
                store: false,
            }
        );
        let (reason, warnings) = panel_report_notes(i, None, Some("DL_LFG_FORUM_CHANNEL_ID fehlt"), None);
        assert_eq!(reason.as_deref(), Some("cutover_disabled"));
        assert_eq!(
            warnings,
            vec![
                "LFG-Panel: Cutover ist nicht aktiv; confirm wird blockiert.".to_string(),
                "LFG-Forum: Zielkanal fehlt (DL_LFG_FORUM_CHANNEL_ID fehlt).".to_string(),
            ]
        );
    }
}

#[test]
fn panel_notes_nennen_blockierten_kanal_history_und_stale_id() {
    let mut forum = inputs(None, Some(None), true);
    forum.channel = PanelChannel::InvalidType;
    let reason = "DL_LFG_PANEL_CHANNEL_ID zeigt auf forum-Kanal; Panel-Ziel muss ein Text-Kanal sein";
    let (r, w) = panel_report_notes(forum, Some(reason), None, None);
    assert_eq!(r.as_deref(), Some(reason));
    assert_eq!(w, vec![format!("LFG-Panel: {reason}")]);

    let (r, w) = panel_report_notes(inputs(None, None, false), None, None, None);
    assert_eq!(r, None);
    assert_eq!(w, vec!["LFG-Panel: History-Scan fehlgeschlagen; Dry-Run ohne Adoption.".to_string()]);

    let (r, w) = panel_report_notes(inputs(Some(44), Some(None), true), None, None, Some(44));
    assert_eq!(r, None);
    assert_eq!(
        w,
        vec!["LFG-Panel: gespeicherte Message-ID 44 ist stale (404); KV wurde geloescht.".to_string()]
    );
    assert!(panel_report_notes(inputs(Some(44), Some(None), true), None, None, None).1.is_empty());
}
