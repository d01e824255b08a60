use dl_voice::adaptive::{
    lane_name_for_index, CHILL_CATEGORY_ID, DUO_ANCHOR_CHANNEL_ID, DUO_LANE_BASE_NAME,
    MAIN_GUILD_ID, NP_ANCHOR_CHANNEL_ID, NP_EXPAND_THRESHOLD, NP_LANE_BASE_NAME,
};
use dl_voice::lane_sync::{
    chill_sort_entries, chill_sort_plan, event_jobs, find_channel, lane_family,
    managed_lane_snapshots, startup_jobs, sync_actions, LaneEvent, SyncAction, SyncJob,
};

fn ch(id: u64, name: &str, members: usize, position: i64) -> (u64, String, usize, i64) {
    (id, name.to_string(), members, position)
}

#[test]
fn sync_managed_positioniert_neue_lane_und_reicht_anchor_durch() {
    let channels = vec![ch(100, "Lane", 6, 10)];
    assert_eq!(
        sync_actions(&channels, 100, "Lane", 6, None),
        Some(vec![SyncAction::Create { index: 2, position: 11 }])
    );
    assert_eq!(lane_name_for_index("Lane", 2), "Lane 2");
}

#[test]
fn sync_managed_setzt_reassignment_position_nur_bei_abweichung() {
    let settled = vec![ch(100, "Lane", 1, 10), ch(201, "Lane 2", 1, 11)];
    assert_eq!(sync_actions(&settled, 100, "Lane", 6, None), Some(vec![]));

    let moved = vec![ch(100, "Lane", 1, 10), ch(201, "Lane 2", 1, 99)];
    assert_eq!(
        sync_actions(&moved, 100, "Lane", 6, None),
        Some(vec![SyncAction::SetPosition { channel_id: 201, position: 11 }])
    );
}

#[test]
fn sync_new_player_erzeugt_lanes_in_chill_kategorie() {
    let family = lane_family(SyncJob::NewPlayer).unwrap();
    assert_eq!(family.category_id, CHILL_CATEGORY_ID);
    assert_eq!(family.anchor_id, NP_ANCHOR_CHANNEL_ID);
    let channels = vec![ch(NP_ANCHOR_CHANNEL_ID, NP_LANE_BASE_NAME, NP_EXPAND_THRESHOLD, 10)];
    let actions = sync_actions(
        &channels,
        family.anchor_id,
        family.base,
        family.expand_threshold,
        family.max_total,
    )
    .unwrap();
    assert_eq!(actions, vec![SyncAction::Create { index: 2, position: 11 }]);
    assert_eq!(lane_name_for_index(family.base, 2), "🆕Neue Spieler Lane 2");
}

#[test]
fn sync_ohne_anker_tut_nichts() {
    let channels = vec![ch(5, "Lane 2", 0, 3)];
    assert_eq!(sync_actions(&channels, 100, "Lane", 6, None), None);
    assert_eq!(find_channel(&channels, 100), None);
    assert_eq!(find_channel(&channels, 5), Some(0));
}

#[test]
fn sync_benennt_anker_um_loescht_leere_und_sortiert_nach() {
    let channels = vec![
        ch(100, "Alt", 6, 10),
        ch(60, "Chill Lane", 3, 1),
        ch(50, "Lane 3", 0, 13),
        ch(51, "Lane 4", 6, 20),
        ch(52, "Lane 5", 0, 21),
    ];
    let snaps = managed_lane_snapshots(&channels, 100, "Lane");
    assert_eq!(snaps.len(), 3);
    // anchor and lane 51 are full: three lanes in all; 51 moves to index 2,
    // the empty lane 3 keeps its name and moves next to it, lane 5 goes.
    assert_eq!(
        sync_actions(&channels, 100, "Lane", 6, None),
        Some(vec![
            SyncAction::Rename { channel_id: 100, index: 1 },
            SyncAction::Delete { channel_id: 52 },
            SyncAction::Rename { channel_id: 51, index: 2 },
            SyncAction::SetPosition { channel_id: 51, position: 11 },
            SyncAction::SetPosition { channel_id: 50, position: 12 },
        ])
    );
}

#[test]
fn duo_bekommt_hoechstens_eine_zweite_lane() {
    let family = lane_family(SyncJob::Duo).unwrap();
    assert_eq!(family.category_id, CHILL_CATEGORY_ID);
    assert_eq!(family.max_total, Some(2));
    let busy = vec![ch(DUO_ANCHOR_CHANNEL_ID, DUO_LANE_BASE_NAME, 5, 3)];
    assert_eq!(
        sync_actions(&busy, family.anchor_id, family.base, family.expand_threshold, family.max_total),
        Some(vec![SyncAction::Create { index: 2, position: 4 }])
    );
    let quiet = vec![
        ch(DUO_ANCHOR_CHANNEL_ID, DUO_LANE_BASE_NAME, 1, 3),
        ch(77, "🗨️Off Topic Voice 2", 0, 4),
    ];
    assert_eq!(
        sync_actions(&quiet, family.anchor_id, family.base, family.expand_threshold, family.max_total),
        Some(vec![SyncAction::Delete { channel_id: 77 }])
    );
    assert_eq!(lane_family(SyncJob::SortChill), None);
}

#[test]
fn tempvoice_one_category_sortierung_nutzt_genau_einen_bulk_call() {
    let channels = vec![
        ch(10, "Chill Lane 1", 1, 10),
        ch(11, "Street Brawl 1", 1, 11),
        ch(12, "Ranked Phantom 3 1", 1, 12),
        ch(13, "Ranked Seeker 1 1", 1, 13),
    ];
    assert_eq!(chill_sort_plan(&channels), vec![(13, 10), (12, 11), (10, 12), (11, 13)]);
}

#[test]
fn chill_sortierung_laesst_feste_kanaele_aus() {
    let channels = vec![
        ch(NP_ANCHOR_CHANNEL_ID, NP_LANE_BASE_NAME, 0, 1),
        ch(DUO_ANCHOR_CHANNEL_ID, DUO_LANE_BASE_NAME, 0, 2),
        ch(20, "🆕Neue Spieler Lane 2", 0, 3),
        ch(21, "Irgendwas", 0, 4),
        ch(22, "Chill Lane 2", 0, 5),
    ];
    let entries = chill_sort_entries(&channels);
    assert_eq!(entries.len(), 1);
    assert_eq!(entries[0].lane_id, 22);
    assert_eq!(entries[0].stable_order, 4);
    assert!(chill_sort_plan(&channels).is_empty());
}

#[test]
fn events_loesen_die_passenden_syncs_aus() {
    assert_eq!(
        event_jobs(LaneEvent::VoiceCategoryChanged { guild_id: 1 }),
        Some((1, vec![SyncJob::NewPlayer, SyncJob::Duo, SyncJob::SortChill, SyncJob::SortCompRanked]))
    );
    assert_eq!(
        event_jobs(LaneEvent::VoiceChannelUpdated { guild_id: 1 }),
        Some((1, vec![SyncJob::SortChill, SyncJob::SortCompRanked]))
    );
    assert_eq!(event_jobs(LaneEvent::VoiceChannelStatusUpdated), None);
    assert_eq!(event_jobs(LaneEvent::VoiceUpdate), None);
    assert_eq!(
        event_jobs(LaneEvent::VoiceJoin { guild_id: 2, channel_id: 5 }),
        Some((2, vec![SyncJob::NewPlayer, SyncJob::SortChill, SyncJob::SortCompRanked]))
    );
    assert_eq!(
        event_jobs(LaneEvent::VoiceLeave { guild_id: 2, channel_id: DUO_ANCHOR_CHANNEL_ID }),
        Some((
            2,
            vec![SyncJob::Duo, SyncJob::NewPlayer, SyncJob::SortChill, SyncJob::SortCompRanked]
        ))
    );
    assert_eq!(
        event_jobs(LaneEvent::VoiceMove {
            guild_id: 3,
            from_channel_id: 5,
            to_channel_id: DUO_ANCHOR_CHANNEL_ID,
        }),
        Some((
            3,
            vec![SyncJob::Duo, SyncJob::NewPlayer, SyncJob::SortChill, SyncJob::SortCompRanked]
        ))
    );
    let (guild, jobs) = startup_jobs();
    assert_eq!(guild, MAIN_GUILD_ID);
    assert_eq!(jobs.len(), 4);
}

fn perform(
    channels: &[(u64, String, usize, i64)],
    actions: &[SyncAction],
    base: &str,
    mut next_id: u64,
) -> Vec<(u64, String, usize, i64)> {
    let mut out: Vec<(u64, String, usize, i64)> = channels.to_vec();
    for action in actions {
        match *action {
            SyncAction::Rename { channel_id, index } => {
                for c in out.iter_mut().filter(|c| c.0 == channel_id) {
                    c.1 = lane_name_for_index(base, index);
                }
            }
            SyncAction::Delete { channel_id } => out.retain(|c| c.0 != channel_id),
            SyncAction::SetPosition { channel_id, position } => {
                for c in out.iter_mut().filter(|c| c.0 == channel_id) {
                    c.3 = position;
                }
            }
            SyncAction::Create { index, position } => {
                out.push((next_id, lane_name_for_index(base, index), 0, position));
                next_id += 1;
            }
        }
    }
    out
}

#[test]
fn zweiter_sync_nach_dem_ersten_ist_leer() {
    let channels = vec![
        ch(100, "Alt", 6, 10),
        ch(60, "Chill Lane", 3, 1),
        ch(50, "Lane 3", 0, 13),
        ch(51, "Lane 4", 6, 20),
        ch(52, "Lane 5", 0, 21),
        ch(53, "Lane 7", 2, 40),
    ];
    let first = sync_actions(&channels, 100, "Lane", 6, None).unwrap();
    assert!(!first.is_empty());
    let after = perform(&channels, &first, "Lane", 900);
    assert_eq!(sync_actions(&after, 100, "Lane", 6, None), Some(vec![]));

    let grow = vec![ch(100, "Lane", 6, 10), ch(51, "Lane 2", 6, 11)];
    let first = sync_actions(&grow, 100, "Lane", 6, None).unwrap();
    assert_eq!(first, vec![SyncAction::Create { index: 3, position: 12 }]);
    let after = perform(&grow, &first, "Lane", 900);
    assert_eq!(sync_actions(&after, 100, "Lane", 6, None), Some(vec![]));
}
