use dl_voice::adaptive::{
    lane_name_for_index, parse_lane_index, parse_rank_label, plan_lane_reorder, plan_lanes,
    plan_unified_category_reorder, resolve_new_player_rank, LanePlan, LaneSnapshot,
    LaneSortBlock, SortSnapshot, UnifiedSortSnapshot, DUO_EXPAND_THRESHOLD,
    NP_ANCHOR_CHANNEL_ID, NP_EXPAND_THRESHOLD, NP_LANE_BASE_NAME,
};

fn snap(channel_id: u64, index: usize, members: usize) -> LaneSnapshot {
    LaneSnapshot {
        channel_id,
        current_index: index,
        member_count: members,
    }
}

#[test]
fn duo_plan_wie_python() {
    let plan = plan_lanes(1, &[], DUO_EXPAND_THRESHOLD, Some(2));
    assert_eq!(plan, LanePlan::default());
    let plan = plan_lanes(2, &[], DUO_EXPAND_THRESHOLD, Some(2));
    assert_eq!(plan.create_indices, vec![2]);
    let plan = plan_lanes(2, &[snap(50, 2, 0)], DUO_EXPAND_THRESHOLD, Some(2));
    assert_eq!(plan.reassignments, vec![(50, 2)]);
    assert!(plan.delete_ids.is_empty() && plan.create_indices.is_empty());
    let plan = plan_lanes(0, &[snap(50, 2, 0)], DUO_EXPAND_THRESHOLD, Some(2));
    assert_eq!(plan.delete_ids, vec![50]);
    let plan = plan_lanes(3, &[snap(50, 2, 1)], DUO_EXPAND_THRESHOLD, Some(2));
    assert_eq!(plan.reassignments, vec![(50, 2)]);
    assert!(plan.delete_ids.is_empty());
}

#[test]
fn new_player_plan_wie_python() {
    let plan = plan_lanes(0, &[], NP_EXPAND_THRESHOLD, None);
    assert_eq!(plan, LanePlan::default());
    let plan = plan_lanes(6, &[], NP_EXPAND_THRESHOLD, None);
    assert_eq!(plan.create_indices, vec![2]);
    let plan = plan_lanes(6, &[snap(50, 2, 6)], NP_EXPAND_THRESHOLD, None);
    assert_eq!(plan.reassignments, vec![(50, 2)]);
    assert_eq!(plan.create_indices, vec![3]);
    let plan = plan_lanes(
        2,
        &[snap(50, 2, 0), snap(51, 3, 2)],
        NP_EXPAND_THRESHOLD,
        None,
    );
    assert_eq!(plan.reassignments, vec![(51, 2)]);
    assert_eq!(plan.delete_ids, vec![50]);
    assert!(plan.create_indices.is_empty());
}

#[test]
fn lane_namen_und_index() {
    assert_eq!(lane_name_for_index(NP_LANE_BASE_NAME, 1), NP_LANE_BASE_NAME);
    assert_eq!(
        lane_name_for_index(NP_LANE_BASE_NAME, 3),
        "🆕Neue Spieler Lane 3"
    );
    assert_eq!(
        parse_lane_index(
            NP_ANCHOR_CHANNEL_ID,
            NP_ANCHOR_CHANNEL_ID,
            NP_LANE_BASE_NAME,
            "egal"
        ),
        Some(1)
    );
    assert_eq!(
        parse_lane_index(
            9,
            NP_ANCHOR_CHANNEL_ID,
            NP_LANE_BASE_NAME,
            "🆕Neue Spieler Lane 2"
        ),
        Some(2)
    );
    assert_eq!(
        parse_lane_index(
            9,
            NP_ANCHOR_CHANNEL_ID,
            NP_LANE_BASE_NAME,
            "🆕Neue Spieler Lane"
        ),
        None
    );
    assert_eq!(
        parse_lane_index(9, NP_ANCHOR_CHANNEL_ID, NP_LANE_BASE_NAME, "Andere Lane 2"),
        None
    );
}

#[test]
fn anfaenger_rang() {
    let roles = vec![(1u64, "Seeker".to_string())];
    assert_eq!(resolve_new_player_rank(&roles), Some(2));
    let roles = vec![
        (1492960891619250408u64, "Unverifiziert Initiate".to_string()),
        (1492960274096066831u64, "Unverifiziert Arcanist".to_string()),
    ];
    assert_eq!(resolve_new_player_rank(&roles), Some(4));
    let roles = vec![(1u64, "Phantom".to_string())];
    assert_eq!(resolve_new_player_rank(&roles), Some(9));
    assert_eq!(resolve_new_player_rank(&[]), None);
}

#[test]
fn sortierung_wie_python() {
    assert_eq!(parse_rank_label("Phantom 3 irgendwas"), (9, 3));
    assert_eq!(parse_rank_label("seeker"), (2, 0));
    assert_eq!(parse_rank_label("Lane 4"), (0, 0));
    let entries = vec![
        SortSnapshot {
            lane_id: 1,
            current_position: 10,
            rank_index: 9,
            subrank: 3,
            stable_order: 0,
        },
        SortSnapshot {
            lane_id: 2,
            current_position: 11,
            rank_index: 2,
            subrank: 0,
            stable_order: 1,
        },
        SortSnapshot {
            lane_id: 3,
            current_position: 12,
            rank_index: 9,
            subrank: 1,
            stable_order: 2,
        },
    ];
    assert_eq!(plan_lane_reorder(&entries), vec![(2, 10), (3, 11), (1, 12)]);
    assert!(plan_lane_reorder(&entries[..1]).is_empty());
}

fn unified(
    lane_id: u64,
    block: LaneSortBlock,
    rank_index: usize,
    subrank: i64,
    stable_order: usize,
) -> UnifiedSortSnapshot {
    UnifiedSortSnapshot {
        lane_id,
        current_position: lane_id as i64,
        block,
        rank_index,
        subrank,
        stable_order,
    }
}

#[test]
fn tempvoice_one_category_sortiert_gemischte_bloecke_stabil() {
    let entries = vec![
        unified(10, LaneSortBlock::Casual, 0, 0, 0),
        unified(11, LaneSortBlock::StreetBrawl, 0, 0, 1),
        unified(12, LaneSortBlock::Ranked, 9, 3, 2),
        unified(13, LaneSortBlock::Ranked, 2, 1, 3),
        unified(14, LaneSortBlock::Ranked, 0, 0, 4),
        unified(15, LaneSortBlock::Casual, 0, 0, 5),
    ];
    assert_eq!(
        plan_unified_category_reorder(&entries),
        vec![(13, 10), (12, 11), (14, 12), (10, 13), (15, 14), (11, 15)]
    );
}
