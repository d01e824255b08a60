use std::collections::HashMap;

use dl_voice::pairing::{
    count_word, later_custom_id, merge_check, merged_text, move_reply, never_custom_id,
    no_custom_id, other_side_label, pair_ask_decision, pair_key, pairing_text, parse_custom_id,
    pick_pair, update_watched, yes_check, yes_custom_id, AskDecision, LaneSeat, LaneView,
    MergeCheck, PairAction, UserAskState, Watched, YesCheck, MOVED_REPLY, MOVE_FAILED_REPLY,
    MOVE_PARTIAL_REPLY,
};

const NOW: i64 = 1_700_000_000;

fn seat(user_id: u64, channel_id: u64, mode: &str, since: i64) -> LaneSeat {
    group(&[user_id], channel_id, mode, since)
}

fn group(members: &[u64], channel_id: u64, mode: &str, since: i64) -> LaneSeat {
    LaneSeat {
        speaker_id: members[0],
        channel_id,
        mode: mode.to_string(),
        members: members.to_vec(),
        since,
    }
}

#[test]
fn pick_pair_nimmt_die_zwei_laengsten_wartenden_im_selben_modus() {
    let seats = vec![
        seat(1, 10, "casual", NOW - 9 * 60),
        seat(2, 11, "ranked", NOW - 8 * 60),
        seat(3, 12, "casual", NOW - 7 * 60),
    ];
    let (first, second) = pick_pair(&seats, NOW).expect("Paar");
    assert_eq!((first.speaker_id, second.speaker_id), (1, 3));
}

#[test]
fn pick_pair_ignoriert_zu_frische_und_fremde_modi() {
    let frisch = vec![
        seat(1, 10, "casual", NOW - 10),
        seat(2, 11, "casual", NOW - 9 * 60),
    ];
    assert!(pick_pair(&frisch, NOW).is_none());

    let gemischt = vec![
        seat(1, 10, "casual", NOW - 9 * 60),
        seat(2, 11, "ranked", NOW - 9 * 60),
    ];
    assert!(pick_pair(&gemischt, NOW).is_none());
}

#[test]
fn pick_pair_paart_niemanden_mit_sich_selbst() {
    let seats = vec![seat(1, 10, "casual", NOW - 9 * 60)];
    assert!(pick_pair(&seats, NOW).is_none());
}

#[test]
fn pair_key_ist_richtungsunabhaengig() {
    assert_eq!(pair_key(10, 20), pair_key(20, 10));
    assert_eq!(pair_key(10, 20), "10:20");
}

#[test]
fn pairing_custom_ids_sind_round_trip_fest() {
    assert_eq!(
        parse_custom_id(&yes_custom_id(1, 2, 3, 4)),
        Some(PairAction::Yes {
            guild_id: 1,
            own_lane: 2,
            other_lane: 3,
            other_user: 4
        })
    );
    assert_eq!(
        parse_custom_id(&no_custom_id(7)),
        Some(PairAction::No { other_user: 7 })
    );
    assert_eq!(
        parse_custom_id(&later_custom_id(7)),
        Some(PairAction::Later { other_user: 7 })
    );
    assert_eq!(parse_custom_id(&never_custom_id()), Some(PairAction::Never));
    assert_eq!(parse_custom_id("voice_pair:quatsch"), None);
    assert_eq!(parse_custom_id("anderes:yes:1:2:3:4"), None);
}

#[test]
fn pick_pair_legt_auch_zweier_und_einzelgruppen_zusammen() {
    let seats = vec![
        group(&[1, 2], 10, "casual", NOW - 9 * 60),
        seat(3, 11, "casual", NOW - 8 * 60),
    ];
    let (first, second) = pick_pair(&seats, NOW).expect("Paar");
    assert_eq!((first.channel_id, second.channel_id), (10, 11));
}

#[test]
fn pick_pair_sprengt_die_lane_nicht() {
    let voll = vec![
        group(&[1, 2, 3, 4], 10, "casual", NOW - 9 * 60),
        group(&[5, 6, 7], 11, "casual", NOW - 8 * 60),
    ];
    assert!(pick_pair(&voll, NOW).is_none(), "sieben passen nicht in eine Lane");

    let passt = vec![
        group(&[1, 2, 3, 4], 10, "casual", NOW - 9 * 60),
        group(&[5, 6], 11, "casual", NOW - 8 * 60),
    ];
    assert!(pick_pair(&passt, NOW).is_some());
}

#[test]
fn grosse_gruppen_werden_nicht_mehr_gefragt() {
    let seats = vec![
        group(&[1, 2, 3, 4, 5], 10, "casual", NOW - 9 * 60),
        seat(6, 11, "casual", NOW - 8 * 60),
    ];
    assert!(pick_pair(&seats, NOW).is_none());
}

#[test]
fn pick_pair_gleiche_wartezeit_nach_kanal_id() {
    let seats = vec![
        seat(1, 30, "casual", NOW - 600),
        seat(2, 20, "casual", NOW - 600),
        seat(3, 10, "casual", NOW - 600),
    ];
    let (first, second) = pick_pair(&seats, NOW).expect("Paar");
    assert_eq!((first.channel_id, second.channel_id), (10, 20));
}

fn lane(channel_id: u64, mode: &str, members: &[u64], owner: Option<u64>) -> LaneView {
    LaneView {
        channel_id,
        mode: mode.to_string(),
        members: members.to_vec(),
        owner_id: owner,
    }
}

#[test]
fn beobachtung_startet_neu_wenn_die_besetzung_wechselt() {
    let mut watched: HashMap<u64, Watched> = HashMap::new();
    let seats = update_watched(
        &mut watched,
        &[lane(10, "casual", &[5, 3], Some(5)), lane(11, "casual", &[1, 2, 3, 4, 6], None)],
        100,
    );
    assert_eq!(seats.len(), 1);
    assert_eq!(seats[0].members, vec![3, 5]);
    assert_eq!(seats[0].speaker_id, 5);
    assert_eq!(seats[0].since, 100);
    assert_eq!(watched.len(), 1);

    let seats = update_watched(&mut watched, &[lane(10, "casual", &[3, 5], Some(9))], 200);
    assert_eq!(seats[0].since, 100, "gleiche Besetzung wartet weiter");
    assert_eq!(seats[0].speaker_id, 3, "Owner nicht in der Lane: kleinste ID");

    let seats = update_watched(&mut watched, &[lane(10, "casual", &[3], None)], 300);
    assert_eq!(seats[0].since, 300, "neue Besetzung startet neu");

    let seats = update_watched(&mut watched, &[lane(12, "ranked", &[8], None)], 400);
    assert_eq!(seats.len(), 1);
    assert!(!watched.contains_key(&10), "verschwundene Lanes werden vergessen");
}

#[test]
fn zusage_pruefungen() {
    assert_eq!(yes_check(Some(3), 2, 3), YesCheck::AlreadyTogether);
    assert_eq!(yes_check(Some(2), 2, 3), YesCheck::Proceed);
    assert_eq!(yes_check(None, 2, 3), YesCheck::NotInLane);
    assert_eq!(merge_check(2, 0), MergeCheck::Gone);
    assert_eq!(merge_check(4, 3), MergeCheck::TooFull);
    assert_eq!(merge_check(4, 2), MergeCheck::Move);
    assert_eq!(move_reply(0, 2), MOVE_FAILED_REPLY);
    assert_eq!(move_reply(1, 1), MOVE_PARTIAL_REPLY);
    assert_eq!(move_reply(2, 0), MOVED_REPLY);
}

#[test]
fn paar_entscheidung_in_reihenfolge() {
    let free = UserAskState { opted_out: false, never_ask: false, last_ask: None };
    let opted = UserAskState { opted_out: true, never_ask: false, last_ask: None };
    let cool = UserAskState { opted_out: false, never_ask: false, last_ask: Some(NOW - 60) };
    assert_eq!(pair_ask_decision(free, opted, None, false, NOW), AskDecision::OptedOut);
    assert_eq!(pair_ask_decision(cool, opted, None, false, NOW), AskDecision::UserCooldown);
    assert_eq!(pair_ask_decision(free, free, Some(NOW - 60), false, NOW), AskDecision::PairCooldown);
    assert_eq!(pair_ask_decision(free, free, None, true, NOW), AskDecision::Unwanted);
    assert_eq!(pair_ask_decision(free, free, Some(NOW - 86400), false, NOW), AskDecision::Ask);
}

#[test]
fn dm_texte() {
    let (headline, text) = pairing_text(&seat(10, 100, "casual", NOW), &seat(20, 200, "casual", NOW));
    assert_eq!(headline, "Du sitzt gerade allein");
    assert!(text.contains("<@20>"));
    assert!(!text.contains("<#100>"));
    assert!(text.contains("Möchtet ihr zusammen spielen?"));
    let (headline, text) = pairing_text(
        &group(&[1, 3], 10, "ranked", NOW),
        &seat(2, 20, "ranked", NOW),
    );
    assert_eq!(headline, "Ihr könntet mehr sein");
    assert!(text.contains("zu zweit"));
    assert!(text.contains("zu dritt"));
    assert_eq!(other_side_label(&group(&[4, 5, 6], 1, "c", 0)), "sitzen <@4> und 2 weitere");
    assert_eq!(count_word(7), "mehreren");
    assert_eq!(merged_text(1, 9), "Da kommt jemand zu euch in <#9>. Viel Spaß zusammen.");
    assert_eq!(merged_text(3, 9), "Da kommen 3 Leute zu euch in <#9>. Viel Spaß zusammen.");
}

#[test]
fn pick_pair_nimmt_den_laengst_wartenden_mit_partner_und_bricht_gleichstand_nach_lane() {
    // Lane 10 waits longest but has no partner in its mode; lanes 12 and 13
    // began at the same time, so lane 12 comes first, and its partner is the
    // next one in waiting order (lane 13 before lane 11).
    let seats = vec![
        seat(1, 10, "ranked", NOW - 20 * 60),
        group(&[5, 6, 7], 11, "casual", NOW - 12 * 60),
        seat(3, 13, "casual", NOW - 15 * 60),
        group(&[4, 8, 9], 12, "casual", NOW - 15 * 60),
    ];
    let (first, second) = pick_pair(&seats, NOW).expect("Paar");
    assert_eq!((first.channel_id, second.channel_id), (12, 13));
}
