use std::collections::HashSet;

use dl_voice::lfg::LfgRankRange;
use dl_voice::lfg_watch::{
    rank_overlaps, timing_actionable, typical_hours_from_counts, watch_match_dm,
    watch_match_target, LfgWatch, LfgWatchWindow,
};

#[test]
fn rank_overlap_matrix() {
    let egal = LfgRankRange {
        min: None,
        max: None,
    };
    assert!(rank_overlaps(None, None, egal));
    assert!(rank_overlaps(Some(3), Some(5), egal));
    assert!(rank_overlaps(
        None,
        None,
        LfgRankRange {
            min: Some(7),
            max: Some(9),
        }
    ));
    assert!(rank_overlaps(
        Some(3),
        Some(6),
        LfgRankRange {
            min: Some(5),
            max: Some(8),
        }
    ));
    assert!(!rank_overlaps(
        Some(1),
        Some(3),
        LfgRankRange {
            min: Some(7),
            max: Some(9),
        }
    ));
}

#[test]
fn timing_or_logic() {
    let none: Option<HashSet<u8>> = None;
    assert!(timing_actionable(3, false, true, &none, LfgWatchWindow::Week, None));
    assert!(timing_actionable(3, false, false, &none, LfgWatchWindow::Week, None));
    assert!(timing_actionable(14, false, false, &none, LfgWatchWindow::Now3h, None));
    assert!(timing_actionable(14, false, false, &none, LfgWatchWindow::Weekend, None));
    assert!(timing_actionable(14, true, false, &none, LfgWatchWindow::Weekend, None));
    assert!(timing_actionable(14, false, false, &none, LfgWatchWindow::Week, Some("jetzt")));
    let typ: Option<HashSet<u8>> = Some([14u8].into_iter().collect());
    assert!(timing_actionable(14, false, false, &typ, LfgWatchWindow::Week, None));
}

#[test]
fn untypische_stunde_wartet() {
    let typ: Option<HashSet<u8>> = Some([20u8].into_iter().collect());
    assert!(!timing_actionable(14, false, false, &typ, LfgWatchWindow::Week, None));
    assert!(!timing_actionable(14, false, false, &typ, LfgWatchWindow::Weekend, Some("heute_abend")));
}

#[test]
fn typische_stunden_aus_zaehlungen() {
    assert_eq!(typical_hours_from_counts(&[(19, 9)]), None);
    let hours = typical_hours_from_counts(&[(21, 12), (3, 2)]).expect("genug Sessions");
    assert_eq!(hours, HashSet::from([20, 21, 22]));
    let hours = typical_hours_from_counts(&[(0, 30), (12, 9), (5, 10)]).expect("genug");
    assert_eq!(hours, HashSet::from([23, 0, 1, 4, 5, 6]));
    let hours = typical_hours_from_counts(&[(-1, 10)]).expect("genug");
    assert_eq!(hours, HashSet::from([22, 23, 0]));
}

fn watch(mode: &str, window: &str, expires_at: i64) -> LfgWatch {
    LfgWatch {
        id: 1,
        user_id: 42,
        guild_id: 7,
        mode: mode.to_string(),
        rank_min: Some(3),
        rank_max: Some(5),
        window_kind: window.to_string(),
        expires_at,
    }
}

#[test]
fn watch_treffer_filter() {
    let range = LfgRankRange { min: Some(4), max: None };
    assert_eq!(
        watch_match_target(&watch("ranked", "today", 200), 7, 100, "ranked", range),
        Some((LfgWatchWindow::Today, 42))
    );
    assert_eq!(watch_match_target(&watch("ranked", "today", 100), 7, 100, "ranked", range), None);
    assert_eq!(watch_match_target(&watch("casual", "today", 200), 7, 100, "ranked", range), None);
    assert_eq!(watch_match_target(&watch("ranked", "bald", 200), 7, 100, "ranked", range), None);
    assert_eq!(watch_match_target(&watch("ranked", "today", 200), 8, 100, "ranked", range), None);
    let far = LfgRankRange { min: Some(9), max: Some(11) };
    assert_eq!(watch_match_target(&watch("ranked", "today", 200), 7, 100, "ranked", far), None);
}

#[test]
fn treffer_dm_text() {
    let text = watch_match_dm("Ranked", "Oracle bis Phantom", Some("jetzt"), 5, 7, 9);
    assert_eq!(
        text,
        "🔔 **Passendes Gesuch!**\n**Ranked** · Oracle bis Phantom · ⚡ Jetzt / bin bereit — von <@5>.\nSchau vorbei: https://discord.com/channels/7/9\n\n_Einmalige Benachrichtigung. Für neue klick wieder auf „🔔 Benachrichtige mich\" im LFG-Panel._"
    );
    let text = watch_match_dm("Ranked", "Alle Ränge", None, 5, 7, 9);
    assert!(text.contains("· Alle Ränge — von <@5>."));
}

#[test]
fn fenster_namen_round_trip() {
    for w in [LfgWatchWindow::Now3h, LfgWatchWindow::Today, LfgWatchWindow::Weekend, LfgWatchWindow::Week] {
        assert_eq!(LfgWatchWindow::from_str(w.as_str()), Some(w));
    }
    assert_eq!(LfgWatchWindow::from_str("month"), None);
}
