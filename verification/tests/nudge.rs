use dl_voice::nudge::{
    edit_outcome, has_exempt_role, join_step, parse_nudgesend, refresh_step, sent_log_text,
    test_send_reply, watch_polls, JoinStep, RefreshStep, EXEMPT_ROLE_ID,
};
use dl_voice::rank::parse_mention;

#[test]
fn mention_parsen() {
    assert_eq!(parse_mention("<@123>"), Some(123));
    assert_eq!(parse_mention("<@!456>"), Some(456));
    assert_eq!(parse_mention("abc"), None);
}

#[test]
fn join_schritte() {
    assert_eq!(join_step(true, &[], false, None, "2024-01-02"), JoinStep::Ignore);
    assert_eq!(join_step(false, &[EXEMPT_ROLE_ID], false, None, "2024-01-02"), JoinStep::Ignore);
    assert_eq!(join_step(false, &[], true, None, "2024-01-02"), JoinStep::Ignore);
    assert_eq!(join_step(false, &[], false, None, "2024-01-02"), JoinStep::RecordFirstSeen);
    assert_eq!(join_step(false, &[], false, Some("2024-01-02"), "2024-01-02"), JoinStep::Ignore);
    assert_eq!(join_step(false, &[], false, Some("2024-01-01"), "2024-01-02"), JoinStep::StartWatch);
    assert!(!has_exempt_role(&[1, 2]));
    assert_eq!(watch_polls(), 120);
}

#[test]
fn testbefehl_ziel() {
    assert_eq!(parse_nudgesend("hallo", None), None);
    assert_eq!(parse_nudgesend("", None), None);
    assert_eq!(parse_nudgesend("!nudgesend <@200>", None), Some(Some(200)));
    assert_eq!(parse_nudgesend("!NudgeSend foo <@!201>", Some(5)), Some(Some(201)));
    assert_eq!(parse_nudgesend("!t30", Some(5)), Some(Some(5)));
    assert_eq!(parse_nudgesend("!t30", None), Some(None));
    assert_eq!(test_send_reply(true, 200), "📨 Test-DM an <@200> gesendet.");
    assert_eq!(sent_log_text(7), "📨 Steam-Nudge gesendet an <@7>");
}

#[test]
fn bestehende_dm_auffrischen() {
    assert_eq!(refresh_step(None, Some(1), true, 0, false), RefreshStep::Settled(true));
    assert_eq!(refresh_step(Some(2), None, false, 0, true), RefreshStep::Settled(false));
    assert_eq!(refresh_step(Some(2), Some(1), false, 2, false), RefreshStep::Settled(true));
    assert_eq!(
        refresh_step(Some(2), Some(1), false, 2, true),
        RefreshStep::Edit { channel_id: 1, message_id: 2 }
    );
    assert_eq!(
        refresh_step(Some(2), Some(1), false, 1, false),
        RefreshStep::Edit { channel_id: 1, message_id: 2 }
    );
    assert!(edit_outcome(None));
    assert!(!edit_outcome(Some(false)));
}
