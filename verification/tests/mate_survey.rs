use dl_voice::mate_survey::{
    ask_decision, comment_custom_id, comment_modal, comment_step, emoji_tag, minutes_label, never_custom_id,
    pair_key, parse_custom_id, pick_mate, rate_custom_id, rating_reason, rating_thanks,
    session_survey_target, survey_text, AskDecision, CommentStep, SurveyAction, RATING_AGAIN,
    RATING_OK, RATING_RATHER_NOT, THANKS_AGAIN, THANKS_OK, THANKS_RATHER_NOT,
};

#[test]
fn pick_mate_ist_deterministisch_und_ohne_selbstbezug() {
    assert_eq!(pick_mate(1, &[3, 2, 2, 1]), Some(2));
    assert_eq!(pick_mate(1, &[1]), None);
    assert_eq!(pick_mate(1, &[]), None);
}

#[test]
fn mate_survey_custom_ids_sind_round_trip_fest() {
    assert_eq!(
        parse_custom_id(&rate_custom_id(RATING_AGAIN, 7, 99, 1800)),
        Some(SurveyAction::Rate {
            mate_id: 7,
            rating: RATING_AGAIN,
            channel_id: 99,
            seconds: 1800
        })
    );
    assert_eq!(
        parse_custom_id(&comment_custom_id(7)),
        Some(SurveyAction::Comment { mate_id: 7 })
    );
    assert_eq!(
        parse_custom_id(&never_custom_id()),
        Some(SurveyAction::Never)
    );
    assert_eq!(parse_custom_id("voice_mate:rate:quatsch:7:9:1"), None);
    assert_eq!(parse_custom_id("fremd:never"), None);
}

#[test]
fn minuten_label_bleibt_lesbar() {
    assert_eq!(minutes_label(1200), "20 Minuten");
    assert_eq!(minutes_label(30), "1 Minuten");
    assert_eq!(minutes_label(7200), "2 Stunden");
    assert_eq!(minutes_label(5700), "1 Stunden und 35 Minuten");
}

#[test]
fn umfrage_text_fragt_nach_dem_mitspieler_und_pingt_nicht() {
    let text = survey_text(7, 99, 1800);
    assert!(text.contains("<@7>"));
    assert!(text.contains("<#99>"));
    assert!(text.contains("30 Minuten"));
    assert!(text.contains("Würdest du wieder mit"));
    assert!(text.contains("Deine Antwort bleibt privat"));
}

#[test]
fn kurze_sessions_und_fehlende_mitspieler_fragen_nicht() {
    assert_eq!(session_survey_target(1, &[2], 1199), None);
    assert_eq!(session_survey_target(1, &[1], 3600), None);
    assert_eq!(session_survey_target(1, &[5, 4], 1200), Some(4));
}

#[test]
fn entscheidung_reihenfolge_und_cooldowns() {
    let now = 1_700_000_000;
    assert_eq!(ask_decision(true, true, None, None, now), AskDecision::OptedOut);
    assert_eq!(ask_decision(false, true, None, None, now), AskDecision::NeverAsk);
    assert_eq!(
        ask_decision(false, false, Some(now - 3600), None, now),
        AskDecision::UserCooldown
    );
    assert_eq!(
        ask_decision(false, false, Some(now - 48 * 3600), Some(now - 86400), now),
        AskDecision::PairCooldown
    );
    assert_eq!(
        ask_decision(false, false, Some(now - 48 * 3600), Some(now - 30 * 86400), now),
        AskDecision::Ask
    );
}

#[test]
fn bewertungs_antworten() {
    assert_eq!(rating_thanks(RATING_AGAIN), THANKS_AGAIN);
    assert_eq!(rating_thanks(RATING_RATHER_NOT), THANKS_RATHER_NOT);
    assert_eq!(rating_thanks(RATING_OK), THANKS_OK);
    assert_eq!(rating_reason(RATING_AGAIN), "gerne_wieder");
    assert_eq!(rating_reason(RATING_RATHER_NOT), "lieber_nicht");
    assert_eq!(rating_reason("x"), "war_okay");
}

#[test]
fn kommentar_formular() {
    assert_eq!(comment_step(Some("7"), Some("   ")), CommentStep::ThankOnly);
    assert_eq!(comment_step(None, Some("gut")), CommentStep::Invalid);
    assert_eq!(
        comment_step(Some("7"), Some("  gut  ")),
        CommentStep::Attach { mate_id: 7, comment: "gut".to_string() }
    );
}

#[test]
fn paar_schluessel_und_emoji() {
    assert_eq!(pair_key(20, 10), "10:20");
    assert_eq!(emoji_tag(("dl_ranked", "1")), "<:dl_ranked:1>");
    assert_eq!(
        parse_custom_id("voice_mate:comment:7:extra"),
        Some(SurveyAction::Comment { mate_id: 7 })
    );
}

#[test]
fn kommentar_modal_traegt_den_mitspieler() {
    let modal = comment_modal(99);
    assert_eq!(modal.custom_id, "voice_mate_comment");
    assert_eq!(modal.title, "Kommentar zur Runde");
    assert_eq!(modal.fields.len(), 2);
    assert_eq!(modal.fields[0].custom_id, "comment");
    assert!(!modal.fields[0].required);
    assert_eq!(modal.fields[0].max_length, 1000);
    assert_eq!(modal.fields[1].custom_id, "mate_id");
    assert_eq!(modal.fields[1].value.as_deref(), Some("99"));
    assert!(modal.fields[1].required);
    assert!(!modal.fields[1].paragraph);
    assert_eq!(modal.fields[1].placeholder, "");
}
