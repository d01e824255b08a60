use dl_voice::feedback::{
    build_message, combine_answers, dm_answer_action, duration_min_text, feedback_request_kind,
    format_feedback_forward, forward_co_players, greeting_name, modal_request_id,
    response_window_open, start_button, stored_co_names, feedback_modal, StartButton,
};

#[test]
fn texte_wie_python() {
    let names: Vec<String> = (1..=12).map(|i| format!("Spieler{i}")).collect();
    let text = build_message("Anna", "first", &names);
    assert!(text.starts_with("Hey Anna!"));
    assert!(text.contains("Wie waren deine ersten Runden bei uns?"));
    assert!(text.contains("(+2 weitere)"));
    let text = build_message("Ben", "second", &[]);
    assert!(text.contains("danke für deine Voice-Runden"));
    assert!(!text.contains("Mit im Call"));
}

#[test]
fn nachricht_genau() {
    let names = vec!["A".to_string(), "B".to_string()];
    assert_eq!(
        build_message("Ben", "second", &names),
        "Hey Ben, danke für deine Voice-Runden.\n\nKurzes Update: Was läuft gut, was nervt, was sollen wir fixen?\n\nButton drücken und in 1-2 Sätzen Feedback dalassen.\n\nMit im Call waren u.a.: A, B"
    );
}

#[test]
fn weiterleitung_und_meta() {
    assert_eq!(
        format_feedback_forward(3, "Anna", 9, "gut", "first", "B", "Lane", "5"),
        "📩 Neues Voice-Feedback (Req #3, Typ: first)\nVon: Anna (9)\nKanal: Lane\nDauer: 5 Min\nMit im Call: B\n\nAntwort:\ngut"
    );
    assert_eq!(duration_min_text(0), "?");
    assert_eq!(duration_min_text(30), "1");
    assert_eq!(duration_min_text(600), "10");
    assert_eq!(forward_co_players("  "), "—");
    assert_eq!(forward_co_players("A, B"), "A, B");
    assert_eq!(greeting_name(None, 5), "User 5");
    assert_eq!(stored_co_names(&[]), "-");
    assert_eq!(stored_co_names(&["A".to_string(), "B".to_string()]), "A, B");
}

#[test]
fn welche_anfrage() {
    assert_eq!(feedback_request_kind(true, 300, true, false, false, 0), Some("first"));
    assert_eq!(feedback_request_kind(true, 299, true, false, false, 0), None);
    assert_eq!(feedback_request_kind(false, 900, true, true, false, 4), Some("second"));
    assert_eq!(feedback_request_kind(false, 900, true, true, false, 3), None);
    assert_eq!(feedback_request_kind(false, 900, true, true, true, 9), None);
}

#[test]
fn knopf_und_fenster() {
    let now = 1_000_000;
    assert_eq!(start_button(None, now), StartButton::NotOpen);
    assert_eq!(start_button(Some((4, now, "responded")), now), StartButton::AlreadyResponded);
    assert_eq!(start_button(Some((4, now - 72 * 3600 - 1, "sent")), now), StartButton::Expired);
    assert_eq!(start_button(Some((4, now, "forbidden")), now), StartButton::NotOpen);
    assert_eq!(start_button(Some((4, 0, "pending")), now), StartButton::OpenModal { request_id: 4 });
    assert!(response_window_open(now - 72 * 3600, now));
    assert!(!response_window_open(now - 72 * 3600 - 1, now));
}

#[test]
fn formular_antworten() {
    assert_eq!(modal_request_id("voice_feedback:modal:42"), 42);
    assert_eq!(modal_request_id("voice_feedback:modal:x"), 0);
    assert_eq!(
        combine_answers(Some(" 8 "), None, Some(""), Some("ok")),
        "1) 8\n2) —\n3) —\n4) ok"
    );
    assert_eq!(dm_answer_action(true, "hi", 0, "sent", 5), None);
    assert_eq!(dm_answer_action(false, "  ", 0, "sent", 5), None);
    assert_eq!(dm_answer_action(false, "hi", 0, "responded", 5), Some(false));
    assert_eq!(dm_answer_action(false, "hi", 0, "sent", 5), Some(true));
}

#[test]
fn modal_aufbau() {
    let modal = feedback_modal(42);
    assert_eq!(modal.custom_id, "voice_feedback:modal:42");
    assert_eq!(modal.fields.len(), 4);
    assert!(modal.fields[0].required);
    assert!(!modal.fields[1].required);
    assert!(modal.fields.iter().all(|f| f.paragraph));
}

#[test]
fn modal_felder_genau() {
    let modal = feedback_modal(-7);
    assert_eq!(modal.custom_id, "voice_feedback:modal:-7");
    assert_eq!(modal.title, "Kurzes Voice-Feedback");
    let ids: Vec<&str> = modal.fields.iter().map(|f| f.custom_id.as_str()).collect();
    assert_eq!(ids, vec!["q1", "q2", "q3", "q4"]);
    assert_eq!(modal.fields[0].max_length, 500);
    assert_eq!(modal.fields[3].max_length, 900);
    assert_eq!(modal.fields[2].label, "Wie lief es mit den anderen?");
    assert!(modal.fields.iter().all(|f| f.value.is_none() && f.min_length == 0));
    assert_eq!(modal_request_id(&modal.custom_id), -7);
}
