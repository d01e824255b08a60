use serde_json::Value;

use dl_voice::components::COMPONENTS_V2_FLAG;
use dl_voice::feedback::{feedback_button_components, FEEDBACK_BUTTON_LABEL, START_CUSTOM_ID};
use dl_voice::json::JsonNode;
use dl_voice::lfg::{
    lfg_panel_attachments, lfg_panel_body, lfg_panel_body_for_attachments,
    LFG_CREATE_START_CUSTOM_ID, LFG_PANEL_BANNER_FILENAME, LFG_WATCH_START_CUSTOM_ID,
};
use dl_voice::mate_survey::{
    comment_custom_id, dm_body, never_custom_id, rate_custom_id, RATING_AGAIN, RATING_OK,
    RATING_RATHER_NOT,
};
use dl_voice::nudge::{nudge_dm_payload, CLOSE_CUSTOM_ID, DM_DESCRIPTION, LINK_SERVICE_DOWN_NOTE};
use dl_voice::pairing::{merged_dm_body, merged_text};

const RANKED_EMOJI: (&str, &str) = ("dl_ranked", "1500000000000000001");
const CASUAL_EMOJI: (&str, &str) = ("dl_casual", "1500000000000000002");

fn value(node: &JsonNode) -> Value {
    match node {
        JsonNode::Null => Value::Null,
        JsonNode::Bool(b) => Value::Bool(*b),
        JsonNode::Number(text) => serde_json::from_str(text).expect("number"),
        JsonNode::Str(s) => Value::String(s.clone()),
        JsonNode::Array(items) => Value::Array(items.iter().map(value).collect()),
        JsonNode::Object(entries) => {
            let mut map = serde_json::Map::new();
            for (key, item) in entries {
                map.insert(key.clone(), value(item));
            }
            Value::Object(map)
        }
    }
}

fn parse(text: &str) -> Value {
    serde_json::from_str(text).expect("json")
}

#[test]
fn lfg_panel_body_ist_components_v2_mit_start_button_und_banner() {
    let attachments = lfg_panel_attachments();
    let body = value(&lfg_panel_body_for_attachments(&attachments));

    assert_eq!(body.get("flags"), Some(&Value::from(COMPONENTS_V2_FLAG)));
    assert_eq!(body.get("allowed_mentions"), Some(&parse(r#"{"parse": []}"#)));
    let mut attachment = serde_json::Map::new();
    attachment.insert("id".to_string(), Value::from(0u64));
    attachment.insert("filename".to_string(), Value::from(LFG_PANEL_BANNER_FILENAME));
    assert_eq!(
        body.get("attachments"),
        Some(&Value::Array(vec![Value::Object(attachment)]))
    );
    let components = body["components"][0]["components"]
        .as_array()
        .expect("container components");
    assert!(components.iter().any(|component| {
        component["type"] == 12
            && component["items"][0]["media"]["url"]
                == format!("attachment://{LFG_PANEL_BANNER_FILENAME}")
    }));
    let custom_ids: Vec<&str> = components
        .iter()
        .flat_map(|row| row["components"].as_array().into_iter().flatten())
        .filter_map(|component| component["custom_id"].as_str())
        .collect();
    assert_eq!(
        custom_ids,
        vec![LFG_CREATE_START_CUSTOM_ID, LFG_WATCH_START_CUSTOM_ID]
    );
}

#[test]
fn lfg_panel_ohne_banner_hat_keine_galerie() {
    let body = value(&lfg_panel_body_for_attachments(&[]));
    let components = body["components"][0]["components"]
        .as_array()
        .expect("container components");
    assert_eq!(components.len(), 2);
    assert_eq!(components[0]["type"], 10);
    assert_eq!(body["attachments"], Value::Array(vec![]));
    assert_eq!(body["components"][0]["accent_color"], 0xC8A86B);
    let full = value(&lfg_panel_body());
    assert_eq!(full["components"][0]["components"].as_array().map(|c| c.len()), Some(3));
}

#[test]
fn dm_body_fragt_nach_dem_mitspieler_und_pingt_nicht() {
    let text = serde_json::to_string(&value(&dm_body(7, 99, 1800, RANKED_EMOJI, CASUAL_EMOJI)))
        .expect("json");
    assert!(text.contains("<@7>"));
    assert!(text.contains("<#99>"));
    assert!(text.contains("30 Minuten"));
    assert!(text.contains("Würdest du wieder mit"));
    assert!(
        text.contains("Deine Antwort bleibt privat"),
        "die Vertraulichkeit steht in einer eigenen, betonten Zeile"
    );
    assert!(text.contains("dl_ranked"), "Header nutzt die Server-Emojis");
    assert!(text.contains(&rate_custom_id(RATING_AGAIN, 7, 99, 1800)));
    assert!(text.contains(&comment_custom_id(7)));
    assert!(text.contains(&never_custom_id()));
    assert!(text.contains("\"parse\":[]"));
}

#[test]
fn umfrage_dm_hat_drei_bewertungen_und_zwei_weitere_buttons() {
    let body = value(&dm_body(7, 99, 1800, RANKED_EMOJI, CASUAL_EMOJI));
    assert_eq!(body["flags"], 32768);
    let items = body["components"][0]["components"].as_array().expect("items");
    assert_eq!(items.len(), 6);
    assert_eq!(
        items[0]["content"],
        "## <:dl_ranked:1500000000000000001> Kurz gefragt"
    );
    let ratings = items[3]["components"].as_array().expect("ratings");
    let ids: Vec<&str> = ratings.iter().filter_map(|b| b["custom_id"].as_str()).collect();
    assert_eq!(
        ids,
        vec![
            rate_custom_id(RATING_AGAIN, 7, 99, 1800).as_str(),
            rate_custom_id(RATING_OK, 7, 99, 1800).as_str(),
            rate_custom_id(RATING_RATHER_NOT, 7, 99, 1800).as_str(),
        ]
    );
    assert_eq!(ratings[0]["emoji"]["name"], "dl_casual");
    assert_eq!(ratings[0]["style"], 3);
    assert_eq!(ratings[2]["style"], 4);
    assert_eq!(items[5]["components"][1]["label"], "Nicht mehr fragen");
}

#[test]
fn feedback_button_label_kommt_aus_platzhalter_konstante() {
    let components = value(&feedback_button_components());
    assert_eq!(
        components[0]["components"][0]["label"],
        FEEDBACK_BUTTON_LABEL
    );
    assert_eq!(components[0]["components"][0]["custom_id"], START_CUSTOM_ID);
}

#[test]
fn zusammenlegung_pingt_niemanden() {
    let body = value(&merged_dm_body(2, 300));
    assert_eq!(body["allowed_mentions"], parse(r#"{"parse": []}"#));
    assert_eq!(body["content"], merged_text(2, 300));
}

#[test]
fn nudge_dm_mit_link_hat_link_button() {
    let (embed, components) = nudge_dm_payload(Some("https://link.example/steam"));
    let embed = value(&embed);
    let components = value(&components);
    assert_eq!(embed["title"], "Steam-Verknüpfung empfohlen 🔗");
    assert_eq!(embed["description"], DM_DESCRIPTION);
    assert_eq!(embed["color"], 0x5865F2);
    assert!(embed["description"].as_str().unwrap_or("").starts_with("**Was bringt das?**\n• Rang"));
    let steam = &components[0]["components"][0];
    assert_eq!(steam["style"], 5);
    assert_eq!(steam["url"], "https://link.example/steam");
    assert!(steam.get("custom_id").is_none());
    assert_eq!(components[1]["components"][0]["custom_id"], CLOSE_CUSTOM_ID);
}

#[test]
fn nudge_dm_ohne_link_hat_deaktivierten_button_und_hinweis() {
    let (embed, components) = nudge_dm_payload(None);
    let embed = value(&embed);
    let components = value(&components);
    assert_eq!(
        embed["description"],
        format!("{DM_DESCRIPTION}{LINK_SERVICE_DOWN_NOTE}")
    );
    let steam = &components[0]["components"][0];
    assert_eq!(steam["disabled"], true);
    assert_eq!(steam["custom_id"], "nudge_steam_disabled");
    assert!(steam.get("url").is_none());
}
