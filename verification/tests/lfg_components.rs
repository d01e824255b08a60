use serde_json::Value;

use dl_voice::json::JsonNode;
use dl_voice::lfg::{LfgDraft, LfgMode, LfgPlayWindow, LfgWatchDraft};
use dl_voice::lfg_components::{
    lfg_draft_components, lfg_mode_selection_components, lfg_rank_select, lfg_slots_select,
    lfg_success_components, lfg_watch_components, lfg_when_select, LFG_RANK_FROM_PLACEHOLDER,
};
use dl_voice::lfg_watch::LfgWatchWindow;

const CASUAL: (&str, &str) = ("dl_casual", "11");
const RANKED: (&str, &str) = ("dl_ranked", "12");
const BRAWL: (&str, &str) = ("dl_brawl", "13");

fn value(node: &JsonNode) -> Value {
    match node {
        JsonNode::Null => Value::Null,
        JsonNode::Bool(b) => Value::Bool(*b),
        JsonNode::Number(text) => serde_json::from_str(text).expect("number"),
        JsonNode::Str(s) => Value::String(s.clone()),
        JsonNode::Array(items) => Value::Array(items.iter().map(value).collect()),
        JsonNode::Object(entries) => {
            let mut map = serde_json::Map::new();
            for (key, item) in entries {
                map.insert(key.clone(), value(item));
            }
            Value::Object(map)
        }
    }
}

fn options(row: &Value) -> Vec<Value> {
    row["components"][0]["options"].as_array().expect("select options").clone()
}

fn defaults(row: &Value) -> Vec<String> {
    options(row)
        .iter()
        .filter(|option| option["default"] == true)
        .filter_map(|option| option["value"].as_str().map(str::to_string))
        .collect()
}

#[test]
fn frischer_rang_select_waehlt_nichts_vor() {
    let row = value(&lfg_rank_select("lfg:rank_von", LFG_RANK_FROM_PLACEHOLDER, None));
    assert!(defaults(&row).is_empty());
    let opts = options(&row);
    assert_eq!(opts.len(), 12);
    assert_eq!(opts[0]["value"], "egal");
    assert_eq!(opts[0]["emoji"]["name"], "dl_rang_egal");
    assert_eq!(opts[7]["label"], "Emissary");
    assert_eq!(opts[7]["emoji"]["id"], "1397687455313952918");
    assert_eq!(opts[11]["value"], "eternus");
    assert_eq!(row["components"][0]["type"], 3);
    assert_eq!(row["components"][0]["placeholder"], LFG_RANK_FROM_PLACEHOLDER);
}

#[test]
fn rang_select_waehlt_genau_den_gewaehlten_rang() {
    let row = value(&lfg_rank_select("lfg:rank_bis", "x", Some("oracle")));
    assert_eq!(defaults(&row), vec!["oracle"]);
    let egal = value(&lfg_rank_select("lfg:rank_bis", "x", Some("egal")));
    assert!(defaults(&egal).is_empty());
}

#[test]
fn platz_select_folgt_der_lane_groesse() {
    let ranked = value(&lfg_slots_select(LfgMode::Ranked, Some(3)));
    let labels: Vec<String> = options(&ranked)
        .iter()
        .map(|o| o["label"].as_str().unwrap_or("").to_string())
        .collect();
    assert_eq!(labels, vec!["1 Platz", "2 Plätze", "3 Plätze", "4 Plätze", "5 Plätze"]);
    assert_eq!(defaults(&ranked), vec!["3"]);
    let brawl = value(&lfg_slots_select(LfgMode::StreetBrawl, None));
    assert_eq!(options(&brawl).len(), 4);
    assert!(defaults(&brawl).is_empty());
}

#[test]
fn zeit_select_markiert_das_zeitfenster() {
    let row = value(&lfg_when_select(Some(LfgPlayWindow::HeuteAbend)));
    assert_eq!(defaults(&row), vec!["heute_abend"]);
    let opts = options(&row);
    assert_eq!(opts[0]["label"], "⚡ Jetzt / bin bereit");
    assert_eq!(opts[3]["value"], "flexibel");
}

#[test]
fn entwurf_hat_vier_selects_und_den_post_button() {
    let draft = LfgDraft {
        mode: LfgMode::Casual,
        rank_from: Some("seeker".to_string()),
        rank_to: None,
        slots: Some(2),
        play_window: None,
        lane_id: None,
    };
    let rows = value(&lfg_draft_components(&draft));
    let rows = rows.as_array().expect("rows");
    assert_eq!(rows.len(), 5);
    assert_eq!(rows[0]["components"][0]["custom_id"], "lfg:rank_von");
    assert_eq!(defaults(&rows[0]), vec!["seeker"]);
    assert!(defaults(&rows[1]).is_empty());
    assert_eq!(defaults(&rows[2]), vec!["2"]);
    assert!(defaults(&rows[3]).is_empty());
    assert_eq!(rows[4]["components"][0]["custom_id"], "lfg:post:casual");
    assert_eq!(rows[4]["components"][0]["label"], "Suche veröffentlichen");
}

#[test]
fn beobachten_dialog_hat_modi_raenge_fenster_und_aktivieren() {
    let draft = LfgWatchDraft {
        mode: Some(LfgMode::Ranked),
        rank_from: None,
        rank_to: Some("phantom".to_string()),
        window: Some(LfgWatchWindow::Weekend),
    };
    let rows = value(&lfg_watch_components(&draft, CASUAL, RANKED, BRAWL));
    let rows = rows.as_array().expect("rows");
    assert_eq!(rows.len(), 5);
    assert_eq!(rows[0]["components"][1]["custom_id"], "lfg:watch:mode:ranked");
    assert_eq!(rows[0]["components"][1]["style"], 1);
    assert_eq!(rows[0]["components"][2]["emoji"]["name"], "dl_brawl");
    assert_eq!(defaults(&rows[2]), vec!["phantom"]);
    assert_eq!(defaults(&rows[3]), vec!["weekend"]);
    assert_eq!(rows[3]["components"][0]["options"][0]["label"], "⚡ Die nächsten 3 Stunden");
    assert_eq!(rows[4]["components"][0]["custom_id"], "lfg:watch:activate");
}

#[test]
fn moduswahl_und_lane_button() {
    let modes = value(&lfg_mode_selection_components(CASUAL, RANKED, BRAWL));
    let ids: Vec<&str> = modes[0]["components"]
        .as_array()
        .expect("buttons")
        .iter()
        .filter_map(|b| b["custom_id"].as_str())
        .collect();
    assert_eq!(
        ids,
        vec!["lfg:create:mode:casual", "lfg:create:mode:ranked", "lfg:create:mode:street_brawl"]
    );
    let success = value(&lfg_success_components(42));
    assert_eq!(success[0]["components"][0]["custom_id"], "lfg:open_lane:42");
    assert_eq!(success[0]["components"][0]["label"], "🚀 Lane gleich aufmachen");
}
