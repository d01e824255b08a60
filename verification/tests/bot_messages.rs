use dl_voice::bot_messages::raw_bot_messages_from_value;
use dl_voice::json::JsonNode;

fn s(text: &str) -> JsonNode {
    JsonNode::Str(text.to_string())
}

fn n(text: &str) -> JsonNode {
    JsonNode::Number(text.to_string())
}

fn obj(entries: Vec<(&str, JsonNode)>) -> JsonNode {
    JsonNode::Object(entries.into_iter().map(|(k, v)| (k.to_string(), v)).collect())
}

fn arr(items: Vec<JsonNode>) -> JsonNode {
    JsonNode::Array(items)
}

fn button(custom_id: &str) -> JsonNode {
    obj(vec![("type", n("2")), ("custom_id", s(custom_id))])
}

#[test]
fn raw_bot_message_parser_findet_components_v2_custom_ids() {
    let messages = arr(vec![
        obj(vec![
            ("id", s("1523272810825252944")),
            ("author", obj(vec![("id", s("42")), ("bot", JsonNode::Bool(true))])),
            ("embeds", arr(vec![])),
            (
                "components",
                arr(vec![obj(vec![
                    ("type", n("17")),
                    (
                        "components",
                        arr(vec![
                            obj(vec![
                                ("type", n("1")),
                                (
                                    "components",
                                    arr(vec![
                                        button("router_spawn_casual"),
                                        button("router_spawn_ranked"),
                                    ]),
                                ),
                            ]),
                            obj(vec![("type", n("10")), ("content", s("Text"))]),
                        ]),
                    ),
                ])]),
            ),
        ]),
        obj(vec![
            ("id", s("1523272798766628967")),
            ("author", obj(vec![("id", s("7")), ("bot", JsonNode::Bool(false))])),
            ("embeds", arr(vec![obj(vec![("title", s("Fremd"))])])),
            ("components", arr(vec![button("router_spawn_foreign")])),
        ]),
        obj(vec![
            ("id", s("1439565280077545503")),
            ("author", obj(vec![("id", s("42")), ("bot", JsonNode::Bool(true))])),
            ("embeds", arr(vec![obj(vec![("title", s("🚧 Sprachkanal verwalten"))])])),
            (
                "components",
                arr(vec![obj(vec![
                    ("type", n("1")),
                    ("components", arr(vec![button("tv_limit_btn")])),
                ])]),
            ),
        ]),
    ]);

    let parsed = raw_bot_messages_from_value(&messages, 42);

    assert_eq!(parsed.len(), 2);
    assert_eq!(parsed[0].message_id, 1439565280077545503);
    assert_eq!(parsed[0].embed_titles, vec!["🚧 Sprachkanal verwalten"]);
    assert_eq!(parsed[1].message_id, 1523272810825252944);
    assert!(parsed[1].custom_ids.contains(&"router_spawn_casual".to_string()));
    assert!(parsed[1].custom_ids.contains(&"router_spawn_ranked".to_string()));
}

#[test]
fn bot_nachrichten_tragen_flags_und_ids_in_baumreihenfolge() {
    let messages = arr(vec![obj(vec![
        ("id", s("5")),
        ("author", obj(vec![("id", s("42"))])),
        (
            "components",
            arr(vec![obj(vec![
                ("custom_id", s("oben")),
                ("components", arr(vec![button("a"), button("b")])),
            ])]),
        ),
    ])]);
    let parsed = raw_bot_messages_from_value(&messages, 42);
    assert_eq!(parsed.len(), 1);
    assert!(!parsed[0].has_embeds);
    assert!(parsed[0].has_components);
    assert!(parsed[0].embed_titles.is_empty());
    assert_eq!(parsed[0].custom_ids, vec!["oben", "a", "b"]);
}

#[test]
fn gleiche_ids_bleiben_in_listenreihenfolge() {
    let message = |title: &str| {
        obj(vec![
            ("id", s("9")),
            ("author", obj(vec![("id", s("42"))])),
            ("embeds", arr(vec![obj(vec![("title", s(title))]), obj(vec![])])),
        ])
    };
    let messages = arr(vec![message("erste"), message("zweite")]);
    let parsed = raw_bot_messages_from_value(&messages, 42);
    assert_eq!(parsed.len(), 2);
    assert_eq!(parsed[0].embed_titles, vec!["erste"]);
    assert_eq!(parsed[1].embed_titles, vec!["zweite"]);
    assert!(parsed[0].has_embeds);
    assert!(!parsed[0].has_components);
}

#[test]
fn unlesbare_ids_und_keine_liste_ergeben_nichts() {
    let messages = arr(vec![
        obj(vec![("id", s("x1")), ("author", obj(vec![("id", s("42"))]))]),
        obj(vec![("id", s("3")), ("author", obj(vec![("id", n("42"))]))]),
        obj(vec![("id", s("+4")), ("author", obj(vec![("id", s("42"))]))]),
    ]);
    let parsed = raw_bot_messages_from_value(&messages, 42);
    assert_eq!(parsed.len(), 1);
    assert_eq!(parsed[0].message_id, 4);
    assert!(raw_bot_messages_from_value(&obj(vec![]), 42).is_empty());
    assert!(raw_bot_messages_from_value(&JsonNode::Null, 42).is_empty());
}
