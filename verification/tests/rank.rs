use std::collections::HashSet;

use dl_voice::rank::{
    allowed_subrank_roles, anchor_range, desired_channel_name, parse_channel, parse_mention,
    parse_subrank_role, rank_name_from_value, user_rank_from_roles, RRANG_INFO_BALANCING_RULE,
};

#[test]
fn anchor_range_wie_python() {
    assert_eq!(anchor_range(10, 3), (54, 72, 8, 11));
    assert_eq!(anchor_range(1, 1), (7, 16, 1, 2));
    assert_eq!(anchor_range(6, 3), (30, 48, 4, 7));
    assert_eq!(anchor_range(11, 6), (63, 72, 10, 11));
    assert_eq!(anchor_range(2, 5), (8, 26, 1, 4));
}

#[test]
fn neue_rrang_texte_bleiben_platzhalter() {
    assert_eq!(RRANG_INFO_BALANCING_RULE, "Platzhalter");
}

#[test]
fn subrank_rollen_parsing() {
    assert_eq!(
        parse_subrank_role("Ascendant 3"),
        Some(("Ascendant".to_string(), 10, 3))
    );
    assert_eq!(
        parse_subrank_role("Asc 3"),
        Some(("Ascendant".to_string(), 10, 3))
    );
    assert_eq!(
        parse_subrank_role("arch 2"),
        Some(("Archon".to_string(), 7, 2))
    );
    assert_eq!(parse_subrank_role("Phantom 7"), None);
    assert_eq!(parse_subrank_role("Moderator"), None);
}

#[test]
fn rang_aus_rollen() {
    let roles = vec![
        (1331458016356208680u64, "Phantom".to_string()),
        (99, "Asc 3".to_string()),
    ];
    assert_eq!(
        user_rank_from_roles(&roles),
        ("Ascendant".to_string(), 10, Some(3))
    );
    let roles = vec![(1331458016356208680u64, "Phantom".to_string())];
    assert_eq!(
        user_rank_from_roles(&roles),
        ("Phantom".to_string(), 9, None)
    );
    assert_eq!(
        user_rank_from_roles(&[(5, "Mod".to_string())]),
        ("Obscurus".to_string(), 0, None)
    );
}

#[test]
fn erlaubte_rollen_im_fenster() {
    let guild_roles = vec![
        (1, "Asc 1".to_string()),
        (2, "Phantom 6".to_string()),
        (3, "Emissary 3".to_string()),
        (4, "Eternus 6".to_string()),
        (5, "Moderator".to_string()),
    ];
    let allowed = allowed_subrank_roles(&guild_roles, 54, 72);
    assert_eq!(allowed, HashSet::from([1, 2, 4]));
}

#[test]
fn kanal_namen() {
    assert_eq!(
        desired_channel_name(Some(("Phantom", 3)), None),
        "Phantom 3"
    );
    assert_eq!(desired_channel_name(None, Some(("Seeker", 2))), "Seeker 2");
    assert_eq!(desired_channel_name(None, None), "Rang-Sprachkanal");
}

#[test]
fn rang_name_aus_wert() {
    assert_eq!(rank_name_from_value(0), "Obscurus");
    assert_eq!(rank_name_from_value(9), "Phantom");
    assert_eq!(rank_name_from_value(11), "Eternus");
    assert_eq!(rank_name_from_value(99), "Obscurus");
}

#[test]
fn mention_und_kanal_parsen() {
    assert_eq!(parse_mention("<@123>"), Some(123));
    assert_eq!(parse_mention("<@!456>"), Some(456));
    assert_eq!(parse_mention("abc"), None);
    assert_eq!(parse_channel("<#789>"), Some(789));
    assert_eq!(parse_channel("789"), Some(789));
    assert_eq!(parse_channel("foo"), None);
}

#[test]
fn hoechster_rang_gewinnt_und_namen_passen_zum_rang() {
    use_rank_checks();
}

fn use_rank_checks() {
    let (name, value, sub) = parse_subrank_role("  asc 3 ").expect("short form");
    assert_eq!((name.as_str(), value, sub), ("Ascendant", 10, 3));
    assert_eq!(rank_name_from_value(value), "Ascendant");
    let (name, value, _) = parse_subrank_role("ORACLE 1").expect("upper case");
    assert_eq!(name, "Oracle");
    assert_eq!(name, rank_name_from_value(value));
    let roles = vec![
        (1u64, "Seeker 6".to_string()),
        (2u64, "Oracle 1".to_string()),
        (3u64, "Oracle 1".to_string()),
        (4u64, "Alchemist 2".to_string()),
    ];
    let (best, v, s) = user_rank_from_roles(&roles);
    assert_eq!((best.as_str(), v, s), ("Oracle", 8, Some(1)));
    let (none, v0, s0) = user_rank_from_roles(&[(9u64, "Gast".to_string())]);
    assert_eq!((none.as_str(), v0, s0), ("Obscurus", 0, None));
}
