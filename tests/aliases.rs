use nanji::config::{alias_for_canonical, alias_map, default_aliases, normalize_zone_name, Config};

fn no_config() -> Config {
    Config { zones: None, aliases: None }
}

#[test]
fn normalize_ignores_case() {
    let table = alias_map(&no_config());
    for raw in ["Tokyo", "tokyo", "TOKYO"] {
        assert_eq!(normalize_zone_name(raw, &table), Some("Asia/Tokyo".to_string()));
    }
    assert_eq!(normalize_zone_name("nonexistent", &table), None);
    assert_eq!(normalize_zone_name("Asia/Tokyo", &table), None);
}

#[test]
fn label_is_smallest_alias() {
    let table = alias_map(&no_config());
    for _ in 0..3 {
        assert_eq!(alias_for_canonical("America/Los_Angeles", &table), Some("california".to_string()));
    }
    assert_eq!(alias_for_canonical("America/New_York", &table), Some("new_york".to_string()));
    assert_eq!(alias_for_canonical("Asia/Tokyo", &table), Some("tokyo".to_string()));
    assert_eq!(alias_for_canonical("Europe/Paris", &table), None);
}

#[test]
fn user_aliases_override_builtins() {
    let config = Config {
        zones: None,
        aliases: Some(vec![
            ("Tokyo".to_string(), "Asia/Seoul".to_string()),
            ("Paris".to_string(), "Europe/Paris".to_string()),
        ]),
    };
    let table = alias_map(&config);
    assert_eq!(normalize_zone_name("tokyo", &table), Some("Asia/Seoul".to_string()));
    assert_eq!(normalize_zone_name("PARIS", &table), Some("Europe/Paris".to_string()));
    assert_eq!(alias_for_canonical("Europe/Paris", &table), Some("paris".to_string()));
    assert_eq!(alias_for_canonical("Asia/Tokyo", &table), None);
    assert_eq!(alias_for_canonical("Asia/Seoul", &table), Some("tokyo".to_string()));
}

#[test]
fn builtin_table_has_nine_aliases() {
    let d = default_aliases();
    assert_eq!(d.len(), 9);
    assert!(d.contains(&("dallas".to_string(), "America/Chicago".to_string())));
}
