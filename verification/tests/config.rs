use diurne::{derive_db_path, sort_dedup, validate_config, ConfigValidationError, ParsedConfig};

#[test]
fn tags_are_sorted_and_deduplicated() {
    let parsed = ParsedConfig {
        tags: vec![
            "food".to_string(),
            "auto".to_string(),
            "food".to_string(),
            "rent".to_string(),
        ],
        aliases: vec![],
    };
    let config = validate_config("ledger.toml", parsed).unwrap();
    assert_eq!(config.tags, vec!["auto", "food", "rent"]);
    assert!(config.aliases.is_empty());
    assert_eq!(config.database_path, "ledger.db");
}

#[test]
fn aliases_resolve_to_tag_indices() {
    let parsed = ParsedConfig {
        tags: vec!["food".to_string(), "auto".to_string()],
        aliases: vec![
            (
                "daily".to_string(),
                vec!["food".to_string(), "auto".to_string()],
            ),
            ("meals".to_string(), vec!["food".to_string()]),
        ],
    };
    let config = validate_config("ledger.toml", parsed).unwrap();
    // sorted tags: ["auto", "food"]
    assert_eq!(config.tags, vec!["auto", "food"]);
    assert_eq!(config.aliases.len(), 2);
    assert_eq!(config.aliases[0].0, "daily");
    assert_eq!(config.aliases[0].1, vec![1, 0]);
    assert_eq!(config.aliases[1].0, "meals");
    assert_eq!(config.aliases[1].1, vec![1]);
}

#[test]
fn unknown_alias_member_is_rejected() {
    let parsed = ParsedConfig {
        tags: vec!["food".to_string()],
        aliases: vec![(
            "daily".to_string(),
            vec!["food".to_string(), "nope".to_string()],
        )],
    };
    let err = validate_config("ledger.toml", parsed).unwrap_err();
    assert_eq!(
        err,
        ConfigValidationError::UnknownTag {
            name: "nope".to_string()
        }
    );
}

#[test]
fn first_unknown_name_is_reported() {
    let parsed = ParsedConfig {
        tags: vec!["food".to_string()],
        aliases: vec![
            (
                "a".to_string(),
                vec!["food".to_string(), "x".to_string()],
            ),
            ("b".to_string(), vec!["y".to_string()]),
        ],
    };
    let err = validate_config("ledger.toml", parsed).unwrap_err();
    assert_eq!(
        err,
        ConfigValidationError::UnknownTag {
            name: "x".to_string()
        }
    );
}

#[test]
fn empty_config_is_valid() {
    let parsed = ParsedConfig {
        tags: vec![],
        aliases: vec![],
    };
    let config = validate_config("c.toml", parsed).unwrap();
    assert!(config.tags.is_empty());
    assert!(config.aliases.is_empty());
    assert_eq!(config.database_path, "c.db");
}

#[test]
fn database_path_replaces_the_extension() {
    assert_eq!(derive_db_path("ledger.toml"), "ledger.db");
    assert_eq!(derive_db_path("a/b/conf.toml"), "a/b/conf.db");
    assert_eq!(derive_db_path("noext"), "noext.db");
    // a dot in a directory name does not start an extension
    assert_eq!(derive_db_path("dir.d/conf"), "dir.d/conf.db");
    // a leading dot does not start an extension either
    assert_eq!(derive_db_path(".hidden"), ".hidden.db");
    assert_eq!(derive_db_path("two.dots.toml"), "two.dots.db");
}

#[test]
fn sort_dedup_orders_lexicographically() {
    let tags = vec![
        "b".to_string(),
        "a".to_string(),
        "ab".to_string(),
        "a".to_string(),
        "".to_string(),
    ];
    assert_eq!(sort_dedup(&tags), vec!["", "a", "ab", "b"]);
    let none: Vec<String> = vec![];
    assert_eq!(sort_dedup(&none), none);
}
