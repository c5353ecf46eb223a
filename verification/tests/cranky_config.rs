use upsilon_dev::cranky::{CrankyConfig, LintLevel, LintLevelOrGroup, LintMap};

fn level_of(s: &str) -> LintLevel {
    match s {
        "allow" => LintLevel::Allow,
        "warn" => LintLevel::Warn,
        "force_warn" => LintLevel::ForceWarn,
        "deny" => LintLevel::Deny,
        "forbid" => LintLevel::Forbid,
        other => panic!("unknown lint level {other}"),
    }
}

fn lint_map(entries: Vec<(&str, &toml_edit::Item)>) -> LintMap {
    let mut map = LintMap::new();
    for (k, item) in entries {
        let v = match item {
            toml_edit::Item::Value(toml_edit::Value::String(s)) => LintLevelOrGroup::Level(level_of(s.value())),
            toml_edit::Item::Table(t) => LintLevelOrGroup::Group(lint_map(t.iter().collect())),
            other => panic!("unexpected lint entry {other}"),
        };
        map.insert(k.to_owned(), v);
    }
    map
}

fn config_from_toml(text: &str) -> CrankyConfig {
    let doc: toml_edit::Document = text.parse().unwrap();
    CrankyConfig::from_lint_map(&lint_map(doc.as_table().iter().collect()))
}

fn lints(config: &CrankyConfig) -> Vec<(String, LintLevel)> {
    config.lints().iter().map(|l| (l.name().to_owned(), l.level())).collect()
}

#[test]
fn parse_toml_1() {
    let toml_bytes = r#"
            aaa = "warn"
            bbb = "warn"
            "#;
    let config = config_from_toml(toml_bytes);

    assert_eq!(
        lints(&config),
        vec![("aaa".to_owned(), LintLevel::Warn), ("bbb".to_owned(), LintLevel::Warn)]
    );
}

#[test]
fn parse_toml_2() {
    let toml_bytes = r#"
            aaa = "allow"
            bbb = "warn"
            ccc = "deny"
        "#;
    let config = config_from_toml(toml_bytes);

    assert_eq!(
        lints(&config),
        vec![
            ("ccc".to_owned(), LintLevel::Deny),
            ("bbb".to_owned(), LintLevel::Warn),
            ("aaa".to_owned(), LintLevel::Allow),
        ]
    );

    let args = config.extra_right_args().join(" ");
    assert_eq!(args, "-Dccc -Wbbb -Aaaa");
}

#[test]
fn lint_map_keeps_keys_in_order() {
    let mut map = LintMap::new();
    map.insert("ccc".to_owned(), LintLevelOrGroup::Level(LintLevel::Warn));
    map.insert("aaa".to_owned(), LintLevelOrGroup::Level(LintLevel::Warn));
    map.insert("bbb".to_owned(), LintLevelOrGroup::Level(LintLevel::Allow));
    map.insert("bbb".to_owned(), LintLevelOrGroup::Level(LintLevel::Warn));
    let config = CrankyConfig::from_lint_map(&map);
    assert_eq!(config.extra_right_args().join(" "), "-Waaa -Wbbb -Wccc");
}
