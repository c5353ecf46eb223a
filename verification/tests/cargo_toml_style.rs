use upsilon_dev::xtask::cargo_toml_style::{
    check_dep_order, check_dep_order_for_table, check_if_any_deps_in_ws_deps, dependency_names,
    doc_extract_key_path_table, TomlDocument, TomlItem,
};
use upsilon_dev::xtask::cargo_toml_style::{dep_table_is_checkable, parse_manifest, ws_deps_are_checkable};

fn version(v: &str) -> TomlItem {
    TomlItem::Str(v.to_owned())
}

fn table(entries: Vec<(&str, TomlItem)>) -> TomlItem {
    TomlItem::Table(entries.into_iter().map(|(k, v)| (k.to_owned(), v)).collect())
}

fn inline(entries: Vec<(&str, TomlItem)>) -> TomlItem {
    TomlItem::InlineTable(entries.into_iter().map(|(k, v)| (k.to_owned(), v)).collect())
}

fn manifest(deps: Vec<(&str, TomlItem)>) -> TomlDocument {
    TomlDocument {
        root: vec![
            ("package".to_owned(), table(vec![("name", version("x"))])),
            ("dependencies".to_owned(), table(deps)),
        ],
    }
}

fn pairs(v: &[(String, String)]) -> Vec<(&str, &str)> {
    v.iter().map(|(a, b)| (a.as_str(), b.as_str())).collect()
}

#[test]
fn key_paths_lead_through_tables() {
    let doc = TomlDocument {
        root: vec![(
            "workspace".to_owned(),
            table(vec![("dependencies", table(vec![("serde", version("1"))]))]),
        )],
    };
    let (k, item) = doc_extract_key_path_table(&doc, &["workspace", "dependencies"]).unwrap();
    assert_eq!(k, "dependencies");
    assert_eq!(dependency_names(item), Some(vec!["serde".to_owned()]));
    assert!(doc_extract_key_path_table(&doc, &["workspace", "members"]).is_none());
    assert!(doc_extract_key_path_table(&doc, &["dependencies"]).is_none());
    assert!(doc_extract_key_path_table(&doc, &[]).is_none());
    assert_eq!(dependency_names(&version("1")), None);
}

#[test]
fn ordered_dependencies_pass() {
    let doc = manifest(vec![
        ("anyhow", version("1")),
        ("serde", version("1")),
        ("upsilon-core", version("0")),
        ("upsilon-web", version("0")),
    ]);
    let mut out = Vec::new();
    check_dep_order_for_table(&mut out, &doc, &["dependencies"]);
    assert!(out.is_empty());
}

#[test]
fn misordered_dependencies_are_reported() {
    let doc = manifest(vec![
        ("serde", version("1")),
        ("anyhow", version("1")),
        ("upsilon-web", version("0")),
        ("upsilon-core", version("0")),
        ("tokio", version("1")),
    ]);
    let mut out = Vec::new();
    check_dep_order_for_table(&mut out, &doc, &["dependencies"]);
    assert_eq!(
        pairs(&out),
        vec![
            ("anyhow", "anyhow should be before serde"),
            ("upsilon-core", "upsilon-core should be before upsilon-web"),
            ("tokio", "upsilon deps should be last"),
        ]
    );
    let mut none = Vec::new();
    check_dep_order_for_table(&mut none, &doc, &["dev-dependencies"]);
    assert!(none.is_empty());
}

#[test]
fn dependency_order_by_file() {
    let good = manifest(vec![("a", version("1")), ("b", version("1"))]);
    let bad = manifest(vec![("b", version("1")), ("a", version("1"))]);
    let mut out = Vec::new();
    check_dep_order("good/Cargo.toml".to_owned(), &mut out, &[&["dependencies"][..]], &good);
    assert!(out.is_empty());
    check_dep_order("bad/Cargo.toml".to_owned(), &mut out, &[&["dependencies"][..], &["dev-dependencies"][..]], &bad);
    assert_eq!(out.len(), 1);
    assert_eq!(out[0].0, "bad/Cargo.toml");
    assert_eq!(pairs(&out[0].1), vec![("a", "a should be before b")]);
}

#[test]
fn redeclared_workspace_dependencies() {
    let ws_deps = vec!["serde".to_owned(), "tokio".to_owned(), "log".to_owned(), "rand".to_owned()];
    let doc = manifest(vec![
        ("serde", version("1")),
        ("tokio", inline(vec![("workspace", TomlItem::Bool(true))])),
        ("log", inline(vec![("version", version("0.4"))])),
        ("rand", inline(vec![("workspace", TomlItem::Bool(false))])),
        ("anyhow", version("1")),
    ]);
    let mut out = Vec::new();
    check_if_any_deps_in_ws_deps("crate/Cargo.toml".to_owned(), &ws_deps, &mut out, &doc);
    assert_eq!(
        out,
        vec![(
            "crate/Cargo.toml".to_owned(),
            vec!["serde".to_owned(), "log".to_owned(), "rand".to_owned()]
        )]
    );

    let clean = manifest(vec![("tokio", inline(vec![("workspace", TomlItem::Bool(true))]))]);
    let mut out = Vec::new();
    check_if_any_deps_in_ws_deps("c/Cargo.toml".to_owned(), &ws_deps, &mut out, &clean);
    assert!(out.is_empty());
    let no_deps = TomlDocument { root: vec![] };
    check_if_any_deps_in_ws_deps("d/Cargo.toml".to_owned(), &ws_deps, &mut out, &no_deps);
    assert!(out.is_empty());
}

#[test]
fn manifest_text_is_parsed_into_entries() {
    let doc = parse_manifest("[package]\nname = \"x\"\n\n[dependencies]\nserde = { workspace = true }\nlog = \"0.4\"\n").unwrap();
    assert_eq!(
        doc,
        TomlDocument {
            root: vec![
                ("package".to_owned(), table(vec![("name", version("x"))])),
                (
                    "dependencies".to_owned(),
                    table(vec![("serde", inline(vec![("workspace", TomlItem::Bool(true))])), ("log", version("0.4"))]),
                ),
            ],
        }
    );
    assert!(parse_manifest("[dependencies\n").is_none());
}

#[test]
fn checkability_of_manifests() {
    let doc = parse_manifest("[workspace.dependencies]\na = \"1\"\n").unwrap();
    assert!(dep_table_is_checkable(&doc, &["workspace", "dependencies"]));
    assert!(dep_table_is_checkable(&doc, &["dependencies"]));
    let bad = parse_manifest("workspace = 1\n").unwrap();
    assert!(!dep_table_is_checkable(&bad, &["workspace", "dependencies"]));
    assert!(!dep_table_is_checkable(&doc, &[]));
    let deps = parse_manifest("[dependencies]\na = { workspace = 3 }\nb = 1\n").unwrap();
    assert!(!ws_deps_are_checkable(&deps, &["a".to_owned()]));
    assert!(!ws_deps_are_checkable(&deps, &["b".to_owned()]));
    assert!(ws_deps_are_checkable(&deps, &["c".to_owned()]));
    let not_table = parse_manifest("dependencies = 1\n").unwrap();
    assert!(!ws_deps_are_checkable(&not_table, &[]));
}
