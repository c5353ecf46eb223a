use upsilon_dev::xtask::langmap::{langmap_source, LangDef, LangDefRule, MatcherCondition};

fn strings(v: &[&str]) -> Vec<String> {
    v.iter().map(|s| s.to_string()).collect()
}

#[test]
fn rules_compile_to_matchers() {
    let rule = LangDefRule::Any(vec![
        LangDefRule::FileExt(strings(&["rs"])),
        LangDefRule::All(vec![LangDefRule::FileName(strings(&["Cargo.toml"])), LangDefRule::FileExt(vec![])]),
    ]);
    assert_eq!(
        rule.compile_matcher().render(),
        "(((file_name.endsWith('rs'))) || (((file_name == 'Cargo.toml')) && false))"
    );
    assert_eq!(LangDefRule::All(vec![]).compile_matcher().render(), "true");
    assert_eq!(LangDefRule::Any(vec![]).compile_matcher().render(), "false");
    assert_eq!(
        LangDefRule::FileExt(strings(&["ts", "tsx"])).compile_matcher().render(),
        "((file_name.endsWith('ts')) || (file_name.endsWith('tsx')))"
    );
    assert_eq!(MatcherCondition::PathContains("/.github/".to_owned()).render(), "file_path.contains('/.github/')");
}

#[test]
fn langmap_module_source() {
    let langs = vec![
        LangDef {
            name: "Text".to_owned(),
            id: "text".to_owned(),
            parent: None,
            hljs: None,
            icon: Some("file".to_owned()),
            rule: LangDefRule::All(vec![]),
        },
        LangDef {
            name: "Rust".to_owned(),
            id: "rust".to_owned(),
            parent: Some("text".to_owned()),
            hljs: Some("rust".to_owned()),
            icon: None,
            rule: LangDefRule::FileExt(strings(&["rs"])),
        },
    ];
    let (imports, table) = langmap_source(&langs);
    assert_eq!(
        imports,
        "import type {Lang} from './langMap';\nimport rust_hljs from 'svelte-highlight/languages/rust';\n"
    );
    let entries = [
        "\nconst LANGS: {[keys: string]: Lang} = {\n",
        "text: {\n",
        "id: 'text', \n",
        "name: 'Text', \n",
        "icon: 'file', \n",
        "children: [\n",
        "'rust',\n",
        "],\n",
        "matcher: (file_path: string, file_name: string) => {\n    return true;\n},\n",
        "},\n",
        "rust: {\n",
        "id: 'rust', \n",
        "name: 'Rust', \n",
        "hljs: 'rust', \n",
        "hljs_def: rust_hljs, \n",
        "parent: 'text', \n",
        "matcher: (file_path: string, file_name: string) => {\n    return ((file_name.endsWith('rs')));\n},\n",
        "},\n",
        "\n};\n",
    ]
    .concat();
    assert!(table.starts_with(&entries), "{table}");
    assert!(table.ends_with("\treturn lang.hljs_def;\n};\n"));
}
