use upsilon_dev::xtask::ws_layout::{layout_member, one_of, ws_layout_source, MemberKind};

#[test]
fn exactly_one_flag() {
    assert!(one_of(&[false, true, false, false]));
    assert!(one_of(&[true]));
    assert!(!one_of(&[false, false]));
    assert!(!one_of(&[]));
    assert!(!one_of(&[true, false, true]));
    assert!(!one_of(&[false, true, true]));
}

#[test]
fn members_are_named_and_placed() {
    let m = layout_member(
        "upsilon-web",
        "/ws/crates/upsilon-web",
        "/ws",
        &vec!["upsilon-web".to_owned(), "gen-keys".to_owned()],
    );
    assert_eq!(m.pkg_name, "upsilon-web");
    assert_eq!(m.rustic_name, "upsilon_web");
    assert_eq!(m.kind, MemberKind::Crates);
    assert_eq!(
        m.bins,
        vec![
            ("upsilon_web_main".to_owned(), "upsilon-web".to_owned()),
            ("upsilon_web_gen-keys".to_owned(), "gen-keys".to_owned()),
        ]
    );
    let t = layout_member("fmt", "/ws/tools/fmt", "/ws", &vec![]);
    assert_eq!(t.kind, MemberKind::Tools { path_in_ws: "tools/fmt".to_owned() });
    assert_eq!(layout_member("d", "/ws/dev/d", "/ws", &vec![]).kind, MemberKind::Dev);
    assert_eq!(layout_member("p", "/ws/plugins/p", "/ws", &vec![]).kind, MemberKind::Plugins);
}

#[test]
fn layout_source() {
    let members = vec![
        layout_member("upsilon-xtask", "/ws/dev/upsilon-xtask", "/ws", &vec!["upsilon-xtask".to_owned()]),
        layout_member("fmt", "/ws/tools/fmt", "/ws", &vec![]),
    ];
    let src = ws_layout_source(&members);
    let expected = [
        "pub struct WsPkgLayout {\n",
        "    pub upsilon_xtask: upsilon_xtask::pkg::Pkg,\n",
        "    pub fmt: upsilon_xtask::pkg::Pkg,\n",
        "}\n\n",
        "\nlazy_static::lazy_static! {\n    pub static ref WS_PKG_LAYOUT: WsPkgLayout = WsPkgLayout {\n",
        "        upsilon_xtask: upsilon_xtask::pkg::Pkg::dev_pkg(\"upsilon-xtask\"),\n",
        "        fmt: upsilon_xtask::pkg::Pkg::tool_pkg(\"fmt\", \"tools/fmt\"),\n",
        "    };\n}\n\n",
        "\nimpl WsPkgLayout {\n    pub fn package_from_str(name: &str) -> Option<&'static upsilon_xtask::pkg::Pkg> {\n        ",
        "match name {\n",
        "            \"upsilon-xtask\" => Some(&WS_PKG_LAYOUT.upsilon_xtask),\n",
        "            \"fmt\" => Some(&WS_PKG_LAYOUT.fmt),\n",
        "            _ => None,\n        }",
        "\n    }\n}\n",
        "pub struct WsBinLayout {\n",
        "    pub upsilon_xtask_main: upsilon_xtask::pkg::BinTarget<'static>,\n",
        "}\n\n",
        "\nlazy_static::lazy_static! {\n    pub static ref WS_BIN_LAYOUT: WsBinLayout = WsBinLayout {\n",
        "        upsilon_xtask_main: upsilon_xtask::pkg::BinTarget::new(&WS_PKG_LAYOUT.upsilon_xtask, \"upsilon-xtask\"),\n",
        "    };\n}\n\n",
        "\n\nlazy_static::lazy_static! {\n    pub static ref DOCS: upsilon_xtask::docusaurus::Docusaurus = upsilon_xtask::docusaurus::Docusaurus::new(upsilon_xtask::ws_path!(\"docs\"));\n}\n",
    ]
    .concat();
    assert_eq!(src, expected);
}
