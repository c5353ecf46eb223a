use upsilon_dev::ukonf::ast::{
    AsKw, AstDecl, AstFile, AstFunctionCall, AstImport, AstItem, AstVal, BoolLit, CloseBrace, CloseBracket,
    CloseParen, Colon, Comma, CompilerKw, CxKw, DollarBrace, Dot, FileId, Ident, Import, LetKw, NumLit,
    OpenBrace, OpenBracket, OpenParen, Punctuated, Semicolon, Span, Spanned, Spread, StrLit, K, KV,
};
use upsilon_dev::ukonf::runner::{
    Scope, ScopeVar, CxKind, TempValue, UkonfBuiltinCompiler, UkonfBuiltinFn, UkonfFunctions, UkonfRunError,
    UkonfRunner,
};
use upsilon_dev::ukonf::value::{NumValue, UkonfFnError, UkonfObject, UkonfValue};
use upsilon_dev::ukonf::UkonfConfig;
use upsilon_dev::xtask::langmap::langmap_functions;
use upsilon_dev::xtask::ukonf_fns::{ukonf_ci_functions, ukonf_normal_functions, ukonf_xtask_path};

fn sp() -> Span {
    Span::new(0, 1, FileId(0))
}

fn ident(name: &str) -> Ident {
    Ident(Spanned(name.to_owned(), sp()))
}

fn num(v: i64) -> AstVal {
    AstVal::Num(NumLit::Int(Spanned(v, sp())))
}

fn text(v: &str) -> AstVal {
    AstVal::Str(StrLit::Apostrophe(Spanned(format!("'{v}'"), sp())))
}

fn var(name: &str) -> AstVal {
    AstVal::Ident(ident(name))
}

fn obj(items: Vec<AstItem>) -> AstVal {
    AstVal::Obj(OpenBrace(sp()), items, CloseBrace(sp()))
}

fn arr(values: Vec<AstVal>) -> AstVal {
    AstVal::Arr(OpenBracket(sp()), values, CloseBracket(sp()))
}

fn call(name: &str, args: Vec<AstVal>) -> AstVal {
    AstVal::FunctionCall(AstFunctionCall {
        name: ident(name),
        open_paren: OpenParen(sp()),
        args: Punctuated { values: args.into_iter().map(|a| (a, Comma(sp()))).collect(), trailing_value: None },
        close_paren: CloseParen(sp()),
    })
}

fn name_key(name: &str) -> K {
    K::Name(ident(name))
}

fn ref_key(inner: K) -> K {
    K::Ref(DollarBrace(sp()), Box::new(inner), CloseBrace(sp()))
}

fn patch(keys: Vec<K>, value: AstVal) -> AstItem {
    AstItem::DocPatch(KV { key: keys, colon: Some(Colon(sp())), value })
}

fn set(path: &[&str], value: AstVal) -> AstItem {
    patch(path.iter().map(|k| name_key(k)).collect(), value)
}

fn decl(name: &str, value: AstVal) -> AstItem {
    AstItem::Decl(AstDecl {
        let_kw: LetKw(sp()),
        cx_kw: None,
        name: ident(name),
        compiler: None,
        colon: Colon(sp()),
        value,
    })
}

fn cx_decl(name: &str, value: AstVal) -> AstItem {
    AstItem::Decl(AstDecl {
        let_kw: LetKw(sp()),
        cx_kw: Some(CxKw(sp())),
        name: ident(name),
        compiler: None,
        colon: Colon(sp()),
        value,
    })
}

fn compiled_decl(name: &str, compiler: &str, value: AstVal) -> AstItem {
    AstItem::Decl(AstDecl {
        let_kw: LetKw(sp()),
        cx_kw: None,
        name: ident(name),
        compiler: Some((CompilerKw(sp()), ident(compiler))),
        colon: Colon(sp()),
        value,
    })
}

fn render(v: &UkonfValue) -> String {
    match v {
        UkonfValue::Null => "null".to_owned(),
        UkonfValue::Num(NumValue::Int(i)) => i.to_string(),
        UkonfValue::Num(NumValue::Float(bits)) => f64::from_bits(*bits).to_string(),
        UkonfValue::Str(s) => format!("{s:?}"),
        UkonfValue::Bool(b) => b.to_string(),
        UkonfValue::Array(a) => format!("[{}]", a.iter().map(render).collect::<Vec<_>>().join(", ")),
        UkonfValue::Object(o) => render_object(o),
    }
}

fn render_object(o: &UkonfObject) -> String {
    let entries: Vec<String> = o.iter().into_iter().map(|(k, v)| format!("{k:?}: {}", render(v))).collect();
    format!("{{{}}}", entries.join(", "))
}

fn run_with(fns: UkonfFunctions, items: Vec<AstItem>) -> Result<UkonfObject, UkonfRunError> {
    let mut config = UkonfConfig::new(vec![]);
    let id = config.add_file("main.ukonf".to_owned(), String::new(), Some(AstFile { imports: vec![], items }));
    UkonfRunner::new(config, fns).run_file(id)
}

fn run(items: Vec<AstItem>) -> String {
    render_object(&run_with(ukonf_normal_functions(), items).unwrap())
}

#[test]
fn simple_entry() {
    assert_eq!(run(vec![set(&["a"], num(1))]), r#"{"a": 1}"#);
}

#[test]
fn two_entries_in_order() {
    assert_eq!(run(vec![set(&["a"], num(2)), set(&["c"], num(3))]), r#"{"a": 2, "c": 3}"#);
}

#[test]
fn variable_is_read_back() {
    assert_eq!(run(vec![decl("x", num(1)), set(&["a"], var("x"))]), r#"{"a": 1}"#);
}

#[test]
fn variable_read_in_another_variable() {
    let items = vec![decl("x", num(1)), decl("y", var("x")), set(&["a"], var("y"))];
    assert_eq!(run(items), r#"{"a": 1}"#);
}

#[test]
fn a_path_of_keys_nests_objects() {
    assert_eq!(run(vec![set(&["a", "b", "c", "d"], num(1))]), r#"{"a": {"b": {"c": {"d": 1}}}}"#);
}

#[test]
fn a_path_extends_an_existing_object_in_place() {
    let items = vec![set(&["a", "x"], num(1)), set(&["b"], num(2)), set(&["a", "y"], num(3))];
    assert_eq!(run(items), r#"{"a": {"x": 1, "y": 3}, "b": 2}"#);
}

#[test]
fn setting_a_key_again_moves_it_last() {
    let items = vec![set(&["a"], num(1)), set(&["b"], num(2)), set(&["a"], num(3))];
    assert_eq!(run(items), r#"{"b": 2, "a": 3}"#);
}

#[test]
fn reference_key() {
    let items = vec![decl("x", text("b")), patch(vec![name_key("a"), ref_key(name_key("x"))], num(1))];
    assert_eq!(run(items), r#"{"a": {"b": 1}}"#);
}

#[test]
fn reference_to_reference_key() {
    let items = vec![
        decl("x", text("y")),
        decl("y", text("b")),
        patch(vec![name_key("a"), ref_key(ref_key(name_key("x")))], num(1)),
    ];
    assert_eq!(run(items), r#"{"a": {"b": 1}}"#);
}

#[test]
fn reference_to_reference_key_does_not_enter_inner_scope() {
    let inner = obj(vec![decl("y", text("c")), patch(vec![name_key("a"), ref_key(ref_key(name_key("x")))], num(1))]);
    let items = vec![decl("x", text("y")), decl("y", text("b")), set(&["v"], inner)];
    assert_eq!(run(items), r#"{"v": {"a": {"b": 1}}}"#);
}

#[test]
fn object_and_array_values() {
    let items = vec![set(&["a", "b"], obj(vec![set(&["c"], num(1))])), set(&["d"], arr(vec![num(1), text("x")]))];
    assert_eq!(run(items), r#"{"a": {"b": {"c": 1}}, "d": [1, "x"]}"#);
}

#[test]
fn get_key_of_a_variable() {
    let x = obj(vec![set(&["a"], num(1)), set(&["b"], num(2))]);
    let items = vec![decl("x", x), set(&["a"], AstVal::Dot(ident("x"), Dot(sp()), name_key("b")))];
    assert_eq!(run(items), r#"{"a": 2}"#);
}

#[test]
fn get_key_of_a_variable_through_references() {
    let x = obj(vec![set(&["a"], num(1)), set(&["b"], num(2))]);
    let items = vec![
        decl("x", x),
        decl("y", text("a")),
        decl("z", text("y")),
        set(&["a"], AstVal::Dot(ident("x"), Dot(sp()), ref_key(ref_key(name_key("z"))))),
    ];
    assert_eq!(run(items), r#"{"a": 1}"#);
}

#[test]
fn concat_joins_strings() {
    let items = vec![decl("x", text("a")), decl("y", text("b")), set(&["a"], call("concat", vec![var("x"), var("y")]))];
    assert_eq!(run(items), r#"{"a": "ab"}"#);
}

#[test]
fn spread_into_array_and_object() {
    let items = vec![
        decl("xs", arr(vec![num(1), num(2)])),
        decl("o", obj(vec![set(&["k"], num(3))])),
        set(&["a"], arr(vec![num(0), AstVal::Spread(Spread(sp()), ident("xs"))])),
        AstItem::DocPatchSpread(Spread(sp()), ident("o")),
    ];
    assert_eq!(run(items), r#"{"a": [0, 1, 2], "k": 3}"#);
}

#[test]
fn booleans_null_and_floats() {
    let items = vec![
        set(&["t"], AstVal::Bool(BoolLit { value: true, span: sp() })),
        set(&["n"], AstVal::Null(upsilon_dev::ukonf::ast::Null(sp()))),
        set(&["f"], AstVal::Num(NumLit::Float(Spanned(1.5f64.to_bits(), sp())))),
    ];
    assert_eq!(run(items), r#"{"t": true, "n": null, "f": 1.5}"#);
}

#[test]
fn xtask_compiler_builds_the_command() {
    let job = obj(vec![set(&["run"], call("xtask", vec![text("build")]))]);
    let items = vec![
        cx_decl("xtask_artifact_path", text("/bin/xtask")),
        compiled_decl("job", "xtask", job),
        set(&["a"], var("job")),
    ];
    let r = run_with(ukonf_ci_functions(), items).unwrap();
    assert_eq!(render_object(&r), r#"{"a": {"run": "/bin/xtask build"}}"#);
}

#[test]
fn xtask_compiler_reads_context_of_the_reader() {
    let job = obj(vec![set(&["run"], call("xtask", vec![text("test")]))]);
    let reader = obj(vec![cx_decl("xtask_cargo_run", AstVal::Bool(BoolLit { value: true, span: sp() })), set(&["x"], var("job"))]);
    let items = vec![
        cx_decl("xtask_artifact_path", text("dir/xtask")),
        cx_decl("xtask_is_win", AstVal::Bool(BoolLit { value: true, span: sp() })),
        compiled_decl("job", "xtask", job),
        set(&["a"], var("job")),
        set(&["b"], reader),
    ];
    let r = run_with(ukonf_ci_functions(), items).unwrap();
    assert_eq!(render_object(&r), r#"{"a": {"run": "dir\\xtask.exe test"}, "b": {"x": {"run": "cargo xtask test"}}}"#);
}

#[test]
fn undefined_variable_is_an_error() {
    match run_with(ukonf_normal_functions(), vec![set(&["a"], var("nope"))]) {
        Err(UkonfRunError::UndefinedVariable(name, _)) => assert_eq!(name, "nope"),
        other => panic!("unexpected {:?}", other.map(|o| render_object(&o)).err().is_some()),
    }
}

#[test]
fn unknown_function_is_an_error() {
    match run_with(ukonf_normal_functions(), vec![set(&["a"], call("xtask", vec![text("b")]))]) {
        Err(UkonfRunError::UnknownFunction(name, _)) => assert_eq!(name, "xtask"),
        _ => panic!("expected an unknown function"),
    }
}

#[test]
fn unknown_compiler_is_an_error() {
    match run_with(ukonf_normal_functions(), vec![compiled_decl("x", "xtask", num(1))]) {
        Err(UkonfRunError::UnknownFunction(name, _)) => assert_eq!(name, "xtask"),
        _ => panic!("expected an unknown compiler"),
    }
}

#[test]
fn spread_outside_an_array_is_an_error() {
    let items = vec![decl("xs", arr(vec![])), decl("y", AstVal::Spread(Spread(sp()), ident("xs")))];
    assert!(matches!(run_with(ukonf_normal_functions(), items), Err(UkonfRunError::SpreadNotAllowedHere(_, _))));
}

#[test]
fn spreading_a_non_array_into_an_array_is_an_error() {
    let items = vec![decl("x", num(1)), set(&["a"], arr(vec![AstVal::Spread(Spread(sp()), ident("x"))]))];
    assert!(matches!(
        run_with(ukonf_normal_functions(), items),
        Err(UkonfRunError::SpreadToArrayNotArray(UkonfValue::Num(NumValue::Int(1)), _))
    ));
}

#[test]
fn spreading_a_non_object_into_the_document_is_an_error() {
    let items = vec![decl("x", num(1)), AstItem::DocPatchSpread(Spread(sp()), ident("x"))];
    assert!(matches!(run_with(ukonf_normal_functions(), items), Err(UkonfRunError::SpreadToObjectNotObject(_, _))));
}

#[test]
fn patching_under_a_non_object_is_an_error() {
    let items = vec![set(&["a"], num(1)), set(&["a", "b"], num(2))];
    assert!(matches!(
        run_with(ukonf_normal_functions(), items),
        Err(UkonfRunError::ExpectedObject(UkonfValue::Num(NumValue::Int(1)), _))
    ));
}

#[test]
fn a_reference_key_must_name_a_string() {
    let items = vec![decl("x", num(1)), patch(vec![ref_key(name_key("x"))], num(2))];
    assert!(matches!(run_with(ukonf_normal_functions(), items), Err(UkonfRunError::ExpectedString(_, _))));
}

#[test]
fn function_errors_are_reported() {
    let items = vec![set(&["a"], call("concat", vec![num(1)]))];
    match run_with(ukonf_normal_functions(), items) {
        Err(UkonfRunError::FnError(UkonfFnError::Message(m), _)) => assert_eq!(m, "concat: expected string"),
        _ => panic!("expected a function error"),
    }
}

#[test]
fn imports_are_bound_to_variables() {
    let mut config = UkonfConfig::new(vec![]);
    let lib_items = vec![set(&["x"], num(7))];
    let lib = config.add_file("lib.ukonf".to_owned(), String::new(), Some(AstFile { imports: vec![], items: lib_items }));
    let mut named = AstImport::new(Import(sp()), text("lib.ukonf"), Some((AsKw(sp()), ident("l"))), Semicolon(sp()));
    named.resolve_to(lib);
    let mut unnamed = AstImport::new(Import(sp()), text("lib.ukonf"), None, Semicolon(sp()));
    unnamed.resolve_to(lib);
    assert_eq!(unnamed.resolved(), Some(lib));
    let items = vec![
        set(&["a"], AstVal::Dot(ident("l"), Dot(sp()), name_key("x"))),
        set(&["b"], var("import_1")),
    ];
    let main = config.add_file(
        "main.ukonf".to_owned(),
        String::new(),
        Some(AstFile { imports: vec![named, unnamed], items }),
    );
    let r = UkonfRunner::new(config, ukonf_normal_functions()).run_file(main).unwrap();
    assert_eq!(render_object(&r), r#"{"a": 7, "b": {"x": 7}}"#);
}

#[test]
fn registry_keeps_the_last_function_of_a_name() {
    let fns = UkonfFunctions::new()
        .with_fn("f".to_owned(), UkonfBuiltinFn::Concat)
        .with_fn("f".to_owned(), UkonfBuiltinFn::WinPath);
    assert_eq!(fns.function("f"), Some(UkonfBuiltinFn::WinPath));
    assert_eq!(fns.function("g"), None);
    let mut fns = fns;
    fns.add_compiler_fn("c".to_owned(), UkonfBuiltinCompiler::Xtask);
    assert_eq!(fns.compiler("c"), Some(UkonfBuiltinCompiler::Xtask));
    let r = run_with(fns, vec![set(&["a"], call("f", vec![text("a/b")]))]).unwrap();
    assert_eq!(render_object(&r), r#"{"a": "a\\b"}"#);
}

#[test]
fn scope_lookups() {
    let mut scope = Scope::new();
    scope.declare(ScopeVar { name: "a".to_owned(), kind: CxKind::Cx, value: UkonfValue::Num(NumValue::Int(1)), compiler: None });
    scope.declare(ScopeVar { name: "b".to_owned(), kind: CxKind::Local, value: UkonfValue::Num(NumValue::Int(2)), compiler: None });
    scope.push_frame();
    scope.declare(ScopeVar { name: "a".to_owned(), kind: CxKind::Local, value: UkonfValue::Num(NumValue::Int(3)), compiler: None });
    assert_eq!(scope.depth(), 2);
    assert!(matches!(scope.resolve("a"), Some(Ok(UkonfValue::Num(NumValue::Int(3))))));
    assert!(scope.resolve_cx("a").is_none());
    assert!(scope.resolve_cx("b").is_none());
    assert!(scope.resolve("c").is_none());
    scope.pop_frame();
    assert!(matches!(scope.resolve_cx("a"), Some(Ok(UkonfValue::Num(NumValue::Int(1))))));
    assert!(matches!(scope.cx_var(1, "a"), Some((UkonfValue::Num(NumValue::Int(1)), None))));
}

#[test]
fn xtask_path_needs_the_artifact_path() {
    let scope = Scope::new();
    match ukonf_xtask_path(&scope, 1) {
        Err(UkonfFnError::Message(m)) => assert_eq!(m, "xtask_path: xtask_artifact_path not found"),
        _ => panic!("expected an error"),
    }
}

#[test]
fn spread_to_array_of_values() {
    let xs = TempValue::Spread(sp(), UkonfValue::Array(vec![UkonfValue::Null]), sp()).spread_to_array().unwrap();
    assert_eq!(xs.len(), 1);
    let one = TempValue::RealValue(UkonfValue::Bool(true)).spread_to_array().unwrap();
    assert!(matches!(one[0], UkonfValue::Bool(true)));
    assert!(TempValue::Spread(sp(), UkonfValue::Null, sp()).spread_to_array().is_err());
}

#[test]
fn lang_function_checks_definitions() {
    let def = obj(vec![set(&["name"], text("Text")), set(&["parent"], AstVal::Null(upsilon_dev::ukonf::ast::Null(sp())))]);
    let r = run_with(langmap_functions(), vec![set(&["text"], call("lang", vec![def]))]).unwrap();
    assert_eq!(render_object(&r), r#"{"text": {"name": "Text", "parent": null}}"#);
    let bad = obj(vec![set(&["colour"], text("red"))]);
    match run_with(langmap_functions(), vec![set(&["x"], call("lang", vec![bad]))]) {
        Err(UkonfRunError::FnError(UkonfFnError::Message(m), _)) => assert_eq!(m, "lang: unknown key colour"),
        _ => panic!("expected a function error"),
    }
}

#[test]
fn xtask_compiler_needs_a_run_entry() {
    let items = vec![
        compiled_decl("job", "xtask", obj(vec![set(&["x"], num(1))])),
        set(&["a"], var("job")),
    ];
    match run_with(ukonf_ci_functions(), items) {
        Err(UkonfRunError::FnError(UkonfFnError::Message(m), _)) => assert_eq!(m, "xtask: expected run"),
        _ => panic!("expected a compiler error"),
    }
}

#[test]
fn xtask_compiler_fails_on_a_context_variable_it_cannot_compile() {
    let items = vec![
        AstItem::Decl(AstDecl {
            let_kw: LetKw(sp()),
            cx_kw: Some(CxKw(sp())),
            name: ident("xtask_artifact_path"),
            compiler: Some((CompilerKw(sp()), ident("xtask"))),
            colon: Colon(sp()),
            value: text("/bin/xtask"),
        }),
        compiled_decl("job", "xtask", obj(vec![set(&["run"], call("xtask", vec![text("b")]))])),
        set(&["a"], var("job")),
    ];
    match run_with(ukonf_ci_functions(), items) {
        Err(UkonfRunError::FnError(UkonfFnError::Message(m), _)) => assert_eq!(m, "xtask: expected object"),
        _ => panic!("expected a compiler error"),
    }
}

#[test]
fn no_carriage_return() {
    let lit = AstVal::Str(StrLit::TripleQuote(Spanned("\"\"\" \r\n \"\"\"".to_owned(), sp())));
    assert_eq!(run(vec![set(&["a"], lit)]), r#"{"a": " \n "}"#);
}
