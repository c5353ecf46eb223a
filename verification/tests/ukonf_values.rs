use upsilon_dev::ukonf::value::{ExpectedKind, NumValue, UkonfFnError, UkonfObject, UkonfValue};
use upsilon_dev::xtask::langmap::lang_ukonf;
use upsilon_dev::xtask::ukonf_fns::{ukonf_concat_strings, ukonf_parent_dir};

fn s(v: &str) -> UkonfValue {
    UkonfValue::Str(v.to_owned())
}

fn keys(o: &UkonfObject) -> Vec<String> {
    o.iter().into_iter().map(|(k, _)| k.clone()).collect()
}

fn str_of(v: Option<&UkonfValue>) -> Option<&str> {
    v.and_then(|v| v.as_string()).map(String::as_str)
}

#[test]
fn objects_keep_the_order_keys_were_last_set() {
    let mut o = UkonfObject::new();
    assert!(o.iter().is_empty());
    o.insert("b".to_owned(), s("1"));
    o.insert("a".to_owned(), s("2"));
    o.insert("c".to_owned(), UkonfValue::Num(NumValue::Int(3)));
    assert_eq!(keys(&o), vec!["b", "a", "c"]);
    assert_eq!(str_of(o.get("a")), Some("2"));
    assert!(o.get("z").is_none());

    o.insert("b".to_owned(), s("4"));
    assert_eq!(keys(&o), vec!["a", "c", "b"]);
    assert_eq!(str_of(o.get("b")), Some("4"));

    let o = o.with("a".to_owned(), UkonfValue::Bool(true));
    let pairs = o.into_iter();
    let names: Vec<&str> = pairs.iter().map(|(k, _)| k.as_str()).collect();
    assert_eq!(names, vec!["c", "b", "a"]);
    assert!(matches!(pairs[2].1, UkonfValue::Bool(true)));
    assert!(matches!(pairs[0].1, UkonfValue::Num(NumValue::Int(3))));
}

#[test]
fn values_of_the_expected_kind() {
    assert_eq!(s("x").expect_string().unwrap(), "x");
    let e = UkonfValue::Null.expect_string().unwrap_err();
    assert_eq!(e.expected, ExpectedKind::String);
    assert!(matches!(e.got, UkonfValue::Null));
    assert_eq!(e.expected.name(), "string");
    assert!(UkonfValue::Bool(false).expect_bool().map(|b| !b).unwrap());
    assert_eq!(UkonfValue::Array(vec![s("a")]).expect_array().unwrap().len(), 1);
    assert_eq!(s("x").expect_object().unwrap_err().expected, ExpectedKind::Object);
    assert!(UkonfObject::new().into_value().as_object().is_some());
    assert!(matches!(s("y").into_string(), Ok(ref v) if v == "y"));
    assert!(matches!(UkonfValue::Null.into_string(), Err(UkonfValue::Null)));
}

fn message(r: Result<UkonfValue, UkonfFnError>) -> String {
    match r {
        Err(UkonfFnError::Message(m)) => m,
        other => panic!("expected a message, got {other:?}"),
    }
}

#[test]
fn concat_and_parent_dir() {
    let r = ukonf_concat_strings(&[s("ab"), s(""), s("cd")]).unwrap();
    assert_eq!(r.as_string().unwrap(), "abcd");
    assert_eq!(message(ukonf_concat_strings(&[s("a"), UkonfValue::Null])), "concat: expected string");
    assert_eq!(ukonf_parent_dir(&[s("a/b/c.txt")]).unwrap().as_string().unwrap(), "a/b");
    assert_eq!(ukonf_parent_dir(&[s("a\\b\\c.txt")]).unwrap().as_string().unwrap(), "a/b");
    assert_eq!(message(ukonf_parent_dir(&[])), "parent_dir: expected exactly one argument");
    assert_eq!(message(ukonf_parent_dir(&[UkonfValue::Bool(true)])), "parent_dir: expected string");
    assert_eq!(message(ukonf_parent_dir(&[s("/")])), "parent_dir: no parent");
}

#[test]
fn language_definitions() {
    let def = UkonfObject::new()
        .with("name".to_owned(), s("Rust"))
        .with("parent".to_owned(), UkonfValue::Null)
        .with("rule".to_owned(), UkonfObject::new().into_value())
        .with("hljs".to_owned(), s("rust"));
    let r = lang_ukonf(vec![def.into_value()]).unwrap();
    let o = r.as_object().unwrap();
    assert_eq!(keys(o), vec!["name", "parent", "rule", "hljs"]);
    assert_eq!(str_of(o.get("name")), Some("Rust"));

    assert_eq!(message(lang_ukonf(vec![])), "lang function expects 1 argument, got 0");
    assert_eq!(message(lang_ukonf(vec![s("a"), s("b")])), "lang function expects 1 argument, got 2");
    let bad = UkonfObject::new().with("colour".to_owned(), s("red"));
    assert_eq!(message(lang_ukonf(vec![bad.into_value()])), "lang: unknown key colour");
    let bad = UkonfObject::new().with("parent".to_owned(), UkonfValue::Bool(true));
    assert_eq!(message(lang_ukonf(vec![bad.into_value()])), "parent must be a string or null");
    let bad = UkonfObject::new().with("name".to_owned(), UkonfValue::Null);
    match lang_ukonf(vec![bad.into_value()]) {
        Err(UkonfFnError::Value(e)) => assert_eq!(e.expected, ExpectedKind::String),
        other => panic!("unexpected {other:?}"),
    }
    match lang_ukonf(vec![s("x")]) {
        Err(UkonfFnError::Value(e)) => assert_eq!(e.expected, ExpectedKind::Object),
        other => panic!("unexpected {other:?}"),
    }
}
