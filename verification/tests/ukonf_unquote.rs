use upsilon_dev::ukonf::ast::{try_unquote, unquote};

#[test]
fn basic() {
    assert_eq!(unquote("test"), "test");
}

#[test]
fn escape_sequence_n() {
    assert_eq!(unquote("test\\n"), "test\n");
}

#[test]
fn escape_sequence_r() {
    assert_eq!(unquote("test\\r"), "test\r");
}

#[test]
fn escape_sequence_t() {
    assert_eq!(unquote("test\\t"), "test\t");
}

#[test]
fn escape_sequence_quote() {
    assert_eq!(unquote("test\\'"), "test\'");
}

#[test]
fn escape_sequence_double_quote() {
    assert_eq!(unquote("test\\\""), "test\"");
}

#[test]
fn escape_sequence_backslash() {
    assert_eq!(unquote("test\\\\"), "test\\");
}

#[test]
fn escape_sequence_unicode() {
    assert_eq!(unquote("test\\u2010"), "test\u{2010}");
}

#[test]
#[should_panic]
fn unknown_escape_sequence() {
    unquote("test\\a");
}

#[test]
#[should_panic]
fn unexpected_end_of_string() {
    unquote("test\\");
}

#[test]
fn try_unquote_reports_malformed_escapes() {
    assert_eq!(try_unquote("test\\a"), None);
    assert_eq!(try_unquote("test\\"), None);
    assert_eq!(try_unquote("\\u12"), None);
    assert_eq!(try_unquote("\\u12g4"), None);
    assert_eq!(try_unquote("\\ud800"), None);
    assert_eq!(try_unquote("\\u-123"), None);
}

#[test]
fn try_unquote_decodes_escapes() {
    assert_eq!(try_unquote("a\\tb\\\\c"), Some("a\tb\\c".to_owned()));
    assert_eq!(try_unquote("\\u00e9t\\u00E9"), Some("\u{e9}t\u{e9}".to_owned()));
    assert_eq!(try_unquote("\\u+041"), Some("A".to_owned()));
    assert_eq!(try_unquote(""), Some(String::new()));
    assert_eq!(try_unquote("\\u0041\\u0042"), Some("AB".to_owned()));
}
