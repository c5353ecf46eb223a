use upsilon_dev::ukonf::ast::{
    Comma, CxKw, DollarBrace, CloseBrace, FileId, Ident, Keyword, LetKw, Punctuation, Span,
    StrLit, StringInterner, VirtualSpan, K, ResolvedKey,
};
use upsilon_dev::ukonf::UkonfConfig;

fn sp(a: usize, b: usize) -> Span {
    Span::new(a, b, FileId(0))
}

#[test]
fn joining_spans_covers_both() {
    assert_eq!(sp(3, 5).join_with(&sp(1, 4)), sp(1, 5));
    assert_eq!(sp(1, 4).join_with(&sp(3, 5)), sp(1, 5));
    assert_eq!(sp(2, 9).join_with(&sp(2, 9)), sp(2, 9));
    assert_eq!(sp(0, 10).join_with(&sp(3, 4)), sp(0, 10));
}

#[test]
fn physical_and_virtual_spans() {
    let p = sp(4, 8);
    assert!(p.as_physical().is_some());
    assert!(p.as_virtual().is_none());
    let v = Span::new_virtual(VirtualSpan { creator_fun_file: None, creator_fun_name: None });
    assert!(v.as_physical().is_none());
    assert!(v.as_virtual().is_some());
}

#[test]
fn interning_gives_one_handle_per_string() {
    let mut interner = StringInterner::new();
    let a = interner.intern("alpha".to_owned());
    let b = interner.intern("beta".to_owned());
    let a2 = interner.intern("alpha".to_owned());
    assert_eq!(a, a2);
    assert_ne!(a, b);
    assert_eq!(a.with_inner(&interner, |s| s.clone()), "alpha");
    assert_eq!(b.with_inner(&interner, |s| s.len()), 4);
}

#[test]
fn string_literal_values() {
    let s = StrLit::Apostrophe(sp(0, 5).spanned("'abc'".to_owned()));
    assert_eq!(s.str_val(), "abc");
    let s = StrLit::Quote(sp(0, 9).spanned("\"a\\tb\\\"\"".to_owned()));
    assert_eq!(s.str_val(), "a\tb\"");
    let s = StrLit::TripleQuote(sp(0, 12).spanned("\"\"\"x\ny\"\"\"".to_owned()));
    assert_eq!(s.str_val(), "x\ny");
    let s = StrLit::Apostrophe(sp(0, 4).spanned("'é'".to_owned()));
    assert_eq!(s.str_val(), "é");
    assert_eq!(*s.span(), sp(0, 4));
}

#[test]
fn keys_resolve_through_indirections() {
    let name = K::Name(Ident(sp(0, 3).spanned("key".to_owned())));
    match name.key() {
        ResolvedKey::KeyValue(s) => assert_eq!(s, "key"),
        ResolvedKey::Indirection(_) => panic!("expected a plain key"),
    }
    let lit = K::StrLit(StrLit::Quote(sp(4, 9).spanned("\"a.b\"".to_owned())));
    let r = K::Ref(DollarBrace::new(sp(10, 12)), Box::new(lit), CloseBrace::new(sp(17, 18)));
    match r.key() {
        ResolvedKey::Indirection(inner) => match *inner {
            ResolvedKey::KeyValue(s) => assert_eq!(s, "a.b"),
            ResolvedKey::Indirection(_) => panic!("expected one indirection"),
        },
        ResolvedKey::KeyValue(_) => panic!("expected an indirection"),
    }
    assert_eq!(r.span(), sp(10, 18));
    assert_eq!(name.span(), sp(0, 3));
}

#[test]
fn token_texts() {
    assert_eq!(<Comma as Punctuation>::punct(), ",");
    assert_eq!(<DollarBrace as Punctuation>::punct(), "${");
    assert_eq!(<LetKw as Keyword>::kw(), "let");
    assert_eq!(<CxKw as Keyword>::kw(), "cx");
}

#[test]
fn config_starts_without_files() {
    let _cfg = UkonfConfig::new(vec!["include".to_owned()]);
}
