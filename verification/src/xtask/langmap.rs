//! The language map of the web client: which language a file is in, by its
//! name and path, compiled from the language definitions into TypeScript.

use vstd::prelude::*;

use crate::shell::url::{decimal, decimal_chars};
use crate::text::{push_str, str_eq, string_of};
use crate::ukonf::runner::{UkonfBuiltinFn, UkonfFunctions};
use crate::ukonf::value::{
    clone_value, entries_view, fn_error_view, fn_result_view, lemma_value_view, lemma_without_key_view,
    value_view, values_view, without_key, ExpectedKind, FnErrorView, UkonfFnError, UkonfObject, UkonfValue,
    ValueView,
};

verus! {

/// When a file belongs to a language.
#[derive(Debug)]
pub enum LangDefRule {
    /// Any of the rules holds.
    Any(Vec<LangDefRule>),
    /// All of the rules hold.
    All(Vec<LangDefRule>),
    /// The file name ends with one of the extensions.
    FileExt(Vec<String>),
    /// The file has one of the names.
    FileName(Vec<String>),
}

/// The definition of a language.
#[derive(Debug)]
pub struct LangDef {
    pub name: String,
    pub id: String,
    pub parent: Option<String>,
    pub hljs: Option<String>,
    pub icon: Option<String>,
    pub rule: LangDefRule,
}

/// A test on a file.
#[derive(Debug)]
pub enum MatcherCondition {
    FileExt(String),
    FileName(String),
    PathContains(String),
}

/// A test on a file, compiled from a [`LangDefRule`].
#[derive(Debug)]
pub enum Matcher {
    Conjunction(Vec<Matcher>),
    Disjunction(Vec<Matcher>),
    Atom(MatcherCondition),
}

/// The TypeScript expression of a condition, over `file_path` and
/// `file_name`.
pub open spec fn cond_text(c: MatcherCondition) -> Seq<char> {
    match c {
        MatcherCondition::FileExt(ext) => "file_name.endsWith('"@ + ext@ + "')"@,
        MatcherCondition::FileName(name) => "file_name == '"@ + name@ + "'"@,
        MatcherCondition::PathContains(s) => "file_path.contains('"@ + s@ + "')"@,
    }
}

/// The TypeScript expression of a matcher: a conjunction or disjunction of
/// its parts in parentheses (`true` or `false` when it has none), an
/// atom in parentheses.
pub open spec fn matcher_text(m: Matcher) -> Seq<char>
    decreases m,
{
    match m {
        Matcher::Conjunction(c) => if c@.len() == 0 {
            "true"@
        } else {
            "("@ + joined(c@, " && "@) + ")"@
        },
        Matcher::Disjunction(d) => if d@.len() == 0 {
            "false"@
        } else {
            "("@ + joined(d@, " || "@) + ")"@
        },
        Matcher::Atom(a) => "("@ + cond_text(a) + ")"@,
    }
}

/// The expressions of the matchers `ms`, separated by `sep`.
pub open spec fn joined(ms: Seq<Matcher>, sep: Seq<char>) -> Seq<char>
    decreases ms,
{
    if ms.len() == 0 {
        Seq::empty()
    } else if ms.len() == 1 {
        matcher_text(ms[0])
    } else {
        joined(ms.drop_last(), sep) + sep + matcher_text(ms.last())
    }
}

/// The matcher test on a file name or extension, as an atom.
pub open spec fn name_atom(n: Seq<char>, ext: bool) -> Seq<char> {
    if ext {
        "("@ + ("file_name.endsWith('"@ + n + "')"@) + ")"@
    } else {
        "("@ + ("file_name == '"@ + n + "'"@) + ")"@
    }
}

/// The atoms for the names `ns`, separated by ` || `.
pub open spec fn joined_atoms(ns: Seq<String>, ext: bool) -> Seq<char>
    decreases ns.len(),
{
    if ns.len() == 0 {
        Seq::empty()
    } else if ns.len() == 1 {
        name_atom(ns[0]@, ext)
    } else {
        joined_atoms(ns.drop_last(), ext) + " || "@ + name_atom(ns.last()@, ext)
    }
}

/// The TypeScript expression that a rule compiles to: `any` is a
/// disjunction, `all` a conjunction, and a list of extensions or names a
/// disjunction of tests, one for each.
pub open spec fn rule_text(r: LangDefRule) -> Seq<char>
    decreases r,
{
    match r {
        LangDefRule::Any(rs) => if rs@.len() == 0 {
            "false"@
        } else {
            "("@ + joined_rules(rs@, " || "@) + ")"@
        },
        LangDefRule::All(rs) => if rs@.len() == 0 {
            "true"@
        } else {
            "("@ + joined_rules(rs@, " && "@) + ")"@
        },
        LangDefRule::FileExt(exts) => if exts@.len() == 0 {
            "false"@
        } else {
            "("@ + joined_atoms(exts@, true) + ")"@
        },
        LangDefRule::FileName(names) => if names@.len() == 0 {
            "false"@
        } else {
            "("@ + joined_atoms(names@, false) + ")"@
        },
    }
}

/// The expressions of the rules `rs`, separated by `sep`.
pub open spec fn joined_rules(rs: Seq<LangDefRule>, sep: Seq<char>) -> Seq<char>
    decreases rs,
{
    if rs.len() == 0 {
        Seq::empty()
    } else if rs.len() == 1 {
        rule_text(rs[0])
    } else {
        joined_rules(rs.drop_last(), sep) + sep + rule_text(rs.last())
    }
}

impl MatcherCondition {
    /// The TypeScript expression of the condition.
    pub fn render(&self) -> (res: String)
        ensures
            res@ == cond_text(*self),
    {
        let mut s = String::new();
        match self {
            MatcherCondition::FileExt(ext) => {
                push_str(&mut s, "file_name.endsWith('");
                push_str(&mut s, ext.as_str());
                push_str(&mut s, "')");
            },
            MatcherCondition::FileName(name) => {
                push_str(&mut s, "file_name == '");
                push_str(&mut s, name.as_str());
                push_str(&mut s, "'");
            },
            MatcherCondition::PathContains(c) => {
                push_str(&mut s, "file_path.contains('");
                push_str(&mut s, c.as_str());
                push_str(&mut s, "')");
            },
        }
        proof {
            assert(s@ =~= cond_text(*self));
        }
        s
    }
}

impl Matcher {
    /// The TypeScript expression of the matcher.
    pub fn render(&self) -> (res: String)
        ensures
            res@ == matcher_text(*self),
        decreases self,
    {
        match self {
            Matcher::Conjunction(c) => {
                if c.len() == 0 {
                    return "true".to_owned();
                }
                let mut s = "(".to_owned();
                let inner = Matcher::render_joined(c, " && ");
                push_str(&mut s, inner.as_str());
                push_str(&mut s, ")");
                proof {
                    assert(s@ =~= matcher_text(*self));
                }
                s
            },
            Matcher::Disjunction(d) => {
                if d.len() == 0 {
                    return "false".to_owned();
                }
                let mut s = "(".to_owned();
                let inner = Matcher::render_joined(d, " || ");
                push_str(&mut s, inner.as_str());
                push_str(&mut s, ")");
                proof {
                    assert(s@ =~= matcher_text(*self));
                }
                s
            },
            Matcher::Atom(a) => {
                let mut s = "(".to_owned();
                let inner = a.render();
                push_str(&mut s, inner.as_str());
                push_str(&mut s, ")");
                proof {
                    assert(s@ =~= matcher_text(*self));
                }
                s
            },
        }
    }

    fn render_joined(ms: &Vec<Matcher>, sep: &str) -> (res: String)
        ensures
            res@ == joined(ms@, sep@),
        decreases ms,
    {
        let mut s = String::new();
        let mut i: usize = 0;
        proof {
            assert(ms@.take(0) =~= Seq::<Matcher>::empty());
        }
        while i < ms.len()
            invariant
                i <= ms@.len(),
                s@ == joined(ms@.take(i as int), sep@),
            decreases ms@.len() - i,
        {
            proof {
                assert(ms@.take(i + 1).drop_last() =~= ms@.take(i as int));
                assert(ms@.take(i + 1).last() == ms@[i as int]);
            }
            if i > 0 {
                push_str(&mut s, sep);
            }
            proof {
                assert(decreases_to!(ms => ms@[i as int]));
            }
            let t = ms[i].render();
            push_str(&mut s, t.as_str());
            proof {
                if i == 0 {
                    assert(s@ =~= joined(ms@.take(1), sep@));
                } else {
                    assert(s@ =~= joined(ms@.take(i + 1), sep@));
                }
            }
            i = i + 1;
        }
        proof {
            assert(ms@.take(ms@.len() as int) =~= ms@);
        }
        s
    }
}

fn name_atoms(ns: &Vec<String>, ext: bool) -> (res: Vec<Matcher>)
    ensures
        res@.len() == ns@.len(),
        ns@.len() > 0 ==> joined(res@, " || "@) == joined_atoms(ns@, ext),
{
    let mut result: Vec<Matcher> = Vec::new();
    let mut i: usize = 0;
    while i < ns.len()
        invariant
            i <= ns@.len(),
            result@.len() == i,
            i > 0 ==> joined(result@, " || "@) == joined_atoms(ns@.take(i as int), ext),
        decreases ns@.len() - i,
    {
        let name = ns[i].as_str().to_owned();
        let cond = if ext {
            MatcherCondition::FileExt(name)
        } else {
            MatcherCondition::FileName(name)
        };
        let ghost prev = result@;
        result.push(Matcher::Atom(cond));
        proof {
            let t = ns@.take(i + 1);
            assert(t.drop_last() =~= ns@.take(i as int));
            assert(t.last() == ns@[i as int]);
            assert(result@.drop_last() =~= prev);
            assert(matcher_text(result@.last()) =~= name_atom(ns@[i as int]@, ext));
            if i == 0 {
                assert(joined(result@, " || "@) == matcher_text(result@[0]));
            }
        }
        i = i + 1;
    }
    proof {
        assert(ns@.take(ns@.len() as int) =~= ns@);
    }
    result
}

impl LangDefRule {
    /// The matcher that the rule compiles to.
    pub fn compile_matcher(&self) -> (res: Matcher)
        ensures
            matcher_text(res) == rule_text(*self),
        decreases self,
    {
        match self {
            LangDefRule::Any(rules) => {
                let result = LangDefRule::compile_all(rules, " || ");
                Matcher::Disjunction(result)
            },
            LangDefRule::All(rules) => {
                let result = LangDefRule::compile_all(rules, " && ");
                Matcher::Conjunction(result)
            },
            LangDefRule::FileExt(exts) => Matcher::Disjunction(name_atoms(exts, true)),
            LangDefRule::FileName(names) => Matcher::Disjunction(name_atoms(names, false)),
        }
    }

    fn compile_all(rules: &Vec<LangDefRule>, sep: &str) -> (res: Vec<Matcher>)
        ensures
            res@.len() == rules@.len(),
            rules@.len() > 0 ==> joined(res@, sep@) == joined_rules(rules@, sep@),
        decreases rules,
    {
        let mut result: Vec<Matcher> = Vec::new();
        let mut i: usize = 0;
        while i < rules.len()
            invariant
                i <= rules@.len(),
                result@.len() == i,
                i > 0 ==> joined(result@, sep@) == joined_rules(rules@.take(i as int), sep@),
            decreases rules@.len() - i,
        {
            proof {
                assert(decreases_to!(rules => rules@[i as int]));
            }
            let r = rules[i].compile_matcher();
            let ghost prev = result@;
            result.push(r);
            proof {
                let t = rules@.take(i + 1);
                assert(t.drop_last() =~= rules@.take(i as int));
                assert(t.last() == rules@[i as int]);
                assert(result@.drop_last() =~= prev);
                if i == 0 {
                    assert(joined(result@, sep@) == matcher_text(result@[0]));
                }
            }
            i = i + 1;
        }
        proof {
            assert(rules@.take(rules@.len() as int) =~= rules@);
        }
        result
    }
}

/// The import of the highlighting definition of each language that has
/// one, in order.
pub open spec fn import_lines(langs: Seq<LangDef>) -> Seq<char>
    decreases langs.len(),
{
    if langs.len() == 0 {
        Seq::empty()
    } else {
        import_lines(langs.drop_last()) + match langs.last().hljs {
            Some(h) => "import "@ + h@ + "_hljs from 'svelte-highlight/languages/"@ + h@ + "';\n"@,
            None => Seq::empty(),
        }
    }
}

/// The imports of the language map module.
pub open spec fn imports_text(langs: Seq<LangDef>) -> Seq<char> {
    "import type {Lang} from './langMap';\n"@ + import_lines(langs)
}

/// The languages among `langs` whose parent is `id`, in order.
pub open spec fn children_of(langs: Seq<LangDef>, id: Seq<char>) -> Seq<Seq<char>>
    decreases langs.len(),
{
    if langs.len() == 0 {
        Seq::empty()
    } else {
        children_of(langs.drop_last(), id) + match langs.last().parent {
            Some(p) => if p@ == id {
                seq![langs.last().id@]
            } else {
                Seq::empty()
            },
            None => Seq::empty(),
        }
    }
}

pub open spec fn child_lines(cs: Seq<Seq<char>>) -> Seq<char>
    decreases cs.len(),
{
    if cs.len() == 0 {
        Seq::empty()
    } else {
        child_lines(cs.drop_last()) + "'"@ + cs.last() + "',\n"@
    }
}

/// The list of the children of a language, where it has any.
pub open spec fn children_text(cs: Seq<Seq<char>>) -> Seq<char> {
    if cs.len() == 0 {
        Seq::empty()
    } else {
        "children: [\n"@ + child_lines(cs) + "],\n"@
    }
}

pub open spec fn hljs_lines(h: Option<String>) -> Seq<char> {
    match h {
        Some(h) => "hljs: '"@ + h@ + "', \n"@ + "hljs_def: "@ + h@ + "_hljs, \n"@,
        None => Seq::empty(),
    }
}

pub open spec fn field_line(key: Seq<char>, v: Option<String>) -> Seq<char> {
    match v {
        Some(v) => key + ": '"@ + v@ + "', \n"@,
        None => Seq::empty(),
    }
}

/// The entry of the language `d` in the table of all languages `langs`.
pub open spec fn lang_entry(langs: Seq<LangDef>, d: LangDef) -> Seq<char> {
    d.id@ + ": {\n"@ + "id: '"@ + d.id@ + "', \n"@ + "name: '"@ + d.name@ + "', \n"@ + hljs_lines(d.hljs)
        + field_line("parent"@, d.parent) + field_line("icon"@, d.icon) + children_text(
        children_of(langs, d.id@),
    ) + "matcher: (file_path: string, file_name: string) => {\n    return "@ + rule_text(d.rule)
        + ";\n},\n"@ + "},\n"@
}

pub open spec fn lang_entries(langs: Seq<LangDef>, part: Seq<LangDef>) -> Seq<char>
    decreases part.len(),
{
    if part.len() == 0 {
        Seq::empty()
    } else {
        lang_entries(langs, part.drop_last()) + lang_entry(langs, part.last())
    }
}

pub open spec fn langs_head() -> Seq<char> {
    "\nconst LANGS: {[keys: string]: Lang} = {\n"@
}

/// The lookup functions that follow the table of languages.
pub open spec fn langs_tail() -> Seq<char> {
    "\n};\n\nconst lookupAmongChildren = (file_path: string, file_name: string, children: string[]): Lang | null => {\n\tfor (const child of children) {\n\t\tconst lang = LANGS[child];\n\t\tif ((lang.matcher)(file_path, file_name)) {\n\t\t\tif (lang.children) {\n\t\t\t\treturn lookupAmongChildren(file_path, file_name, lang.children) ?? lang;\n\t\t\t} else {\n\t\t\t\treturn lang;\n\t\t\t}\n\t\t}\n\t}\n\treturn null;\n}\n\nexport const lookupLangmap = (path: string): Lang => {\n\tconst file_path = path;\n\tconst file_name = path.split('/').pop()!;\n\n\treturn lookupAmongChildren(file_path, file_name, LANGS.text.children!) ?? LANGS.text;\n};\n\nexport const lookupHljsLangImpl = (lang: Lang): any => {\n\twhile (!lang.hljs && lang.parent) {\n\t\tlang = LANGS[lang.parent];\n\t}\n\n\treturn lang.hljs_def;\n};\n"@
}

/// The table of languages and the lookup functions.
pub open spec fn langs_text(langs: Seq<LangDef>) -> Seq<char> {
    langs_head() + lang_entries(langs, langs) + langs_tail()
}

fn children_text_of(langs: &Vec<LangDef>, id: &str) -> (res: String)
    ensures
        res@ == children_text(children_of(langs@, id@)),
{
    let mut lines = String::new();
    let mut any_child = false;
    let mut i: usize = 0;
    proof {
        assert(langs@.take(0) =~= Seq::<LangDef>::empty());
    }
    while i < langs.len()
        invariant
            i <= langs@.len(),
            any_child == (children_of(langs@.take(i as int), id@).len() > 0),
            lines@ == child_lines(children_of(langs@.take(i as int), id@)),
        decreases langs@.len() - i,
    {
        let ghost before = children_of(langs@.take(i as int), id@);
        proof {
            assert(langs@.take(i + 1).drop_last() =~= langs@.take(i as int));
            assert(langs@.take(i + 1).last() == langs@[i as int]);
        }
        let is_child = match &langs[i].parent {
            Some(p) => str_eq(p.as_str(), id),
            None => false,
        };
        if is_child {
            push_str(&mut lines, "'");
            push_str(&mut lines, langs[i].id.as_str());
            push_str(&mut lines, "',\n");
            proof {
                let after = children_of(langs@.take(i + 1), id@);
                assert(after =~= before.push(langs@[i as int].id@));
                assert(after.drop_last() =~= before);
            }
            any_child = true;
        } else {
            proof {
                assert(children_of(langs@.take(i + 1), id@) =~= before);
            }
        }
        i = i + 1;
    }
    proof {
        assert(langs@.take(langs@.len() as int) =~= langs@);
    }
    if !any_child {
        return String::new();
    }
    let mut s = String::new();
    push_str(&mut s, "children: [\n");
    push_str(&mut s, lines.as_str());
    push_str(&mut s, "],\n");
    s
}

fn push_field(s: &mut String, key: &str, v: &Option<String>)
    ensures
        final(s)@ == old(s)@ + field_line(key@, *v),
{
    match v {
        Some(v) => {
            push_str(s, key);
            push_str(s, ": '");
            push_str(s, v.as_str());
            push_str(s, "', \n");
        },
        None => {},
    }
}

fn lang_entry_text(langs: &Vec<LangDef>, d: &LangDef) -> (res: String)
    ensures
        res@ == lang_entry(langs@, *d),
{
    let mut s = String::new();
    push_str(&mut s, d.id.as_str());
    push_str(&mut s, ": {\n");
    push_str(&mut s, "id: '");
    push_str(&mut s, d.id.as_str());
    push_str(&mut s, "', \n");
    push_str(&mut s, "name: '");
    push_str(&mut s, d.name.as_str());
    push_str(&mut s, "', \n");
    match &d.hljs {
        Some(h) => {
            push_str(&mut s, "hljs: '");
            push_str(&mut s, h.as_str());
            push_str(&mut s, "', \n");
            push_str(&mut s, "hljs_def: ");
            push_str(&mut s, h.as_str());
            push_str(&mut s, "_hljs, \n");
        },
        None => {},
    }
    push_field(&mut s, "parent", &d.parent);
    push_field(&mut s, "icon", &d.icon);
    let children = children_text_of(langs, d.id.as_str());
    push_str(&mut s, children.as_str());
    let matcher = d.rule.compile_matcher().render();
    push_str(&mut s, "matcher: (file_path: string, file_name: string) => {\n    return ");
    push_str(&mut s, matcher.as_str());
    push_str(&mut s, ";\n},\n");
    push_str(&mut s, "},\n");
    proof {
        assert(s@ =~= lang_entry(langs@, *d));
    }
    s
}

/// The TypeScript source of the language map, after its header comment:
/// the imports, then the table of the languages `langs` (in order, each
/// with its children and its matcher) and the lookup functions.
pub fn langmap_source(langs: &Vec<LangDef>) -> (res: (String, String))
    ensures
        res.0@ == imports_text(langs@),
        res.1@ == langs_text(langs@),
{
    let mut imports = String::new();
    push_str(&mut imports, "import type {Lang} from './langMap';\n");
    let mut entries = String::new();
    let mut i: usize = 0;
    proof {
        assert(langs@.take(0) =~= Seq::<LangDef>::empty());
        assert(imports@ =~= imports_text(langs@.take(0)));
    }
    while i < langs.len()
        invariant
            i <= langs@.len(),
            imports@ == imports_text(langs@.take(i as int)),
            entries@ == lang_entries(langs@, langs@.take(i as int)),
        decreases langs@.len() - i,
    {
        proof {
            assert(langs@.take(i + 1).drop_last() =~= langs@.take(i as int));
            assert(langs@.take(i + 1).last() == langs@[i as int]);
        }
        let d = &langs[i];
        match &d.hljs {
            Some(h) => {
                push_str(&mut imports, "import ");
                push_str(&mut imports, h.as_str());
                push_str(&mut imports, "_hljs from 'svelte-highlight/languages/");
                push_str(&mut imports, h.as_str());
                push_str(&mut imports, "';\n");
            },
            None => {},
        }
        let e = lang_entry_text(langs, d);
        push_str(&mut entries, e.as_str());
        proof {
            assert(imports@ =~= imports_text(langs@.take(i + 1)));
        }
        i = i + 1;
    }
    proof {
        assert(langs@.take(langs@.len() as int) =~= langs@);
    }
    let mut out = String::new();
    push_str(&mut out, "\nconst LANGS: {[keys: string]: Lang} = {\n");
    push_str(&mut out, entries.as_str());
    push_str(&mut out, "\n};\n\nconst lookupAmongChildren = (file_path: string, file_name: string, children: string[]): Lang | null => {\n\tfor (const child of children) {\n\t\tconst lang = LANGS[child];\n\t\tif ((lang.matcher)(file_path, file_name)) {\n\t\t\tif (lang.children) {\n\t\t\t\treturn lookupAmongChildren(file_path, file_name, lang.children) ?? lang;\n\t\t\t} else {\n\t\t\t\treturn lang;\n\t\t\t}\n\t\t}\n\t}\n\treturn null;\n}\n\nexport const lookupLangmap = (path: string): Lang => {\n\tconst file_path = path;\n\tconst file_name = path.split('/').pop()!;\n\n\treturn lookupAmongChildren(file_path, file_name, LANGS.text.children!) ?? LANGS.text;\n};\n\nexport const lookupHljsLangImpl = (lang: Lang): any => {\n\twhile (!lang.hljs && lang.parent) {\n\t\tlang = LANGS[lang.parent];\n\t}\n\n\treturn lang.hljs_def;\n};\n");
    proof {
        assert(out@ =~= langs_text(langs@));
    }
    (imports, out)
}

/// What is wrong with an entry of a language definition, if anything:
/// `name`, `icon`, `hljs` and `category` must be strings, `parent` a
/// string or null, `rule` an object, and no other key is known.
pub open spec fn lang_entry_error(k: Seq<char>, v: UkonfValue) -> Option<FnErrorView> {
    if k == "name"@ || k == "icon"@ || k == "hljs"@ || k == "category"@ {
        if v is Str {
            None
        } else {
            Some(FnErrorView::Value(ExpectedKind::String, value_view(v)))
        }
    } else if k == "parent"@ {
        if v is Null || v is Str {
            None
        } else {
            Some(FnErrorView::Message("parent must be a string or null"@))
        }
    } else if k == "rule"@ {
        if v is Object {
            None
        } else {
            Some(FnErrorView::Value(ExpectedKind::Object, value_view(v)))
        }
    } else {
        Some(FnErrorView::Message("lang: unknown key "@ + k))
    }
}

/// Reads the entries of a language definition in order: each accepted
/// entry is set in the result, the first refused one stops it.
pub open spec fn lang_scan(es: Seq<(Seq<char>, UkonfValue)>) -> Result<Seq<(Seq<char>, UkonfValue)>, FnErrorView>
    decreases es.len(),
{
    if es.len() == 0 {
        Ok(Seq::empty())
    } else {
        match lang_scan(es.drop_last()) {
            Err(e) => Err(e),
            Ok(acc) => match lang_entry_error(es.last().0, es.last().1) {
                Some(e) => Err(e),
                None => Ok(without_key(acc, es.last().0).push(es.last())),
            },
        }
    }
}

proof fn lemma_lang_scan_err_sticks(es: Seq<(Seq<char>, UkonfValue)>, n: int)
    requires
        0 <= n <= es.len(),
        lang_scan(es.take(n)) is Err,
    ensures
        lang_scan(es) == lang_scan(es.take(n)),
    decreases es.len() - n,
{
    if n < es.len() {
        assert(es.take(n + 1).drop_last() =~= es.take(n));
        lemma_lang_scan_err_sticks(es, n + 1);
    } else {
        assert(es.take(n) =~= es);
    }
}

fn reversed<T>(v: Vec<T>) -> (res: Vec<T>)
    ensures
        res@ == v@.reverse(),
{
    let ghost all = v@;
    let mut v = v;
    let mut out: Vec<T> = Vec::new();
    while v.len() > 0
        invariant
            all == v@ + out@.reverse(),
        decreases v@.len(),
    {
        let x = v.pop().unwrap();
        let ghost before = out@;
        out.push(x);
        proof {
            assert(out@.reverse() =~= seq![out@.last()] + before.reverse());
        }
    }
    proof {
        assert(all =~= out@.reverse());
        assert(out@ =~= all.reverse());
    }
    out
}

/// `lang(definition)`: a language definition checked, entry by entry, and
/// rebuilt; there must be exactly one argument, an object.
pub fn lang_ukonf(values: Vec<UkonfValue>) -> (res: Result<UkonfValue, UkonfFnError>)
    ensures
        values@.len() != 1 ==> (res matches Err(e) && fn_error_view(e) == FnErrorView::Message(
            "lang function expects 1 argument, got "@ + decimal(values@.len()),
        )),
        values@.len() == 1 ==> match values@[0] {
            UkonfValue::Object(o) => match lang_scan(o.entries()) {
                Ok(es) => res matches Ok(UkonfValue::Object(r)) && r.entries() == es,
                Err(ev) => res matches Err(e) && fn_error_view(e) == ev,
            },
            v => res matches Err(e) && fn_error_view(e) == FnErrorView::Value(ExpectedKind::Object, value_view(v)),
        },
{
    let mut vs = values;
    if vs.len() != 1 {
        let n = vs.len();
        let mut m = String::new();
        push_str(&mut m, "lang function expects 1 argument, got ");
        let ds = decimal_chars(n as u64);
        let num = string_of(ds.as_slice());
        push_str(&mut m, num.as_str());
        return Err(UkonfFnError::Message(m));
    }
    let v = vs.pop().unwrap();
    let lang = match v.expect_object() {
        Ok(o) => o,
        Err(e) => {
            return Err(UkonfFnError::Value(e));
        },
    };
    let ghost es = lang.entries();
    let entries = lang.into_iter();
    let ghost entries_seq = entries@;
    let mut rev = reversed(entries);
    let mut result_lang = UkonfObject::new();
    let n = rev.len();
    let mut i: usize = 0;
    proof {
        assert(es.take(0) =~= Seq::<(Seq<char>, UkonfValue)>::empty());
        assert forall|t: int| 0 <= t < rev@.len() implies (#[trigger] rev@[t]).0@ == es[n - 1 - t].0
            && rev@[t].1 == es[n - 1 - t].1 by {
            assert(rev@[t] == entries_seq[n - 1 - t]);
            assert(crate::ukonf::value::entry_pairs_view(entries_seq)[n - 1 - t] == es[n - 1 - t]);
        }
    }
    while rev.len() > 0
        invariant
            values@.len() == 1,
            values@[0] == UkonfValue::Object(lang),
            es == lang.entries(),
            i + rev@.len() == n,
            n == es.len(),
            forall|t: int| 0 <= t < rev@.len() ==> (#[trigger] rev@[t]).0@ == es[n - 1 - t].0 && rev@[t].1
                == es[n - 1 - t].1,
            lang_scan(es.take(i as int)) == Ok::<Seq<(Seq<char>, UkonfValue)>, FnErrorView>(
                result_lang.entries(),
            ),
        decreases rev@.len(),
    {
        let ghost rb = rev@;
        let (k, v) = rev.pop().unwrap();
        proof {
            assert(rb[rb.len() - 1] == (k, v));
            assert(k@ == es[i as int].0 && v == es[i as int].1);
            assert(es.take(i + 1).drop_last() =~= es.take(i as int));
            assert(es.take(i + 1).last() == es[i as int]);
            assert forall|t: int| 0 <= t < rev@.len() implies (#[trigger] rev@[t]).0@ == es[n - 1 - t].0
                && rev@[t].1 == es[n - 1 - t].1 by {
                assert(rev@[t] == rb[t]);
            }
        }
        let known_string = str_eq(k.as_str(), "name") || str_eq(k.as_str(), "icon") || str_eq(
            k.as_str(),
            "hljs",
        ) || str_eq(k.as_str(), "category");
        if known_string {
            let s = match v.expect_string() {
                Ok(s) => s,
                Err(e) => {
                    proof {
                        lemma_lang_scan_err_sticks(es, i + 1);
                        assert(es.take(n as int) =~= es);
                    }
                    return Err(UkonfFnError::Value(e));
                },
            };
            result_lang.insert(k, UkonfValue::Str(s));
        } else if str_eq(k.as_str(), "parent") {
            let parent = match v {
                UkonfValue::Null => UkonfValue::Null,
                UkonfValue::Str(s) => UkonfValue::Str(s),
                _ => {
                    proof {
                        lemma_lang_scan_err_sticks(es, i + 1);
                        assert(es.take(n as int) =~= es);
                    }
                    return Err(UkonfFnError::Message("parent must be a string or null".to_owned()));
                },
            };
            result_lang.insert(k, parent);
        } else if str_eq(k.as_str(), "rule") {
            let rule = match v.expect_object() {
                Ok(o) => o,
                Err(e) => {
                    proof {
                        lemma_lang_scan_err_sticks(es, i + 1);
                        assert(es.take(n as int) =~= es);
                    }
                    return Err(UkonfFnError::Value(e));
                },
            };
            result_lang.insert(k, UkonfValue::Object(rule));
        } else {
            let mut m = String::new();
            push_str(&mut m, "lang: unknown key ");
            push_str(&mut m, k.as_str());
            proof {
                lemma_lang_scan_err_sticks(es, i + 1);
                assert(es.take(n as int) =~= es);
            }
            return Err(UkonfFnError::Message(m));
        }
        i = i + 1;
    }
    proof {
        assert(es.take(n as int) =~= es);
    }
    Ok(UkonfValue::Object(result_lang))
}

/// What is wrong with an entry of a language definition, by its content.
pub open spec fn lang_entry_error_view(k: Seq<char>, v: ValueView) -> Option<FnErrorView> {
    if k == "name"@ || k == "icon"@ || k == "hljs"@ || k == "category"@ {
        if v is Str {
            None
        } else {
            Some(FnErrorView::Value(ExpectedKind::String, v))
        }
    } else if k == "parent"@ {
        if v is Null || v is Str {
            None
        } else {
            Some(FnErrorView::Message("parent must be a string or null"@))
        }
    } else if k == "rule"@ {
        if v is Object {
            None
        } else {
            Some(FnErrorView::Value(ExpectedKind::Object, v))
        }
    } else {
        Some(FnErrorView::Message("lang: unknown key "@ + k))
    }
}

/// [`lang_scan`] on the contents of the entries.
pub open spec fn lang_scan_view(es: Seq<(Seq<char>, ValueView)>) -> Result<Seq<(Seq<char>, ValueView)>, FnErrorView>
    decreases es.len(),
{
    if es.len() == 0 {
        Ok(Seq::empty())
    } else {
        match lang_scan_view(es.drop_last()) {
            Err(e) => Err(e),
            Ok(acc) => match lang_entry_error_view(es.last().0, es.last().1) {
                Some(e) => Err(e),
                None => Ok(without_key(acc, es.last().0).push(es.last())),
            },
        }
    }
}

proof fn lemma_lang_scan_view(es: Seq<(Seq<char>, UkonfValue)>)
    ensures
        lang_scan_view(entries_view(es)) == match lang_scan(es) {
            Ok(r) => Ok(entries_view(r)),
            Err(e) => Err::<Seq<(Seq<char>, ValueView)>, FnErrorView>(e),
        },
    decreases es.len(),
{
    if es.len() > 0 {
        lemma_lang_scan_view(es.drop_last());
        assert(entries_view(es).drop_last() =~= entries_view(es.drop_last()));
        lemma_value_view(es.last().1);
        match lang_scan(es.drop_last()) {
            Ok(acc) => {
                lemma_without_key_view(acc, es.last().0);
                assert(entries_view(without_key(acc, es.last().0).push(es.last())) =~= entries_view(
                    without_key(acc, es.last().0),
                ).push((es.last().0, value_view(es.last().1))));
            },
            Err(_) => {},
        }
    } else {
        assert(entries_view(es) =~= Seq::<(Seq<char>, ValueView)>::empty());
        assert(entries_view(Seq::<(Seq<char>, UkonfValue)>::empty()) =~= Seq::<(Seq<char>, ValueView)>::empty());
    }
}

/// `lang(definition)`, by the contents of the arguments.
pub open spec fn lang_fn_spec(args: Seq<ValueView>) -> Result<ValueView, FnErrorView> {
    if args.len() != 1 {
        Err(FnErrorView::Message("lang function expects 1 argument, got "@ + decimal(args.len())))
    } else {
        match args[0] {
            ValueView::Object(es) => match lang_scan_view(es) {
                Ok(r) => Ok(ValueView::Object(r)),
                Err(e) => Err(e),
            },
            v => Err(FnErrorView::Value(ExpectedKind::Object, v)),
        }
    }
}

/// `lang(definition)` on copies of `args`.
pub fn call_lang(args: &[UkonfValue]) -> (res: Result<UkonfValue, UkonfFnError>)
    ensures
        fn_result_view(res) == lang_fn_spec(values_view(args@)),
{
    let mut values: Vec<UkonfValue> = Vec::new();
    let mut i: usize = 0;
    while i < args.len()
        invariant
            i <= args@.len(),
            values_view(values@) == values_view(args@.take(i as int)),
        decreases args@.len() - i,
    {
        let ghost before = values@;
        values.push(clone_value(&args[i]));
        proof {
            assert(values_view(values@) =~= values_view(before).push(value_view(args@[i as int])));
            assert(args@.take(i + 1) =~= args@.take(i as int).push(args@[i as int]));
            assert(values_view(args@.take(i + 1)) =~= values_view(args@.take(i as int)).push(value_view(args@[i as int])));
        }
        i = i + 1;
    }
    proof {
        assert(args@.take(args@.len() as int) =~= args@);
        assert(values@.len() == args@.len()) by {
            assert(values_view(values@).len() == values@.len());
        }
        if values@.len() == 1 {
            assert(values_view(values@)[0] == value_view(values@[0]));
            lemma_value_view(values@[0]);
            match values@[0] {
                UkonfValue::Object(o) => lemma_lang_scan_view(o.entries()),
                _ => {},
            }
        }
    }
    let r = lang_ukonf(values);
    proof {
        if r is Ok {
            lemma_value_view(r->Ok_0);
        }
    }
    r
}

/// The functions of the language map program: `lang`.
pub fn langmap_functions() -> (res: UkonfFunctions)
    ensures
        res@.functions == seq![("lang"@, UkonfBuiltinFn::Lang)],
        res@.compilers == Seq::<(Seq<char>, crate::ukonf::runner::UkonfBuiltinCompiler)>::empty(),
{
    let mut fns = UkonfFunctions::new();
    fns.add_fn("lang".to_owned(), UkonfBuiltinFn::Lang);
    proof {
        assert(fns@.functions =~= seq![("lang"@, UkonfBuiltinFn::Lang)]);
    }
    fns
}

} // verus!
