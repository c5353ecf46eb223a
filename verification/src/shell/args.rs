//! Declarations of the named arguments and `--flags` a command accepts, and
//! the store of values read for them.

use vstd::prelude::*;

use super::error::{ParseErrorView, UshParseError, strs_view, parse_i32, ParseIntError};
use super::lexer::{Lexeme, LexemeView, Token};
use super::parser::UshCommandParser;
use super::span::{Span, Spanned};
use crate::text::{chars_eq, chars_of, string_of};

verus! {

/// What an argument names, used to offer completions.
#[derive(Debug, Copy, Clone, PartialEq, Eq)]
pub enum ArgHint {
    Plain,
    Path,
    Username,
}

/// Declaration of a named argument `name:value`.
pub struct ArgDecl {
    name: &'static str,
    required: bool,
    default: Option<String>,
    allow_empty: bool,
    hint: ArgHint,
}

pub struct ArgDeclView {
    pub name: Seq<char>,
    pub required: bool,
    pub default: Option<Seq<char>>,
    pub allow_empty: bool,
    pub hint: ArgHint,
}

pub open spec fn opt_string_view(o: Option<String>) -> Option<Seq<char>> {
    match o {
        Some(s) => Some(s@),
        None => None,
    }
}

impl View for ArgDecl {
    type V = ArgDeclView;

    closed spec fn view(&self) -> ArgDeclView {
        ArgDeclView {
            name: self.name@,
            required: self.required,
            default: opt_string_view(self.default),
            allow_empty: self.allow_empty,
            hint: self.hint,
        }
    }
}

impl ArgDecl {
    /// The declaration `ArgDecl::new(name)` builds.
    pub closed spec fn spec_new(name: &'static str) -> ArgDecl {
        ArgDecl { name, required: true, default: None, allow_empty: false, hint: ArgHint::Plain }
    }

    pub broadcast proof fn lemma_spec_new_view(name: &'static str)
        ensures
            #[trigger] Self::spec_new(name)@ == (ArgDeclView {
                name: name@,
                required: true,
                default: None,
                allow_empty: false,
                hint: ArgHint::Plain,
            }),
    {
    }

    /// A required, non-empty argument without a default.
    pub fn new(name: &'static str) -> (res: Self)
        ensures
            res == Self::spec_new(name),
            res@ == (ArgDeclView {
                name: name@,
                required: true,
                default: None,
                allow_empty: false,
                hint: ArgHint::Plain,
            }),
    {
        ArgDecl { name, required: true, default: None, allow_empty: false, hint: ArgHint::Plain }
    }

    /// Makes the argument optional.
    pub fn optional(self) -> (res: Self)
        ensures
            res@ == (ArgDeclView { required: false, ..self@ }),
    {
        ArgDecl { required: false, ..self }
    }

    /// Gives the argument a default value.
    pub fn default(self, default: &str) -> (res: Self)
        ensures
            res@ == (ArgDeclView { default: Some(default@), ..self@ }),
    {
        ArgDecl { default: Some(default.to_owned()), ..self }
    }

    /// Accepts an empty value `name:`.
    pub fn allow_empty(self) -> (res: Self)
        ensures
            res@ == (ArgDeclView { allow_empty: true, ..self@ }),
    {
        ArgDecl { allow_empty: true, ..self }
    }

    /// Sets the completion hint.
    pub fn hint(self, hint: ArgHint) -> (res: Self)
        ensures
            res@ == (ArgDeclView { hint, ..self@ }),
    {
        ArgDecl { hint, ..self }
    }
}

/// Declaration of a flag `--name`, possibly negatable as `--<prefix>name`.
pub struct FlagDecl {
    name: &'static str,
    negative_prefix: Option<&'static str>,
    default: Option<bool>,
}

pub struct FlagDeclView {
    pub name: Seq<char>,
    pub negative_prefix: Option<Seq<char>>,
    pub default: Option<bool>,
}

impl View for FlagDecl {
    type V = FlagDeclView;

    closed spec fn view(&self) -> FlagDeclView {
        FlagDeclView {
            name: self.name@,
            negative_prefix: match self.negative_prefix {
                Some(p) => Some(p@),
                None => None,
            },
            default: self.default,
        }
    }
}

impl FlagDecl {
    /// The declaration `FlagDecl::new(name)` builds.
    pub closed spec fn spec_new(name: &'static str) -> FlagDecl {
        FlagDecl { name, negative_prefix: None, default: None }
    }

    pub broadcast proof fn lemma_spec_new_view(name: &'static str)
        ensures
            #[trigger] Self::spec_new(name)@ == (FlagDeclView {
                name: name@,
                negative_prefix: None,
                default: None,
            }),
    {
    }

    /// A flag without negation and without default.
    pub fn new(name: &'static str) -> (res: Self)
        ensures
            res == Self::spec_new(name),
            res@ == (FlagDeclView { name: name@, negative_prefix: None, default: None }),
    {
        FlagDecl { name, negative_prefix: None, default: None }
    }

    /// Accepts `--<prefix><name>` as the negation of the flag.
    pub fn negative_prefix(self, prefix: &'static str) -> (res: Self)
        ensures
            res@ == (FlagDeclView { negative_prefix: Some(prefix@), ..self@ }),
    {
        FlagDecl { negative_prefix: Some(prefix), ..self }
    }

    /// Accepts `--no-<name>` as the negation of the flag.
    pub fn allow_negative(self) -> (res: Self)
        ensures
            res@ == (FlagDeclView { negative_prefix: Some("no-"@), ..self@ }),
    {
        FlagDecl { negative_prefix: Some("no-"), ..self }
    }

    /// Gives the flag a default value.
    pub fn default(self, default: bool) -> (res: Self)
        ensures
            res@ == (FlagDeclView { default: Some(default), ..self@ }),
    {
        FlagDecl { default: Some(default), ..self }
    }
}

/// A group of mutually exclusive flags.
pub struct FlagGroup {
    group_name: &'static str,
    flags: Vec<FlagDecl>,
    required: bool,
    default: Option<&'static str>,
}

pub struct FlagGroupView {
    pub group_name: Seq<char>,
    pub flags: Seq<FlagDeclView>,
    pub required: bool,
    pub default: Option<Seq<char>>,
}

pub open spec fn flag_decls_view(v: Seq<FlagDecl>) -> Seq<FlagDeclView> {
    v.map_values(|d: FlagDecl| d@)
}

impl View for FlagGroup {
    type V = FlagGroupView;

    closed spec fn view(&self) -> FlagGroupView {
        FlagGroupView {
            group_name: self.group_name@,
            flags: flag_decls_view(self.flags@),
            required: self.required,
            default: match self.default {
                Some(d) => Some(d@),
                None => None,
            },
        }
    }
}

impl FlagGroup {
    /// The content of the group `FlagGroup::new(name)` builds.
    pub open spec fn initial_view(name: Seq<char>) -> FlagGroupView {
        FlagGroupView { group_name: name, flags: Seq::empty(), required: false, default: None }
    }

    /// An empty, optional group without default.
    pub fn new(name: &'static str) -> (res: Self)
        ensures
            res@ == Self::initial_view(name@),
    {
        let res = FlagGroup { group_name: name, flags: Vec::new(), required: false, default: None };
        proof {
            assert(flag_decls_view(res.flags@) =~= Seq::empty());
        }
        res
    }

    /// Adds the flag `name`, as shaped by `f`.  Flags of a group take neither a
    /// default nor a negative prefix.
    pub fn flag<F>(self, name: &'static str, f: F) -> (res: Self) where
        F: FnOnce(FlagDecl) -> FlagDecl,

        requires
            call_requires(f, (FlagDecl::spec_new(name),)),
            forall|d: FlagDecl|
                call_ensures(f, (FlagDecl::spec_new(name),), d) ==> d@.default is None
                    && d@.negative_prefix is None,
        ensures
            res@.flags.len() == self@.flags.len() + 1,
            res@.flags.drop_last() == self@.flags,
            exists|d: FlagDecl|
                call_ensures(f, (FlagDecl::spec_new(name),), d) && res@.flags.last() == d@,
            res@.group_name == self@.group_name,
            res@.required == self@.required,
            res@.default == self@.default,
    {
        let init = FlagDecl::new(name);
        let flag = f(init);
        let ghost fv = flag@;
        let mut s = self;
        let ghost old_flags = s.flags@;
        s.flags.push(flag);
        proof {
            assert(flag_decls_view(s.flags@).drop_last() =~= flag_decls_view(old_flags));
            assert(flag_decls_view(s.flags@).last() == fv);
        }
        s
    }

    /// Makes the group required.
    pub fn required(self) -> (res: Self)
        ensures
            res@ == (FlagGroupView { required: true, ..self@ }),
    {
        FlagGroup { required: true, ..self }
    }

    /// Names the flag that holds when none of the group is given.
    pub fn group_default(self, name: &'static str) -> (res: Self)
        ensures
            res@ == (FlagGroupView { default: Some(name@), ..self@ }),
    {
        FlagGroup { default: Some(name), ..self }
    }
}

/// The declarations of a command's arguments, flags and flag groups.
pub struct ArgDeclList {
    args: Vec<ArgDecl>,
    flags: Vec<FlagDecl>,
    flag_groups: Vec<FlagGroup>,
}

pub struct ArgDeclListView {
    pub args: Seq<ArgDeclView>,
    pub flags: Seq<FlagDeclView>,
    pub flag_groups: Seq<FlagGroupView>,
}

pub open spec fn arg_decls_view(v: Seq<ArgDecl>) -> Seq<ArgDeclView> {
    v.map_values(|d: ArgDecl| d@)
}

pub open spec fn flag_groups_view(v: Seq<FlagGroup>) -> Seq<FlagGroupView> {
    v.map_values(|g: FlagGroup| g@)
}

impl View for ArgDeclList {
    type V = ArgDeclListView;

    closed spec fn view(&self) -> ArgDeclListView {
        ArgDeclListView {
            args: arg_decls_view(self.args@),
            flags: flag_decls_view(self.flags@),
            flag_groups: flag_groups_view(self.flag_groups@),
        }
    }
}

/// A value read for an argument: given on the line (with the span of the
/// value and of the whole `name:value` token), or the declared default.
pub enum ArgValue {
    Value(Spanned<String>, Span),
    Default(String),
}

pub enum ArgValueView {
    Value(Spanned<Seq<char>>, Span),
    Default(Seq<char>),
}

impl View for ArgValue {
    type V = ArgValueView;

    open spec fn view(&self) -> ArgValueView {
        match self {
            ArgValue::Value(s, sp) => ArgValueView::Value(s@, *sp),
            ArgValue::Default(d) => ArgValueView::Default(d@),
        }
    }
}

impl ArgValue {
    /// The text of the value.
    pub fn arg_str(&self) -> (res: &str)
        ensures
            res@ == match self@ {
                ArgValueView::Value(s, _) => s.value,
                ArgValueView::Default(d) => d,
            },
    {
        match self {
            ArgValue::Value(s, _) => s.value.as_str(),
            ArgValue::Default(s) => s.as_str(),
        }
    }

    /// The span of the value, when it was given on the line.
    pub fn span(&self) -> (res: Option<Span>)
        ensures
            res == match self@ {
                ArgValueView::Value(s, _) => Some(s.span),
                ArgValueView::Default(_) => None::<Span>,
            },
    {
        match self {
            ArgValue::Value(s, _) => Some(s.span),
            ArgValue::Default(_) => None,
        }
    }
}

/// A value read for a flag: given on the line as `--flag` (`true`) or as its
/// negation (`false`), or the declared default.
#[derive(Clone, Debug, PartialEq, Eq)]
pub enum FlagValue {
    Present(Spanned<String>, bool),
    Default(String, bool),
}

pub enum FlagValueView {
    Present(Spanned<Seq<char>>, bool),
    Default(Seq<char>, bool),
}

impl View for FlagValue {
    type V = FlagValueView;

    open spec fn view(&self) -> FlagValueView {
        match self {
            FlagValue::Present(s, b) => FlagValueView::Present(s@, *b),
            FlagValue::Default(n, b) => FlagValueView::Default(n@, *b),
        }
    }
}

impl FlagValue {
    /// Whether the flag holds.
    pub fn value(&self) -> (res: bool)
        ensures
            res == match self@ {
                FlagValueView::Present(_, b) => b,
                FlagValueView::Default(_, b) => b,
            },
    {
        match self {
            FlagValue::Present(_, v) => *v,
            FlagValue::Default(_, v) => *v,
        }
    }

    /// A copy of this value.
    pub fn copy(&self) -> (res: FlagValue)
        ensures
            res@ == self@,
    {
        match self {
            FlagValue::Present(s, b) => FlagValue::Present(
                Spanned { span: s.span, value: s.value.clone() },
                *b,
            ),
            FlagValue::Default(n, b) => FlagValue::Default(n.clone(), *b),
        }
    }
}

/// A type that an argument's text can be read as.
pub trait ArgParse: Sized {
    type Err;

    /// That `r` is what reading `text` gives.
    spec fn parses(text: Seq<char>, r: Result<Self, Self::Err>) -> bool;

    fn parse_arg(s: &str) -> (r: Result<Self, Self::Err>)
        ensures
            Self::parses(s@, r),
    ;
}

impl ArgParse for i32 {
    type Err = ParseIntError;

    /// A decimal `i32`, with an optional sign.
    open spec fn parses(text: Seq<char>, r: Result<i32, ParseIntError>) -> bool {
        match r {
            Ok(x) => super::error::parse_i32_spec(text) == Ok::<int, super::error::IntErrorKind>(x as int),
            Err(e) => super::error::parse_i32_spec(text) == Err::<int, super::error::IntErrorKind>(e.kind),
        }
    }

    fn parse_arg(s: &str) -> (r: Result<i32, ParseIntError>) {
        let cs = chars_of(s);
        parse_i32(cs.as_slice())
    }
}

/// The values read for a command: by argument name, by flag name and by flag
/// group name, each key at most once, in the order the keys were first set.
pub struct ArgStore {
    args: Vec<(String, ArgValue)>,
    flags: Vec<(String, FlagValue)>,
    flag_groups: Vec<(String, FlagValue)>,
}

pub struct ArgStoreView {
    pub args: Seq<(Seq<char>, ArgValueView)>,
    pub flags: Seq<(Seq<char>, FlagValueView)>,
    pub flag_groups: Seq<(Seq<char>, FlagValueView)>,
}

pub open spec fn arg_pairs_view(s: Seq<(String, ArgValue)>) -> Seq<(Seq<char>, ArgValueView)> {
    s.map_values(|p: (String, ArgValue)| (p.0@, p.1@))
}

pub open spec fn flag_pairs_view(s: Seq<(String, FlagValue)>) -> Seq<(Seq<char>, FlagValueView)> {
    s.map_values(|p: (String, FlagValue)| (p.0@, p.1@))
}

impl View for ArgStore {
    type V = ArgStoreView;

    closed spec fn view(&self) -> ArgStoreView {
        ArgStoreView {
            args: arg_pairs_view(self.args@),
            flags: flag_pairs_view(self.flags@),
            flag_groups: flag_pairs_view(self.flag_groups@),
        }
    }
}

/// Index of the first entry with key `k` at or after `i`, or -1.
pub open spec fn key_index_from<V>(s: Seq<(Seq<char>, V)>, k: Seq<char>, i: int) -> int
    decreases s.len() - i,
{
    if i < 0 || i >= s.len() {
        -1
    } else if s[i].0 == k {
        i
    } else {
        key_index_from(s, k, i + 1)
    }
}

/// Index of the first entry with key `k`, or -1.
pub open spec fn key_index<V>(s: Seq<(Seq<char>, V)>, k: Seq<char>) -> int {
    key_index_from(s, k, 0)
}

/// The value stored under `k`.
pub open spec fn kv_get<V>(s: Seq<(Seq<char>, V)>, k: Seq<char>) -> Option<V> {
    let i = key_index(s, k);
    if i >= 0 {
        Some(s[i].1)
    } else {
        None
    }
}

/// Stores `v` under `k`, replacing the entry of `k` in place if there is one.
pub open spec fn kv_insert<V>(s: Seq<(Seq<char>, V)>, k: Seq<char>, v: V) -> Seq<(Seq<char>, V)> {
    let i = key_index(s, k);
    if i >= 0 {
        s.update(i, (k, v))
    } else {
        s.push((k, v))
    }
}

pub proof fn lemma_key_index_from<V>(s: Seq<(Seq<char>, V)>, k: Seq<char>, i: int)
    requires
        0 <= i,
    ensures
        key_index_from(s, k, i) == -1 || (i <= key_index_from(s, k, i) < s.len() && s[key_index_from(
            s,
            k,
            i,
        )].0 == k),
        key_index_from(s, k, i) == -1 ==> forall|j: int| i <= j < s.len() ==> s[j].0 != k,
        key_index_from(s, k, i) >= 0 ==> forall|j: int|
            i <= j < key_index_from(s, k, i) ==> s[j].0 != k,
    decreases s.len() - i,
{
    if i < s.len() && s[i].0 != k {
        lemma_key_index_from(s, k, i + 1);
    }
}

/// Position of `k` among the keys of `v`.
fn find_key<V: View>(v: &Vec<(String, V)>, k: &str) -> (res: Option<usize>)
    ensures
        match res {
            Some(i) => key_index(v@.map_values(|p: (String, V)| (p.0@, p.1@)), k@) == i as int
                && i < v@.len(),
            None => key_index(v@.map_values(|p: (String, V)| (p.0@, p.1@)), k@) == -1,
        },
{
    let ghost pv = v@.map_values(|p: (String, V)| (p.0@, p.1@));
    let mut i: usize = 0;
    while i < v.len()
        invariant
            i <= v@.len(),
            pv == v@.map_values(|p: (String, V)| (p.0@, p.1@)),
            key_index(pv, k@) == key_index_from(pv, k@, i as int),
        decreases v@.len() - i,
    {
        if str_eq_string(&v[i].0, k) {
            proof {
                assert(pv[i as int].0 == k@);
            }
            return Some(i);
        }
        i = i + 1;
    }
    None
}

fn str_eq_string(a: &String, b: &str) -> (res: bool)
    ensures
        res == (a@ == b@),
{
    crate::text::str_eq(a.as_str(), b)
}

/// Stores `val` under `key`, as [`kv_insert`] does.
fn insert_key<V: View>(v: &mut Vec<(String, V)>, key: String, val: V)
    ensures
        final(v)@.map_values(|p: (String, V)| (p.0@, p.1@)) == kv_insert(
            old(v)@.map_values(|p: (String, V)| (p.0@, p.1@)),
            key@,
            val@,
        ),
{
    let ghost pv = old(v)@.map_values(|p: (String, V)| (p.0@, p.1@));
    let ghost kv = key@;
    let ghost vv = val@;
    match find_key(v, key.as_str()) {
        Some(i) => {
            v.set(i, (key, val));
            proof {
                assert(v@.map_values(|p: (String, V)| (p.0@, p.1@)) =~= pv.update(
                    i as int,
                    (kv, vv),
                ));
            }
        },
        None => {
            v.push((key, val));
            proof {
                assert(v@.map_values(|p: (String, V)| (p.0@, p.1@)) =~= pv.push((kv, vv)));
            }
        },
    }
}

/// The arguments that have defaults, in declaration order, stored as defaults.
pub open spec fn init_args(decls: Seq<ArgDeclView>) -> Seq<(Seq<char>, ArgValueView)>
    decreases decls.len(),
{
    if decls.len() == 0 {
        Seq::empty()
    } else {
        let prev = init_args(decls.drop_last());
        let d = decls.last();
        match d.default {
            Some(x) => kv_insert(prev, d.name, ArgValueView::Default(x)),
            None => prev,
        }
    }
}

/// Stores the defaults of the flags `decls` on top of `acc`.
pub open spec fn flag_defaults(
    acc: Seq<(Seq<char>, FlagValueView)>,
    decls: Seq<FlagDeclView>,
) -> Seq<(Seq<char>, FlagValueView)>
    decreases decls.len(),
{
    if decls.len() == 0 {
        acc
    } else {
        let prev = flag_defaults(acc, decls.drop_last());
        let d = decls.last();
        match d.default {
            Some(b) => kv_insert(prev, d.name, FlagValueView::Default(d.name, b)),
            None => prev,
        }
    }
}

/// Stores the flag defaults and the group default of each group on top of `acc`.
pub open spec fn group_defaults(
    acc: Seq<(Seq<char>, FlagValueView)>,
    groups: Seq<FlagGroupView>,
) -> Seq<(Seq<char>, FlagValueView)>
    decreases groups.len(),
{
    if groups.len() == 0 {
        acc
    } else {
        let g = groups.last();
        let q = flag_defaults(group_defaults(acc, groups.drop_last()), g.flags);
        match g.default {
            Some(n) => kv_insert(q, n, FlagValueView::Default(n, true)),
            None => q,
        }
    }
}

/// The store before any token is read: all declared defaults.
pub open spec fn initial_store(d: ArgDeclListView) -> ArgStoreView {
    ArgStoreView {
        args: init_args(d.args),
        flags: group_defaults(flag_defaults(Seq::empty(), d.flags), d.flag_groups),
        flag_groups: Seq::empty(),
    }
}

pub open spec fn lexeme_spanned(t: LexemeView) -> Spanned<Seq<char>> {
    Spanned { span: t.span, value: t.text }
}

/// Tokens starting with `--` are flags.
pub open spec fn is_flag_text(t: Seq<char>) -> bool {
    t.len() >= 2 && t[0] == '-' && t[1] == '-'
}

/// The first flag declaration from `i` on that `flag` (the text after `--`)
/// names, directly (`true`) or through its negative prefix (`false`).
pub open spec fn find_flag_from(decls: Seq<FlagDeclView>, flag: Seq<char>, i: int) -> Option<
    (Seq<char>, bool),
>
    decreases decls.len() - i,
{
    if i < 0 || i >= decls.len() {
        None
    } else if decls[i].name == flag {
        Some((decls[i].name, true))
    } else if decls[i].negative_prefix is Some && decls[i].negative_prefix->0 + decls[i].name
        == flag {
        Some((decls[i].name, false))
    } else {
        find_flag_from(decls, flag, i + 1)
    }
}

/// Declaration `d` names the flag text `f`, directly or negated.
pub open spec fn names_flag(d: FlagDeclView, f: Seq<char>) -> bool {
    d.name == f || (d.negative_prefix is Some && d.negative_prefix->0 + d.name == f)
}

/// A flag that allows negation is matched, negated, by `--no-<name>`:
/// where the declaration at `i` has the negative prefix `no-` (as
/// [`FlagDecl::allow_negative`] gives it) and no earlier declaration
/// matches `no-<name>`, that text names it with the value `false`.
pub proof fn lemma_allow_negative_matches(decls: Seq<FlagDeclView>, i: int, k: int)
    requires
        0 <= k <= i < decls.len(),
        decls[i].negative_prefix == Some("no-"@),
        forall|j: int| k <= j < i ==> !names_flag(#[trigger] decls[j], "no-"@ + decls[i].name),
    ensures
        find_flag_from(decls, "no-"@ + decls[i].name, k) == Some((decls[i].name, false)),
    decreases i - k,
{
    reveal_strlit("no-");
    let f = "no-"@ + decls[i].name;
    if k < i {
        assert(!names_flag(decls[k], f));
        lemma_allow_negative_matches(decls, i, k + 1);
    } else {
        assert(f.len() == decls[i].name.len() + 3);
        assert(decls[i].name != f);
    }
}

/// Reading back a key just stored gives the stored value.
pub proof fn lemma_kv_insert_get<V>(s: Seq<(Seq<char>, V)>, k: Seq<char>, v: V)
    ensures
        kv_get(kv_insert(s, k, v), k) == Some(v),
{
    lemma_key_index_from(s, k, 0);
    let t = kv_insert(s, k, v);
    lemma_key_index_from(t, k, 0);
    let i = key_index(s, k);
    let j = key_index(t, k);
    if i >= 0 {
        assert(t[i].0 == k);
        if j >= 0 && j < i {
            assert(t[j] == s[j]);
        }
        assert(j == i);
    } else {
        assert(t[s.len() as int].0 == k);
        if j >= 0 && j < s.len() {
            assert(t[j] == s[j]);
        }
        assert(j == s.len());
    }
}

/// A parse whose last token is `--no-<name>`, for a flag declared with the
/// negative prefix `no-` (as [`FlagDecl::allow_negative`] gives it) that no
/// earlier flag declaration matches, stores the flag `name` as present with
/// the value `false`.
pub proof fn lemma_negated_flag_parses_false(d: ArgDeclListView, toks: Seq<LexemeView>, i: int)
    requires
        0 <= i < d.flags.len(),
        d.flags[i].negative_prefix == Some("no-"@),
        forall|j: int| 0 <= j < i ==> !names_flag(#[trigger] d.flags[j], "no-"@ + d.flags[i].name),
        toks.len() > 0,
        toks.last().token == Token::Value,
        toks.last().text == "--no-"@ + d.flags[i].name,
        parse_from_spec(d, toks) is Ok,
    ensures
        kv_get(parse_from_spec(d, toks)->Ok_0.flags, d.flags[i].name) == Some(
            FlagValueView::Present(lexeme_spanned(toks.last()), false),
        ),
{
    reveal_strlit("--no-");
    reveal_strlit("no-");
    let t = toks.last();
    let name = d.flags[i].name;
    assert(t.text.skip(2) =~= "no-"@ + name);
    assert(is_flag_text(t.text));
    lemma_allow_negative_matches(d.flags, i, 0);
    let st = read_tokens(d, toks.drop_last())->Ok_0;
    lemma_kv_insert_get(st.flags, name, FlagValueView::Present(lexeme_spanned(t), false));
}

/// The first match of `flag` in the groups from `i` on.
pub open spec fn find_group_flag_from(groups: Seq<FlagGroupView>, flag: Seq<char>, i: int) -> Option<
    (Seq<char>, bool),
>
    decreases groups.len() - i,
{
    if i < 0 || i >= groups.len() {
        None
    } else {
        match find_flag_from(groups[i].flags, flag, 0) {
            Some(x) => Some(x),
            None => find_group_flag_from(groups, flag, i + 1),
        }
    }
}

/// The spellings of the flags `decls`: each name, followed by its negation.
pub open spec fn flag_names(decls: Seq<FlagDeclView>) -> Seq<Seq<char>>
    decreases decls.len(),
{
    if decls.len() == 0 {
        Seq::empty()
    } else {
        let d = decls.last();
        flag_names(decls.drop_last()) + match d.negative_prefix {
            Some(p) => seq![d.name, p + d.name],
            None => seq![d.name],
        }
    }
}

/// The spellings of the flags of all groups.
pub open spec fn group_flag_names(groups: Seq<FlagGroupView>) -> Seq<Seq<char>>
    decreases groups.len(),
{
    if groups.len() == 0 {
        Seq::empty()
    } else {
        group_flag_names(groups.drop_last()) + flag_names(groups.last().flags)
    }
}

pub open spec fn all_flag_names(d: ArgDeclListView) -> Seq<Seq<char>> {
    flag_names(d.flags) + group_flag_names(d.flag_groups)
}

pub open spec fn arg_names(decls: Seq<ArgDeclView>) -> Seq<Seq<char>> {
    decls.map_values(|a: ArgDeclView| a.name)
}

/// Reads a flag token.
pub open spec fn parse_flag_spec(d: ArgDeclListView, t: LexemeView) -> Result<
    (Seq<char>, FlagValueView),
    ParseErrorView,
> {
    let flag = t.text.skip(2);
    let found = match find_flag_from(d.flags, flag, 0) {
        Some(x) => Some(x),
        None => find_group_flag_from(d.flag_groups, flag, 0),
    };
    match found {
        Some((name, b)) => Ok((name, FlagValueView::Present(lexeme_spanned(t), b))),
        None => Err(ParseErrorView::UnexpectedFlag(lexeme_spanned(t), all_flag_names(d))),
    }
}

/// Position of the first `c` in `s` from `i` on, or -1.
pub open spec fn char_index_from(s: Seq<char>, c: char, i: int) -> int
    decreases s.len() - i,
{
    if i < 0 || i >= s.len() {
        -1
    } else if s[i] == c {
        i
    } else {
        char_index_from(s, c, i + 1)
    }
}

/// The first declaration from `i` on named `name`.
pub open spec fn find_arg_from(decls: Seq<ArgDeclView>, name: Seq<char>, i: int) -> Option<
    ArgDeclView,
>
    decreases decls.len() - i,
{
    if i < 0 || i >= decls.len() {
        None
    } else if decls[i].name == name {
        Some(decls[i])
    } else {
        find_arg_from(decls, name, i + 1)
    }
}

/// Reads a `name:value` token.
pub open spec fn parse_arg_spec(d: ArgDeclListView, t: LexemeView) -> Result<
    (Seq<char>, ArgValueView),
    ParseErrorView,
> {
    let c = char_index_from(t.text, ':', 0);
    if c < 0 {
        Err(ParseErrorView::ExpectedArg(lexeme_spanned(t), arg_names(d.args)))
    } else {
        let name = t.text.take(c);
        let value = t.text.skip(c + 1);
        match find_arg_from(d.args, name, 0) {
            None => Err(ParseErrorView::UnexpectedArg(Spanned { span: t.span, value: name })),
            Some(decl) => if value.len() == 0 && !decl.allow_empty {
                Err(ParseErrorView::EmptyArg(lexeme_spanned(t), decl.hint))
            } else {
                Ok(
                    (
                        name,
                        ArgValueView::Value(
                            Spanned {
                                span: Span {
                                    start: (t.span.start + crate::text::byte_offset(t.text, c) + 1) as usize,
                                    end: t.span.end,
                                },
                                value,
                            },
                            t.span,
                        ),
                    ),
                )
            },
        }
    }
}

/// Reads one token into the store.
pub open spec fn token_step(d: ArgDeclListView, t: LexemeView, st: ArgStoreView) -> Result<
    ArgStoreView,
    ParseErrorView,
> {
    if t.token == Token::Value {
        if is_flag_text(t.text) {
            match parse_flag_spec(d, t) {
                Ok((n, v)) => Ok(ArgStoreView { flags: kv_insert(st.flags, n, v), ..st }),
                Err(e) => Err(e),
            }
        } else {
            match parse_arg_spec(d, t) {
                Ok((n, v)) => Ok(ArgStoreView { args: kv_insert(st.args, n, v), ..st }),
                Err(e) => Err(e),
            }
        }
    } else {
        Err(ParseErrorView::UnexpectedToken(lexeme_spanned(t)))
    }
}

/// Reads the tokens `toks` in order, stopping at the first error.
pub open spec fn read_tokens(d: ArgDeclListView, toks: Seq<LexemeView>) -> Result<
    ArgStoreView,
    ParseErrorView,
>
    decreases toks.len(),
{
    if toks.len() == 0 {
        Ok(initial_store(d))
    } else {
        match read_tokens(d, toks.drop_last()) {
            Err(e) => Err(e),
            Ok(st) => token_step(d, toks.last(), st),
        }
    }
}

/// The names of the required arguments without a value, in declaration order.
pub open spec fn missing_args(decls: Seq<ArgDeclView>, args: Seq<(Seq<char>, ArgValueView)>) -> Seq<
    Seq<char>,
>
    decreases decls.len(),
{
    if decls.len() == 0 {
        Seq::empty()
    } else {
        let d = decls.last();
        missing_args(decls.drop_last(), args) + if d.required && key_index(args, d.name) < 0 {
            seq![d.name]
        } else {
            Seq::empty()
        }
    }
}

pub open spec fn group_has_flag(g: FlagGroupView, k: Seq<char>) -> bool {
    exists|i: int| 0 <= i < g.flags.len() && #[trigger] g.flags[i].name == k
}

/// The value of group `g` among the flag entries: the flag given on the line
/// if there is one (two given flags conflict), else the first default.
pub open spec fn group_scan(g: FlagGroupView, entries: Seq<(Seq<char>, FlagValueView)>) -> Result<
    Option<FlagValueView>,
    ParseErrorView,
>
    decreases entries.len(),
{
    if entries.len() == 0 {
        Ok(None)
    } else {
        match group_scan(g, entries.drop_last()) {
            Err(e) => Err(e),
            Ok(cur) => {
                let k = entries.last().0;
                let v = entries.last().1;
                if !group_has_flag(g, k) {
                    Ok(cur)
                } else {
                    match v {
                        FlagValueView::Present(sp, _) => match cur {
                            Some(FlagValueView::Present(old_sp, _)) => Err(
                                ParseErrorView::FlagGroupConflict(g.group_name, old_sp, sp),
                            ),
                            _ => Ok(Some(v)),
                        },
                        FlagValueView::Default(_, _) => if cur is None {
                            Ok(Some(v))
                        } else {
                            Ok(cur)
                        },
                    }
                }
            },
        }
    }
}

/// The values of the groups `groups`, group by group.
pub open spec fn resolve_groups(
    groups: Seq<FlagGroupView>,
    flags: Seq<(Seq<char>, FlagValueView)>,
) -> Result<Seq<(Seq<char>, FlagValueView)>, ParseErrorView>
    decreases groups.len(),
{
    if groups.len() == 0 {
        Ok(Seq::empty())
    } else {
        match resolve_groups(groups.drop_last(), flags) {
            Err(e) => Err(e),
            Ok(fg) => {
                let g = groups.last();
                match group_scan(g, flags) {
                    Err(e) => Err(e),
                    Ok(Some(v)) => Ok(kv_insert(fg, g.group_name, v)),
                    Ok(None) => if g.required {
                        Err(
                            ParseErrorView::MissingFlagGroupRequiredFlag(
                                g.group_name,
                                g.flags.map_values(|f: FlagDeclView| f.name),
                            ),
                        )
                    } else {
                        Ok(fg)
                    },
                }
            },
        }
    }
}

/// The result of reading all of `toks` against the declarations `d`.
pub open spec fn parse_from_spec(d: ArgDeclListView, toks: Seq<LexemeView>) -> Result<
    ArgStoreView,
    ParseErrorView,
> {
    match read_tokens(d, toks) {
        Err(e) => Err(e),
        Ok(st) => {
            let missing = missing_args(d.args, st.args);
            if missing.len() > 0 {
                Err(ParseErrorView::MissingRequiredArgs(missing))
            } else {
                match resolve_groups(d.flag_groups, st.flags) {
                    Err(e) => Err(e),
                    Ok(fg) => Ok(ArgStoreView { flag_groups: fg, ..st }),
                }
            }
        }
    }
}

/// Whether the span of `t` covers exactly its text.
pub open spec fn lexeme_wf(t: LexemeView) -> bool {
    t.span.start + vstd::utf8::encode_utf8(t.text).len() == t.span.end
}

pub open spec fn all_lexemes_wf(toks: Seq<LexemeView>) -> bool {
    forall|i: int| 0 <= i < toks.len() ==> lexeme_wf(#[trigger] toks[i])
}

fn lexeme_spanned_exec(t: &Lexeme) -> (res: Spanned<String>)
    ensures
        res@ == lexeme_spanned(t@),
{
    Spanned { span: t.span, value: t.text.clone() }
}

/// Finds `flag` among `decls` as [`find_flag_from`] does.
fn find_flag(decls: &Vec<FlagDecl>, flag: &[char]) -> (res: Option<(&'static str, bool)>)
    ensures
        match res {
            Some((n, b)) => find_flag_from(flag_decls_view(decls@), flag@, 0) == Some((n@, b)),
            None => find_flag_from(flag_decls_view(decls@), flag@, 0) is None,
        },
{
    let ghost dv = flag_decls_view(decls@);
    let mut i: usize = 0;
    while i < decls.len()
        invariant
            i <= decls@.len(),
            dv == flag_decls_view(decls@),
            find_flag_from(dv, flag@, 0) == find_flag_from(dv, flag@, i as int),
        decreases decls@.len() - i,
    {
        let d = &decls[i];
        let name = chars_of(d.name);
        if chars_eq(name.as_slice(), flag) {
            return Some((d.name, true));
        }
        match d.negative_prefix {
            Some(p) => {
                let mut full = chars_of(p);
                let mut rest = name;
                full.append(&mut rest);
                if chars_eq(full.as_slice(), flag) {
                    return Some((d.name, false));
                }
            },
            None => {},
        }
        i = i + 1;
    }
    None
}

/// The spellings of `decls`, as [`flag_names`] gives them, after `out`.
fn push_flag_names(decls: &Vec<FlagDecl>, out: &mut Vec<String>)
    ensures
        strs_view(final(out)@) == strs_view(old(out)@) + flag_names(flag_decls_view(decls@)),
{
    let ghost dv = flag_decls_view(decls@);
    let ghost start = strs_view(out@);
    let mut i: usize = 0;
    while i < decls.len()
        invariant
            i <= decls@.len(),
            dv == flag_decls_view(decls@),
            strs_view(out@) == start + flag_names(dv.take(i as int)),
        decreases decls@.len() - i,
    {
        let d = &decls[i];
        let ghost before = out@;
        out.push(d.name.to_owned());
        match d.negative_prefix {
            Some(p) => {
                let mut full = p.to_owned();
                crate::text::push_str(&mut full, d.name);
                out.push(full);
            },
            None => {},
        }
        proof {
            assert(dv.take(i + 1).drop_last() =~= dv.take(i as int));
            assert(dv.take(i + 1).last() == dv[i as int]);
            assert(strs_view(out@) =~= strs_view(before) + match dv[i as int].negative_prefix {
                Some(p) => seq![dv[i as int].name, p + dv[i as int].name],
                None => seq![dv[i as int].name],
            });
        }
        i = i + 1;
    }
    proof {
        assert(dv.take(decls@.len() as int) =~= dv);
    }
}

impl ArgDeclList {
    /// A list without declarations.
    pub fn new() -> (res: Self)
        ensures
            res@.args.len() == 0,
            res@.flags.len() == 0,
            res@.flag_groups.len() == 0,
    {
        ArgDeclList { args: Vec::new(), flags: Vec::new(), flag_groups: Vec::new() }
    }

    /// Declares the argument `name`, as shaped by `decl`.
    pub fn arg<F>(self, name: &'static str, decl: F) -> (res: Self) where
        F: FnOnce(ArgDecl) -> ArgDecl,

        requires
            call_requires(decl, (ArgDecl::spec_new(name),)),
        ensures
            res@.args.len() == self@.args.len() + 1,
            res@.args.drop_last() == self@.args,
            exists|d: ArgDecl|
                call_ensures(decl, (ArgDecl::spec_new(name),), d) && res@.args.last() == d@,
            res@.flags == self@.flags,
            res@.flag_groups == self@.flag_groups,
    {
        let d = decl(ArgDecl::new(name));
        let ghost dv = d@;
        let mut s = self;
        let ghost before = s.args@;
        s.args.push(d);
        proof {
            assert(arg_decls_view(s.args@).drop_last() =~= arg_decls_view(before));
            assert(arg_decls_view(s.args@).last() == dv);
        }
        s
    }

    /// Declares the flag `name`, as shaped by `decl`.
    pub fn flag<F>(self, name: &'static str, decl: F) -> (res: Self) where
        F: FnOnce(FlagDecl) -> FlagDecl,

        requires
            call_requires(decl, (FlagDecl::spec_new(name),)),
        ensures
            res@.flags.len() == self@.flags.len() + 1,
            res@.flags.drop_last() == self@.flags,
            exists|d: FlagDecl|
                call_ensures(decl, (FlagDecl::spec_new(name),), d) && res@.flags.last() == d@,
            res@.args == self@.args,
            res@.flag_groups == self@.flag_groups,
    {
        let d = decl(FlagDecl::new(name));
        let ghost dv = d@;
        let mut s = self;
        let ghost before = s.flags@;
        s.flags.push(d);
        proof {
            assert(flag_decls_view(s.flags@).drop_last() =~= flag_decls_view(before));
            assert(flag_decls_view(s.flags@).last() == dv);
        }
        s
    }

    /// Declares the flag group `name`, as shaped by `decl`.
    pub fn flag_group<F>(self, name: &'static str, decl: F) -> (res: Self) where
        F: FnOnce(FlagGroup) -> FlagGroup,

        requires
            forall|g: FlagGroup| g@ == FlagGroup::initial_view(name@) ==> call_requires(decl, (g,)),
        ensures
            res@.flag_groups.len() == self@.flag_groups.len() + 1,
            res@.flag_groups.drop_last() == self@.flag_groups,
            exists|g0: FlagGroup, g: FlagGroup|
                g0@ == FlagGroup::initial_view(name@) && call_ensures(decl, (g0,), g)
                    && res@.flag_groups.last() == g@,
            res@.args == self@.args,
            res@.flags == self@.flags,
    {
        let g0 = FlagGroup::new(name);
        let ghost g0v = g0;
        let g = decl(g0);
        let ghost gv = g@;
        let mut s = self;
        let ghost before = s.flag_groups@;
        s.flag_groups.push(g);
        proof {
            assert(flag_groups_view(s.flag_groups@).drop_last() =~= flag_groups_view(before));
            assert(flag_groups_view(s.flag_groups@).last() == gv);
            assert(call_ensures(decl, (g0v,), g));
        }
        s
    }

    /// The names of the declared arguments.
    fn arg_names(&self) -> (res: Vec<String>)
        ensures
            strs_view(res@) == arg_names(self@.args),
    {
        let ghost av = arg_decls_view(self.args@);
        let mut out: Vec<String> = Vec::new();
        let mut i: usize = 0;
        while i < self.args.len()
            invariant
                i <= self.args@.len(),
                av == arg_decls_view(self.args@),
                strs_view(out@) == arg_names(av.take(i as int)),
            decreases self.args@.len() - i,
        {
            let ghost before = out@;
            let n = self.args[i].name.to_owned();
            out.push(n);
            proof {
                assert(av[i as int].name == n@);
                assert(strs_view(out@) =~= strs_view(before).push(n@));
                assert(av.take(i + 1) =~= av.take(i as int).push(av[i as int]));
                assert(arg_names(av.take(i + 1)) =~= arg_names(av.take(i as int)).push(
                    av[i as int].name,
                ));
            }
            i = i + 1;
        }
        proof {
            assert(av.take(self.args@.len() as int) =~= av);
        }
        out
    }

    /// The spellings of all declared flags, group flags last.
    fn all_flag_names(&self) -> (res: Vec<String>)
        ensures
            strs_view(res@) == all_flag_names(self@),
    {
        let mut out: Vec<String> = Vec::new();
        proof {
            assert(strs_view(out@) =~= Seq::empty());
        }
        push_flag_names(&self.flags, &mut out);
        let ghost gv = flag_groups_view(self.flag_groups@);
        let ghost base = strs_view(out@);
        let mut i: usize = 0;
        while i < self.flag_groups.len()
            invariant
                i <= self.flag_groups@.len(),
                gv == flag_groups_view(self.flag_groups@),
                strs_view(out@) == base + group_flag_names(gv.take(i as int)),
            decreases self.flag_groups@.len() - i,
        {
            push_flag_names(&self.flag_groups[i].flags, &mut out);
            proof {
                assert(gv.take(i + 1).drop_last() =~= gv.take(i as int));
                assert(gv.take(i + 1).last() == gv[i as int]);
            }
            i = i + 1;
        }
        proof {
            assert(gv.take(self.flag_groups@.len() as int) =~= gv);
            assert(base =~= Seq::empty() + flag_names(self@.flags));
        }
        out
    }

    /// Reads a flag token.
    fn parse_flag(&self, t: &Lexeme) -> (res: Result<(String, FlagValue), UshParseError>)
        requires
            is_flag_text(t@.text),
        ensures
            match res {
                Ok((n, v)) => parse_flag_spec(self@, t@) == Ok::<
                    (Seq<char>, FlagValueView),
                    ParseErrorView,
                >((n@, v@)),
                Err(e) => parse_flag_spec(self@, t@) == Err::<
                    (Seq<char>, FlagValueView),
                    ParseErrorView,
                >(e@),
            },
    {
        let text = chars_of(t.text.as_str());
        let flag = vstd::slice::slice_subrange(text.as_slice(), 2, text.len());
        let ghost gv = flag_groups_view(self.flag_groups@);
        proof {
            assert(flag@ =~= t@.text.skip(2));
        }
        let mut found = find_flag(&self.flags, flag);
        if found.is_none() {
            let mut i: usize = 0;
            while found.is_none() && i < self.flag_groups.len()
                invariant
                    i <= self.flag_groups@.len(),
                    gv == flag_groups_view(self.flag_groups@),
                    found is None ==> find_group_flag_from(gv, flag@, 0) == find_group_flag_from(
                        gv,
                        flag@,
                        i as int,
                    ),
                    found matches Some((n, b)) ==> find_group_flag_from(gv, flag@, 0) == Some(
                        (n@, b),
                    ),
                decreases self.flag_groups@.len() - i,
            {
                found = find_flag(&self.flag_groups[i].flags, flag);
                i = i + 1;
            }
        }
        match found {
            Some((name, b)) => Ok((name.to_owned(), FlagValue::Present(lexeme_spanned_exec(t), b))),
            None => Err(UshParseError::UnexpectedFlag(lexeme_spanned_exec(t), self.all_flag_names())),
        }
    }

    /// Position of the first argument declaration named `name`.
    fn find_arg(&self, name: &[char]) -> (res: Option<usize>)
        ensures
            match res {
                Some(i) => i < self@.args.len() && find_arg_from(self@.args, name@, 0) == Some(
                    self@.args[i as int],
                ),
                None => find_arg_from(self@.args, name@, 0) is None,
            },
    {
        let ghost av = arg_decls_view(self.args@);
        let mut i: usize = 0;
        while i < self.args.len()
            invariant
                i <= self.args@.len(),
                av == arg_decls_view(self.args@),
                av == self@.args,
                find_arg_from(av, name@, 0) == find_arg_from(av, name@, i as int),
            decreases self.args@.len() - i,
        {
            let dn = chars_of(self.args[i].name);
            if chars_eq(dn.as_slice(), name) {
                return Some(i);
            }
            i = i + 1;
        }
        None
    }

    /// Reads a `name:value` token.
    fn parse_arg(&self, t: &Lexeme) -> (res: Result<(String, ArgValue), UshParseError>)
        requires
            lexeme_wf(t@),
        ensures
            match res {
                Ok((n, v)) => parse_arg_spec(self@, t@) == Ok::<
                    (Seq<char>, ArgValueView),
                    ParseErrorView,
                >((n@, v@)),
                Err(e) => parse_arg_spec(self@, t@) == Err::<
                    (Seq<char>, ArgValueView),
                    ParseErrorView,
                >(e@),
            },
    {
        let text = chars_of(t.text.as_str());
        let len = text.len();
        let mut c: usize = 0;
        while c < len && text[c] != ':'
            invariant
                c <= len,
                len == text@.len(),
                char_index_from(text@, ':', 0) == char_index_from(text@, ':', c as int),
            decreases len - c,
        {
            c = c + 1;
        }
        if c >= len {
            return Err(UshParseError::ExpectedArg(lexeme_spanned_exec(t), self.arg_names()));
        }
        let name = vstd::slice::slice_subrange(text.as_slice(), 0, c);
        let value = vstd::slice::slice_subrange(text.as_slice(), c + 1, len);
        proof {
            assert(name@ =~= t@.text.take(c as int));
            assert(value@ =~= t@.text.skip(c + 1));
        }
        let found = self.find_arg(name);
        if found.is_none() {
            return Err(
                UshParseError::UnexpectedArg(Spanned { span: t.span, value: string_of(name) }),
            );
        }
        let i = found.unwrap();
        let decl = &self.args[i];
        if value.len() == 0 && !decl.allow_empty {
            return Err(UshParseError::EmptyArg(lexeme_spanned_exec(t), decl.hint));
        }
        let offs = crate::text::byte_offsets(text.as_slice(), Ghost(vstd::utf8::encode_utf8(text@).len()));
        proof {
            crate::text::lemma_byte_offset_step(text@, c as int);
            crate::text::lemma_utf8_width(text@[c as int]);
        }
        let value_span = Span { start: t.span.start + offs[c] + 1, end: t.span.end };
        Ok(
            (
                string_of(name),
                ArgValue::Value(Spanned { span: value_span, value: string_of(value) }, t.span),
            ),
        )
    }
}

proof fn lemma_group_scan_prefix_err(
    g: FlagGroupView,
    entries: Seq<(Seq<char>, FlagValueView)>,
    k: int,
)
    requires
        0 <= k <= entries.len(),
        group_scan(g, entries.take(k)) is Err,
    ensures
        group_scan(g, entries) == group_scan(g, entries.take(k)),
    decreases entries.len() - k,
{
    if k < entries.len() {
        assert(entries.take(k + 1).drop_last() =~= entries.take(k));
        lemma_group_scan_prefix_err(g, entries, k + 1);
    } else {
        assert(entries.take(k) =~= entries);
    }
}

proof fn lemma_read_tokens_prefix_err(d: ArgDeclListView, toks: Seq<LexemeView>, k: int)
    requires
        0 <= k <= toks.len(),
        read_tokens(d, toks.take(k)) is Err,
    ensures
        read_tokens(d, toks) == read_tokens(d, toks.take(k)),
    decreases toks.len() - k,
{
    if k < toks.len() {
        assert(toks.take(k + 1).drop_last() =~= toks.take(k));
        lemma_read_tokens_prefix_err(d, toks, k + 1);
    } else {
        assert(toks.take(k) =~= toks);
    }
}

proof fn lemma_resolve_groups_prefix_err(
    groups: Seq<FlagGroupView>,
    flags: Seq<(Seq<char>, FlagValueView)>,
    k: int,
)
    requires
        0 <= k <= groups.len(),
        resolve_groups(groups.take(k), flags) is Err,
    ensures
        resolve_groups(groups, flags) == resolve_groups(groups.take(k), flags),
    decreases groups.len() - k,
{
    if k < groups.len() {
        assert(groups.take(k + 1).drop_last() =~= groups.take(k));
        lemma_resolve_groups_prefix_err(groups, flags, k + 1);
    } else {
        assert(groups.take(k) =~= groups);
    }
}

pub open spec fn opt_flag_view(o: Option<FlagValue>) -> Option<FlagValueView> {
    match o {
        Some(v) => Some(v@),
        None => None,
    }
}

/// Stores the defaults of `decls` into `out`, as [`flag_defaults`] does.
fn store_flag_defaults(decls: &Vec<FlagDecl>, out: &mut Vec<(String, FlagValue)>)
    ensures
        flag_pairs_view(final(out)@) == flag_defaults(
            flag_pairs_view(old(out)@),
            flag_decls_view(decls@),
        ),
{
    let ghost dv = flag_decls_view(decls@);
    let ghost start = flag_pairs_view(out@);
    let mut i: usize = 0;
    while i < decls.len()
        invariant
            i <= decls@.len(),
            dv == flag_decls_view(decls@),
            flag_pairs_view(out@) == flag_defaults(start, dv.take(i as int)),
        decreases decls@.len() - i,
    {
        let d = &decls[i];
        proof {
            assert(dv.take(i + 1).drop_last() =~= dv.take(i as int));
            assert(dv.take(i + 1).last() == dv[i as int]);
        }
        match d.default {
            Some(b) => {
                insert_key(out, d.name.to_owned(), FlagValue::Default(d.name.to_owned(), b));
            },
            None => {},
        }
        i = i + 1;
    }
    proof {
        assert(dv.take(decls@.len() as int) =~= dv);
    }
}

impl FlagGroup {
    /// Whether the group has a flag named `name`.
    fn contains_flag(&self, name: &String) -> (res: bool)
        ensures
            res == group_has_flag(self@, name@),
    {
        let mut i: usize = 0;
        while i < self.flags.len()
            invariant
                i <= self.flags@.len(),
                forall|j: int| 0 <= j < i ==> self@.flags[j].name != name@,
            decreases self.flags@.len() - i,
        {
            if str_eq_string(name, self.flags[i].name) {
                proof {
                    assert(self@.flags[i as int].name == name@);
                }
                return true;
            }
            i = i + 1;
        }
        false
    }

    /// The value of this group among the flag entries, as [`group_scan`] gives it.
    fn scan(&self, entries: &Vec<(String, FlagValue)>) -> (res: Result<
        Option<FlagValue>,
        UshParseError,
    >)
        ensures
            match res {
                Ok(o) => group_scan(self@, flag_pairs_view(entries@)) == Ok::<
                    Option<FlagValueView>,
                    ParseErrorView,
                >(opt_flag_view(o)),
                Err(e) => group_scan(self@, flag_pairs_view(entries@)) == Err::<
                    Option<FlagValueView>,
                    ParseErrorView,
                >(e@),
            },
    {
        let ghost ev = flag_pairs_view(entries@);
        let mut cur: Option<FlagValue> = None;
        let mut i: usize = 0;
        while i < entries.len()
            invariant
                i <= entries@.len(),
                ev == flag_pairs_view(entries@),
                group_scan(self@, ev.take(i as int)) == Ok::<
                    Option<FlagValueView>,
                    ParseErrorView,
                >(opt_flag_view(cur)),
            decreases entries@.len() - i,
        {
            proof {
                assert(ev.take(i + 1).drop_last() =~= ev.take(i as int));
                assert(ev.take(i + 1).last() == ev[i as int]);
            }
            let entry = &entries[i];
            if self.contains_flag(&entry.0) {
                match &entry.1 {
                    FlagValue::Present(sp, _) => {
                        match &cur {
                            Some(FlagValue::Present(old_sp, _)) => {
                                proof {
                                    lemma_group_scan_prefix_err(self@, ev, i + 1);
                                }
                                return Err(
                                    UshParseError::FlagGroupConflict(
                                        self.group_name.to_owned(),
                                        Spanned { span: old_sp.span, value: old_sp.value.clone() },
                                        Spanned { span: sp.span, value: sp.value.clone() },
                                    ),
                                );
                            },
                            _ => {
                                cur = Some(entry.1.copy());
                            },
                        }
                    },
                    FlagValue::Default(_, _) => {
                        if cur.is_none() {
                            cur = Some(entry.1.copy());
                        }
                    },
                }
            }
            i = i + 1;
        }
        proof {
            assert(ev.take(entries@.len() as int) =~= ev);
        }
        Ok(cur)
    }

    /// The names of the flags of this group.
    fn flag_names_exec(&self) -> (res: Vec<String>)
        ensures
            strs_view(res@) == self@.flags.map_values(|f: FlagDeclView| f.name),
    {
        let ghost fv = self@.flags;
        let mut out: Vec<String> = Vec::new();
        let mut i: usize = 0;
        while i < self.flags.len()
            invariant
                i <= self.flags@.len(),
                fv == self@.flags,
                strs_view(out@) == fv.take(i as int).map_values(|f: FlagDeclView| f.name),
            decreases self.flags@.len() - i,
        {
            let ghost before = out@;
            let n = self.flags[i].name.to_owned();
            out.push(n);
            proof {
                assert(fv[i as int].name == n@);
                assert(strs_view(out@) =~= strs_view(before).push(n@));
                assert(fv.take(i + 1) =~= fv.take(i as int).push(fv[i as int]));
                assert(fv.take(i + 1).map_values(|f: FlagDeclView| f.name) =~= fv.take(
                    i as int,
                ).map_values(|f: FlagDeclView| f.name).push(fv[i as int].name));
            }
            i = i + 1;
        }
        proof {
            assert(fv.take(self.flags@.len() as int) =~= fv);
        }
        out
    }
}

impl ArgDeclList {
    /// Reads all remaining tokens of `parser` as arguments and flags of these
    /// declarations, then checks required arguments and resolves flag groups.
    pub fn parse_from(self, parser: &mut UshCommandParser) -> (res: Result<ArgStore, UshParseError>)
        requires
            all_lexemes_wf(old(parser).remaining()),
        ensures
            match res {
                Ok(st) => parse_from_spec(self@, old(parser).remaining()) == Ok::<
                    ArgStoreView,
                    ParseErrorView,
                >(st@),
                Err(e) => parse_from_spec(self@, old(parser).remaining()) == Err::<
                    ArgStoreView,
                    ParseErrorView,
                >(e@),
            },
            res is Ok ==> final(parser).remaining().len() == 0,
            final(parser).command_kind() == old(parser).command_kind(),
            final(parser).name_view() == old(parser).name_view(),
    {
        let ghost d = self@;
        let mut store = ArgStore { args: Vec::new(), flags: Vec::new(), flag_groups: Vec::new() };
        let ghost av = arg_decls_view(self.args@);
        let mut i: usize = 0;
        proof {
            assert(arg_pairs_view(store.args@) =~= Seq::empty());
            assert(flag_pairs_view(store.flags@) =~= Seq::empty());
            assert(flag_pairs_view(store.flag_groups@) =~= Seq::empty());
            assert(av.take(0) =~= Seq::<ArgDeclView>::empty());
        }
        while i < self.args.len()
            invariant
                i <= self.args@.len(),
                av == arg_decls_view(self.args@),
                arg_pairs_view(store.args@) == init_args(av.take(i as int)),
                flag_pairs_view(store.flags@) == Seq::<(Seq<char>, FlagValueView)>::empty(),
                flag_pairs_view(store.flag_groups@) == Seq::<(Seq<char>, FlagValueView)>::empty(),
            decreases self.args@.len() - i,
        {
            let decl = &self.args[i];
            proof {
                assert(av.take(i + 1).drop_last() =~= av.take(i as int));
                assert(av.take(i + 1).last() == av[i as int]);
            }
            match &decl.default {
                Some(x) => {
                    insert_key(&mut store.args, decl.name.to_owned(), ArgValue::Default(x.clone()));
                },
                None => {},
            }
            i = i + 1;
        }
        proof {
            assert(av.take(self.args@.len() as int) =~= av);
        }
        store_flag_defaults(&self.flags, &mut store.flags);
        let ghost base = flag_pairs_view(store.flags@);
        let ghost gv = flag_groups_view(self.flag_groups@);
        let mut i: usize = 0;
        while i < self.flag_groups.len()
            invariant
                i <= self.flag_groups@.len(),
                gv == flag_groups_view(self.flag_groups@),
                flag_pairs_view(store.flags@) == group_defaults(base, gv.take(i as int)),
                arg_pairs_view(store.args@) == init_args(d.args),
                flag_pairs_view(store.flag_groups@) == Seq::<(Seq<char>, FlagValueView)>::empty(),
                d == self@,
            decreases self.flag_groups@.len() - i,
        {
            let g = &self.flag_groups[i];
            proof {
                assert(gv.take(i + 1).drop_last() =~= gv.take(i as int));
                assert(gv.take(i + 1).last() == gv[i as int]);
            }
            store_flag_defaults(&g.flags, &mut store.flags);
            match g.default {
                Some(n) => {
                    insert_key(&mut store.flags, n.to_owned(), FlagValue::Default(n.to_owned(), true));
                },
                None => {},
            }
            i = i + 1;
        }
        proof {
            assert(gv.take(self.flag_groups@.len() as int) =~= gv);
            assert(store@ == initial_store(d));
        }
        let ghost toks = parser.remaining();
        let ghost mut k: int = 0;
        proof {
            assert(toks.take(0) =~= Seq::<LexemeView>::empty());
            assert(toks.skip(0) =~= toks);
        }
        loop
            invariant
                0 <= k <= toks.len(),
                parser.remaining() == toks.skip(k),
                all_lexemes_wf(toks),
                read_tokens(d, toks.take(k)) == Ok::<ArgStoreView, ParseErrorView>(store@),
                flag_pairs_view(store.flag_groups@) == Seq::<(Seq<char>, FlagValueView)>::empty(),
                d == self@,
                av == arg_decls_view(self.args@),
                gv == flag_groups_view(self.flag_groups@),
                parser.command == old(parser).command,
                parser.command_name == old(parser).command_name,
                toks == old(parser).remaining(),
            ensures
                k == toks.len(),
                parser.remaining().len() == 0,
                flag_pairs_view(store.flag_groups@) == Seq::<(Seq<char>, FlagValueView)>::empty(),
                parser.command == old(parser).command,
                parser.command_name == old(parser).command_name,
                read_tokens(d, toks.take(k)) == Ok::<ArgStoreView, ParseErrorView>(store@),
            decreases toks.len() - k,
        {
            let next = parser.lexer.next();
            match next {
                None => {
                    break ;
                },
                Some(t) => {
                    proof {
                        assert(t@ == toks[k]);
                        assert(toks.take(k + 1).drop_last() =~= toks.take(k));
                        assert(toks.take(k + 1).last() == toks[k]);
                        assert(lexeme_wf(toks[k]));
                        assert(toks.skip(k).skip(1) =~= toks.skip(k + 1));
                    }
                    match t.token {
                        Token::Value => {
                            let text = chars_of(t.text.as_str());
                            if text.len() >= 2 && text[0] == '-' && text[1] == '-' {
                                match self.parse_flag(&t) {
                                    Ok((n, v)) => {
                                        insert_key(&mut store.flags, n, v);
                                    },
                                    Err(e) => {
                                        proof {
                                            lemma_read_tokens_prefix_err(d, toks, k + 1);
                                        }
                                        return Err(e);
                                    },
                                }
                            } else {
                                match self.parse_arg(&t) {
                                    Ok((n, v)) => {
                                        insert_key(&mut store.args, n, v);
                                    },
                                    Err(e) => {
                                        proof {
                                            lemma_read_tokens_prefix_err(d, toks, k + 1);
                                        }
                                        return Err(e);
                                    },
                                }
                            }
                        },
                        _ => {
                            proof {
                                lemma_read_tokens_prefix_err(d, toks, k + 1);
                            }
                            return Err(UshParseError::UnexpectedToken(lexeme_spanned_exec(&t)));
                        },
                    }
                    proof {
                        k = k + 1;
                    }
                },
            }
        }
        proof {
            assert(toks.take(k) =~= toks);
        }
        let mut missing: Vec<String> = Vec::new();
        let ghost sargs = arg_pairs_view(store.args@);
        let mut i: usize = 0;
        proof {
            assert(strs_view(missing@) =~= Seq::empty());
            assert(av.take(0) =~= Seq::<ArgDeclView>::empty());
        }
        while i < self.args.len()
            invariant
                i <= self.args@.len(),
                av == arg_decls_view(self.args@),
                sargs == arg_pairs_view(store.args@),
                strs_view(missing@) == missing_args(av.take(i as int), sargs),
            decreases self.args@.len() - i,
        {
            let decl = &self.args[i];
            proof {
                assert(av.take(i + 1).drop_last() =~= av.take(i as int));
                assert(av.take(i + 1).last() == av[i as int]);
            }
            let ghost before = missing@;
            if decl.required && find_key(&store.args, decl.name).is_none() {
                missing.push(decl.name.to_owned());
                proof {
                    assert(strs_view(missing@) =~= strs_view(before) + seq![av[i as int].name]);
                }
            } else {
                proof {
                    assert(strs_view(missing@) =~= strs_view(before) + Seq::<Seq<char>>::empty());
                }
            }
            i = i + 1;
        }
        proof {
            assert(av.take(self.args@.len() as int) =~= av);
        }
        if missing.len() > 0 {
            return Err(UshParseError::MissingRequiredArgs(missing));
        }
        let ghost sflags = flag_pairs_view(store.flags@);
        let mut i: usize = 0;
        proof {
            assert(gv.take(0) =~= Seq::<FlagGroupView>::empty());
        }
        while i < self.flag_groups.len()
            invariant
                i <= self.flag_groups@.len(),
                gv == flag_groups_view(self.flag_groups@),
                sflags == flag_pairs_view(store.flags@),
                sargs == arg_pairs_view(store.args@),
                d == self@,
                read_tokens(d, toks) == Ok::<ArgStoreView, ParseErrorView>(
                    ArgStoreView { args: sargs, flags: sflags, flag_groups: Seq::empty() },
                ),
                missing_args(d.args, sargs).len() == 0,
                toks == old(parser).remaining(),
                parser.remaining().len() == 0,
                parser.command == old(parser).command,
                parser.command_name == old(parser).command_name,
                resolve_groups(gv.take(i as int), sflags) == Ok::<
                    Seq<(Seq<char>, FlagValueView)>,
                    ParseErrorView,
                >(flag_pairs_view(store.flag_groups@)),
            decreases self.flag_groups@.len() - i,
        {
            let g = &self.flag_groups[i];
            proof {
                assert(gv.take(i + 1).drop_last() =~= gv.take(i as int));
                assert(gv.take(i + 1).last() == gv[i as int]);
            }
            match g.scan(&store.flags) {
                Err(e) => {
                    proof {
                        lemma_resolve_groups_prefix_err(gv, sflags, i + 1);
                    }
                    return Err(e);
                },
                Ok(Some(v)) => {
                    insert_key(&mut store.flag_groups, g.group_name.to_owned(), v);
                },
                Ok(None) => {
                    if g.required {
                        proof {
                            lemma_resolve_groups_prefix_err(gv, sflags, i + 1);
                        }
                        return Err(
                            UshParseError::MissingFlagGroupRequiredFlag(
                                g.group_name.to_owned(),
                                g.flag_names_exec(),
                            ),
                        );
                    }
                },
            }
            i = i + 1;
        }
        proof {
            assert(gv.take(self.flag_groups@.len() as int) =~= gv);
        }
        Ok(store)
    }
}

impl ArgStore {
    /// A store without values.
    pub fn new() -> (res: Self)
        ensures
            res@.args.len() == 0,
            res@.flags.len() == 0,
            res@.flag_groups.len() == 0,
    {
        ArgStore { args: Vec::new(), flags: Vec::new(), flag_groups: Vec::new() }
    }

    /// The value of the argument `name`.
    pub fn arg(&self, name: &str) -> (res: Option<&ArgValue>)
        ensures
            match res {
                Some(v) => kv_get(self@.args, name@) == Some(v@),
                None => kv_get(self@.args, name@) is None,
            },
    {
        match find_key(&self.args, name) {
            Some(i) => Some(&self.args[i].1),
            None => None,
        }
    }

    /// The text of the argument `name`.
    pub fn arg_str(&self, name: &str) -> (res: Option<&str>)
        ensures
            match res {
                Some(s) => kv_get(self@.args, name@) matches Some(v) && s@ == match v {
                    ArgValueView::Value(sp, _) => sp.value,
                    ArgValueView::Default(d) => d,
                },
                None => kv_get(self@.args, name@) is None,
            },
    {
        match self.arg(name) {
            Some(v) => Some(v.arg_str()),
            None => None,
        }
    }

    /// The argument `name` read as a `T`: its text, parsed as `T` parses
    /// an argument.
    pub fn arg_parse<T: ArgParse>(&self, name: &str) -> (res: Option<Result<T, T::Err>>)
        ensures
            match res {
                Some(r) => kv_get(self@.args, name@) matches Some(v) && T::parses(
                    match v {
                        ArgValueView::Value(sp, _) => sp.value,
                        ArgValueView::Default(d) => d,
                    },
                    r,
                ),
                None => kv_get(self@.args, name@) is None,
            },
    {
        match self.arg_str(name) {
            Some(s) => Some(T::parse_arg(s)),
            None => None,
        }
    }


    /// The span of the value of the argument `name`, when it was given on the line.
    pub fn arg_span(&self, name: &str) -> (res: Option<Span>)
        ensures
            res == match kv_get(self@.args, name@) {
                Some(ArgValueView::Value(sp, _)) => Some(sp.span),
                _ => None::<Span>,
            },
    {
        match self.arg(name) {
            Some(v) => v.span(),
            None => None,
        }
    }

    /// The value given on the line for the required argument `name`.
    pub fn required_arg(&self, name: &str) -> (res: Result<Spanned<String>, UshParseError>)
        requires
            !(kv_get(self@.args, name@) matches Some(ArgValueView::Default(_))),
        ensures
            match kv_get(self@.args, name@) {
                Some(ArgValueView::Value(sp, _)) => res matches Ok(s) && s@ == sp,
                _ => res matches Err(e) && e@ == ParseErrorView::MissingRequiredArg(name@),
            },
    {
        match self.arg(name) {
            Some(ArgValue::Value(s, _)) => Ok(Spanned { span: s.span, value: s.value.clone() }),
            _ => Err(UshParseError::MissingRequiredArg(name.to_owned())),
        }
    }

    /// The value given on the line for the optional argument `name`.
    pub fn optional_arg(&self, name: &str) -> (res: Option<Spanned<String>>)
        requires
            !(kv_get(self@.args, name@) matches Some(ArgValueView::Default(_))),
        ensures
            match kv_get(self@.args, name@) {
                Some(ArgValueView::Value(sp, _)) => res matches Some(s) && s@ == sp,
                _ => res is None,
            },
    {
        match self.arg(name) {
            Some(ArgValue::Value(s, _)) => Some(Spanned { span: s.span, value: s.value.clone() }),
            _ => None,
        }
    }

    /// Whether the flag `name` holds, if it was given or has a default.
    pub fn flag_opt(&self, name: &str) -> (res: Option<bool>)
        ensures
            res == match kv_get(self@.flags, name@) {
                Some(FlagValueView::Present(_, b)) => Some(b),
                Some(FlagValueView::Default(_, b)) => Some(b),
                None => None::<bool>,
            },
    {
        match find_key(&self.flags, name) {
            Some(i) => Some(self.flags[i].1.value()),
            None => None,
        }
    }

    /// Whether the flag `name`, which was given or has a default, holds.
    pub fn flag(&self, name: &str) -> (res: bool)
        requires
            kv_get(self@.flags, name@) is Some,
        ensures
            res == match kv_get(self@.flags, name@) {
                Some(FlagValueView::Present(_, b)) => b,
                Some(FlagValueView::Default(_, b)) => b,
                None => false,
            },
    {
        self.flag_opt(name).unwrap()
    }

    /// The value of the flag group `name`, which has one.
    pub fn flag_group_required(&self, name: &str) -> (res: FlagValue)
        requires
            kv_get(self@.flag_groups, name@) is Some,
        ensures
            kv_get(self@.flag_groups, name@) == Some(res@),
    {
        self.flag_group(name).unwrap()
    }

    /// The value of the flag group `name`.
    pub fn flag_group(&self, name: &str) -> (res: Option<FlagValue>)
        ensures
            kv_get(self@.flag_groups, name@) == opt_flag_view(res),
    {
        match find_key(&self.flag_groups, name) {
            Some(i) => Some(self.flag_groups[i].1.copy()),
            None => None,
        }
    }
}

} // verus!
