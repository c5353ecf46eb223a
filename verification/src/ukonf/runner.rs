//! Running a ukonf program: the functions it may call, the variables in
//! scope, and the evaluation of values and items into a document.

use vstd::prelude::*;

use crate::text::str_eq;
use crate::shell::url::{decimal, decimal_chars};
use crate::ukonf::ast::{key_base, key_depth, AstFile, AstImport, AstItem, AstVal, Comma, FileId, NumLit, Span, K};
use crate::ukonf::value::{
    clone_value, entries_view, lacks_key, lemma_lookup_entry_view, lemma_set_entry_value_view,
    lemma_value_view, lemma_without_absent_key, lemma_without_key_view, lookup_entry, set_entry_value,
    value_view, values_view, without_key, FnErrorView, NumValue, UkonfFnError, UkonfObject, UkonfValue,
    ValueView,
};
use crate::xtask::ukonf_fns::{builtin_fn_spec, result_step, xtask_compile, xtask_compile_spec, Step};

verus! {

/// Whether the functions that look up context variables see a variable.
#[derive(Debug, Clone, Copy, PartialEq, Eq, Structural)]
pub enum CxKind {
    Cx,
    Local,
}

/// A function that a ukonf program can call by name.
#[derive(Debug, Clone, Copy, PartialEq, Eq, Structural)]
pub enum UkonfBuiltinFn {
    /// `concat(..)`: its string arguments one after the other.
    Concat,
    /// `parent_dir(path)`: the directory of a path.
    ParentDir,
    /// `win_path(path)`: a path with Windows separators.
    WinPath,
    /// `xtask(name)`: an object that names an xtask command.
    Xtask,
    /// `lang(definition)`: a language definition, checked.
    Lang,
}

/// A compiler that a declaration can name: it turns the declared value
/// into what each reader of the variable gets.
#[derive(Debug, Clone, Copy, PartialEq, Eq, Structural)]
pub enum UkonfBuiltinCompiler {
    /// Turns `{run: xtask(name)}` into the command line of the xtask.
    Xtask,
}

/// The functions and compilers a program can name; a name given again
/// stands for what it was given last.
pub struct UkonfFunctions {
    functions: Vec<(String, UkonfBuiltinFn)>,
    compiler_functions: Vec<(String, UkonfBuiltinCompiler)>,
}

/// The content of [`UkonfFunctions`]: the functions, then the compilers,
/// each with its name, in the order they were given.
pub struct FunctionsView {
    pub functions: Seq<(Seq<char>, UkonfBuiltinFn)>,
    pub compilers: Seq<(Seq<char>, UkonfBuiltinCompiler)>,
}

impl View for UkonfFunctions {
    type V = FunctionsView;

    closed spec fn view(&self) -> FunctionsView {
        FunctionsView {
            functions: self.functions@.map_values(|p: (String, UkonfBuiltinFn)| (p.0@, p.1)),
            compilers: self.compiler_functions@.map_values(
                |p: (String, UkonfBuiltinCompiler)| (p.0@, p.1),
            ),
        }
    }
}

/// The last entry of `v` named `name`, by its position.
fn find_last_named<T>(v: &Vec<(String, T)>, name: &str) -> (res: Option<usize>)
    ensures
        match res {
            Some(i) => i < v@.len() && lookup_entry(v@.map_values(|p: (String, T)| (p.0@, p.1)), name@)
                == Some(v@[i as int].1),
            None => lookup_entry(v@.map_values(|p: (String, T)| (p.0@, p.1)), name@) is None,
        },
{
    let ghost m = v@.map_values(|p: (String, T)| (p.0@, p.1));
    let mut i: usize = v.len();
    proof {
        assert(m.take(i as int) =~= m);
    }
    while i > 0
        invariant
            i <= v@.len(),
            m == v@.map_values(|p: (String, T)| (p.0@, p.1)),
            lookup_entry(m, name@) == lookup_entry(m.take(i as int), name@),
        decreases i,
    {
        let ghost t = m.take(i as int);
        proof {
            assert(t.drop_last() =~= m.take(i - 1));
            assert(t.last() == m[i - 1]);
        }
        if str_eq(v[i - 1].0.as_str(), name) {
            return Some(i - 1);
        }
        i = i - 1;
    }
    None
}

impl UkonfFunctions {
    /// The function called `name`, if there is one.
    pub open spec fn function_spec(&self, name: Seq<char>) -> Option<UkonfBuiltinFn> {
        lookup_entry(self@.functions, name)
    }

    /// The compiler called `name`, if there is one.
    pub open spec fn compiler_spec(&self, name: Seq<char>) -> Option<UkonfBuiltinCompiler> {
        lookup_entry(self@.compilers, name)
    }

    /// No functions and no compilers.
    pub fn new() -> (res: Self)
        ensures
            res@.functions == Seq::<(Seq<char>, UkonfBuiltinFn)>::empty(),
            res@.compilers == Seq::<(Seq<char>, UkonfBuiltinCompiler)>::empty(),
    {
        let res = UkonfFunctions { functions: Vec::new(), compiler_functions: Vec::new() };
        proof {
            assert(res@.functions =~= Seq::<(Seq<char>, UkonfBuiltinFn)>::empty());
            assert(res@.compilers =~= Seq::<(Seq<char>, UkonfBuiltinCompiler)>::empty());
        }
        res
    }

    /// Makes `f` callable as `name`.
    pub fn add_fn(&mut self, name: String, f: UkonfBuiltinFn)
        ensures
            final(self)@.functions == old(self)@.functions.push((name@, f)),
            final(self)@.compilers == old(self)@.compilers,
    {
        let ghost n = name@;
        self.functions.push((name, f));
        proof {
            assert(self@.functions =~= old(self)@.functions.push((n, f)));
            assert(self@.compilers =~= old(self)@.compilers);
        }
    }

    /// These functions, with `f` callable as `name`.
    pub fn with_fn(self, name: String, f: UkonfBuiltinFn) -> (res: Self)
        ensures
            res@.functions == self@.functions.push((name@, f)),
            res@.compilers == self@.compilers,
    {
        let mut fns = self;
        fns.add_fn(name, f);
        fns
    }

    /// Makes `c` the compiler called `name`.
    pub fn add_compiler_fn(&mut self, name: String, c: UkonfBuiltinCompiler)
        ensures
            final(self)@.functions == old(self)@.functions,
            final(self)@.compilers == old(self)@.compilers.push((name@, c)),
    {
        let ghost n = name@;
        self.compiler_functions.push((name, c));
        proof {
            assert(self@.functions =~= old(self)@.functions);
            assert(self@.compilers =~= old(self)@.compilers.push((n, c)));
        }
    }

    /// The function called `name`, if there is one.
    pub fn function(&self, name: &str) -> (res: Option<UkonfBuiltinFn>)
        ensures
            res == self.function_spec(name@),
    {
        match find_last_named(&self.functions, name) {
            Some(i) => Some(self.functions[i].1),
            None => None,
        }
    }

    /// The compiler called `name`, if there is one.
    pub fn compiler(&self, name: &str) -> (res: Option<UkonfBuiltinCompiler>)
        ensures
            res == self.compiler_spec(name@),
    {
        match find_last_named(&self.compiler_functions, name) {
            Some(i) => Some(self.compiler_functions[i].1),
            None => None,
        }
    }
}

// ---------------------------------------------------------------------------
// Scopes
// ---------------------------------------------------------------------------

/// The content of a variable.
pub struct VarView {
    pub kind: CxKind,
    pub value: ValueView,
    pub compiler: Option<UkonfBuiltinCompiler>,
}

/// A declared variable.
#[derive(Debug)]
pub struct ScopeVar {
    pub name: String,
    pub kind: CxKind,
    pub value: UkonfValue,
    pub compiler: Option<UkonfBuiltinCompiler>,
}

pub open spec fn var_view(v: ScopeVar) -> (Seq<char>, VarView) {
    (v.name@, VarView { kind: v.kind, value: value_view(v.value), compiler: v.compiler })
}

/// The variables in scope, frame by frame from the outermost to the
/// innermost; in a frame, a later declaration of a name hides an earlier
/// one, and an inner frame hides the outer ones.
pub struct Scope {
    frames: Vec<Vec<ScopeVar>>,
}

pub open spec fn frame_view(f: Seq<ScopeVar>) -> Seq<(Seq<char>, VarView)> {
    f.map_values(|v: ScopeVar| var_view(v))
}

impl View for Scope {
    type V = Seq<Seq<(Seq<char>, VarView)>>;

    closed spec fn view(&self) -> Seq<Seq<(Seq<char>, VarView)>> {
        self.frames@.map_values(|f: Vec<ScopeVar>| frame_view(f@))
    }
}

/// The variable that `name` stands for among `frames`, with the number of
/// frames up to the one that declares it.
pub open spec fn resolve_one_spec(frames: Seq<Seq<(Seq<char>, VarView)>>, name: Seq<char>) -> Option<
    (VarView, nat),
>
    decreases frames.len(),
{
    if frames.len() == 0 {
        None
    } else {
        match lookup_entry(frames.last(), name) {
            Some(v) => Some((v, frames.len())),
            None => resolve_one_spec(frames.drop_last(), name),
        }
    }
}

proof fn lemma_resolve_one_depth(frames: Seq<Seq<(Seq<char>, VarView)>>, name: Seq<char>)
    ensures
        resolve_one_spec(frames, name) matches Some((_, d)) ==> 1 <= d <= frames.len(),
    decreases frames.len(),
{
    if frames.len() > 0 {
        lemma_resolve_one_depth(frames.drop_last(), name);
    }
}

impl Scope {
    /// One empty frame.
    pub fn new() -> (res: Self)
        ensures
            res@ == seq![Seq::<(Seq<char>, VarView)>::empty()],
    {
        let mut frames: Vec<Vec<ScopeVar>> = Vec::new();
        frames.push(Vec::new());
        let res = Scope { frames };
        proof {
            assert(frame_view(res.frames@[0]@) =~= Seq::<(Seq<char>, VarView)>::empty());
            assert(res@ =~= seq![Seq::<(Seq<char>, VarView)>::empty()]);
        }
        res
    }

    /// The number of frames.
    pub fn depth(&self) -> (res: usize)
        ensures
            res == self@.len(),
    {
        self.frames.len()
    }

    /// Opens an empty inner frame.
    pub fn push_frame(&mut self)
        ensures
            final(self)@ == old(self)@.push(Seq::<(Seq<char>, VarView)>::empty()),
    {
        self.frames.push(Vec::new());
        proof {
            assert(frame_view(self.frames@.last()@) =~= Seq::<(Seq<char>, VarView)>::empty());
            assert(self@ =~= old(self)@.push(Seq::<(Seq<char>, VarView)>::empty()));
        }
    }

    /// Closes the innermost frame.
    pub fn pop_frame(&mut self)
        requires
            old(self)@.len() > 0,
        ensures
            final(self)@ == old(self)@.drop_last(),
    {
        let _ = self.frames.pop();
        proof {
            assert(self@ =~= old(self)@.drop_last());
        }
    }

    /// Declares `var` in the innermost frame.
    pub fn declare(&mut self, var: ScopeVar)
        requires
            old(self)@.len() > 0,
        ensures
            final(self)@ == old(self)@.update(
                old(self)@.len() - 1,
                old(self)@.last().push(var_view(var)),
            ),
    {
        let ghost vv = var_view(var);
        let mut last = self.frames.pop().unwrap();
        last.push(var);
        self.frames.push(last);
        proof {
            assert(frame_view(last@) =~= old(self)@.last().push(vv));
            assert(self@ =~= old(self)@.update(old(self)@.len() - 1, old(self)@.last().push(vv)));
        }
    }

    /// Where `name` is declared among the first `depth` frames: the frame
    /// and the place in it.
    fn locate(&self, depth: usize, name: &str) -> (res: Option<(usize, usize)>)
        requires
            depth <= self@.len(),
        ensures
            match resolve_one_spec(self@.take(depth as int), name@) {
                Some((v, d)) => res matches Some((j, i)) && j + 1 == d && j < self.frames@.len() && i
                    < self.frames@[j as int]@.len() && var_view(self.frames@[j as int]@[i as int])
                    == (name@, v),
                None => res is None,
            },
    {
        let mut j: usize = depth;
        proof {
            assert(self@.take(depth as int).take(j as int) =~= self@.take(depth as int));
        }
        while j > 0
            invariant
                j <= depth <= self@.len(),
                self@.len() == self.frames@.len(),
                resolve_one_spec(self@.take(depth as int), name@) == resolve_one_spec(
                    self@.take(j as int),
                    name@,
                ),
            decreases j,
        {
            let ghost t = self@.take(j as int);
            proof {
                assert(t.drop_last() =~= self@.take(j - 1));
                assert(t.last() == self@[j - 1]);
                assert(self@[j - 1] == frame_view(self.frames@[j - 1]@));
            }
            match find_in_frame(&self.frames[j - 1], name) {
                Some(i) => {
                    return Some((j - 1, i));
                },
                None => {},
            }
            j = j - 1;
        }
        None
    }
}

/// The context variable that `name` stands for among `frames`: the
/// variable it stands for, where that was declared with `cx`.
pub open spec fn cx_var_spec(frames: Seq<Seq<(Seq<char>, VarView)>>, name: Seq<char>) -> Option<VarView> {
    match resolve_one_spec(frames, name) {
        Some((v, _)) => if v.kind == CxKind::Cx {
            Some(v)
        } else {
            None
        },
        None => None,
    }
}

impl Scope {
    /// The context variable that `name` stands for among the first `depth`
    /// frames, as it was declared: its value and its compiler.
    pub fn cx_var(&self, depth: usize, name: &str) -> (res: Option<(UkonfValue, Option<UkonfBuiltinCompiler>)>)
        requires
            depth <= self@.len(),
        ensures
            match cx_var_spec(self@.take(depth as int), name@) {
                Some(v) => res matches Some((x, c)) && value_view(x) == v.value && c == v.compiler,
                None => res is None,
            },
    {
        match self.locate(depth, name) {
            Some((j, i)) => {
                let var = &self.frames[j][i];
                if var.kind == CxKind::Cx {
                    Some((clone_value(&var.value), var.compiler))
                } else {
                    None
                }
            },
            None => None,
        }
    }
}

/// Where `name` is declared last in `frame`.
fn find_in_frame(frame: &Vec<ScopeVar>, name: &str) -> (res: Option<usize>)
    ensures
        match lookup_entry(frame_view(frame@), name@) {
            Some(v) => res matches Some(i) && i < frame@.len() && var_view(frame@[i as int]) == (name@, v),
            None => res is None,
        },
{
    let ghost fv = frame_view(frame@);
    let mut i: usize = frame.len();
    proof {
        assert(fv.take(i as int) =~= fv);
    }
    while i > 0
        invariant
            i <= frame@.len(),
            fv == frame_view(frame@),
            lookup_entry(fv, name@) == lookup_entry(fv.take(i as int), name@),
        decreases i,
    {
        let ghost ft = fv.take(i as int);
        proof {
            assert(ft.drop_last() =~= fv.take(i - 1));
            assert(ft.last() == fv[i - 1]);
        }
        if str_eq(frame[i - 1].name.as_str(), name) {
            return Some(i - 1);
        }
        i = i - 1;
    }
    None
}

// ---------------------------------------------------------------------------
// Evaluation, stated
// ---------------------------------------------------------------------------

/// Why running a program failed.
#[derive(Debug)]
pub enum UkonfRunError {
    UndefinedVariable(String, Span),
    ExpectedString(UkonfValue, Span),
    ExpectedObject(UkonfValue, Span),
    UnknownFunction(String, Span),
    SpreadToArrayNotArray(UkonfValue, Span),
    SpreadToObjectNotObject(UkonfValue, Span),
    SpreadNotAllowedHere(Span, Span),
    FnError(UkonfFnError, Span),
}

/// The content of a [`UkonfRunError`].
pub enum RunErrorView {
    UndefinedVariable(Seq<char>, Span),
    ExpectedString(ValueView, Span),
    ExpectedObject(ValueView, Span),
    UnknownFunction(Seq<char>, Span),
    SpreadToArrayNotArray(ValueView, Span),
    SpreadToObjectNotObject(ValueView, Span),
    SpreadNotAllowedHere(Span, Span),
    FnError(FnErrorView, Span),
}

pub open spec fn run_error_view(e: UkonfRunError) -> RunErrorView {
    match e {
        UkonfRunError::UndefinedVariable(n, s) => RunErrorView::UndefinedVariable(n@, s),
        UkonfRunError::ExpectedString(v, s) => RunErrorView::ExpectedString(value_view(v), s),
        UkonfRunError::ExpectedObject(v, s) => RunErrorView::ExpectedObject(value_view(v), s),
        UkonfRunError::UnknownFunction(n, s) => RunErrorView::UnknownFunction(n@, s),
        UkonfRunError::SpreadToArrayNotArray(v, s) => RunErrorView::SpreadToArrayNotArray(value_view(v), s),
        UkonfRunError::SpreadToObjectNotObject(v, s) => RunErrorView::SpreadToObjectNotObject(value_view(v), s),
        UkonfRunError::SpreadNotAllowedHere(a, b) => RunErrorView::SpreadNotAllowedHere(a, b),
        UkonfRunError::FnError(e, s) => RunErrorView::FnError(crate::ukonf::value::fn_error_view(e), s),
    }
}

/// How a step of a run ends: with a result, with an error, or stuck, where
/// the run would panic or never return.
pub enum Outcome<T> {
    Value(T),
    Error(RunErrorView),
    Stuck,
}

/// What a compiler makes of `v` for a reader among `frames`.
pub open spec fn compile_spec(c: UkonfBuiltinCompiler, frames: Seq<Seq<(Seq<char>, VarView)>>, v: ValueView) -> Step<ValueView> {
    match c {
        UkonfBuiltinCompiler::Xtask => xtask_compile_spec(frames, v),
    }
}

/// What reading `v` gives among `frames`: its value, or what its compiler
/// makes of it.
pub open spec fn read_var_spec(frames: Seq<Seq<(Seq<char>, VarView)>>, v: VarView) -> Step<ValueView> {
    match v.compiler {
        None => Step::Done(v.value),
        Some(c) => compile_spec(c, frames, v.value),
    }
}

/// What `name` reads as among `frames`, if anything declares it.
pub open spec fn resolve_spec(frames: Seq<Seq<(Seq<char>, VarView)>>, name: Seq<char>) -> Option<Step<ValueView>> {
    match resolve_one_spec(frames, name) {
        None => None,
        Some((v, _)) => Some(read_var_spec(frames, v)),
    }
}

/// What the context variable `name` reads as among `frames`, if there is
/// one.
pub open spec fn resolve_cx_spec(frames: Seq<Seq<(Seq<char>, VarView)>>, name: Seq<char>) -> Option<Step<ValueView>> {
    match cx_var_spec(frames, name) {
        None => None,
        Some(v) => Some(read_var_spec(frames, v)),
    }
}

/// Reads `name` after `m` more indirections: each takes the variable that
/// the name stands for, whose value must be a string, as the next name,
/// looked up among the frames up to the one declaring that variable.
pub open spec fn indirections_spec(
    frames: Seq<Seq<(Seq<char>, VarView)>>,
    name: Seq<char>,
    span: Span,
    m: nat,
) -> Outcome<ValueView>
    decreases m,
{
    if m == 0 {
        match resolve_spec(frames, name) {
            None => Outcome::Error(RunErrorView::UndefinedVariable(name, span)),
            Some(Step::Done(v)) => Outcome::Value(v),
            Some(Step::Failed(e)) => Outcome::Error(RunErrorView::FnError(e, span)),
            Some(Step::Diverges) => Outcome::Stuck,
        }
    } else {
        match resolve_one_spec(frames, name) {
            None => Outcome::Error(RunErrorView::UndefinedVariable(name, span)),
            Some((v, d)) => match v.value {
                ValueView::Str(next) => indirections_spec(frames.take(d as int), next, span, (m - 1) as nat),
                other => Outcome::Error(RunErrorView::ExpectedString(other, span)),
            },
        }
    }
}

/// The name that key `k` stands for: its text, or under `n` indirections,
/// the string that reading its text `n` times gives.
pub open spec fn resolve_key_spec(frames: Seq<Seq<(Seq<char>, VarView)>>, k: K) -> Outcome<Seq<char>> {
    if !k.key_ok() || key_depth(k.key_spec()) > usize::MAX || !k.span_ok() {
        Outcome::Stuck
    } else if key_depth(k.key_spec()) == 0 {
        Outcome::Value(key_base(k.key_spec()))
    } else {
        match indirections_spec(frames, key_base(k.key_spec()), k.span_spec(), (key_depth(k.key_spec()) - 1) as nat) {
            Outcome::Value(ValueView::Str(s)) => Outcome::Value(s),
            Outcome::Value(v) => Outcome::Error(RunErrorView::ExpectedString(v, k.span_spec())),
            Outcome::Error(e) => Outcome::Error(e),
            Outcome::Stuck => Outcome::Stuck,
        }
    }
}

/// `frames` with `name` declared in the innermost frame.
pub open spec fn declare_spec(frames: Seq<Seq<(Seq<char>, VarView)>>, name: Seq<char>, v: VarView) -> Seq<
    Seq<(Seq<char>, VarView)>,
> {
    if frames.len() == 0 {
        frames
    } else {
        frames.update(frames.len() - 1, frames.last().push((name, v)))
    }
}

/// `es` with the entries of `src` set, one after the other.
pub open spec fn spread_entries(es: Seq<(Seq<char>, ValueView)>, src: Seq<(Seq<char>, ValueView)>) -> Seq<
    (Seq<char>, ValueView),
>
    decreases src.len(),
{
    if src.len() == 0 {
        es
    } else {
        without_key(spread_entries(es, src.drop_last()), src.last().0).push(src.last())
    }
}

/// Sets `x` at the path `keys[i..]` inside `t`: each key but the last
/// leads into the object there, made empty where missing; the last is
/// set to `x`.
pub open spec fn patch_spec(
    frames: Seq<Seq<(Seq<char>, VarView)>>,
    t: ValueView,
    keys: Seq<K>,
    i: nat,
    x: ValueView,
) -> Outcome<ValueView>
    decreases keys.len() - i,
{
    if i >= keys.len() {
        Outcome::Stuck
    } else {
        match resolve_key_spec(frames, keys[i as int]) {
            Outcome::Error(e) => Outcome::Error(e),
            Outcome::Stuck => Outcome::Stuck,
            Outcome::Value(name) => match t {
                ValueView::Object(es) => if i + 1 == keys.len() {
                    Outcome::Value(ValueView::Object(without_key(es, name).push((name, x))))
                } else {
                    match lookup_entry(es, name) {
                        Some(child) => match patch_spec(frames, child, keys, i + 1, x) {
                            Outcome::Value(c) => Outcome::Value(ValueView::Object(set_entry_value(es, name, c))),
                            Outcome::Error(e) => Outcome::Error(e),
                            Outcome::Stuck => Outcome::Stuck,
                        },
                        None => match patch_spec(frames, ValueView::Object(Seq::empty()), keys, i + 1, x) {
                            Outcome::Value(c) => Outcome::Value(ValueView::Object(es.push((name, c)))),
                            Outcome::Error(e) => Outcome::Error(e),
                            Outcome::Stuck => Outcome::Stuck,
                        },
                    }
                },
                _ => Outcome::Error(RunErrorView::ExpectedObject(t, keys[i as int].span_spec())),
            },
        }
    }
}

/// The content of a value as evaluated: a value, or a variable spread into
/// the enclosing array.
pub enum TempView {
    Real(ValueView),
    Spread(Span, ValueView, Span),
}

/// The items that an evaluated value adds to an array: itself, or the
/// items of the spread array.
pub open spec fn spread_to_array_spec(t: TempView) -> Outcome<Seq<ValueView>> {
    match t {
        TempView::Real(v) => Outcome::Value(seq![v]),
        TempView::Spread(_, ValueView::Array(a), _) => Outcome::Value(a),
        TempView::Spread(_, v, span) => Outcome::Error(RunErrorView::SpreadToArrayNotArray(v, span)),
    }
}

/// `acc` extended with the items that `t` adds.
pub open spec fn extend_items(acc: Seq<ValueView>, t: Outcome<TempView>) -> Outcome<Seq<ValueView>> {
    match t {
        Outcome::Value(tv) => match spread_to_array_spec(tv) {
            Outcome::Value(xs) => Outcome::Value(acc + xs),
            Outcome::Error(e) => Outcome::Error(e),
            Outcome::Stuck => Outcome::Stuck,
        },
        Outcome::Error(e) => Outcome::Error(e),
        Outcome::Stuck => Outcome::Stuck,
    }
}

/// What evaluating `v` among `frames` gives, with the functions `fns`.
pub open spec fn eval_value_spec(fns: FunctionsView, frames: Seq<Seq<(Seq<char>, VarView)>>, v: AstVal) -> Outcome<TempView>
    decreases v, 0nat,
{
    match v {
        AstVal::Null(_) => Outcome::Value(TempView::Real(ValueView::Null)),
        AstVal::Ident(id) => match resolve_spec(frames, id.0.0@) {
            None => Outcome::Error(RunErrorView::UndefinedVariable(id.0.0@, id.0.1)),
            Some(Step::Done(x)) => Outcome::Value(TempView::Real(x)),
            Some(Step::Failed(e)) => Outcome::Error(RunErrorView::FnError(e, id.0.1)),
            Some(Step::Diverges) => Outcome::Stuck,
        },
        AstVal::Str(s) => match s.value_spec() {
            Some(t) => Outcome::Value(TempView::Real(ValueView::Str(t))),
            None => Outcome::Stuck,
        },
        AstVal::Num(NumLit::Int(n)) => Outcome::Value(TempView::Real(ValueView::Num(NumValue::Int(n.0)))),
        AstVal::Num(NumLit::Float(n)) => Outcome::Value(TempView::Real(ValueView::Num(NumValue::Float(n.0)))),
        AstVal::Bool(b) => Outcome::Value(TempView::Real(ValueView::Bool(b.value))),
        AstVal::Arr(_, vals, _) => match eval_values_spec(fns, frames, vals@, vals@.len()) {
            Outcome::Value(items) => Outcome::Value(TempView::Real(ValueView::Array(items))),
            Outcome::Error(e) => Outcome::Error(e),
            Outcome::Stuck => Outcome::Stuck,
        },
        AstVal::Obj(_, items, _) => match eval_items_spec(
            fns,
            frames.push(Seq::empty()),
            items@,
            items@.len(),
        ) {
            Outcome::Value((_, es)) => Outcome::Value(TempView::Real(ValueView::Object(es))),
            Outcome::Error(e) => Outcome::Error(e),
            Outcome::Stuck => Outcome::Stuck,
        },
        AstVal::FunctionCall(call) => match lookup_entry(fns.functions, call.name.0.0@) {
            None => Outcome::Error(RunErrorView::UnknownFunction(call.name.0.0@, call.name.0.1)),
            Some(f) => {
                let args = match eval_pairs_spec(fns, frames, call.args.values@, call.args.values@.len()) {
                    Outcome::Value(acc) => match call.args.trailing_value {
                        Some(t) => extend_items(acc, eval_value_spec(fns, frames, *t)),
                        None => Outcome::Value(acc),
                    },
                    other => other,
                };
                match args {
                    Outcome::Value(a) => if !call.span_ok() {
                        Outcome::Stuck
                    } else {
                        match builtin_fn_spec(f, a) {
                            Ok(x) => Outcome::Value(TempView::Real(x)),
                            Err(e) => Outcome::Error(RunErrorView::FnError(e, call.span_spec())),
                        }
                    },
                    Outcome::Error(e) => Outcome::Error(e),
                    Outcome::Stuck => Outcome::Stuck,
                }
            },
        },
        AstVal::Dot(base, _, k) => match resolve_spec(frames, base.0.0@) {
            None => if k.span_ok() {
                Outcome::Error(RunErrorView::UndefinedVariable(base.0.0@, k.span_spec()))
            } else {
                Outcome::Stuck
            },
            Some(Step::Failed(e)) => Outcome::Error(RunErrorView::FnError(e, base.0.1)),
            Some(Step::Diverges) => Outcome::Stuck,
            Some(Step::Done(bv)) => match resolve_key_spec(frames, k) {
                Outcome::Value(name) => match bv {
                    ValueView::Object(es) => match lookup_entry(es, name) {
                        Some(x) => Outcome::Value(TempView::Real(x)),
                        None => Outcome::Stuck,
                    },
                    _ => Outcome::Error(RunErrorView::ExpectedObject(bv, k.span_spec())),
                },
                Outcome::Error(e) => Outcome::Error(e),
                Outcome::Stuck => Outcome::Stuck,
            },
        },
        AstVal::Spread(spread, name) => match resolve_spec(frames, name.0.0@) {
            None => Outcome::Error(RunErrorView::UndefinedVariable(name.0.0@, name.0.1)),
            Some(Step::Done(x)) => Outcome::Value(TempView::Spread(spread.0, x, name.0.1)),
            Some(Step::Failed(e)) => Outcome::Error(RunErrorView::FnError(e, name.0.1)),
            Some(Step::Diverges) => Outcome::Stuck,
        },
    }
}

/// The items of an array whose first `n` values are `vals`.
pub open spec fn eval_values_spec(fns: FunctionsView, frames: Seq<Seq<(Seq<char>, VarView)>>, vals: Seq<AstVal>, n: nat) -> Outcome<
    Seq<ValueView>,
>
    decreases vals, n,
{
    if n == 0 || n > vals.len() {
        Outcome::Value(Seq::empty())
    } else {
        match eval_values_spec(fns, frames, vals, (n - 1) as nat) {
            Outcome::Value(acc) => extend_items(acc, eval_value_spec(fns, frames, vals[n - 1])),
            other => other,
        }
    }
}

/// The arguments given by the first `n` separated values `ps`.
pub open spec fn eval_pairs_spec(
    fns: FunctionsView,
    frames: Seq<Seq<(Seq<char>, VarView)>>,
    ps: Seq<(AstVal, Comma)>,
    n: nat,
) -> Outcome<Seq<ValueView>>
    decreases ps, n,
{
    if n == 0 || n > ps.len() {
        Outcome::Value(Seq::empty())
    } else {
        match eval_pairs_spec(fns, frames, ps, (n - 1) as nat) {
            Outcome::Value(acc) => extend_items(acc, eval_value_spec(fns, frames, ps[n - 1].0)),
            other => other,
        }
    }
}

/// Arguments that each evaluate to a plain value give those values, in
/// order.
proof fn lemma_eval_pairs_plain(
    fns: FunctionsView,
    frames: Seq<Seq<(Seq<char>, VarView)>>,
    ps: Seq<(AstVal, Comma)>,
    vs: Seq<ValueView>,
    n: nat,
)
    requires
        n <= ps.len() == vs.len(),
        forall|i: int| 0 <= i < ps.len() ==> eval_value_spec(fns, frames, (#[trigger] ps[i]).0) == Outcome::Value(
            TempView::Real(vs[i]),
        ),
    ensures
        eval_pairs_spec(fns, frames, ps, n) == Outcome::Value(vs.take(n as int)),
    decreases n,
{
    if n > 0 {
        lemma_eval_pairs_plain(fns, frames, ps, vs, (n - 1) as nat);
        assert(eval_value_spec(fns, frames, ps[n - 1].0) == Outcome::Value(TempView::Real(vs[n - 1])));
        assert(vs.take(n - 1) + seq![vs[n - 1]] =~= vs.take(n as int));
    } else {
        assert(vs.take(0) =~= Seq::<ValueView>::empty());
    }
}

/// A function call hands the builtin every argument, in order: the values
/// of the arguments followed by a comma, then the value of the last one
/// written without a comma, where there is one. Where each argument gives
/// a plain value `vs[i]`, the call gives what the builtin makes of all of
/// `vs`.
pub proof fn lemma_call_passes_every_argument(
    fns: FunctionsView,
    frames: Seq<Seq<(Seq<char>, VarView)>>,
    call: crate::ukonf::ast::AstFunctionCall,
    f: UkonfBuiltinFn,
    vs: Seq<ValueView>,
)
    requires
        lookup_entry(fns.functions, call.name.0.0@) == Some(f),
        call.span_ok(),
        vs.len() == call.args.values@.len() + if call.args.trailing_value is Some { 1int } else { 0int },
        forall|i: int|
            0 <= i < call.args.values@.len() ==> eval_value_spec(fns, frames, (#[trigger] call.args.values@[i]).0)
                == Outcome::Value(TempView::Real(vs[i])),
        match call.args.trailing_value {
            Some(t) => eval_value_spec(fns, frames, *t) == Outcome::Value(TempView::Real(vs.last())),
            None => true,
        },
    ensures
        eval_value_spec(fns, frames, AstVal::FunctionCall(call)) == match builtin_fn_spec(f, vs) {
            Ok(x) => Outcome::Value(TempView::Real(x)),
            Err(e) => Outcome::Error(RunErrorView::FnError(e, call.span_spec())),
        },
{
    let ps = call.args.values@;
    let n = ps.len();
    let head = vs.take(n as int);
    assert forall|i: int| 0 <= i < ps.len() implies eval_value_spec(fns, frames, (#[trigger] ps[i]).0) == Outcome::Value(
        TempView::Real(head[i]),
    ) by {
        assert(head[i] == vs[i]);
    }
    lemma_eval_pairs_plain(fns, frames, ps, head, n);
    assert(head.take(n as int) =~= head);
    match call.args.trailing_value {
        Some(t) => {
            assert(head + seq![vs.last()] =~= vs);
        },
        None => {
            assert(head =~= vs);
        },
    }
}

/// `concat` of arguments that each give a string gives the strings one
/// after the other, whether or not the last argument is followed by a
/// comma.
pub proof fn lemma_concat_call_joins_strings(
    fns: FunctionsView,
    frames: Seq<Seq<(Seq<char>, VarView)>>,
    call: crate::ukonf::ast::AstFunctionCall,
    strs: Seq<Seq<char>>,
)
    requires
        lookup_entry(fns.functions, call.name.0.0@) == Some(UkonfBuiltinFn::Concat),
        call.span_ok(),
        strs.len() == call.args.values@.len() + if call.args.trailing_value is Some { 1int } else { 0int },
        forall|i: int|
            0 <= i < call.args.values@.len() ==> eval_value_spec(fns, frames, (#[trigger] call.args.values@[i]).0)
                == Outcome::Value(TempView::Real(ValueView::Str(strs[i]))),
        match call.args.trailing_value {
            Some(t) => eval_value_spec(fns, frames, *t) == Outcome::Value(TempView::Real(ValueView::Str(strs.last()))),
            None => true,
        },
    ensures
        eval_value_spec(fns, frames, AstVal::FunctionCall(call)) == Outcome::<TempView>::Value(
            TempView::Real(ValueView::Str(strs.fold_left(Seq::<char>::empty(), |acc: Seq<char>, x: Seq<char>| acc + x))),
        ),
{
    let vs = strs.map_values(|x: Seq<char>| ValueView::Str(x));
    lemma_call_passes_every_argument(fns, frames, call, UkonfBuiltinFn::Concat, vs);
    lemma_concat_views_fold(strs);
}

proof fn lemma_concat_views_fold(strs: Seq<Seq<char>>)
    ensures
        crate::xtask::ukonf_fns::all_str_views(strs.map_values(|x: Seq<char>| ValueView::Str(x))),
        crate::xtask::ukonf_fns::concat_views(strs.map_values(|x: Seq<char>| ValueView::Str(x)))
            == strs.fold_left(Seq::<char>::empty(), |acc: Seq<char>, x: Seq<char>| acc + x),
    decreases strs.len(),
{
    let vs = strs.map_values(|x: Seq<char>| ValueView::Str(x));
    if strs.len() > 0 {
        lemma_concat_views_fold(strs.drop_last());
        assert(vs.drop_last() =~= strs.drop_last().map_values(|x: Seq<char>| ValueView::Str(x)));
    }
}

/// The frames and the document after the first `n` items, from `frames`
/// and an empty document.
pub open spec fn eval_items_spec(fns: FunctionsView, frames: Seq<Seq<(Seq<char>, VarView)>>, items: Seq<AstItem>, n: nat) -> Outcome<
    (Seq<Seq<(Seq<char>, VarView)>>, Seq<(Seq<char>, ValueView)>),
>
    decreases items, n,
{
    if n == 0 || n > items.len() {
        Outcome::Value((frames, Seq::empty()))
    } else {
        match eval_items_spec(fns, frames, items, (n - 1) as nat) {
            Outcome::Value((fr, es)) => eval_item_spec(fns, fr, es, items[n - 1]),
            other => other,
        }
    }
}

/// The frames and the document after `item`.
pub open spec fn eval_item_spec(
    fns: FunctionsView,
    frames: Seq<Seq<(Seq<char>, VarView)>>,
    es: Seq<(Seq<char>, ValueView)>,
    item: AstItem,
) -> Outcome<(Seq<Seq<(Seq<char>, VarView)>>, Seq<(Seq<char>, ValueView)>)>
    decreases item, 0nat,
{
    match item {
        AstItem::Decl(decl) => match eval_value_spec(fns, frames, decl.value) {
            Outcome::Value(TempView::Real(x)) => {
                let kind = if decl.cx_kw is Some {
                    CxKind::Cx
                } else {
                    CxKind::Local
                };
                match decl.compiler {
                    None => Outcome::Value(
                        (declare_spec(frames, decl.name.0.0@, VarView { kind, value: x, compiler: None }), es),
                    ),
                    Some((_, c)) => match lookup_entry(fns.compilers, c.0.0@) {
                        Some(cc) => Outcome::Value(
                            (
                                declare_spec(frames, decl.name.0.0@, VarView { kind, value: x, compiler: Some(cc) }),
                                es,
                            ),
                        ),
                        None => Outcome::Error(RunErrorView::UnknownFunction(c.0.0@, c.0.1)),
                    },
                }
            },
            Outcome::Value(TempView::Spread(..)) => if decl.value.span_ok() {
                Outcome::Error(RunErrorView::SpreadNotAllowedHere(decl.value.span_spec(), decl.name.0.1))
            } else {
                Outcome::Stuck
            },
            Outcome::Error(e) => Outcome::Error(e),
            Outcome::Stuck => Outcome::Stuck,
        },
        AstItem::DocPatch(kv) => match eval_value_spec(fns, frames.push(Seq::empty()), kv.value) {
            Outcome::Value(TempView::Real(x)) => if kv.key@.len() == 0 {
                Outcome::Stuck
            } else {
                match patch_spec(frames, ValueView::Object(es), kv.key@, 0, x) {
                    Outcome::Value(ValueView::Object(es2)) => Outcome::Value((frames, es2)),
                    Outcome::Value(_) => Outcome::Stuck,
                    Outcome::Error(e) => Outcome::Error(e),
                    Outcome::Stuck => Outcome::Stuck,
                }
            },
            Outcome::Value(TempView::Spread(..)) => if kv.value.span_ok() && kv.key@.len() > 0
                && kv.key@[0].span_ok() {
                Outcome::Error(RunErrorView::SpreadNotAllowedHere(kv.value.span_spec(), kv.key@[0].span_spec()))
            } else {
                Outcome::Stuck
            },
            Outcome::Error(e) => Outcome::Error(e),
            Outcome::Stuck => Outcome::Stuck,
        },
        AstItem::DocPatchSpread(_, name) => match resolve_spec(frames, name.0.0@) {
            None => Outcome::Error(RunErrorView::UndefinedVariable(name.0.0@, name.0.1)),
            Some(Step::Failed(e)) => Outcome::Error(RunErrorView::FnError(e, name.0.1)),
            Some(Step::Diverges) => Outcome::Stuck,
            Some(Step::Done(ValueView::Object(src))) => Outcome::Value((frames, spread_entries(es, src))),
            Some(Step::Done(v)) => Outcome::Error(RunErrorView::SpreadToObjectNotObject(v, name.0.1)),
        },
    }
}

/// The variable an import of a file is bound to: its `as` name, or
/// `import_` and its position among the imports.
pub open spec fn import_name(imp: AstImport, i: nat) -> Seq<char> {
    match imp.as_name {
        Some((_, n)) => n.0.0@,
        None => "import_"@ + decimal(i),
    }
}

/// The document of file `id` among `files`, with at most `fuel` files
/// open at once: first each import, run and bound to a variable, then the
/// items.
pub open spec fn eval_file_spec(fns: FunctionsView, files: Seq<Option<AstFile>>, id: int, fuel: nat) -> Outcome<
    Seq<(Seq<char>, ValueView)>,
>
    decreases fuel, 0nat,
{
    if fuel == 0 || !(0 <= id < files.len()) || files[id] is None {
        Outcome::Stuck
    } else {
        let ast = files[id]->Some_0;
        match eval_imports_spec(fns, files, ast.imports@, ast.imports@.len(), (fuel - 1) as nat) {
            Outcome::Value(frame) => match eval_items_spec(fns, seq![frame], ast.items@, ast.items@.len()) {
                Outcome::Value((_, es)) => Outcome::Value(es),
                Outcome::Error(e) => Outcome::Error(e),
                Outcome::Stuck => Outcome::Stuck,
            },
            Outcome::Error(e) => Outcome::Error(e),
            Outcome::Stuck => Outcome::Stuck,
        }
    }
}

/// The frame of the first `n` imports `imps`, each file run with at most
/// `fuel` files open at once.
pub open spec fn eval_imports_spec(fns: FunctionsView, files: Seq<Option<AstFile>>, imps: Seq<AstImport>, n: nat, fuel: nat) -> Outcome<
    Seq<(Seq<char>, VarView)>,
>
    decreases fuel, n + 1,
{
    if n == 0 || n > imps.len() {
        Outcome::Value(Seq::empty())
    } else {
        match eval_imports_spec(fns, files, imps, (n - 1) as nat, fuel) {
            Outcome::Value(frame) => match imps[n - 1].resolved_file_id {
                None => Outcome::Stuck,
                Some(fid) => match eval_file_spec(fns, files, fid.0 as int, fuel) {
                    Outcome::Value(es) => Outcome::Value(
                        frame.push(
                            (
                                import_name(imps[n - 1], (n - 1) as nat),
                                VarView { kind: CxKind::Local, value: ValueView::Object(es), compiler: None },
                            ),
                        ),
                    ),
                    Outcome::Error(e) => Outcome::Error(e),
                    Outcome::Stuck => Outcome::Stuck,
                },
            },
            other => other,
        }
    }
}

// ---------------------------------------------------------------------------
// Reading variables
// ---------------------------------------------------------------------------

impl Scope {
    /// What `name` reads as among the first `depth` frames, if anything
    /// declares it.
    fn resolve_at(&self, depth: usize, name: &str) -> (res: Option<Result<UkonfValue, UkonfFnError>>)
        requires
            depth <= self@.len(),
            !(resolve_spec(self@.take(depth as int), name@) matches Some(Step::Diverges)),
        ensures
            match resolve_spec(self@.take(depth as int), name@) {
                None => res is None,
                Some(st) => res matches Some(r) && result_step(r) == st,
            },
    {
        match self.locate(depth, name) {
            Some((j, i)) => {
                let var = &self.frames[j][i];
                let v = clone_value(&var.value);
                match var.compiler {
                    None => Some(Ok(v)),
                    Some(UkonfBuiltinCompiler::Xtask) => Some(xtask_compile(self, depth, v)),
                }
            },
            None => None,
        }
    }

    /// What `name` reads as, if anything declares it: the declared value,
    /// or what its compiler makes of it.
    pub fn resolve(&self, name: &str) -> (res: Option<Result<UkonfValue, UkonfFnError>>)
        requires
            !(resolve_spec(self@, name@) matches Some(Step::Diverges)),
        ensures
            match resolve_spec(self@, name@) {
                None => res is None,
                Some(st) => res matches Some(r) && result_step(r) == st,
            },
    {
        proof {
            assert(self@.take(self@.len() as int) =~= self@);
        }
        self.resolve_at(self.frames.len(), name)
    }

    /// What the context variable `name` reads as, if there is one.
    pub fn resolve_cx(&self, name: &str) -> (res: Option<Result<UkonfValue, UkonfFnError>>)
        requires
            !(resolve_cx_spec(self@, name@) matches Some(Step::Diverges)),
        ensures
            match resolve_cx_spec(self@, name@) {
                None => res is None,
                Some(st) => res matches Some(r) && result_step(r) == st,
            },
    {
        let depth = self.frames.len();
        proof {
            assert(self@.take(depth as int) =~= self@);
        }
        match self.locate(depth, name) {
            Some((j, i)) => {
                let var = &self.frames[j][i];
                if var.kind == CxKind::Cx {
                    let v = clone_value(&var.value);
                    match var.compiler {
                        None => Some(Ok(v)),
                        Some(UkonfBuiltinCompiler::Xtask) => Some(xtask_compile(self, depth, v)),
                    }
                } else {
                    None
                }
            },
            None => None,
        }
    }

    /// Reads `name` after `indirections - 1` indirections (see
    /// [`indirections_spec`]); errors carry `span`.
    #[verifier::loop_isolation(false)]
    pub fn resolve_with_indirections(&self, name: String, span: Span, indirections: usize) -> (res: Result<
        UkonfValue,
        UkonfRunError,
    >)
        requires
            indirections >= 1,
            !(indirections_spec(self@, name@, span, (indirections - 1) as nat) is Stuck),
        ensures
            match indirections_spec(self@, name@, span, (indirections - 1) as nat) {
                Outcome::Value(v) => res matches Ok(r) && value_view(r) == v,
                Outcome::Error(e) => res matches Err(r) && run_error_view(r) == e,
                Outcome::Stuck => false,
            },
    {
        let ghost name0 = name@;
        let mut depth = self.frames.len();
        let mut name = name;
        let mut left: usize = indirections - 1;
        proof {
            assert(self@.take(depth as int) =~= self@);
        }
        while left > 0
            invariant
                depth <= self@.len(),
                indirections_spec(self@, name0, span, (indirections - 1) as nat)
                    == indirections_spec(self@.take(depth as int), name@, span, left as nat),
            decreases left,
        {
            proof {
                lemma_resolve_one_depth(self@.take(depth as int), name@);
            }
            match self.locate(depth, name.as_str()) {
                None => {
                    return Err(UkonfRunError::UndefinedVariable(name, span));
                },
                Some((j, i)) => {
                    let var = &self.frames[j][i];
                    proof {
                        crate::ukonf::value::lemma_value_view(var.value);
                    }
                    match &var.value {
                        UkonfValue::Str(next) => {
                            proof {
                                assert(self@.take(depth as int).take(j + 1) =~= self@.take(j + 1));
                            }
                            name = next.clone();
                            depth = j + 1;
                        },
                        other => {
                            return Err(UkonfRunError::ExpectedString(clone_value(other), span));
                        },
                    }
                },
            }
            left = left - 1;
        }
        match self.resolve_at(depth, name.as_str()) {
            None => Err(UkonfRunError::UndefinedVariable(name, span)),
            Some(Ok(v)) => Ok(v),
            Some(Err(e)) => Err(UkonfRunError::FnError(e, span)),
        }
    }
}

// ---------------------------------------------------------------------------
// Keys, paths and spreads
// ---------------------------------------------------------------------------

/// A value as evaluated: a value, or a variable spread into the enclosing
/// array, with the spans of the spread and of the variable.
pub enum TempValue {
    RealValue(UkonfValue),
    Spread(Span, UkonfValue, Span),
}

pub open spec fn temp_view(t: TempValue) -> TempView {
    match t {
        TempValue::RealValue(v) => TempView::Real(value_view(v)),
        TempValue::Spread(a, v, b) => TempView::Spread(a, value_view(v), b),
    }
}

impl TempValue {
    /// The items that the value adds to an array: itself, or the items of
    /// the spread array.
    pub fn spread_to_array(self) -> (res: Result<Vec<UkonfValue>, UkonfRunError>)
        ensures
            match spread_to_array_spec(temp_view(self)) {
                Outcome::Value(xs) => res matches Ok(v) && values_view(v@) == xs,
                Outcome::Error(e) => res matches Err(x) && run_error_view(x) == e,
                Outcome::Stuck => false,
            },
    {
        match self {
            TempValue::RealValue(v) => {
                let mut out: Vec<UkonfValue> = Vec::new();
                out.push(v);
                proof {
                    assert(values_view(out@) =~= seq![value_view(v)]);
                }
                Ok(out)
            },
            TempValue::Spread(_spread, v, span) => {
                proof {
                    lemma_value_view(v);
                }
                match v {
                    UkonfValue::Array(a) => Ok(a),
                    other => Err(UkonfRunError::SpreadToArrayNotArray(other, span)),
                }
            },
        }
    }
}

/// The name that key `k` stands for.
fn resolve_key(scope: &Scope, k: &K) -> (res: Result<String, UkonfRunError>)
    requires
        !(resolve_key_spec(scope@, *k) is Stuck),
    ensures
        match resolve_key_spec(scope@, *k) {
            Outcome::Value(n) => res matches Ok(s) && s@ == n,
            Outcome::Error(e) => res matches Err(x) && run_error_view(x) == e,
            Outcome::Stuck => false,
        },
{
    let (name, indirections) = k.key().lower();
    let span = k.span();
    if indirections > 0 {
        match scope.resolve_with_indirections(name, span, indirections) {
            Ok(v) => {
                proof {
                    lemma_value_view(v);
                }
                match v {
                    UkonfValue::Str(s) => Ok(s),
                    other => Err(UkonfRunError::ExpectedString(other, span)),
                }
            },
            Err(e) => Err(e),
        }
    } else {
        Ok(name)
    }
}

/// Setting a key that no entry has appends it.
proof fn lemma_set_absent<V>(es: Seq<(Seq<char>, V)>, k: Seq<char>, old_v: V, v: V)
    requires
        lacks_key(es, k),
    ensures
        set_entry_value(es.push((k, old_v)), k, v) == es.push((k, v)),
{
    assert(set_entry_value(es.push((k, old_v)), k, v) =~= es.push((k, v))) by {
        assert forall|i: int| 0 <= i < es.len() implies (#[trigger] es[i]).0 != k by {}
    }
}

/// Sets `x` at the path `keys[i..]` inside `t` (see [`patch_spec`]).
fn patch_value(scope: &Scope, t: UkonfValue, keys: &Vec<K>, i: usize, x: UkonfValue) -> (res: Result<
    UkonfValue,
    UkonfRunError,
>)
    requires
        i < keys@.len(),
        !(patch_spec(scope@, value_view(t), keys@, i as nat, value_view(x)) is Stuck),
    ensures
        match patch_spec(scope@, value_view(t), keys@, i as nat, value_view(x)) {
            Outcome::Value(v) => res matches Ok(r) && value_view(r) == v,
            Outcome::Error(e) => res matches Err(r) && run_error_view(r) == e,
            Outcome::Stuck => false,
        },
    decreases keys@.len() - i,
{
    let name = match resolve_key(scope, &keys[i]) {
        Ok(n) => n,
        Err(e) => {
            return Err(e);
        },
    };
    proof {
        lemma_value_view(t);
    }
    let mut o = match t {
        UkonfValue::Object(o) => o,
        other => {
            let span = keys[i].span();
            return Err(UkonfRunError::ExpectedObject(other, span));
        },
    };
    let ghost es0 = o.entries();
    let n = keys.len();
    if i + 1 == n {
        let ghost nv = name@;
        o.insert(name, x);
        proof {
            lemma_without_key_view(es0, nv);
            assert(entries_view(without_key(es0, nv).push((nv, x))) =~= entries_view(without_key(es0, nv)).push(
                (nv, value_view(x)),
            ));
            lemma_value_view(UkonfValue::Object(o));
        }
        return Ok(UkonfValue::Object(o));
    }
    proof {
        lemma_lookup_entry_view(es0, name@);
    }
    let child = match o.replace_value(name.as_str(), UkonfValue::Null) {
        Some(c) => c,
        None => {
            o.insert(name.clone(), UkonfValue::Null);
            proof {
                lemma_without_absent_key(es0, name@);
            }
            let e = UkonfObject::new();
            proof {
                lemma_value_view(UkonfValue::Object(e));
                assert(entries_view(e.entries()) =~= Seq::<(Seq<char>, ValueView)>::empty());
            }
            UkonfValue::Object(e)
        },
    };
    let ghost es1 = o.entries();
    let c2 = match patch_value(scope, child, keys, i + 1, x) {
        Ok(c) => c,
        Err(e) => {
            return Err(e);
        },
    };
    let _ = o.replace_value(name.as_str(), c2);
    proof {
        let k = name@;
        if lookup_entry(es0, k) is Some {
            assert(set_entry_value(set_entry_value(es0, k, UkonfValue::Null), k, c2) =~= set_entry_value(
                es0,
                k,
                c2,
            ));
            lemma_set_entry_value_view(es0, k, c2);
        } else {
            lemma_set_absent(es0, k, UkonfValue::Null, c2);
            assert(entries_view(es0.push((k, c2))) =~= entries_view(es0).push((k, value_view(c2))));
        }
        lemma_value_view(UkonfValue::Object(o));
    }
    Ok(UkonfValue::Object(o))
}

/// `o` with the entries of `src` set, one after the other.
fn spread_into(o: &mut UkonfObject, src: UkonfObject)
    ensures
        entries_view(final(o).entries()) == spread_entries(entries_view(old(o).entries()), entries_view(src.entries())),
{
    let ghost all = entries_view(src.entries());
    let mut pairs = src.into_iter();
    let ghost ps = pairs@;
    let ghost pv = crate::ukonf::value::entry_pairs_view(ps);
    proof {
        assert(entries_view(pv) =~= all);
    }
    let mut rev: Vec<(String, UkonfValue)> = Vec::new();
    while pairs.len() > 0
        invariant
            ps == pairs@ + rev@.reverse(),
        decreases pairs@.len(),
    {
        let ghost before = rev@;
        let ghost pb = pairs@;
        let p = pairs.pop().unwrap();
        rev.push(p);
        proof {
            assert(pb == pairs@.push(p));
            assert(rev@.reverse() =~= seq![p] + before.reverse());
            assert(pairs@ + rev@.reverse() =~= pb + before.reverse());
        }
    }
    proof {
        assert(ps =~= rev@.reverse());
        assert(entries_view(pv.take(0)) =~= Seq::<(Seq<char>, ValueView)>::empty());
    }
    let n = rev.len();
    let mut i: usize = 0;
    while rev.len() > 0
        invariant
            i + rev@.len() == n,
            n == ps.len(),
            pv == crate::ukonf::value::entry_pairs_view(ps),
            rev@.reverse() == ps.subrange(i as int, n as int),
            entries_view(o.entries()) == spread_entries(entries_view(old(o).entries()), entries_view(pv.take(i as int))),
        decreases rev@.len(),
    {
        let ghost rb = rev@;
        let ghost prev = o.entries();
        let (k, v) = rev.pop().unwrap();
        proof {
            assert(rb == rev@.push((k, v)));
            assert(rb.reverse()[0] == (k, v));
            assert(ps.subrange(i as int, n as int)[0] == ps[i as int]);
            assert(rev@.reverse() =~= ps.subrange(i + 1, n as int)) by {
                assert forall|t: int| 0 <= t < n - i - 1 implies rev@.reverse()[t] == ps.subrange(i + 1, n as int)[t] by {
                    assert(rb.reverse()[t + 1] == ps.subrange(i as int, n as int)[t + 1]);
                }
            }
        }
        let ghost kv = k@;
        o.insert(k, v);
        proof {
            lemma_without_key_view(prev, kv);
            assert(entries_view(without_key(prev, kv).push((kv, v))) =~= entries_view(without_key(prev, kv)).push(
                (kv, value_view(v)),
            ));
            let t1 = entries_view(pv.take(i + 1));
            assert(t1.drop_last() =~= entries_view(pv.take(i as int)));
            assert(t1.last() == (kv, value_view(v)));
        }
        i = i + 1;
    }
    proof {
        assert(pv.take(n as int) =~= pv);
    }
}

// ---------------------------------------------------------------------------
// Evaluation
// ---------------------------------------------------------------------------

proof fn lemma_values_sticks(
    fns: FunctionsView,
    frames: Seq<Seq<(Seq<char>, VarView)>>,
    vals: Seq<AstVal>,
    j: nat,
    n: nat,
)
    requires
        j <= n <= vals.len(),
        !(eval_values_spec(fns, frames, vals, j) is Value),
    ensures
        eval_values_spec(fns, frames, vals, n) == eval_values_spec(fns, frames, vals, j),
    decreases n,
{
    if j < n {
        lemma_values_sticks(fns, frames, vals, j, (n - 1) as nat);
    }
}

proof fn lemma_pairs_sticks(
    fns: FunctionsView,
    frames: Seq<Seq<(Seq<char>, VarView)>>,
    ps: Seq<(AstVal, Comma)>,
    j: nat,
    n: nat,
)
    requires
        j <= n <= ps.len(),
        !(eval_pairs_spec(fns, frames, ps, j) is Value),
    ensures
        eval_pairs_spec(fns, frames, ps, n) == eval_pairs_spec(fns, frames, ps, j),
    decreases n,
{
    if j < n {
        lemma_pairs_sticks(fns, frames, ps, j, (n - 1) as nat);
    }
}

proof fn lemma_items_sticks(
    fns: FunctionsView,
    frames: Seq<Seq<(Seq<char>, VarView)>>,
    items: Seq<AstItem>,
    j: nat,
    n: nat,
)
    requires
        j <= n <= items.len(),
        !(eval_items_spec(fns, frames, items, j) is Value),
    ensures
        eval_items_spec(fns, frames, items, n) == eval_items_spec(fns, frames, items, j),
    decreases n,
{
    if j < n {
        lemma_items_sticks(fns, frames, items, j, (n - 1) as nat);
    }
}

/// Runs ukonf programs with a set of functions.
pub struct UkonfRunner {
    config: crate::ukonf::UkonfConfig,
    functions: UkonfFunctions,
}

impl UkonfRunner {
    /// The functions that the programs can call.
    pub closed spec fn fns(&self) -> FunctionsView {
        self.functions@
    }

    /// A runner with the files of `config` and the functions `functions`.
    pub fn new(config: crate::ukonf::UkonfConfig, functions: UkonfFunctions) -> (res: Self)
        ensures
            res.fns() == functions@,
    {
        UkonfRunner { config, functions }
    }

    /// Evaluates `v` among the variables of `scope`.
    #[verifier::loop_isolation(false)]
    fn run_value(&self, scope: &mut Scope, v: &AstVal) -> (res: Result<TempValue, UkonfRunError>)
        requires
            !(eval_value_spec(self.fns(), old(scope)@, *v) is Stuck),
        ensures
            final(scope)@ == old(scope)@,
            match eval_value_spec(self.fns(), old(scope)@, *v) {
                Outcome::Value(t) => res matches Ok(x) && temp_view(x) == t,
                Outcome::Error(e) => res matches Err(x) && run_error_view(x) == e,
                Outcome::Stuck => false,
            },
        decreases *v, 0nat,
    {
        let ghost fns = self.fns();
        let ghost frames = scope@;
        match v {
            AstVal::Null(_) => {
                proof {
                    lemma_value_view(UkonfValue::Null);
                }
                Ok(TempValue::RealValue(UkonfValue::Null))
            },
            AstVal::Ident(id) => match scope.resolve(id.0.0.as_str()) {
                None => Err(UkonfRunError::UndefinedVariable(id.0.0.clone(), id.0.1)),
                Some(Ok(x)) => Ok(TempValue::RealValue(x)),
                Some(Err(e)) => Err(UkonfRunError::FnError(e, id.0.1)),
            },
            AstVal::Str(s) => {
                let r = UkonfValue::Str(s.str_val());
                proof {
                    lemma_value_view(r);
                }
                Ok(TempValue::RealValue(r))
            },
            AstVal::Num(NumLit::Int(n)) => {
                let r = UkonfValue::Num(NumValue::Int(n.0));
                proof {
                    lemma_value_view(r);
                }
                Ok(TempValue::RealValue(r))
            },
            AstVal::Num(NumLit::Float(n)) => {
                let r = UkonfValue::Num(NumValue::Float(n.0));
                proof {
                    lemma_value_view(r);
                }
                Ok(TempValue::RealValue(r))
            },
            AstVal::Bool(b) => {
                let r = UkonfValue::Bool(b.value);
                proof {
                    lemma_value_view(r);
                }
                Ok(TempValue::RealValue(r))
            },
            AstVal::Arr(_, vals, _) => {
                let mut acc: Vec<UkonfValue> = Vec::new();
                let mut i: usize = 0;
                let n = vals.len();
                proof {
                    assert(values_view(acc@) =~= Seq::<ValueView>::empty());
                }
                while i < n
                    invariant
                        i <= n == vals@.len(),
                        *v is Arr && (*v)->Arr_1 == *vals,
                        scope@ == frames,
                        fns == self.fns(),
                        eval_values_spec(fns, frames, vals@, i as nat) == Outcome::<Seq<ValueView>>::Value(
                            values_view(acc@),
                        ),
                        eval_value_spec(fns, frames, *v) == match eval_values_spec(fns, frames, vals@, n as nat) {
                            Outcome::Value(items) => Outcome::Value(TempView::Real(ValueView::Array(items))),
                            Outcome::Error(e) => Outcome::Error(e),
                            Outcome::Stuck => Outcome::<TempView>::Stuck,
                        },
                        !(eval_value_spec(fns, frames, *v) is Stuck),
                    decreases n - i,
                {
                    proof {
                        if !(eval_values_spec(fns, frames, vals@, (i + 1) as nat) is Value) {
                            lemma_values_sticks(fns, frames, vals@, (i + 1) as nat, n as nat);
                        }
                        assert(decreases_to!(*v => (*v)->Arr_1));
                        assert(decreases_to!(*vals => vals[i as int]));
                    }
                    let t = match self.run_value(scope, &vals[i]) {
                        Ok(t) => t,
                        Err(e) => {
                            return Err(e);
                        },
                    };
                    let mut items = match t.spread_to_array() {
                        Ok(items) => items,
                        Err(e) => {
                            return Err(e);
                        },
                    };
                    let ghost before = acc@;
                    let ghost iv = items@;
                    acc.append(&mut items);
                    proof {
                        assert(values_view(acc@) =~= values_view(before) + values_view(iv));
                    }
                    i = i + 1;
                }
                let r = UkonfValue::Array(acc);
                proof {
                    lemma_value_view(r);
                }
                Ok(TempValue::RealValue(r))
            },
            AstVal::Obj(_, items, _) => {
                proof {
                    assert(decreases_to!(*v => (*v)->Obj_1));
                    assert(decreases_to!((*v)->Obj_1 => (*v)->Obj_1@));
                }
                scope.push_frame();
                let r = self.run_scope(scope, items);
                scope.pop_frame();
                proof {
                    assert(scope@ =~= frames);
                }
                match r {
                    Ok(o) => {
                        let r = UkonfValue::Object(o);
                        proof {
                            lemma_value_view(r);
                        }
                        Ok(TempValue::RealValue(r))
                    },
                    Err(e) => Err(e),
                }
            },
            AstVal::FunctionCall(call) => {
                let f = match self.functions.function(call.name.0.0.as_str()) {
                    Some(f) => f,
                    None => {
                        return Err(UkonfRunError::UnknownFunction(call.name.0.0.clone(), call.name.0.1));
                    },
                };
                let mut args: Vec<UkonfValue> = Vec::new();
                let ps = &call.args.values;
                let n = ps.len();
                let mut i: usize = 0;
                proof {
                    assert(values_view(args@) =~= Seq::<ValueView>::empty());
                }
                while i < n
                    invariant
                        i <= n == ps@.len(),
                        *v is FunctionCall && (*v)->FunctionCall_0.args.values == *ps,
                        scope@ == frames,
                        fns == self.fns(),
                        eval_pairs_spec(fns, frames, ps@, i as nat) == Outcome::<Seq<ValueView>>::Value(
                            values_view(args@),
                        ),
                        !(eval_pairs_spec(fns, frames, ps@, n as nat) is Stuck),
                        eval_pairs_spec(fns, frames, ps@, n as nat) is Error ==> eval_value_spec(fns, frames, *v)
                            == match eval_pairs_spec(fns, frames, ps@, n as nat) {
                            Outcome::Error(e) => Outcome::<TempView>::Error(e),
                            _ => Outcome::<TempView>::Stuck,
                        },
                    decreases n - i,
                {
                    proof {
                        if !(eval_pairs_spec(fns, frames, ps@, (i + 1) as nat) is Value) {
                            lemma_pairs_sticks(fns, frames, ps@, (i + 1) as nat, n as nat);
                        }
                        assert(decreases_to!(*v => (*v)->FunctionCall_0));
                        assert(decreases_to!((*v)->FunctionCall_0 => (*v)->FunctionCall_0.args));
                        assert(decreases_to!((*v)->FunctionCall_0.args => (*v)->FunctionCall_0.args.values));
                        assert(decreases_to!(*ps => ps[i as int]));
                        assert(decreases_to!(ps[i as int] => ps[i as int].0));
                    }
                    let t = match self.run_value(scope, &ps[i].0) {
                        Ok(t) => t,
                        Err(e) => {
                            return Err(e);
                        },
                    };
                    let mut items = match t.spread_to_array() {
                        Ok(items) => items,
                        Err(e) => {
                            return Err(e);
                        },
                    };
                    let ghost before = args@;
                    let ghost iv = items@;
                    args.append(&mut items);
                    proof {
                        assert(values_view(args@) =~= values_view(before) + values_view(iv));
                    }
                    i = i + 1;
                }
                match &call.args.trailing_value {
                    Some(tv) => {
                        proof {
                            assert(decreases_to!(*v => (*v)->FunctionCall_0));
                            assert(decreases_to!((*v)->FunctionCall_0 => (*v)->FunctionCall_0.args));
                            assert(decreases_to!((*v)->FunctionCall_0.args => (*v)->FunctionCall_0.args.trailing_value));
                        }
                        let t = match self.run_value(scope, &**tv) {
                            Ok(t) => t,
                            Err(e) => {
                                return Err(e);
                            },
                        };
                        let mut items = match t.spread_to_array() {
                            Ok(items) => items,
                            Err(e) => {
                                return Err(e);
                            },
                        };
                        let ghost before = args@;
                        let ghost iv = items@;
                        args.append(&mut items);
                        proof {
                            assert(values_view(args@) =~= values_view(before) + values_view(iv));
                        }
                    },
                    None => {},
                }
                let r = crate::xtask::ukonf_fns::call_builtin_fn(f, args.as_slice());
                let span = call.span();
                match r {
                    Ok(x) => Ok(TempValue::RealValue(x)),
                    Err(e) => Err(UkonfRunError::FnError(e, span)),
                }
            },
            AstVal::Dot(base, _, k) => {
                let bv = match scope.resolve(base.0.0.as_str()) {
                    None => {
                        let span = k.span();
                        return Err(UkonfRunError::UndefinedVariable(base.0.0.clone(), span));
                    },
                    Some(Err(e)) => {
                        return Err(UkonfRunError::FnError(e, base.0.1));
                    },
                    Some(Ok(bv)) => bv,
                };
                let name = match resolve_key(scope, k) {
                    Ok(n) => n,
                    Err(e) => {
                        return Err(e);
                    },
                };
                proof {
                    lemma_value_view(bv);
                }
                match bv {
                    UkonfValue::Object(o) => {
                        proof {
                            lemma_lookup_entry_view(o.entries(), name@);
                        }
                        match o.get(name.as_str()) {
                            Some(x) => Ok(TempValue::RealValue(clone_value(x))),
                            None => vstd::pervasive::unreached(),
                        }
                    },
                    other => {
                        let span = k.span();
                        Err(UkonfRunError::ExpectedObject(other, span))
                    },
                }
            },
            AstVal::Spread(spread, name) => match scope.resolve(name.0.0.as_str()) {
                None => Err(UkonfRunError::UndefinedVariable(name.0.0.clone(), name.0.1)),
                Some(Ok(x)) => Ok(TempValue::Spread(spread.0, x, name.0.1)),
                Some(Err(e)) => Err(UkonfRunError::FnError(e, name.0.1)),
            },
        }
    }

    /// Runs `items` among the variables of `scope`, declaring variables in
    /// its innermost frame, into a new document.
    #[verifier::loop_isolation(false)]
    fn run_scope(&self, scope: &mut Scope, items: &Vec<AstItem>) -> (res: Result<UkonfObject, UkonfRunError>)
        requires
            old(scope)@.len() > 0,
            !(eval_items_spec(self.fns(), old(scope)@, items@, items@.len()) is Stuck),
        ensures
            final(scope)@.len() == old(scope)@.len(),
            final(scope)@.drop_last() == old(scope)@.drop_last(),
            match eval_items_spec(self.fns(), old(scope)@, items@, items@.len()) {
                Outcome::Value((fr, es)) => res matches Ok(o) && final(scope)@ == fr && entries_view(o.entries())
                    == es,
                Outcome::Error(e) => res matches Err(x) && run_error_view(x) == e,
                Outcome::Stuck => false,
            },
        decreases items@, 0nat,
    {
        let ghost fns = self.fns();
        let ghost frames = scope@;
        let mut result = UkonfObject::new();
        let n = items.len();
        let mut i: usize = 0;
        proof {
            assert(entries_view(result.entries()) =~= Seq::<(Seq<char>, ValueView)>::empty());
        }
        while i < n
            invariant
                i <= n == items@.len(),
                fns == self.fns(),
                frames.len() > 0,
                scope@.len() == frames.len(),
                scope@.drop_last() == frames.drop_last(),
                eval_items_spec(fns, frames, items@, i as nat) == Outcome::Value((scope@, entries_view(result.entries()))),
                !(eval_items_spec(fns, frames, items@, n as nat) is Stuck),
            decreases n - i,
        {
            proof {
                if !(eval_items_spec(fns, frames, items@, (i + 1) as nat) is Value) {
                    lemma_items_sticks(fns, frames, items@, (i + 1) as nat, n as nat);
                }
                assert(decreases_to!(*items => items[i as int]));
            }
            match self.run_item(scope, &mut result, &items[i]) {
                Ok(()) => {},
                Err(e) => {
                    return Err(e);
                },
            }
            i = i + 1;
        }
        Ok(result)
    }

    /// Runs `item` among the variables of `scope` on the document `result`.
    fn run_item(&self, scope: &mut Scope, result: &mut UkonfObject, item: &AstItem) -> (res: Result<(), UkonfRunError>)
        requires
            old(scope)@.len() > 0,
            !(eval_item_spec(self.fns(), old(scope)@, entries_view(old(result).entries()), *item) is Stuck),
        ensures
            final(scope)@.len() == old(scope)@.len(),
            final(scope)@.drop_last() == old(scope)@.drop_last(),
            match eval_item_spec(self.fns(), old(scope)@, entries_view(old(result).entries()), *item) {
                Outcome::Value((fr, es)) => res is Ok && final(scope)@ == fr && entries_view(final(result).entries())
                    == es,
                Outcome::Error(e) => res matches Err(x) && run_error_view(x) == e,
                Outcome::Stuck => false,
            },
        decreases *item, 0nat,
    {
        let ghost frames = scope@;
        match item {
            AstItem::Decl(decl) => {
                proof {
                    assert(decreases_to!(*item => (*item)->Decl_0));
                    assert(decreases_to!((*item)->Decl_0 => (*item)->Decl_0.value));
                }
                let x = match self.run_value(scope, &decl.value) {
                    Ok(TempValue::RealValue(x)) => x,
                    Ok(TempValue::Spread(..)) => {
                        let a = decl.value.span();
                        return Err(UkonfRunError::SpreadNotAllowedHere(a, decl.name.0.1));
                    },
                    Err(e) => {
                        return Err(e);
                    },
                };
                let kind = if decl.cx_kw.is_some() {
                    CxKind::Cx
                } else {
                    CxKind::Local
                };
                let compiler = match &decl.compiler {
                    None => None,
                    Some((_, c)) => match self.functions.compiler(c.0.0.as_str()) {
                        Some(cc) => Some(cc),
                        None => {
                            return Err(UkonfRunError::UnknownFunction(c.0.0.clone(), c.0.1));
                        },
                    },
                };
                scope.declare(ScopeVar { name: decl.name.0.0.clone(), kind, value: x, compiler });
                proof {
                    assert(scope@.drop_last() =~= frames.drop_last());
                }
                Ok(())
            },
            AstItem::DocPatch(kv) => {
                proof {
                    assert(decreases_to!(*item => (*item)->DocPatch_0));
                    assert(decreases_to!((*item)->DocPatch_0 => (*item)->DocPatch_0.value));
                }
                scope.push_frame();
                let t = self.run_value(scope, &kv.value);
                scope.pop_frame();
                proof {
                    assert(scope@ =~= frames);
                }
                let x = match t {
                    Ok(TempValue::RealValue(x)) => x,
                    Ok(TempValue::Spread(..)) => {
                        let a = kv.value.span();
                        let b = kv.key[0].span();
                        return Err(UkonfRunError::SpreadNotAllowedHere(a, b));
                    },
                    Err(e) => {
                        return Err(e);
                    },
                };
                let mut cur = UkonfObject::new();
                std::mem::swap(&mut cur, result);
                let ghost es0 = cur.entries();
                let cv = UkonfValue::Object(cur);
                proof {
                    lemma_value_view(cv);
                }
                match patch_value(scope, cv, &kv.key, 0, x) {
                    Ok(UkonfValue::Object(o)) => {
                        *result = o;
                        proof {
                            lemma_value_view(UkonfValue::Object(o));
                        }
                        Ok(())
                    },
                    Ok(other) => {
                        proof {
                            lemma_value_view(other);
                        }
                        vstd::pervasive::unreached()
                    },
                    Err(e) => Err(e),
                }
            },
            AstItem::DocPatchSpread(_, name) => {
                let v = match scope.resolve(name.0.0.as_str()) {
                    None => {
                        return Err(UkonfRunError::UndefinedVariable(name.0.0.clone(), name.0.1));
                    },
                    Some(Err(e)) => {
                        return Err(UkonfRunError::FnError(e, name.0.1));
                    },
                    Some(Ok(v)) => v,
                };
                proof {
                    lemma_value_view(v);
                }
                match v {
                    UkonfValue::Object(src) => {
                        spread_into(result, src);
                        Ok(())
                    },
                    other => Err(UkonfRunError::SpreadToObjectNotObject(other, name.0.1)),
                }
            },
        }
    }
}

proof fn lemma_imports_sticks(
    fns: FunctionsView,
    files: Seq<Option<AstFile>>,
    imps: Seq<AstImport>,
    j: nat,
    n: nat,
    fuel: nat,
)
    requires
        j <= n <= imps.len(),
        !(eval_imports_spec(fns, files, imps, j, fuel) is Value),
    ensures
        eval_imports_spec(fns, files, imps, n, fuel) == eval_imports_spec(fns, files, imps, j, fuel),
    decreases n,
{
    if j < n {
        lemma_imports_sticks(fns, files, imps, j, (n - 1) as nat, fuel);
    }
}

impl UkonfRunner {
    /// The syntax trees of the files, by id, where they parsed.
    pub closed spec fn files(&self) -> Seq<Option<AstFile>> {
        self.config.asts()
    }

    /// The document of file `file_id`: its imports are run first, each
    /// bound to a variable, then its items.
    pub fn run_file(&self, file_id: FileId) -> (res: Result<UkonfObject, UkonfRunError>)
        requires
            !(eval_file_spec(self.fns(), self.files(), file_id.0 as int, self.files().len() + 1) is Stuck),
        ensures
            match eval_file_spec(self.fns(), self.files(), file_id.0 as int, self.files().len() + 1) {
                Outcome::Value(es) => res matches Ok(o) && entries_view(o.entries()) == es,
                Outcome::Error(e) => res matches Err(x) && run_error_view(x) == e,
                Outcome::Stuck => false,
            },
    {
        self.run_file_within(file_id, Ghost((self.files().len() + 1) as nat))
    }

    #[verifier::loop_isolation(false)]
    fn run_file_within(&self, file_id: FileId, Ghost(fuel): Ghost<nat>) -> (res: Result<UkonfObject, UkonfRunError>)
        requires
            !(eval_file_spec(self.fns(), self.files(), file_id.0 as int, fuel) is Stuck),
        ensures
            match eval_file_spec(self.fns(), self.files(), file_id.0 as int, fuel) {
                Outcome::Value(es) => res matches Ok(o) && entries_view(o.entries()) == es,
                Outcome::Error(e) => res matches Err(x) && run_error_view(x) == e,
                Outcome::Stuck => false,
            },
        decreases fuel,
    {
        let ghost fns = self.fns();
        let ghost files = self.files();
        let ast = match self.config.get_ast(file_id) {
            Some(a) => a,
            None => vstd::pervasive::unreached(),
        };
        let imps = &ast.imports;
        let n = imps.len();
        let mut scope = Scope::new();
        let mut i: usize = 0;
        proof {
            assert(scope@ =~= seq![Seq::<(Seq<char>, VarView)>::empty()]);
        }
        while i < n
            invariant
                i <= n == imps@.len(),
                fuel > 0,
                scope@.len() == 1,
                eval_imports_spec(fns, files, imps@, i as nat, (fuel - 1) as nat) == Outcome::Value(scope@[0]),
                !(eval_imports_spec(fns, files, imps@, n as nat, (fuel - 1) as nat) is Stuck),
            decreases n - i,
        {
            proof {
                if !(eval_imports_spec(fns, files, imps@, (i + 1) as nat, (fuel - 1) as nat) is Value) {
                    lemma_imports_sticks(fns, files, imps@, (i + 1) as nat, n as nat, (fuel - 1) as nat);
                }
            }
            let imp = &imps[i];
            let fid = match imp.resolved() {
                Some(f) => f,
                None => vstd::pervasive::unreached(),
            };
            let obj = match self.run_file_within(fid, Ghost((fuel - 1) as nat)) {
                Ok(o) => o,
                Err(e) => {
                    return Err(e);
                },
            };
            let name = match &imp.as_name {
                Some((_, n)) => n.0.0.clone(),
                None => {
                    let mut s = "import_".to_owned();
                    let ds = decimal_chars(i as u64);
                    let num = crate::text::string_of(ds.as_slice());
                    crate::text::push_str(&mut s, num.as_str());
                    s
                },
            };
            let value = UkonfValue::Object(obj);
            proof {
                lemma_value_view(value);
            }
            scope.declare(ScopeVar { name, kind: CxKind::Local, value, compiler: None });
            i = i + 1;
        }
        proof {
            assert(scope@ =~= seq![scope@[0]]);
        }
        self.run_scope(&mut scope, &ast.items)
    }
}

// ---------------------------------------------------------------------------
// Laws
// ---------------------------------------------------------------------------

/// The value at the path `names` inside `v`, if every step is an object
/// with the next key.
pub open spec fn path_lookup(v: ValueView, names: Seq<Seq<char>>) -> Option<ValueView>
    decreases names.len(),
{
    if names.len() == 0 {
        Some(v)
    } else {
        match v {
            ValueView::Object(es) => match lookup_entry(es, names[0]) {
                Some(c) => path_lookup(c, names.drop_first()),
                None => None,
            },
            _ => None,
        }
    }
}

proof fn lemma_lookup_pushed<V>(es: Seq<(Seq<char>, V)>, n: Seq<char>, x: V, k: Seq<char>)
    ensures
        lookup_entry(es.push((n, x)), k) == if k == n {
            Some(x)
        } else {
            lookup_entry(es, k)
        },
{
    assert(es.push((n, x)).drop_last() =~= es);
}

proof fn lemma_lookup_without<V>(es: Seq<(Seq<char>, V)>, n: Seq<char>, k: Seq<char>)
    requires
        k != n,
    ensures
        lookup_entry(without_key(es, n), k) == lookup_entry(es, k),
    decreases es.len(),
{
    if es.len() > 0 {
        lemma_lookup_without(es.drop_last(), n, k);
        if es.last().0 != n {
            lemma_lookup_pushed(without_key(es.drop_last(), n), es.last().0, es.last().1, k);
            assert(without_key(es.drop_last(), n) + seq![es.last()] =~= without_key(es.drop_last(), n).push(
                es.last(),
            ));
        } else {
            assert(without_key(es.drop_last(), n) + Seq::<(Seq<char>, V)>::empty() =~= without_key(
                es.drop_last(),
                n,
            ));
        }
    }
}

proof fn lemma_lookup_set<V>(es: Seq<(Seq<char>, V)>, n: Seq<char>, c: V, k: Seq<char>)
    ensures
        lookup_entry(set_entry_value(es, n, c), k) == if k == n {
            match lookup_entry(es, k) {
                Some(_) => Some(c),
                None => None::<V>,
            }
        } else {
            lookup_entry(es, k)
        },
    decreases es.len(),
{
    if es.len() > 0 {
        lemma_lookup_set(es.drop_last(), n, c, k);
        assert(set_entry_value(es, n, c).drop_last() =~= set_entry_value(es.drop_last(), n, c));
    }
}

/// Patching sets the value at its path: where setting `x` at the keys
/// `keys[i..]` inside `t` succeeds, and those keys stand for `names`, the
/// patched value has `x` at the path `names`.
pub proof fn lemma_patch_then_read(
    frames: Seq<Seq<(Seq<char>, VarView)>>,
    t: ValueView,
    keys: Seq<K>,
    i: nat,
    x: ValueView,
    names: Seq<Seq<char>>,
)
    requires
        i < keys.len(),
        names.len() == keys.len() - i,
        forall|j: int| 0 <= j < names.len() ==> resolve_key_spec(frames, #[trigger] keys[i + j]) == Outcome::Value(names[j]),
        patch_spec(frames, t, keys, i, x) is Value,
    ensures
        path_lookup(patch_spec(frames, t, keys, i, x)->Value_0, names) == Some(x),
    decreases keys.len() - i,
{
    assert(resolve_key_spec(frames, keys[i + 0int]) == Outcome::Value(names[0]));
    let name = names[0];
    let es = t->Object_0;
    if i + 1 == keys.len() {
        lemma_lookup_pushed(without_key(es, name), name, x, name);
        assert(names.drop_first() =~= Seq::<Seq<char>>::empty());
        assert(path_lookup(x, names.drop_first()) == Some(x));
    } else {
        let rest = names.drop_first();
        assert forall|j: int| 0 <= j < rest.len() implies resolve_key_spec(frames, #[trigger] keys[(i + 1) + j])
            == Outcome::Value(rest[j]) by {
            assert(keys[(i + 1) + j] == keys[i + (j + 1)]);
        }
        match lookup_entry(es, name) {
            Some(child) => {
                lemma_patch_then_read(frames, child, keys, i + 1, x, rest);
                let c = patch_spec(frames, child, keys, i + 1, x)->Value_0;
                lemma_lookup_set(es, name, c, name);
            },
            None => {
                lemma_patch_then_read(frames, ValueView::Object(Seq::empty()), keys, i + 1, x, rest);
                let c = patch_spec(frames, ValueView::Object(Seq::empty()), keys, i + 1, x)->Value_0;
                lemma_lookup_pushed(es, name, c, name);
            },
        }
    }
}

/// Patching leaves the other entries: where setting a value at the keys
/// `keys[i..]` inside the object `t` succeeds and the first key stands for
/// `name`, every other key of `t` has the value it had.
pub proof fn lemma_patch_keeps_other_keys(
    frames: Seq<Seq<(Seq<char>, VarView)>>,
    es: Seq<(Seq<char>, ValueView)>,
    keys: Seq<K>,
    i: nat,
    x: ValueView,
    name: Seq<char>,
    k: Seq<char>,
)
    requires
        i < keys.len(),
        resolve_key_spec(frames, keys[i as int]) == Outcome::Value(name),
        k != name,
        patch_spec(frames, ValueView::Object(es), keys, i, x) is Value,
    ensures
        patch_spec(frames, ValueView::Object(es), keys, i, x)->Value_0 matches ValueView::Object(es2)
            && lookup_entry(es2, k) == lookup_entry(es, k),
{
    if i + 1 == keys.len() {
        lemma_lookup_pushed(without_key(es, name), name, x, k);
        lemma_lookup_without(es, name, k);
    } else {
        match lookup_entry(es, name) {
            Some(child) => {
                let c = patch_spec(frames, child, keys, i + 1, x)->Value_0;
                lemma_lookup_set(es, name, c, k);
            },
            None => {
                let c = patch_spec(frames, ValueView::Object(Seq::empty()), keys, i + 1, x)->Value_0;
                lemma_lookup_pushed(es, name, c, k);
            },
        }
    }
}

/// A variable declared without a compiler reads as its value right after.
pub proof fn lemma_declared_reads_back(
    frames: Seq<Seq<(Seq<char>, VarView)>>,
    name: Seq<char>,
    kind: CxKind,
    x: ValueView,
)
    requires
        frames.len() > 0,
    ensures
        resolve_spec(declare_spec(frames, name, VarView { kind, value: x, compiler: None }), name) == Some(
            Step::Done(x),
        ),
{
    let v = VarView { kind, value: x, compiler: None };
    let d = declare_spec(frames, name, v);
    assert(d.last() == frames.last().push((name, v)));
    lemma_lookup_pushed(frames.last(), name, v, name);
}

} // verus!
