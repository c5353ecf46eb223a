//! Functions that the workspace's ukonf programs call (joining strings, the
//! parent directory of a path, Windows paths, xtask commands), the xtask
//! compiler, and the sets of functions that the workspace's programs run
//! with.

use vstd::prelude::*;

use crate::paths::{parent, path_parent, path_with_extension, set_extension};
use crate::text::{chars_of, push_str};
use crate::ukonf::runner::{cx_var_spec, Scope, UkonfBuiltinCompiler, UkonfBuiltinFn, UkonfFunctions};
use crate::ukonf::value::{
    fn_error_view, lemma_lookup_entry_view, lemma_set_entry_value_view, lemma_value_view, lookup_entry,
    set_entry_value, value_view, values_view, ExpectedKind, FnErrorView, UkonfFnError, UkonfObject,
    UkonfValue, ValueView,
};
use crate::xtask::cmd::{convert_path_to_win, to_win_separators};

verus! {

/// The path written with backslashes `s`, with the separator of the
/// platform in their place (`PathBuf::from_backslash` of `path_slash`: on
/// Windows the text as it is, elsewhere each `\` turned into `/`).
pub uninterp spec fn backslashes_to_slashes(s: Seq<char>) -> Seq<char>;

/// The path written with backslashes `s`, with the separator of the
/// platform in their place (`PathBuf::from_backslash` of `path_slash`).
#[verifier::external_body]
fn from_backslash(s: &str) -> (res: String)
    ensures
        res@ == backslashes_to_slashes(s@),
{
    <std::path::PathBuf as path_slash::PathBufExt>::from_backslash(s).to_string_lossy().into_owned()
}

/// The strings of `vs`, one after the other.
pub open spec fn concat_strs(vs: Seq<UkonfValue>) -> Seq<char>
    decreases vs.len(),
{
    if vs.len() == 0 {
        Seq::empty()
    } else {
        concat_strs(vs.drop_last()) + match vs.last() {
            UkonfValue::Str(s) => s@,
            _ => Seq::empty(),
        }
    }
}

pub open spec fn all_strings(vs: Seq<UkonfValue>) -> bool {
    forall|i: int| 0 <= i < vs.len() ==> (#[trigger] vs[i]) is Str
}

/// `concat(..)`: the strings given, one after the other; each argument
/// must be a string.
pub fn ukonf_concat_strings(strings: &[UkonfValue]) -> (res: Result<UkonfValue, UkonfFnError>)
    ensures
        all_strings(strings@) ==> (res matches Ok(UkonfValue::Str(r)) && r@ == concat_strs(strings@)),
        !all_strings(strings@) ==> (res matches Err(UkonfFnError::Message(m)) && m@
            == "concat: expected string"@),
{
    let mut result = String::new();
    let mut i: usize = 0;
    proof {
        assert(strings@.take(0) =~= Seq::<UkonfValue>::empty());
    }
    while i < strings.len()
        invariant
            i <= strings@.len(),
            all_strings(strings@.take(i as int)),
            result@ == concat_strs(strings@.take(i as int)),
        decreases strings@.len() - i,
    {
        proof {
            assert(strings@.take(i + 1).drop_last() =~= strings@.take(i as int));
            assert(strings@.take(i + 1).last() == strings@[i as int]);
        }
        match strings[i].as_string() {
            Some(s) => {
                push_str(&mut result, s.as_str());
                proof {
                    assert forall|j: int| 0 <= j < i + 1 implies (#[trigger] strings@.take(i + 1)[j]) is Str by {
                        if j < i {
                            assert(strings@.take(i + 1)[j] == strings@.take(i as int)[j]);
                        }
                    }
                }
            },
            None => {
                proof {
                    assert(!(strings@[i as int] is Str));
                }
                return Err(UkonfFnError::Message("concat: expected string".to_owned()));
            },
        }
        i = i + 1;
    }
    proof {
        assert(strings@.take(strings@.len() as int) =~= strings@);
    }
    Ok(UkonfValue::Str(result))
}

/// `parent_dir(path)`: the directory of `path`, which may be written with
/// backslashes; there must be exactly one argument, a string, and the
/// path must have a parent.
pub fn ukonf_parent_dir(args: &[UkonfValue]) -> (res: Result<UkonfValue, UkonfFnError>)
    ensures
        args@.len() != 1 ==> (res matches Err(UkonfFnError::Message(m)) && m@
            == "parent_dir: expected exactly one argument"@),
        args@.len() == 1 && !(args@[0] is Str) ==> (res matches Err(UkonfFnError::Message(m)) && m@
            == "parent_dir: expected string"@),
        args@.len() == 1 && args@[0] is Str ==> ({
            let p = if args@[0]->Str_0@.contains('\\') {
                backslashes_to_slashes(args@[0]->Str_0@)
            } else {
                args@[0]->Str_0@
            };
            match path_parent(p) {
                Some(q) => res matches Ok(UkonfValue::Str(r)) && r@ == q,
                None => res matches Err(UkonfFnError::Message(m)) && m@ == "parent_dir: no parent"@,
            }
        }),
{
    if args.len() != 1 {
        return Err(UkonfFnError::Message("parent_dir: expected exactly one argument".to_owned()));
    }
    let path = match args[0].as_string() {
        Some(p) => p,
        None => {
            return Err(UkonfFnError::Message("parent_dir: expected string".to_owned()));
        },
    };
    let cs = chars_of(path.as_str());
    let mut has_backslash = false;
    let mut i: usize = 0;
    while i < cs.len()
        invariant
            i <= cs@.len(),
            has_backslash == exists|j: int| 0 <= j < i && cs@[j] == '\\',
        decreases cs@.len() - i,
    {
        if cs[i] == '\\' {
            has_backslash = true;
        }
        i = i + 1;
    }
    let p = if has_backslash {
        from_backslash(path.as_str())
    } else {
        path.as_str().to_owned()
    };
    match parent(p.as_str()) {
        Some(q) => Ok(UkonfValue::Str(q)),
        None => Err(UkonfFnError::Message("parent_dir: no parent".to_owned())),
    }
}

/// The strings among `vs`, one after the other.
pub open spec fn concat_views(vs: Seq<ValueView>) -> Seq<char>
    decreases vs.len(),
{
    if vs.len() == 0 {
        Seq::empty()
    } else {
        concat_views(vs.drop_last()) + match vs.last() {
            ValueView::Str(s) => s,
            _ => Seq::empty(),
        }
    }
}

pub open spec fn all_str_views(vs: Seq<ValueView>) -> bool {
    forall|i: int| 0 <= i < vs.len() ==> (#[trigger] vs[i]) is Str
}

proof fn lemma_concat_views(vs: Seq<UkonfValue>)
    ensures
        concat_strs(vs) == concat_views(values_view(vs)),
        all_strings(vs) == all_str_views(values_view(vs)),
    decreases vs.len(),
{
    if vs.len() > 0 {
        lemma_concat_views(vs.drop_last());
        assert(values_view(vs.drop_last()) =~= values_view(vs).drop_last());
        lemma_value_view(vs.last());
    }
    assert forall|i: int| 0 <= i < vs.len() implies (#[trigger] vs[i] is Str) == (values_view(vs)[i] is Str) by {
        lemma_value_view(vs[i]);
    }
}

/// `concat(..)`: the string arguments one after the other.
pub open spec fn concat_spec(args: Seq<ValueView>) -> Result<ValueView, FnErrorView> {
    if all_str_views(args) {
        Ok(ValueView::Str(concat_views(args)))
    } else {
        Err(FnErrorView::Message("concat: expected string"@))
    }
}

/// `parent_dir(path)`: the directory of a path, which may be written with
/// backslashes.
pub open spec fn parent_dir_spec(args: Seq<ValueView>) -> Result<ValueView, FnErrorView> {
    if args.len() != 1 {
        Err(FnErrorView::Message("parent_dir: expected exactly one argument"@))
    } else {
        match args[0] {
            ValueView::Str(p) => match path_parent(
                if p.contains('\\') {
                    backslashes_to_slashes(p)
                } else {
                    p
                },
            ) {
                Some(q) => Ok(ValueView::Str(q)),
                None => Err(FnErrorView::Message("parent_dir: no parent"@)),
            },
            _ => Err(FnErrorView::Message("parent_dir: expected string"@)),
        }
    }
}

/// `win_path(path)`: the path with each `/` turned into `\`.
pub open spec fn win_path_spec(args: Seq<ValueView>) -> Result<ValueView, FnErrorView> {
    if args.len() != 1 {
        Err(FnErrorView::Message("win_path: expected exactly one argument"@))
    } else {
        match args[0] {
            ValueView::Str(p) => Ok(ValueView::Str(to_win_separators(p))),
            v => Err(FnErrorView::Value(ExpectedKind::String, v)),
        }
    }
}

/// `xtask(name)`: the object `{xtask: name}`.
pub open spec fn xtask_fn_spec(args: Seq<ValueView>) -> Result<ValueView, FnErrorView> {
    if args.len() != 1 {
        Err(FnErrorView::Message("xtask: expected exactly one argument"@))
    } else {
        match args[0] {
            ValueView::Str(x) => Ok(ValueView::Object(seq![("xtask"@, ValueView::Str(x))])),
            _ => Err(FnErrorView::Message("xtask: expected string"@)),
        }
    }
}

/// What a call of `f` with the arguments `args` returns.
pub open spec fn builtin_fn_spec(f: UkonfBuiltinFn, args: Seq<ValueView>) -> Result<ValueView, FnErrorView> {
    match f {
        UkonfBuiltinFn::Concat => concat_spec(args),
        UkonfBuiltinFn::ParentDir => parent_dir_spec(args),
        UkonfBuiltinFn::WinPath => win_path_spec(args),
        UkonfBuiltinFn::Xtask => xtask_fn_spec(args),
        UkonfBuiltinFn::Lang => crate::xtask::langmap::lang_fn_spec(args),
    }
}

/// `win_path(path)`: the path with Windows separators; there must be exactly
/// one argument, a string.
pub fn ukonf_win_path(args: &[UkonfValue]) -> (res: Result<UkonfValue, UkonfFnError>)
    ensures
        crate::ukonf::value::fn_result_view(res) == win_path_spec(values_view(args@)),
{
    if args.len() != 1 {
        return Err(UkonfFnError::Message("win_path: expected exactly one argument".to_owned()));
    }
    proof {
        lemma_value_view(args@[0]);
    }
    match args[0].clone_to_string() {
        Ok(path) => {
            let r = UkonfValue::Str(convert_path_to_win(path.as_str()));
            proof {
                lemma_value_view(r);
            }
            Ok(r)
        },
        Err(e) => Err(UkonfFnError::Value(e)),
    }
}

/// `xtask(name)`: the object that names the xtask command `name`; there must
/// be exactly one argument, a string.
pub fn ukonf_xtask(args: &[UkonfValue]) -> (res: Result<UkonfValue, UkonfFnError>)
    ensures
        crate::ukonf::value::fn_result_view(res) == xtask_fn_spec(values_view(args@)),
{
    if args.len() != 1 {
        return Err(UkonfFnError::Message("xtask: expected exactly one argument".to_owned()));
    }
    proof {
        lemma_value_view(args@[0]);
    }
    match args[0].as_string() {
        Some(x) => {
            let o = UkonfObject::new().with("xtask".to_owned(), UkonfValue::Str(x.clone()));
            proof {
                let es = o.entries();
                assert(crate::ukonf::value::without_key(
                    Seq::<(Seq<char>, UkonfValue)>::empty(),
                    "xtask"@,
                ) =~= Seq::<(Seq<char>, UkonfValue)>::empty());
                lemma_value_view(UkonfValue::Object(o));
                lemma_value_view(es[0].1);
                assert(crate::ukonf::value::entries_view(es) =~= seq![("xtask"@, ValueView::Str(x@))]);
            }
            Ok(UkonfValue::Object(o))
        },
        None => Err(UkonfFnError::Message("xtask: expected string".to_owned())),
    }
}

/// Calls `f` with `args`.
pub fn call_builtin_fn(f: UkonfBuiltinFn, args: &[UkonfValue]) -> (res: Result<UkonfValue, UkonfFnError>)
    ensures
        crate::ukonf::value::fn_result_view(res) == builtin_fn_spec(f, values_view(args@)),
{
    match f {
        UkonfBuiltinFn::Concat => {
            let r = ukonf_concat_strings(args);
            proof {
                lemma_concat_views(args@);
                if r is Ok {
                    lemma_value_view(r->Ok_0);
                }
            }
            r
        },
        UkonfBuiltinFn::ParentDir => {
            let r = ukonf_parent_dir(args);
            proof {
                if args@.len() == 1 {
                    lemma_value_view(args@[0]);
                }
                if r is Ok {
                    lemma_value_view(r->Ok_0);
                }
            }
            r
        },
        UkonfBuiltinFn::WinPath => ukonf_win_path(args),
        UkonfBuiltinFn::Xtask => ukonf_xtask(args),
        UkonfBuiltinFn::Lang => crate::xtask::langmap::call_lang(args),
    }
}

/// How a computation that may fail or never return ends.
pub enum Step<T> {
    Done(T),
    Failed(FnErrorView),
    Diverges,
}

/// The content of what a function or compiler returned.
pub open spec fn result_step(r: Result<UkonfValue, UkonfFnError>) -> Step<ValueView> {
    match r {
        Ok(v) => Step::Done(value_view(v)),
        Err(e) => Step::Failed(fn_error_view(e)),
    }
}

/// The entries of the `run` object of `v`, where `v` is an object whose
/// `run` entry is an object: what the xtask compiler checks first.
pub open spec fn xtask_run_entries(v: ValueView) -> Result<Seq<(Seq<char>, ValueView)>, FnErrorView> {
    match v {
        ValueView::Object(es) => match lookup_entry(es, "run"@) {
            Some(ValueView::Object(r)) => Ok(r),
            Some(_) => Err(FnErrorView::Message("xtask: expected object"@)),
            None => Err(FnErrorView::Message("xtask: expected run"@)),
        },
        _ => Err(FnErrorView::Message("xtask: expected object"@)),
    }
}

/// What the xtask compiler reads of the context variable `name`: its value
/// where it has no compiler; where it has one (the xtask compiler, the only
/// one), that compiler runs on it within this one, and either fails at its
/// first checks or reads the same variable again, without end.
pub open spec fn xtask_cx_read_spec(frames: Seq<Seq<(Seq<char>, crate::ukonf::runner::VarView)>>, name: Seq<char>) -> Option<
    Step<ValueView>,
> {
    match cx_var_spec(frames, name) {
        None => None,
        Some(v) => Some(
            match v.compiler {
                None => Step::Done(v.value),
                Some(_) => match xtask_run_entries(v.value) {
                    Err(e) => Step::Failed(e),
                    Ok(_) => Step::Diverges,
                },
            },
        ),
    }
}

/// A boolean context variable as the xtask compiler reads it; false where
/// there is none.
pub open spec fn xtask_cx_flag_spec(frames: Seq<Seq<(Seq<char>, crate::ukonf::runner::VarView)>>, name: Seq<char>) -> Step<bool> {
    match xtask_cx_read_spec(frames, name) {
        None => Step::Done(false),
        Some(Step::Done(ValueView::Bool(b))) => Step::Done(b),
        Some(Step::Done(v)) => Step::Failed(FnErrorView::Value(ExpectedKind::Bool, v)),
        Some(Step::Failed(e)) => Step::Failed(e),
        Some(Step::Diverges) => Step::Diverges,
    }
}

/// The command that runs the xtask: `cargo xtask` where `xtask_cargo_run`
/// is set; else the artifact path `xtask_artifact_path`, with the `exe`
/// extension and Windows separators where `xtask_is_win` is set.
pub open spec fn xtask_path_spec(frames: Seq<Seq<(Seq<char>, crate::ukonf::runner::VarView)>>) -> Step<Seq<char>> {
    match xtask_cx_flag_spec(frames, "xtask_cargo_run"@) {
        Step::Failed(e) => Step::Failed(e),
        Step::Diverges => Step::Diverges,
        Step::Done(true) => Step::Done("cargo xtask"@),
        Step::Done(false) => match xtask_cx_read_spec(frames, "xtask_artifact_path"@) {
            None => Step::Failed(FnErrorView::Message("xtask_path: xtask_artifact_path not found"@)),
            Some(Step::Failed(e)) => Step::Failed(e),
            Some(Step::Diverges) => Step::Diverges,
            Some(Step::Done(ValueView::Str(p))) => match xtask_cx_flag_spec(frames, "xtask_is_win"@) {
                Step::Failed(e) => Step::Failed(e),
                Step::Diverges => Step::Diverges,
                Step::Done(w) => Step::Done(
                    if w {
                        to_win_separators(path_with_extension(p, "exe"@))
                    } else {
                        p
                    },
                ),
            },
            Some(Step::Done(v)) => Step::Failed(FnErrorView::Value(ExpectedKind::String, v)),
        },
    }
}

/// The xtask compiler on `v`: `v` must be an object whose `run` entry is
/// an object with a string `xtask` entry; that `run` entry becomes the
/// command line: the xtask command, a space and the `xtask` entry.
pub open spec fn xtask_compile_spec(frames: Seq<Seq<(Seq<char>, crate::ukonf::runner::VarView)>>, v: ValueView) -> Step<ValueView> {
    match xtask_run_entries(v) {
        Err(e) => Step::Failed(e),
        Ok(r) => match xtask_path_spec(frames) {
            Step::Failed(e) => Step::Failed(e),
            Step::Diverges => Step::Diverges,
            Step::Done(p) => match lookup_entry(r, "xtask"@) {
                None => Step::Failed(FnErrorView::Message("xtask: expected xtask property"@)),
                Some(ValueView::Str(x)) => Step::Done(
                    ValueView::Object(set_entry_value(v->Object_0, "run"@, ValueView::Str(p + " "@ + x))),
                ),
                Some(_) => Step::Failed(FnErrorView::Message("xtask: expected string"@)),
            },
        },
    }
}

/// The error of the xtask compiler's first checks on `v`.
fn xtask_first_check_error(v: &UkonfValue) -> (res: UkonfFnError)
    requires
        xtask_run_entries(value_view(*v)) is Err,
    ensures
        Err::<Seq<(Seq<char>, ValueView)>, FnErrorView>(fn_error_view(res)) == xtask_run_entries(
            value_view(*v),
        ),
{
    proof {
        lemma_value_view(*v);
    }
    match v {
        UkonfValue::Object(o) => {
            proof {
                lemma_lookup_entry_view(o.entries(), "run"@);
            }
            match o.get("run") {
                Some(_) => UkonfFnError::Message("xtask: expected object".to_owned()),
                None => UkonfFnError::Message("xtask: expected run".to_owned()),
            }
        },
        _ => UkonfFnError::Message("xtask: expected object".to_owned()),
    }
}

/// Reads the context variable `name` among the first `depth` frames as the
/// xtask compiler does.
fn xtask_cx_read(scope: &Scope, depth: usize, name: &str) -> (res: Option<Result<UkonfValue, UkonfFnError>>)
    requires
        depth <= scope@.len(),
        !(xtask_cx_read_spec(scope@.take(depth as int), name@) matches Some(Step::Diverges)),
    ensures
        match xtask_cx_read_spec(scope@.take(depth as int), name@) {
            None => res is None,
            Some(st) => res matches Some(r) && result_step(r) == st,
        },
{
    match scope.cx_var(depth, name) {
        None => None,
        Some((val, comp)) => match comp {
            None => Some(Ok(val)),
            Some(_) => Some(Err(xtask_first_check_error(&val))),
        },
    }
}

/// Reads a boolean context variable as the xtask compiler does.
fn xtask_cx_flag(scope: &Scope, depth: usize, name: &str) -> (res: Result<bool, UkonfFnError>)
    requires
        depth <= scope@.len(),
        !(xtask_cx_flag_spec(scope@.take(depth as int), name@) is Diverges),
    ensures
        match xtask_cx_flag_spec(scope@.take(depth as int), name@) {
            Step::Done(b) => res == Ok::<bool, UkonfFnError>(b),
            Step::Failed(e) => res matches Err(x) && fn_error_view(x) == e,
            Step::Diverges => false,
        },
{
    match xtask_cx_read(scope, depth, name) {
        None => Ok(false),
        Some(Ok(v)) => {
            proof {
                lemma_value_view(v);
            }
            match v.expect_bool() {
                Ok(b) => Ok(b),
                Err(e) => Err(UkonfFnError::Value(e)),
            }
        },
        Some(Err(e)) => Err(e),
    }
}

/// The command that runs the xtask, read from the context variables among
/// the first `depth` frames.
pub fn ukonf_xtask_path(scope: &Scope, depth: usize) -> (res: Result<String, UkonfFnError>)
    requires
        depth <= scope@.len(),
        !(xtask_path_spec(scope@.take(depth as int)) is Diverges),
    ensures
        match xtask_path_spec(scope@.take(depth as int)) {
            Step::Done(p) => res matches Ok(r) && r@ == p,
            Step::Failed(e) => res matches Err(x) && fn_error_view(x) == e,
            Step::Diverges => false,
        },
{
    let cargo_run = match xtask_cx_flag(scope, depth, "xtask_cargo_run") {
        Ok(b) => b,
        Err(e) => {
            return Err(e);
        },
    };
    if cargo_run {
        return Ok("cargo xtask".to_owned());
    }
    let path = match xtask_cx_read(scope, depth, "xtask_artifact_path") {
        None => {
            return Err(UkonfFnError::Message("xtask_path: xtask_artifact_path not found".to_owned()));
        },
        Some(Err(e)) => {
            return Err(e);
        },
        Some(Ok(v)) => {
            proof {
                lemma_value_view(v);
            }
            match v.expect_string() {
                Ok(p) => p,
                Err(e) => {
                    return Err(UkonfFnError::Value(e));
                },
            }
        },
    };
    let is_win = match xtask_cx_flag(scope, depth, "xtask_is_win") {
        Ok(b) => b,
        Err(e) => {
            return Err(e);
        },
    };
    if is_win {
        proof {
            reveal_strlit("exe");
        }
        let with_exe = set_extension(path.as_str(), "exe");
        Ok(convert_path_to_win(with_exe.as_str()))
    } else {
        Ok(path)
    }
}

/// The xtask compiler on `v`, with the context variables among the first
/// `depth` frames.
pub fn xtask_compile(scope: &Scope, depth: usize, v: UkonfValue) -> (res: Result<UkonfValue, UkonfFnError>)
    requires
        depth <= scope@.len(),
        !(xtask_compile_spec(scope@.take(depth as int), value_view(v)) is Diverges),
    ensures
        result_step(res) == xtask_compile_spec(scope@.take(depth as int), value_view(v)),
{
    proof {
        lemma_value_view(v);
    }
    let mut obj = match v {
        UkonfValue::Object(o) => o,
        _ => {
            return Err(UkonfFnError::Message("xtask: expected object".to_owned()));
        },
    };
    let ghost es = obj.entries();
    proof {
        lemma_lookup_entry_view(es, "run"@);
    }
    let run = match obj.replace_value("run", UkonfValue::Null) {
        Some(r) => r,
        None => {
            return Err(UkonfFnError::Message("xtask: expected run".to_owned()));
        },
    };
    proof {
        lemma_value_view(run);
    }
    let r = match run {
        UkonfValue::Object(r) => r,
        _ => {
            return Err(UkonfFnError::Message("xtask: expected object".to_owned()));
        },
    };
    let path = match ukonf_xtask_path(scope, depth) {
        Ok(p) => p,
        Err(e) => {
            return Err(e);
        },
    };
    proof {
        lemma_lookup_entry_view(r.entries(), "xtask"@);
    }
    let x = match r.get("xtask") {
        Some(xv) => {
            proof {
                lemma_value_view(*xv);
            }
            match xv.as_string() {
                Some(s) => s,
                None => {
                    return Err(UkonfFnError::Message("xtask: expected string".to_owned()));
                },
            }
        },
        None => {
            return Err(UkonfFnError::Message("xtask: expected xtask property".to_owned()));
        },
    };
    let mut line = path;
    push_str(&mut line, " ");
    push_str(&mut line, x.as_str());
    let ghost lv = line@;
    let _ = obj.replace_value("run", UkonfValue::Str(line));
    proof {
        let k = "run"@;
        assert(set_entry_value(set_entry_value(es, k, UkonfValue::Null), k, UkonfValue::Str(line)) =~= set_entry_value(
            es,
            k,
            UkonfValue::Str(line),
        ));
        lemma_set_entry_value_view(es, k, UkonfValue::Str(line));
        lemma_value_view(UkonfValue::Str(line));
        lemma_value_view(UkonfValue::Object(obj));
    }
    Ok(UkonfValue::Object(obj))
}

/// Makes `concat` callable.
pub fn add_concat(fns: &mut UkonfFunctions)
    ensures
        final(fns)@.functions == old(fns)@.functions.push(("concat"@, UkonfBuiltinFn::Concat)),
        final(fns)@.compilers == old(fns)@.compilers,
{
    fns.add_fn("concat".to_owned(), UkonfBuiltinFn::Concat);
}

/// Makes `parent_dir` callable.
pub fn add_parent_dir(fns: &mut UkonfFunctions)
    ensures
        final(fns)@.functions == old(fns)@.functions.push(("parent_dir"@, UkonfBuiltinFn::ParentDir)),
        final(fns)@.compilers == old(fns)@.compilers,
{
    fns.add_fn("parent_dir".to_owned(), UkonfBuiltinFn::ParentDir);
}

/// Makes `win_path` callable.
pub fn ukonf_add_win_path(fns: &mut UkonfFunctions)
    ensures
        final(fns)@.functions == old(fns)@.functions.push(("win_path"@, UkonfBuiltinFn::WinPath)),
        final(fns)@.compilers == old(fns)@.compilers,
{
    fns.add_fn("win_path".to_owned(), UkonfBuiltinFn::WinPath);
}

/// Makes `xtask` callable, and a compiler.
pub fn ukonf_add_xtask(fns: &mut UkonfFunctions)
    ensures
        final(fns)@.functions == old(fns)@.functions.push(("xtask"@, UkonfBuiltinFn::Xtask)),
        final(fns)@.compilers == old(fns)@.compilers.push(("xtask"@, UkonfBuiltinCompiler::Xtask)),
{
    fns.add_fn("xtask".to_owned(), UkonfBuiltinFn::Xtask);
    fns.add_compiler_fn("xtask".to_owned(), UkonfBuiltinCompiler::Xtask);
}

/// The functions of every workspace program: `concat` and `parent_dir`.
pub fn ukonf_normal_functions() -> (res: UkonfFunctions)
    ensures
        res@.functions == seq![("concat"@, UkonfBuiltinFn::Concat), ("parent_dir"@, UkonfBuiltinFn::ParentDir)],
        res@.compilers == Seq::<(Seq<char>, UkonfBuiltinCompiler)>::empty(),
{
    let mut fns = UkonfFunctions::new();
    add_concat(&mut fns);
    add_parent_dir(&mut fns);
    proof {
        assert(fns@.functions =~= seq![("concat"@, UkonfBuiltinFn::Concat), ("parent_dir"@, UkonfBuiltinFn::ParentDir)]);
    }
    fns
}

/// The functions of the CI programs: those of every program, and `xtask`.
pub fn ukonf_ci_functions() -> (res: UkonfFunctions)
    ensures
        res@.functions == seq![
            ("concat"@, UkonfBuiltinFn::Concat),
            ("parent_dir"@, UkonfBuiltinFn::ParentDir),
            ("xtask"@, UkonfBuiltinFn::Xtask),
        ],
        res@.compilers == seq![("xtask"@, UkonfBuiltinCompiler::Xtask)],
{
    let mut fns = ukonf_normal_functions();
    ukonf_add_xtask(&mut fns);
    proof {
        assert(fns@.functions =~= seq![
            ("concat"@, UkonfBuiltinFn::Concat),
            ("parent_dir"@, UkonfBuiltinFn::ParentDir),
            ("xtask"@, UkonfBuiltinFn::Xtask),
        ]);
        assert(fns@.compilers =~= seq![("xtask"@, UkonfBuiltinCompiler::Xtask)]);
    }
    fns
}

} // verus!
