//! What the `upsilon_test` attribute reads from a test function: the
//! attributes that set how the test runs, and the kinds of its parameters.

use vstd::prelude::*;

use crate::text::str_eq;

verus! {

/// An attribute on a test function that sets how the test runs.
#[derive(Debug, Clone, PartialEq, Eq)]
pub enum TestFnAttr {
    /// `#[offline]`, or `#[offline(ident)]` with the identifier.
    Offline(Option<String>),
    /// `#[git_daemon]`: the test needs the git daemon.
    GitDaemon,
    /// `#[git_ssh]`: the test needs the SSH server.
    GitSsh,
    /// `#[test_attr(meta)]`: an attribute to put on the test, as written.
    TestAttr(String),
}

/// The configuration the test's server starts from.
#[derive(Debug, Clone, Copy, PartialEq, Eq)]
pub enum TestConfigInit {
    Basic,
    WithGitDaemon,
    WithSsh,
}

/// An attribute the expanded test carries.
#[derive(Debug, Clone, PartialEq, Eq)]
pub enum ExtraTestAttr {
    /// Ignored on Windows in CI, where the git daemon is unreliable.
    GitDaemonIgnoredOnWindowsCi,
    /// Ignored on Windows, which lacks git-shell.
    GitSshIgnoredOnWindows,
    /// An attribute the test asked for.
    Custom(String),
    /// Ignored when the tests run offline.
    IgnoredOffline,
}

/// How the test runs.
#[derive(Debug, Clone, PartialEq, Eq)]
pub struct TestOptions {
    pub works_offline: bool,
    pub config_init: TestConfigInit,
    pub extra_attrs: Vec<ExtraTestAttr>,
}

/// Why the attributes of a test function were refused.
#[derive(Debug, Clone, PartialEq, Eq)]
pub enum TestAttrError {
    /// `#[offline(x)]` with `x` neither `ignore` nor `run`.
    BadOfflineValue(String),
    /// More than one `#[offline]`.
    MultipleOffline,
}

impl TestAttrError {
    /// The message of the error.
    pub fn message(&self) -> (res: &'static str)
        ensures
            res@ == match *self {
                TestAttrError::BadOfflineValue(_) => "Should be `ignore` or `run`"@,
                TestAttrError::MultipleOffline => "Multiple #[offline] attributes"@,
            },
    {
        match self {
            TestAttrError::BadOfflineValue(_) => "Should be `ignore` or `run`",
            TestAttrError::MultipleOffline => "Multiple #[offline] attributes",
        }
    }
}

/// Where reading the attributes stands: whether `#[offline]` was seen and
/// what it said, the configuration, and the attributes gathered.
pub struct AttrScan {
    pub offline: Option<bool>,
    pub config_init: TestConfigInit,
    pub extra: Seq<ExtraTestAttr>,
}

/// What an `#[offline]` attribute says: `run` (or nothing) makes the test
/// work offline, `ignore` does not; anything else is refused.
pub open spec fn offline_value(arg: Option<String>) -> Option<bool> {
    match arg {
        None => Some(true),
        Some(s) => if s@ == "ignore"@ {
            Some(false)
        } else if s@ == "run"@ {
            Some(true)
        } else {
            None
        },
    }
}

/// Reads the attributes in order; the first refused one stops it.
pub open spec fn scan_attrs(attrs: Seq<TestFnAttr>) -> Result<AttrScan, TestAttrError>
    decreases attrs.len(),
{
    if attrs.len() == 0 {
        Ok(AttrScan { offline: None, config_init: TestConfigInit::Basic, extra: Seq::empty() })
    } else {
        match scan_attrs(attrs.drop_last()) {
            Err(e) => Err(e),
            Ok(st) => match attrs.last() {
                TestFnAttr::Offline(arg) => match offline_value(arg) {
                    None => Err(TestAttrError::BadOfflineValue(arg.unwrap())),
                    Some(v) => if st.offline is Some {
                        Err(TestAttrError::MultipleOffline)
                    } else {
                        Ok(AttrScan { offline: Some(v), ..st })
                    },
                },
                TestFnAttr::GitDaemon => Ok(
                    AttrScan {
                        config_init: TestConfigInit::WithGitDaemon,
                        extra: st.extra.push(ExtraTestAttr::GitDaemonIgnoredOnWindowsCi),
                        ..st
                    },
                ),
                TestFnAttr::GitSsh => Ok(
                    AttrScan {
                        config_init: TestConfigInit::WithSsh,
                        extra: st.extra.push(ExtraTestAttr::GitSshIgnoredOnWindows),
                        ..st
                    },
                ),
                TestFnAttr::TestAttr(m) => Ok(
                    AttrScan { extra: st.extra.push(ExtraTestAttr::Custom(m)), ..st },
                ),
            },
        }
    }
}

/// The options that the attributes `attrs` set: the test works offline
/// unless `#[offline(ignore)]` says otherwise (and then is ignored
/// offline), the last of `#[git_daemon]` and `#[git_ssh]` picks the
/// configuration, and the attributes follow in order.
pub open spec fn test_options_spec(attrs: Seq<TestFnAttr>) -> Result<(bool, TestConfigInit, Seq<ExtraTestAttr>), TestAttrError> {
    match scan_attrs(attrs) {
        Err(e) => Err(e),
        Ok(st) => {
            let works_offline = st.offline != Some(false);
            Ok(
                (
                    works_offline,
                    st.config_init,
                    if works_offline {
                        st.extra
                    } else {
                        st.extra.push(ExtraTestAttr::IgnoredOffline)
                    },
                ),
            )
        },
    }
}

/// How the test with the attributes `attrs` runs, or why they are refused.
pub fn test_options(attrs: &[TestFnAttr]) -> (res: Result<TestOptions, TestAttrError>)
    ensures
        match res {
            Ok(o) => test_options_spec(attrs@) == Ok::<
                (bool, TestConfigInit, Seq<ExtraTestAttr>),
                TestAttrError,
            >((o.works_offline, o.config_init, o.extra_attrs@)),
            Err(e) => test_options_spec(attrs@) == Err::<
                (bool, TestConfigInit, Seq<ExtraTestAttr>),
                TestAttrError,
            >(e),
        },
{
    let mut offline: Option<bool> = None;
    let mut config_init = TestConfigInit::Basic;
    let mut extra: Vec<ExtraTestAttr> = Vec::new();
    let mut i: usize = 0;
    proof {
        assert(attrs@.take(0) =~= Seq::<TestFnAttr>::empty());
    }
    while i < attrs.len()
        invariant
            i <= attrs@.len(),
            scan_attrs(attrs@.take(i as int)) == Ok::<AttrScan, TestAttrError>(
                AttrScan { offline, config_init, extra: extra@ },
            ),
        decreases attrs@.len() - i,
    {
        proof {
            assert(attrs@.take(i + 1).drop_last() =~= attrs@.take(i as int));
            assert(attrs@.take(i + 1).last() == attrs@[i as int]);
        }
        match &attrs[i] {
            TestFnAttr::Offline(arg) => {
                let v = match arg {
                    None => true,
                    Some(s) => {
                        if str_eq(s.as_str(), "ignore") {
                            false
                        } else if str_eq(s.as_str(), "run") {
                            true
                        } else {
                            proof {
                                assert(scan_attrs(attrs@.take(i + 1)) == Err::<AttrScan, TestAttrError>(
                                    TestAttrError::BadOfflineValue(*s),
                                ));
                                lemma_scan_err_sticks(attrs@, i as int + 1);
                                assert(attrs@.take(attrs@.len() as int) =~= attrs@);
                            }
                            return Err(TestAttrError::BadOfflineValue(s.clone()));
                        }
                    },
                };
                if offline.is_some() {
                    proof {
                        lemma_scan_err_sticks(attrs@, i as int + 1);
                        assert(attrs@.take(attrs@.len() as int) =~= attrs@);
                    }
                    return Err(TestAttrError::MultipleOffline);
                }
                offline = Some(v);
            },
            TestFnAttr::GitDaemon => {
                config_init = TestConfigInit::WithGitDaemon;
                extra.push(ExtraTestAttr::GitDaemonIgnoredOnWindowsCi);
            },
            TestFnAttr::GitSsh => {
                config_init = TestConfigInit::WithSsh;
                extra.push(ExtraTestAttr::GitSshIgnoredOnWindows);
            },
            TestFnAttr::TestAttr(m) => {
                let c = m.clone();
                proof {
                    assert(c == *m);
                }
                extra.push(ExtraTestAttr::Custom(c));
            },
        }
        i = i + 1;
    }
    proof {
        assert(attrs@.take(attrs@.len() as int) =~= attrs@);
    }
    let works_offline = match offline {
        Some(false) => false,
        _ => true,
    };
    if !works_offline {
        extra.push(ExtraTestAttr::IgnoredOffline);
    }
    Ok(TestOptions { works_offline, config_init, extra_attrs: extra })
}

/// Once reading the attributes failed, reading more fails the same way.
proof fn lemma_scan_err_sticks(attrs: Seq<TestFnAttr>, n: int)
    requires
        0 <= n <= attrs.len(),
        scan_attrs(attrs.take(n)) is Err,
    ensures
        scan_attrs(attrs) == scan_attrs(attrs.take(n)),
    decreases attrs.len() - n,
{
    if n < attrs.len() {
        assert(attrs.take(n + 1).drop_last() =~= attrs.take(n));
        lemma_scan_err_sticks(attrs, n + 1);
    } else {
        assert(attrs.take(n) =~= attrs);
    }
}

/// The type of a parameter of a test function.
#[derive(Debug, Clone, Copy, PartialEq, Eq)]
pub enum ParamKind {
    /// `&mut T`: a part of the test context.
    MutRef,
    /// `&T`.
    SharedRef,
    /// Anything else.
    Other,
}

/// Why a parameter of a test function was refused, with its position.
#[derive(Debug, Clone, Copy, PartialEq, Eq)]
pub enum ParamError {
    /// A shared reference where a mutable one is needed.
    ExpectedMutableReference(usize),
    /// Not a reference.
    ExpectedReference(usize),
}

impl ParamError {
    /// The message of the error.
    pub fn message(&self) -> (res: &'static str)
        ensures
            res@ == match *self {
                ParamError::ExpectedMutableReference(_) => "Expected a mutable reference type"@,
                ParamError::ExpectedReference(_) => "Expected a reference type"@,
            },
    {
        match self {
            ParamError::ExpectedMutableReference(_) => "Expected a mutable reference type",
            ParamError::ExpectedReference(_) => "Expected a reference type",
        }
    }
}

/// The parameters of a test function are all mutable references to parts
/// of the test context; the first that is not is refused.
pub fn check_params(params: &[ParamKind]) -> (res: Result<(), ParamError>)
    ensures
        match res {
            Ok(_) => forall|i: int| 0 <= i < params@.len() ==> #[trigger] params@[i] == ParamKind::MutRef,
            Err(ParamError::ExpectedMutableReference(i)) => i < params@.len() && params@[i as int]
                == ParamKind::SharedRef && forall|j: int|
                0 <= j < i ==> #[trigger] params@[j] == ParamKind::MutRef,
            Err(ParamError::ExpectedReference(i)) => i < params@.len() && params@[i as int]
                == ParamKind::Other && forall|j: int| 0 <= j < i ==> #[trigger] params@[j] == ParamKind::MutRef,
        },
{
    let mut i: usize = 0;
    while i < params.len()
        invariant
            i <= params@.len(),
            forall|j: int| 0 <= j < i ==> #[trigger] params@[j] == ParamKind::MutRef,
        decreases params@.len() - i,
    {
        match params[i] {
            ParamKind::MutRef => {},
            ParamKind::SharedRef => {
                return Err(ParamError::ExpectedMutableReference(i));
            },
            ParamKind::Other => {
                return Err(ParamError::ExpectedReference(i));
            },
        }
        i = i + 1;
    }
    Ok(())
}

} // verus!
