//! Configuration of the integration-test context: the ports, protocols and
//! server configuration a test asks for, and where it works.

use vstd::prelude::*;

use crate::paths::{joined_path, path_join};
use crate::shell::url::{decimal, decimal_chars};
use crate::text::string_of;

verus! {

/// A user name in the test server.
#[derive(Debug, Clone, PartialEq, Eq, Hash, PartialOrd, Ord)]
pub struct Username(pub String);

impl From<String> for Username {
    fn from(value: String) -> (res: Self) {
        Username(value)
    }
}

impl vstd::std_specs::convert::FromSpecImpl<String> for Username {
    open spec fn obeys_from_spec() -> bool {
        true
    }

    open spec fn from_spec(v: String) -> Username {
        Username(v)
    }
}

/// A session token of the test server.
#[derive(Debug, Clone)]
pub struct Token(pub String);

/// An object the server answers with, by its id.
#[derive(Debug, Clone, PartialEq, Eq)]
pub struct IdHolder {
    pub id: String,
}

/// How a test adjusts its configuration before it runs: the ports,
/// protocols and server configuration it asks for.
pub trait ConfigInit {
    /// That `after` is what `init` makes of `before`.
    spec fn initializes(&self, before: TestCxView, after: TestCxView) -> bool;

    fn init(&self, cfg: &mut TestCxConfig)
        ensures
            self.initializes(old(cfg)@, final(cfg)@),
    ;
}

/// The initializer that leaves the configuration as it was created.
#[derive(Debug, Clone, Copy)]
pub struct KeepConfig;

impl ConfigInit for KeepConfig {
    open spec fn initializes(&self, before: TestCxView, after: TestCxView) -> bool {
        after == before
    }

    fn init(&self, cfg: &mut TestCxConfig) {
    }
}

/// What the test harness knows of a test before it runs.
#[derive(Debug, Clone)]
pub struct CxConfigVars<I: ConfigInit> {
    pub workdir: String,
    pub upsilon_web_bin: String,
    pub gracefully_shutdown_host_bin: String,
    pub crate_name: &'static str,
    pub pkg_name: &'static str,
    pub bin_name: Option<&'static str>,
    pub bin_path: String,
    pub test_name: &'static str,
    pub source_file_path_hash: u64,
    pub works_offline: bool,
    pub config_init: I,
}

/// The configuration of a test context.
#[derive(Debug, Clone)]
pub struct TestCxConfig {
    port: u16,
    git_daemon_port: u16,
    git_ssh_port: u16,
    config: String,
    tempdir: String,
    upsilon_web_bin: String,
    gracefully_shutdown_host_bin: String,
    source_file_path_hash: u64,
    crate_name: &'static str,
    pkg_name: &'static str,
    bin_name: Option<&'static str>,
    bin_path: String,
    test_name: &'static str,
    works_offline: bool,
    has_git_protocol: bool,
    has_ssh_protocol: bool,
}

/// The settings of a test context that a test can change.
pub struct TestCxSettings {
    pub port: u16,
    pub git_daemon_port: u16,
    pub git_ssh_port: u16,
    pub config: Seq<char>,
    pub has_git_protocol: bool,
    pub has_ssh_protocol: bool,
}

/// A test context's configuration as plain values.
pub struct TestCxView {
    pub settings: TestCxSettings,
    pub tempdir: Seq<char>,
    pub upsilon_web_bin: Seq<char>,
    pub gracefully_shutdown_host_bin: Seq<char>,
    pub source_file_path_hash: u64,
    pub crate_name: Seq<char>,
    pub pkg_name: Seq<char>,
    pub bin_name: Option<Seq<char>>,
    pub bin_path: Seq<char>,
    pub test_name: Seq<char>,
    pub works_offline: bool,
}

/// The text of an optional name.
pub open spec fn optional_text(s: Option<&'static str>) -> Option<Seq<char>> {
    match s {
        Some(t) => Some(t@),
        None => None,
    }
}

impl View for TestCxConfig {
    type V = TestCxView;

    closed spec fn view(&self) -> TestCxView {
        TestCxView {
            settings: TestCxSettings {
                port: self.port,
                git_daemon_port: self.git_daemon_port,
                git_ssh_port: self.git_ssh_port,
                config: self.config@,
                has_git_protocol: self.has_git_protocol,
                has_ssh_protocol: self.has_ssh_protocol,
            },
            tempdir: self.tempdir@,
            upsilon_web_bin: self.upsilon_web_bin@,
            gracefully_shutdown_host_bin: self.gracefully_shutdown_host_bin@,
            source_file_path_hash: self.source_file_path_hash,
            crate_name: self.crate_name@,
            pkg_name: self.pkg_name@,
            bin_name: optional_text(self.bin_name),
            bin_path: self.bin_path@,
            test_name: self.test_name@,
            works_offline: self.works_offline,
        }
    }
}

/// The configuration of a test before its initializer runs: the directory,
/// binaries, names and hash that the harness gives, no ports chosen (0), an
/// empty server configuration, and neither the git nor the SSH protocol.
pub open spec fn initial_config<I: ConfigInit>(vars: &CxConfigVars<I>) -> TestCxView {
    TestCxView {
        settings: TestCxSettings {
            port: 0,
            git_daemon_port: 0,
            git_ssh_port: 0,
            config: Seq::empty(),
            has_git_protocol: false,
            has_ssh_protocol: false,
        },
        tempdir: vars.workdir@,
        upsilon_web_bin: vars.upsilon_web_bin@,
        gracefully_shutdown_host_bin: vars.gracefully_shutdown_host_bin@,
        source_file_path_hash: vars.source_file_path_hash,
        crate_name: vars.crate_name@,
        pkg_name: vars.pkg_name@,
        bin_name: optional_text(vars.bin_name),
        bin_path: vars.bin_path@,
        test_name: vars.test_name@,
        works_offline: vars.works_offline,
    }
}

impl TestCxConfig {
    /// The configuration of a test: the initial configuration, as the
    /// test's initializer leaves it.
    pub fn new<I: ConfigInit>(vars: &CxConfigVars<I>) -> (res: Self)
        ensures
            vars.config_init.initializes(initial_config(vars), res@),
    {
        let mut res = TestCxConfig {
            port: 0,
            git_daemon_port: 0,
            git_ssh_port: 0,
            config: String::new(),
            tempdir: vars.workdir.clone(),
            upsilon_web_bin: vars.upsilon_web_bin.clone(),
            gracefully_shutdown_host_bin: vars.gracefully_shutdown_host_bin.clone(),
            source_file_path_hash: vars.source_file_path_hash,
            crate_name: vars.crate_name,
            pkg_name: vars.pkg_name,
            bin_name: vars.bin_name,
            bin_path: vars.bin_path.clone(),
            test_name: vars.test_name,
            works_offline: vars.works_offline,
            has_git_protocol: false,
            has_ssh_protocol: false,
        };
        proof {
            assert(res@.settings.config =~= Seq::<char>::empty());
            assert(res@ == initial_config(vars));
        }
        vars.config_init.init(&mut res);
        res
    }

    /// Sets the port of the web server.
    pub fn with_port(&mut self, port: u16) -> (res: &mut Self)
        ensures
            res@ == (TestCxView { settings: TestCxSettings { port, ..old(self)@.settings }, ..old(self)@ }),
            *final(self) == *final(res),
    {
        self.port = port;
        self
    }

    /// Sets the port of the git daemon.
    pub fn with_git_daemon_port(&mut self, port: u16) -> (res: &mut Self)
        ensures
            res@ == (TestCxView {
                settings: TestCxSettings { git_daemon_port: port, ..old(self)@.settings },
                ..old(self)@
            }),
            *final(self) == *final(res),
    {
        self.git_daemon_port = port;
        self
    }

    /// Turns the git protocol on.
    pub fn with_git_protocol(&mut self) -> (res: &mut Self)
        ensures
            res@ == (TestCxView {
                settings: TestCxSettings { has_git_protocol: true, ..old(self)@.settings },
                ..old(self)@
            }),
            *final(self) == *final(res),
    {
        self.has_git_protocol = true;
        self
    }

    /// Sets the port of the git SSH server.
    pub fn with_git_ssh_port(&mut self, port: u16) -> (res: &mut Self)
        ensures
            res@ == (TestCxView {
                settings: TestCxSettings { git_ssh_port: port, ..old(self)@.settings },
                ..old(self)@
            }),
            *final(self) == *final(res),
    {
        self.git_ssh_port = port;
        self
    }

    /// Turns the SSH protocol on.
    pub fn with_ssh_protocol(&mut self) -> (res: &mut Self)
        ensures
            res@ == (TestCxView {
                settings: TestCxSettings { has_ssh_protocol: true, ..old(self)@.settings },
                ..old(self)@
            }),
            *final(self) == *final(res),
    {
        self.has_ssh_protocol = true;
        self
    }

    /// Sets the server configuration.
    pub fn with_config(&mut self, config: &str) -> (res: &mut Self)
        ensures
            res@ == (TestCxView {
                settings: TestCxSettings { config: config@, ..old(self)@.settings },
                ..old(self)@
            }),
            *final(self) == *final(res),
    {
        self.config = config.to_owned();
        self
    }

    /// The directory of the test: the test name, under the hash of its
    /// source file, under the temporary directory.
    pub fn workdir(&self) -> (res: String)
        ensures
            res@ == joined_path(
                joined_path(self@.tempdir, decimal(self@.source_file_path_hash as nat)),
                self@.test_name,
            ),
    {
        let hash = decimal_chars(self.source_file_path_hash);
        let hash = string_of(hash.as_slice());
        let p = path_join(self.tempdir.as_str(), hash.as_str());
        path_join(p.as_str(), self.test_name)
    }
}

/// Prepares the process for a test; coverage collection for test-impact
/// analysis hooks in here when it is built in.
pub fn pre_init_test() {
}

} // verus!
