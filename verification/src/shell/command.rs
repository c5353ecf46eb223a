//! The commands of the shell and their parsed forms.

use vstd::prelude::*;

use super::span::Spanned;
use crate::text::str_eq;

verus! {

/// The commands the shell knows.
#[derive(Debug, PartialEq, Eq, Clone, Copy)]
pub enum UshCommand {
    Cd,
    Ls,
    Pwd,
    Echo,
    Exit,
    Login,
    CreateUser,
    CreateRepo,
    Clone,
    HttpUrl,
    GitUrl,
    SshUrl,
    Url,
    UploadSshKey,
    ListUsers,
}

/// The command names, in declaration order.
pub open spec fn command_names() -> Seq<Seq<char>> {
    seq![
        "cd"@,
        "ls"@,
        "pwd"@,
        "echo"@,
        "exit"@,
        "login"@,
        "create-user"@,
        "create-repo"@,
        "clone"@,
        "http-url"@,
        "git-url"@,
        "ssh-url"@,
        "url"@,
        "upload-ssh-key"@,
        "list-users"@,
    ]
}

/// The command named `name`.
pub open spec fn command_of(name: Seq<char>) -> Option<UshCommand> {
    if name == "cd"@ {
        Some(UshCommand::Cd)
    } else if name == "ls"@ {
        Some(UshCommand::Ls)
    } else if name == "pwd"@ {
        Some(UshCommand::Pwd)
    } else if name == "echo"@ {
        Some(UshCommand::Echo)
    } else if name == "exit"@ {
        Some(UshCommand::Exit)
    } else if name == "login"@ {
        Some(UshCommand::Login)
    } else if name == "create-user"@ {
        Some(UshCommand::CreateUser)
    } else if name == "create-repo"@ {
        Some(UshCommand::CreateRepo)
    } else if name == "clone"@ {
        Some(UshCommand::Clone)
    } else if name == "http-url"@ {
        Some(UshCommand::HttpUrl)
    } else if name == "git-url"@ {
        Some(UshCommand::GitUrl)
    } else if name == "ssh-url"@ {
        Some(UshCommand::SshUrl)
    } else if name == "url"@ {
        Some(UshCommand::Url)
    } else if name == "upload-ssh-key"@ {
        Some(UshCommand::UploadSshKey)
    } else if name == "list-users"@ {
        Some(UshCommand::ListUsers)
    } else {
        None
    }
}

/// The command names that start with `prefix`, in declaration order.
pub open spec fn names_with_prefix(prefix: Seq<char>) -> Seq<Seq<char>> {
    command_names().filter(|n: Seq<char>| prefix.is_prefix_of(n))
}

/// Whether `p` is a prefix of `s`.
pub fn chars_prefix_of(p: &[char], s: &[char]) -> (res: bool)
    ensures
        res == p@.is_prefix_of(s@),
{
    if p.len() > s.len() {
        return false;
    }
    let mut i: usize = 0;
    while i < p.len()
        invariant
            i <= p@.len() <= s@.len(),
            forall|j: int| 0 <= j < i ==> p@[j] == s@[j],
        decreases p@.len() - i,
    {
        if p[i] != s[i] {
            return false;
        }
        i = i + 1;
    }
    proof {
        assert(p@ =~= s@.take(p@.len() as int));
    }
    true
}

impl UshCommand {
    /// The command called `name`.
    pub fn get(name: &str) -> (res: Option<UshCommand>)
        ensures
            res == command_of(name@),
    {
        if str_eq(name, "cd") {
            Some(UshCommand::Cd)
        } else if str_eq(name, "ls") {
            Some(UshCommand::Ls)
        } else if str_eq(name, "pwd") {
            Some(UshCommand::Pwd)
        } else if str_eq(name, "echo") {
            Some(UshCommand::Echo)
        } else if str_eq(name, "exit") {
            Some(UshCommand::Exit)
        } else if str_eq(name, "login") {
            Some(UshCommand::Login)
        } else if str_eq(name, "create-user") {
            Some(UshCommand::CreateUser)
        } else if str_eq(name, "create-repo") {
            Some(UshCommand::CreateRepo)
        } else if str_eq(name, "clone") {
            Some(UshCommand::Clone)
        } else if str_eq(name, "http-url") {
            Some(UshCommand::HttpUrl)
        } else if str_eq(name, "git-url") {
            Some(UshCommand::GitUrl)
        } else if str_eq(name, "ssh-url") {
            Some(UshCommand::SshUrl)
        } else if str_eq(name, "url") {
            Some(UshCommand::Url)
        } else if str_eq(name, "upload-ssh-key") {
            Some(UshCommand::UploadSshKey)
        } else if str_eq(name, "list-users") {
            Some(UshCommand::ListUsers)
        } else {
            None
        }
    }

    /// All command names, in declaration order.
    pub fn get_all_for_empty() -> (res: Vec<&'static str>)
        ensures
            res@.map_values(|s: &'static str| s@) == command_names(),
    {
        let res = vec![
            "cd",
            "ls",
            "pwd",
            "echo",
            "exit",
            "login",
            "create-user",
            "create-repo",
            "clone",
            "http-url",
            "git-url",
            "ssh-url",
            "url",
            "upload-ssh-key",
            "list-users",
        ];
        proof {
            assert(res@.map_values(|s: &'static str| s@) =~= command_names());
        }
        res
    }

    /// The command names that start with `name`, in declaration order.
    pub fn get_for_prefix(name: &str) -> (res: Vec<&'static str>)
        ensures
            res@.map_values(|s: &'static str| s@) == names_with_prefix(name@),
    {
        let all = Self::get_all_for_empty();
        let p = crate::text::chars_of(name);
        let mut matches: Vec<&'static str> = Vec::new();
        let ghost names = command_names();
        let ghost pred = |n: Seq<char>| name@.is_prefix_of(n);
        let mut i: usize = 0;
        while i < all.len()
            invariant
                i <= all@.len(),
                p@ == name@,
                all@.map_values(|s: &'static str| s@) == names,
                names == command_names(),
                pred == (|n: Seq<char>| name@.is_prefix_of(n)),
                matches@.map_values(|s: &'static str| s@) == names.take(i as int).filter(pred),
            decreases all@.len() - i,
        {
            let n = all[i];
            let nc = crate::text::chars_of(n);
            let ghost before = matches@;
            proof {
                assert(names.take(i + 1).drop_last() =~= names.take(i as int));
                assert(names[i as int] == n@);
                reveal_with_fuel(Seq::filter, 1);
            }
            if chars_prefix_of(p.as_slice(), nc.as_slice()) {
                matches.push(n);
                proof {
                    assert(matches@.map_values(|s: &'static str| s@) =~= before.map_values(
                        |s: &'static str| s@,
                    ).push(n@));
                }
            }
            i = i + 1;
        }
        proof {
            assert(names.take(all@.len() as int) =~= names);
        }
        matches
    }
}

/// The name under which a command was invoked.
#[derive(Debug, PartialEq, Eq, Clone)]
pub struct CommandName(pub String);

/// A filesystem path given to a command.
#[derive(Debug, PartialEq, Eq, Clone)]
pub struct UshPath(pub String);

/// A user name given to a command.
#[derive(Debug, PartialEq, Eq, Clone, Hash)]
pub struct Username(pub String);

impl View for CommandName {
    type V = Seq<char>;

    open spec fn view(&self) -> Seq<char> {
        self.0@
    }
}

impl View for UshPath {
    type V = Seq<char>;

    open spec fn view(&self) -> Seq<char> {
        self.0@
    }
}

impl View for Username {
    type V = Seq<char>;

    open spec fn view(&self) -> Seq<char> {
        self.0@
    }
}

impl From<String> for UshPath {
    fn from(value: String) -> (res: Self) {
        UshPath(value)
    }
}

impl vstd::std_specs::convert::FromSpecImpl<String> for UshPath {
    open spec fn obeys_from_spec() -> bool {
        true
    }

    open spec fn from_spec(v: String) -> UshPath {
        UshPath(v)
    }
}

impl UshPath {
    /// The path with text `path`.
    pub fn new(path: &str) -> (res: Self)
        ensures
            res@ == path@,
    {
        UshPath(path.to_owned())
    }

    /// The text of the path.
    pub fn deref_path(&self) -> (res: &str)
        ensures
            res@ == self@,
    {
        self.0.as_str()
    }
}

impl Username {
    /// The text of the user name.
    pub fn to_string(&self) -> (res: String)
        ensures
            res@ == self@,
    {
        self.0.clone()
    }
}

#[derive(Debug, PartialEq, Eq, Clone)]
pub struct UshCdCommand {
    pub command_name: Spanned<CommandName>,
    pub path: Option<Spanned<UshPath>>,
}

#[derive(Debug, PartialEq, Eq, Clone)]
pub struct UshLsCommand {
    pub command_name: Spanned<CommandName>,
    pub path: Option<Spanned<UshPath>>,
}

#[derive(Debug, PartialEq, Eq, Clone)]
pub struct UshPwdCommand {
    pub command_name: Spanned<CommandName>,
}

#[derive(Debug, PartialEq, Eq, Clone)]
pub struct UshEchoCommand {
    pub command_name: Spanned<CommandName>,
    pub args: Vec<Spanned<String>>,
}

#[derive(Debug, PartialEq, Eq, Clone)]
pub struct UshExitCommand {
    pub command_name: Spanned<CommandName>,
    pub exit_code: Option<Spanned<i32>>,
}

#[derive(Debug, PartialEq, Eq, Clone)]
pub struct UshLoginCommand {
    pub command_name: Spanned<CommandName>,
    pub username: Spanned<Username>,
    pub password: Spanned<String>,
}

#[derive(Debug, PartialEq, Eq, Clone)]
pub struct UshCreateUserCommand {
    pub command_name: Spanned<CommandName>,
    pub username: Spanned<Username>,
    pub password: Spanned<String>,
    pub email: Spanned<String>,
}

#[derive(Debug, PartialEq, Eq, Clone)]
pub struct UshCreateRepoCommand {
    pub command_name: Spanned<CommandName>,
    pub repo_name: Spanned<String>,
}

/// The protocols through which a repository can be accessed.
#[derive(Debug, PartialEq, Eq, Clone, Copy)]
pub enum UshRepoAccessProtocol {
    Git,
    Http,
    Ssh,
}

#[derive(Debug, PartialEq, Eq, Clone)]
pub struct UshCloneCommand {
    pub command_name: Spanned<CommandName>,
    pub repo_path: Spanned<String>,
    pub arg_to: Option<Spanned<UshPath>>,
    pub to: UshPath,
    pub access_protocol: UshRepoAccessProtocol,
    pub access_protocol_flag: Option<Spanned<String>>,
}

#[derive(Debug, PartialEq, Eq, Clone)]
pub struct UshHttpUrlCommand {
    pub command_name: Spanned<CommandName>,
    pub repo_path: Spanned<String>,
}

#[derive(Debug, PartialEq, Eq, Clone)]
pub struct UshGitUrlCommand {
    pub command_name: Spanned<CommandName>,
    pub repo_path: Spanned<String>,
}

#[derive(Debug, PartialEq, Eq, Clone)]
pub struct UshSshUrlCommand {
    pub command_name: Spanned<CommandName>,
    pub repo_path: Spanned<String>,
}

#[derive(Debug, PartialEq, Eq, Clone)]
pub struct UshUrlCommand {
    pub command_name: Spanned<CommandName>,
    pub repo_path: Spanned<String>,
    pub protocol: UshRepoAccessProtocol,
    pub protocol_flag: Option<Spanned<String>>,
}

#[derive(Debug, PartialEq, Eq, Clone)]
pub struct UshUploadSshKeyCommand {
    pub command_name: Spanned<CommandName>,
    pub key: Spanned<UshPath>,
}

#[derive(Debug, PartialEq, Eq, Clone)]
pub struct UshListUsersCommand {
    pub command_name: Spanned<CommandName>,
}

/// A parsed command line.
#[derive(Debug, PartialEq, Eq, Clone)]
pub enum UshParsedCommand {
    Cd(UshCdCommand),
    Ls(UshLsCommand),
    Pwd(UshPwdCommand),
    Echo(UshEchoCommand),
    Exit(UshExitCommand),
    Login(UshLoginCommand),
    CreateUser(UshCreateUserCommand),
    CreateRepo(UshCreateRepoCommand),
    Clone(UshCloneCommand),
    HttpUrl(UshHttpUrlCommand),
    GitUrl(UshGitUrlCommand),
    SshUrl(UshSshUrlCommand),
    Url(UshUrlCommand),
    UploadSshKey(UshUploadSshKeyCommand),
    ListUsers(UshListUsersCommand),
}

/// Text together with its span.
pub type SpannedText = Spanned<Seq<char>>;

/// The mathematical content of a [`UshParsedCommand`]; the first field of
/// each variant is the command name.
pub enum ParsedView {
    Cd(SpannedText, Option<SpannedText>),
    Ls(SpannedText, Option<SpannedText>),
    Pwd(SpannedText),
    Echo(SpannedText, Seq<SpannedText>),
    Exit(SpannedText, Option<Spanned<i32>>),
    Login(SpannedText, SpannedText, SpannedText),
    CreateUser(SpannedText, SpannedText, SpannedText, SpannedText),
    CreateRepo(SpannedText, SpannedText),
    /// Name, repository path, `to:` argument, target directory, protocol and
    /// the protocol flag given.
    Clone(
        SpannedText,
        SpannedText,
        Option<SpannedText>,
        Seq<char>,
        UshRepoAccessProtocol,
        Option<SpannedText>,
    ),
    HttpUrl(SpannedText, SpannedText),
    GitUrl(SpannedText, SpannedText),
    SshUrl(SpannedText, SpannedText),
    Url(SpannedText, SpannedText, UshRepoAccessProtocol, Option<SpannedText>),
    UploadSshKey(SpannedText, SpannedText),
    ListUsers(SpannedText),
}

pub open spec fn opt_spanned_view<T: View>(o: Option<Spanned<T>>) -> Option<Spanned<T::V>> {
    match o {
        Some(s) => Some(s@),
        None => None,
    }
}

pub open spec fn spanned_strings_view(v: Seq<Spanned<String>>) -> Seq<SpannedText> {
    v.map_values(|s: Spanned<String>| s@)
}

impl View for UshParsedCommand {
    type V = ParsedView;

    open spec fn view(&self) -> ParsedView {
        match self {
            UshParsedCommand::Cd(c) => ParsedView::Cd(c.command_name@, opt_spanned_view(c.path)),
            UshParsedCommand::Ls(c) => ParsedView::Ls(c.command_name@, opt_spanned_view(c.path)),
            UshParsedCommand::Pwd(c) => ParsedView::Pwd(c.command_name@),
            UshParsedCommand::Echo(c) => ParsedView::Echo(
                c.command_name@,
                spanned_strings_view(c.args@),
            ),
            UshParsedCommand::Exit(c) => ParsedView::Exit(c.command_name@, c.exit_code),
            UshParsedCommand::Login(c) => ParsedView::Login(
                c.command_name@,
                c.username@,
                c.password@,
            ),
            UshParsedCommand::CreateUser(c) => ParsedView::CreateUser(
                c.command_name@,
                c.username@,
                c.password@,
                c.email@,
            ),
            UshParsedCommand::CreateRepo(c) => ParsedView::CreateRepo(
                c.command_name@,
                c.repo_name@,
            ),
            UshParsedCommand::Clone(c) => ParsedView::Clone(
                c.command_name@,
                c.repo_path@,
                opt_spanned_view(c.arg_to),
                c.to@,
                c.access_protocol,
                opt_spanned_view(c.access_protocol_flag),
            ),
            UshParsedCommand::HttpUrl(c) => ParsedView::HttpUrl(c.command_name@, c.repo_path@),
            UshParsedCommand::GitUrl(c) => ParsedView::GitUrl(c.command_name@, c.repo_path@),
            UshParsedCommand::SshUrl(c) => ParsedView::SshUrl(c.command_name@, c.repo_path@),
            UshParsedCommand::Url(c) => ParsedView::Url(
                c.command_name@,
                c.repo_path@,
                c.protocol,
                opt_spanned_view(c.protocol_flag),
            ),
            UshParsedCommand::UploadSshKey(c) => ParsedView::UploadSshKey(
                c.command_name@,
                c.key@,
            ),
            UshParsedCommand::ListUsers(c) => ParsedView::ListUsers(c.command_name@),
        }
    }
}

} // verus!
