//! Parsing of shell command lines into commands.
//!
//! The first token names the command.  `cd` and `ls` take an optional path,
//! `echo` any number of values, `exit` an optional exit code; the other
//! commands take `name:value` arguments and `--flags` in any order.  Anything
//! left after a command's operands is an error.

use vstd::prelude::*;

use super::args::{
    all_lexemes_wf, kv_get, lexeme_spanned, lexeme_wf, parse_from_spec, ArgDecl, ArgDeclList,
    ArgDeclListView, ArgDeclView, ArgHint, ArgStoreView, ArgValueView, FlagDecl, FlagDeclView,
    FlagGroup, FlagGroupView, FlagValue, FlagValueView,
};
use super::command::{
    command_of, CommandName, ParsedView, SpannedText, UshCdCommand, UshCloneCommand,
    UshCommand, UshCreateRepoCommand, UshCreateUserCommand, UshEchoCommand, UshExitCommand,
    UshGitUrlCommand, UshHttpUrlCommand, UshListUsersCommand, UshLoginCommand, UshLsCommand,
    UshParsedCommand, UshPath, UshPwdCommand, UshRepoAccessProtocol, UshSshUrlCommand,
    UshUploadSshKeyCommand, UshUrlCommand, Username,
};
use super::error::{parse_i32, parse_i32_spec, IntErrorKind, ParseErrorView, UshParseError};
use super::lexer::{lex_spec, LexemeView, Token, UshCommandLexer};
use super::span::Spanned;
use crate::text::{chars_eq, chars_of, string_of};

verus! {

broadcast use {ArgDecl::lemma_spec_new_view, FlagDecl::lemma_spec_new_view};

/// A command line whose command word has been read.
pub struct UshCommandParser {
    pub(crate) lexer: UshCommandLexer,
    pub(crate) command: UshCommand,
    pub(crate) command_name: Spanned<CommandName>,
}

impl UshCommandParser {
    /// The tokens after the command word still to be read.
    pub open(crate) spec fn remaining(&self) -> Seq<LexemeView> {
        self.lexer@
    }

    /// The command that was read.
    pub open(crate) spec fn command_kind(&self) -> UshCommand {
        self.command
    }

    /// The command word that was read.
    pub open(crate) spec fn name_view(&self) -> Spanned<Seq<char>> {
        self.command_name@
    }
}

/// A required, non-empty argument without default or hint.
pub open spec fn plain_arg(name: Seq<char>) -> ArgDeclView {
    ArgDeclView { name, required: true, default: None, allow_empty: false, hint: ArgHint::Plain }
}

pub open spec fn plain_flag(name: Seq<char>) -> FlagDeclView {
    FlagDeclView { name, negative_prefix: None, default: None }
}

/// `--git`, `--ssh` or `--http`, required, `http` by default.
pub open spec fn proto_group_view() -> FlagGroupView {
    FlagGroupView {
        group_name: "protocol"@,
        flags: seq![plain_flag("git"@), plain_flag("ssh"@), plain_flag("http"@)],
        required: true,
        default: Some("http"@),
    }
}

pub open spec fn decls_of(args: Seq<ArgDeclView>, groups: Seq<FlagGroupView>) -> ArgDeclListView {
    ArgDeclListView { args, flags: Seq::empty(), flag_groups: groups }
}

pub open spec fn login_decls() -> ArgDeclListView {
    decls_of(
        seq![ArgDeclView { hint: ArgHint::Username, ..plain_arg("username"@) }, plain_arg("password"@)],
        Seq::empty(),
    )
}

pub open spec fn create_user_decls() -> ArgDeclListView {
    decls_of(
        seq![plain_arg("username"@), plain_arg("password"@), plain_arg("email"@)],
        Seq::empty(),
    )
}

pub open spec fn create_repo_decls() -> ArgDeclListView {
    decls_of(seq![plain_arg("name"@)], Seq::empty())
}

pub open spec fn remote_path_decls() -> ArgDeclListView {
    decls_of(seq![plain_arg("remote-path"@)], Seq::empty())
}

pub open spec fn clone_decls() -> ArgDeclListView {
    decls_of(
        seq![plain_arg("remote-path"@), ArgDeclView { required: false, ..plain_arg("to"@) }],
        seq![proto_group_view()],
    )
}

pub open spec fn url_decls() -> ArgDeclListView {
    decls_of(seq![plain_arg("remote-path"@)], seq![proto_group_view()])
}

pub open spec fn upload_ssh_key_decls() -> ArgDeclListView {
    decls_of(seq![ArgDeclView { hint: ArgHint::Path, ..plain_arg("key"@) }], Seq::empty())
}

/// The value given on the line for the argument `k`.
pub open spec fn req_arg(st: ArgStoreView, k: Seq<char>) -> Result<SpannedText, ParseErrorView> {
    match kv_get(st.args, k) {
        Some(ArgValueView::Value(sp, _)) => Ok(sp),
        _ => Err(ParseErrorView::MissingRequiredArg(k)),
    }
}

pub open spec fn opt_arg(st: ArgStoreView, k: Seq<char>) -> Option<SpannedText> {
    match kv_get(st.args, k) {
        Some(ArgValueView::Value(sp, _)) => Some(sp),
        _ => None,
    }
}

/// The protocol chosen by the value of the protocol group, and the flag that chose it.
pub open spec fn proto_of(v: Option<FlagValueView>) -> (UshRepoAccessProtocol, Option<SpannedText>) {
    match v {
        Some(FlagValueView::Present(sp, true)) => if sp.value == "--git"@ {
            (UshRepoAccessProtocol::Git, Some(sp))
        } else if sp.value == "--ssh"@ {
            (UshRepoAccessProtocol::Ssh, Some(sp))
        } else {
            (UshRepoAccessProtocol::Http, if sp.value == "--http"@ {
                Some(sp)
            } else {
                None
            })
        },
        Some(FlagValueView::Default(n, true)) => if n == "git"@ {
            (UshRepoAccessProtocol::Git, None)
        } else if n == "ssh"@ {
            (UshRepoAccessProtocol::Ssh, None)
        } else {
            (UshRepoAccessProtocol::Http, None)
        },
        _ => (UshRepoAccessProtocol::Http, None),
    }
}

/// Position of the last `/` in `s`, or -1.
pub open spec fn last_slash(s: Seq<char>) -> int
    decreases s.len(),
{
    if s.len() == 0 {
        -1
    } else if s.last() == '/' {
        s.len() - 1
    } else {
        last_slash(s.drop_last())
    }
}

/// The text after the last `/` of `s` (all of `s` if it has none).
pub open spec fn last_segment(s: Seq<char>) -> Seq<char> {
    s.skip(last_slash(s) + 1)
}

/// The values of `echo`: every token, unless one is an error.
pub open spec fn echo_args(toks: Seq<LexemeView>) -> Result<Seq<SpannedText>, ParseErrorView>
    decreases toks.len(),
{
    if toks.len() == 0 {
        Ok(Seq::empty())
    } else {
        match echo_args(toks.drop_last()) {
            Err(e) => Err(e),
            Ok(a) => if toks.last().token == Token::Error {
                Err(ParseErrorView::UnexpectedToken(lexeme_spanned(toks.last())))
            } else {
                Ok(a.push(lexeme_spanned(toks.last())))
            },
        }
    }
}

/// The optional path of `cd` and `ls`: the next token unless it is an error.
pub open spec fn opt_path(rest: Seq<LexemeView>) -> Option<SpannedText> {
    if rest.len() > 0 && rest[0].token != Token::Error {
        Some(lexeme_spanned(rest[0]))
    } else {
        None
    }
}

/// The command `c` named `name` read from the tokens `rest`, with the number
/// of tokens it consumed.
pub open spec fn parse_command_spec(c: UshCommand, name: SpannedText, rest: Seq<LexemeView>) -> Result<
    (ParsedView, int),
    ParseErrorView,
> {
    match c {
        UshCommand::Cd => Ok(
            (ParsedView::Cd(name, opt_path(rest)), if opt_path(rest) is Some {
                1int
            } else {
                0int
            }),
        ),
        UshCommand::Ls => Ok(
            (ParsedView::Ls(name, opt_path(rest)), if opt_path(rest) is Some {
                1int
            } else {
                0int
            }),
        ),
        UshCommand::Pwd => Ok((ParsedView::Pwd(name), 0int)),
        UshCommand::ListUsers => Ok((ParsedView::ListUsers(name), 0int)),
        UshCommand::Echo => match echo_args(rest) {
            Ok(a) => Ok((ParsedView::Echo(name, a), rest.len() as int)),
            Err(e) => Err(e),
        },
        UshCommand::Exit => if rest.len() == 0 {
            Ok((ParsedView::Exit(name, None), 0int))
        } else if rest[0].token == Token::Value {
            match parse_i32_spec(rest[0].text) {
                Ok(v) => Ok(
                    (
                        ParsedView::Exit(name, Some(Spanned { span: rest[0].span, value: v as i32 })),
                        1int,
                    ),
                ),
                Err(k) => Err(ParseErrorView::ParseIntError(k)),
            }
        } else {
            Ok((ParsedView::Exit(name, None), 1int))
        },
        UshCommand::Login => match parse_from_spec(login_decls(), rest) {
            Err(e) => Err(e),
            Ok(st) => match req_arg(st, "username"@) {
                Err(e) => Err(e),
                Ok(u) => match req_arg(st, "password"@) {
                    Err(e) => Err(e),
                    Ok(p) => Ok((ParsedView::Login(name, u, p), rest.len() as int)),
                },
            },
        },
        UshCommand::CreateUser => match parse_from_spec(create_user_decls(), rest) {
            Err(e) => Err(e),
            Ok(st) => match req_arg(st, "username"@) {
                Err(e) => Err(e),
                Ok(u) => match req_arg(st, "password"@) {
                    Err(e) => Err(e),
                    Ok(p) => match req_arg(st, "email"@) {
                        Err(e) => Err(e),
                        Ok(m) => Ok((ParsedView::CreateUser(name, u, p, m), rest.len() as int)),
                    },
                },
            },
        },
        UshCommand::CreateRepo => match parse_from_spec(create_repo_decls(), rest) {
            Err(e) => Err(e),
            Ok(st) => match req_arg(st, "name"@) {
                Err(e) => Err(e),
                Ok(n) => Ok((ParsedView::CreateRepo(name, n), rest.len() as int)),
            },
        },
        UshCommand::Clone => match parse_from_spec(clone_decls(), rest) {
            Err(e) => Err(e),
            Ok(st) => {
                let (proto, flag) = proto_of(kv_get(st.flag_groups, "protocol"@));
                match req_arg(st, "remote-path"@) {
                    Err(e) => Err(e),
                    Ok(p) => {
                        let arg_to = opt_arg(st, "to"@);
                        let to = match arg_to {
                            Some(t) => t.value,
                            None => last_segment(p.value),
                        };
                        Ok((ParsedView::Clone(name, p, arg_to, to, proto, flag), rest.len() as int))
                    },
                }
            },
        },
        UshCommand::HttpUrl => match parse_from_spec(remote_path_decls(), rest) {
            Err(e) => Err(e),
            Ok(st) => match req_arg(st, "remote-path"@) {
                Err(e) => Err(e),
                Ok(p) => Ok((ParsedView::HttpUrl(name, p), rest.len() as int)),
            },
        },
        UshCommand::GitUrl => match parse_from_spec(remote_path_decls(), rest) {
            Err(e) => Err(e),
            Ok(st) => match req_arg(st, "remote-path"@) {
                Err(e) => Err(e),
                Ok(p) => Ok((ParsedView::GitUrl(name, p), rest.len() as int)),
            },
        },
        UshCommand::SshUrl => match parse_from_spec(remote_path_decls(), rest) {
            Err(e) => Err(e),
            Ok(st) => match req_arg(st, "remote-path"@) {
                Err(e) => Err(e),
                Ok(p) => Ok((ParsedView::SshUrl(name, p), rest.len() as int)),
            },
        },
        UshCommand::Url => match parse_from_spec(url_decls(), rest) {
            Err(e) => Err(e),
            Ok(st) => {
                let (proto, flag) = proto_of(kv_get(st.flag_groups, "protocol"@));
                match req_arg(st, "remote-path"@) {
                    Err(e) => Err(e),
                    Ok(p) => Ok((ParsedView::Url(name, p, proto, flag), rest.len() as int)),
                }
            },
        },
        UshCommand::UploadSshKey => match parse_from_spec(upload_ssh_key_decls(), rest) {
            Err(e) => Err(e),
            Ok(st) => match req_arg(st, "key"@) {
                Err(e) => Err(e),
                Ok(k) => Ok((ParsedView::UploadSshKey(name, k), rest.len() as int)),
            },
        },
    }
}

/// The command read from `rest`, which must then hold no further token.
pub open spec fn finish_spec(c: UshCommand, name: SpannedText, rest: Seq<LexemeView>) -> Result<
    ParsedView,
    ParseErrorView,
> {
    match parse_command_spec(c, name, rest) {
        Err(e) => Err(e),
        Ok((cmd, n)) => if n < rest.len() {
            Err(ParseErrorView::ExpectedEndOfInput(lexeme_spanned(rest[n])))
        } else {
            Ok(cmd)
        },
    }
}

/// The meaning of a command line.
pub open spec fn parse_line_spec(s: Seq<char>) -> Result<ParsedView, ParseErrorView> {
    let toks = lex_spec(s);
    if toks.len() == 0 {
        Err(ParseErrorView::Empty)
    } else if toks[0].token != Token::Value {
        Err(ParseErrorView::UnexpectedToken(lexeme_spanned(toks[0])))
    } else {
        match command_of(toks[0].text) {
            None => Err(ParseErrorView::UnknownCommand(lexeme_spanned(toks[0]))),
            Some(c) => finish_spec(c, lexeme_spanned(toks[0]), toks.skip(1)),
        }
    }
}

proof fn lemma_last_slash(s: Seq<char>)
    ensures
        -1 <= last_slash(s) < s.len(),
        last_slash(s) >= 0 ==> s[last_slash(s)] == '/',
        forall|i: int| last_slash(s) < i < s.len() ==> s[i] != '/',
    decreases s.len(),
{
    if s.len() > 0 && s.last() != '/' {
        lemma_last_slash(s.drop_last());
        assert forall|i: int| last_slash(s) < i < s.len() implies s[i] != '/' by {
            if i < s.len() - 1 {
                assert(s[i] == s.drop_last()[i]);
            }
        }
    }
}

/// `clone` without a `to:` argument clones into the last `/`-separated
/// segment of the remote path: a name with no `/`, which ends the remote
/// path and follows its last `/` (the whole remote path where it has
/// none). With a `to:` argument, that argument is the target.
pub proof fn lemma_clone_default_target(line: Seq<char>)
    ensures
        parse_line_spec(line) matches Ok(ParsedView::Clone(_, _, Some(t), to, _, _)) ==> to == t.value,
        parse_line_spec(line) matches Ok(ParsedView::Clone(_, p, None, to, _, _)) ==> {
            &&& !to.contains('/')
            &&& to.is_suffix_of(p.value)
            &&& to.len() < p.value.len() ==> p.value[p.value.len() - to.len() - 1] == '/'
        },
{
    match parse_line_spec(line) {
        Ok(ParsedView::Clone(_, p, None, to, _, _)) => {
        let s = p.value;
        lemma_last_slash(s);
        assert(to == last_segment(s));
        let k = last_slash(s) + 1;
        assert(to =~= s.subrange(k, s.len() as int));
        if to.contains('/') {
            let i = choose|i: int| 0 <= i < to.len() && to[i] == '/';
            assert(s[k + i] == '/');
        }
        assert(s.subrange(s.len() - to.len(), s.len() as int) =~= to);
        },
        _ => {},
    }
}

pub open spec fn parse_result_view(r: Result<UshParsedCommand, UshParseError>) -> Result<
    ParsedView,
    ParseErrorView,
> {
    match r {
        Ok(c) => Ok(c@),
        Err(e) => Err(e@),
    }
}

pub proof fn lemma_lex_from_wf(s: Seq<char>, i: int)
    requires
        0 <= i,
        vstd::utf8::encode_utf8(s).len() <= usize::MAX,
    ensures
        all_lexemes_wf(super::lexer::lex_from(s, i)),
    decreases s.len() - i,
{
    let st = super::lexer::skip_blanks(s, i);
    if i <= s.len() {
        lemma_skip_blanks_ge(s, i);
    }
    if st < s.len() && i <= s.len() {
        let (tok, end) = super::lexer::token_at(s, st);
        if end > st && end > i && end <= s.len() {
            lemma_lex_from_wf(s, end);
            crate::text::lemma_byte_offset_subrange(s, st, end);
            crate::text::lemma_byte_offset_subrange(s, 0, st);
            let first = LexemeView {
                token: tok,
                span: super::span::Span {
                    start: crate::text::byte_offset(s, st) as usize,
                    end: crate::text::byte_offset(s, end) as usize,
                },
                text: s.subrange(st, end),
            };
            let rest = super::lexer::lex_from(s, end);
            assert(0 <= i <= st < end <= s.len());
            assert(lexeme_wf(first));
            assert(super::lexer::lex_from(s, i) == seq![first] + rest);
            assert forall|k: int| 0 <= k < (seq![first] + rest).len() implies lexeme_wf(
                #[trigger] (seq![first] + rest)[k],
            ) by {
                if k > 0 {
                    assert((seq![first] + rest)[k] == rest[k - 1]);
                }
            }
        }
    }
}

proof fn lemma_skip_blanks_ge(s: Seq<char>, i: int)
    requires
        0 <= i <= s.len(),
    ensures
        i <= super::lexer::skip_blanks(s, i),
    decreases s.len() - i,
{
    if i < s.len() && super::lexer::is_blank(s[i]) {
        lemma_skip_blanks_ge(s, i + 1);
    }
}

proof fn lemma_echo_prefix_err(toks: Seq<LexemeView>, k: int)
    requires
        0 <= k <= toks.len(),
        echo_args(toks.take(k)) is Err,
    ensures
        echo_args(toks) == echo_args(toks.take(k)),
    decreases toks.len() - k,
{
    if k < toks.len() {
        assert(toks.take(k + 1).drop_last() =~= toks.take(k));
        lemma_echo_prefix_err(toks, k + 1);
    } else {
        assert(toks.take(k) =~= toks);
    }
}

/// What reading command `c` from `rest` leaves: the command and the tokens
/// after its operands, or the error.
pub open spec fn parsed_step(
    c: UshCommand,
    name: SpannedText,
    rest: Seq<LexemeView>,
    res: Result<UshParsedCommand, UshParseError>,
    new_rest: Seq<LexemeView>,
) -> bool {
    match parse_command_spec(c, name, rest) {
        Ok((cmd, n)) => res matches Ok(x) && x@ == cmd && 0 <= n <= rest.len() && new_rest
            == rest.skip(n),
        Err(e) => res matches Err(x) && x@ == e,
    }
}

fn spanned_copy(s: &Spanned<String>) -> (res: Spanned<String>)
    ensures
        res@ == s@,
{
    Spanned { span: s.span, value: s.value.clone() }
}

fn lexeme_text(t: &super::lexer::Lexeme) -> (res: Spanned<String>)
    ensures
        res@ == lexeme_spanned(t@),
{
    Spanned { span: t.span, value: t.text.clone() }
}

/// The value given on the line for the argument `name`, as [`req_arg`] gives it.
fn take_required(st: &super::args::ArgStore, name: &str) -> (res: Result<Spanned<String>, UshParseError>)
    ensures
        match req_arg(st@, name@) {
            Ok(sp) => res matches Ok(x) && x@ == sp,
            Err(e) => res matches Err(x) && x@ == e,
        },
{
    match st.arg(name) {
        Some(super::args::ArgValue::Value(s, _)) => Ok(spanned_copy(s)),
        _ => Err(UshParseError::MissingRequiredArg(name.to_owned())),
    }
}

/// The value given on the line for the argument `name`, as [`opt_arg`] gives it.
fn take_optional(st: &super::args::ArgStore, name: &str) -> (res: Option<Spanned<String>>)
    ensures
        match opt_arg(st@, name@) {
            Some(sp) => res matches Some(x) && x@ == sp,
            None => res is None,
        },
{
    match st.arg(name) {
        Some(super::args::ArgValue::Value(s, _)) => Some(spanned_copy(s)),
        _ => None,
    }
}

/// The text after the last `/`.
fn last_segment_exec(s: &String) -> (res: String)
    ensures
        res@ == last_segment(s@),
{
    let cs = chars_of(s.as_str());
    let len = cs.len();
    let mut i = len;
    proof {
        assert(cs@.take(len as int) =~= cs@);
    }
    while i > 0 && cs[i - 1] != '/'
        invariant
            i <= len,
            len == cs@.len(),
            last_slash(cs@) == last_slash(cs@.take(i as int)),
        decreases i,
    {
        proof {
            assert(cs@.take(i as int).drop_last() =~= cs@.take(i - 1));
        }
        i = i - 1;
    }
    proof {
        if i > 0 {
            assert(last_slash(cs@.take(i as int)) == i - 1);
        } else {
            assert(last_slash(cs@.take(0)) == -1);
        }
        assert(cs@.take(len as int) =~= cs@);
    }
    string_of(vstd::slice::slice_subrange(cs.as_slice(), i, len))
}

/// The protocol chosen by the value of the protocol group.
fn proto_group_value(v: Option<FlagValue>) -> (res: (UshRepoAccessProtocol, Option<Spanned<String>>))
    ensures
        res.0 == proto_of(super::args::opt_flag_view(v)).0,
        super::command::opt_spanned_view(res.1) == proto_of(super::args::opt_flag_view(v)).1,
{
    match v {
        Some(FlagValue::Present(sp, true)) => {
            if crate::text::str_eq(sp.value.as_str(), "--git") {
                (UshRepoAccessProtocol::Git, Some(sp))
            } else if crate::text::str_eq(sp.value.as_str(), "--ssh") {
                (UshRepoAccessProtocol::Ssh, Some(sp))
            } else if crate::text::str_eq(sp.value.as_str(), "--http") {
                (UshRepoAccessProtocol::Http, Some(sp))
            } else {
                (UshRepoAccessProtocol::Http, None)
            }
        },
        Some(FlagValue::Default(n, true)) => {
            if crate::text::str_eq(n.as_str(), "git") {
                (UshRepoAccessProtocol::Git, None)
            } else if crate::text::str_eq(n.as_str(), "ssh") {
                (UshRepoAccessProtocol::Ssh, None)
            } else {
                (UshRepoAccessProtocol::Http, None)
            }
        },
        _ => (UshRepoAccessProtocol::Http, None),
    }
}

fn keep_flag(d: FlagDecl) -> (r: FlagDecl)
    ensures
        r == d,
{
    d
}

fn keep_arg(d: ArgDecl) -> (r: ArgDecl)
    ensures
        r == d,
{
    d
}

fn optional_arg_decl(d: ArgDecl) -> (r: ArgDecl)
    ensures
        r@ == (ArgDeclView { required: false, ..d@ }),
{
    d.optional()
}

fn username_arg_decl(d: ArgDecl) -> (r: ArgDecl)
    ensures
        r@ == (ArgDeclView { hint: ArgHint::Username, ..d@ }),
{
    d.hint(ArgHint::Username)
}

fn path_arg_decl(d: ArgDecl) -> (r: ArgDecl)
    ensures
        r@ == (ArgDeclView { hint: ArgHint::Path, ..d@ }),
{
    d.hint(ArgHint::Path)
}

impl UshCommandParser {
    /// Reads the command word of `line`.
    fn new(line: &str) -> (res: Result<Self, UshParseError>)
        ensures
            match res {
                Ok(p) => {
                    let toks = lex_spec(line@);
                    &&& toks.len() > 0
                    &&& toks[0].token == Token::Value
                    &&& command_of(toks[0].text) == Some(p.command_kind())
                    &&& p.name_view() == lexeme_spanned(toks[0])
                    &&& p.remaining() == toks.skip(1)
                    &&& all_lexemes_wf(p.remaining())
                },
                Err(e) => parse_line_spec(line@) == Err::<ParsedView, ParseErrorView>(e@),
            },
    {
        let mut lexer = UshCommandLexer::new(line);
        let ghost toks = lexer@;
        let n = line.as_bytes().len();
        proof {
            assert(vstd::utf8::encode_utf8(line@).len() == n);
            lemma_lex_from_wf(line@, 0);
        }
        match lexer.next() {
            None => Err(UshParseError::Empty),
            Some(t) => {
                match t.token {
                    Token::Value => {},
                    _ => {
                        return Err(UshParseError::UnexpectedToken(lexeme_text(&t)));
                    },
                }
                match UshCommand::get(t.text.as_str()) {
                    None => Err(UshParseError::UnknownCommand(lexeme_text(&t))),
                    Some(c) => {
                        proof {
                            assert forall|k: int| 0 <= k < lexer@.len() implies lexeme_wf(
                                #[trigger] lexer@[k],
                            ) by {
                                assert(lexer@[k] == toks[k + 1]);
                            }
                        }
                        Ok(
                            UshCommandParser {
                                lexer,
                                command: c,
                                command_name: Spanned { span: t.span, value: CommandName(t.text) },
                            },
                        )
                    },
                }
            },
        }
    }

    fn name_copy(&self) -> (res: Spanned<CommandName>)
        ensures
            res@ == self.name_view(),
    {
        Spanned {
            span: self.command_name.span,
            value: CommandName(self.command_name.value.0.clone()),
        }
    }

    /// Reads the next token as a path, unless it is an error.
    fn opt_path(&mut self) -> (res: Option<Spanned<UshPath>>)
        ensures
            super::command::opt_spanned_view(res) == opt_path(old(self).remaining()),
            final(self).remaining() == old(self).remaining().skip(
                if res is Some {
                    1int
                } else {
                    0int
                },
            ),
            final(self).command_kind() == old(self).command_kind(),
            final(self).name_view() == old(self).name_view(),
    {
        let take = match self.lexer.peek() {
            Some(t) => match t.token {
                Token::Error => false,
                _ => true,
            },
            None => false,
        };
        if take {
            let t = self.lexer.next().unwrap();
            Some(Spanned { span: t.span, value: UshPath(t.text) })
        } else {
            proof {
                assert(old(self).remaining().skip(0) =~= old(self).remaining());
            }
            None
        }
    }

    /// Reads the whole command and checks that nothing follows it.
    fn fully_parse(self) -> (res: Result<UshParsedCommand, UshParseError>)
        requires
            all_lexemes_wf(self.remaining()),
        ensures
            parse_result_view(res) == finish_spec(
                self.command_kind(),
                self.name_view(),
                self.remaining(),
            ),
    {
        let mut p = self;
        let ghost rest = p.remaining();
        let r = match p.command {
            UshCommand::Cd => p.parse_cd(),
            UshCommand::Ls => p.parse_ls(),
            UshCommand::Pwd => p.parse_pwd(),
            UshCommand::Echo => p.parse_echo(),
            UshCommand::Exit => p.parse_exit(),
            UshCommand::Login => p.parse_login(),
            UshCommand::CreateUser => p.parse_create_user(),
            UshCommand::CreateRepo => p.parse_create_repo(),
            UshCommand::Clone => p.parse_clone(),
            UshCommand::HttpUrl => p.parse_http_url(),
            UshCommand::GitUrl => p.parse_git_url(),
            UshCommand::SshUrl => p.parse_ssh_url(),
            UshCommand::Url => p.parse_url(),
            UshCommand::UploadSshKey => p.parse_upload_ssh_key(),
            UshCommand::ListUsers => p.parse_list_users(),
        };
        match r {
            Err(e) => Err(e),
            Ok(cmd) => match p.lexer.next() {
                None => Ok(cmd),
                Some(t) => Err(UshParseError::ExpectedEndOfInput(lexeme_text(&t))),
            },
        }
    }

    fn parse_cd(&mut self) -> (res: Result<UshParsedCommand, UshParseError>)
        requires
            old(self).command_kind() == UshCommand::Cd,
        ensures
            parsed_step(
                UshCommand::Cd,
                old(self).name_view(),
                old(self).remaining(),
                res,
                final(self).remaining(),
            ),
    {
        let path = self.opt_path();
        Ok(UshParsedCommand::Cd(UshCdCommand { command_name: self.name_copy(), path }))
    }

    fn parse_ls(&mut self) -> (res: Result<UshParsedCommand, UshParseError>)
        requires
            old(self).command_kind() == UshCommand::Ls,
        ensures
            parsed_step(
                UshCommand::Ls,
                old(self).name_view(),
                old(self).remaining(),
                res,
                final(self).remaining(),
            ),
    {
        let path = self.opt_path();
        Ok(UshParsedCommand::Ls(UshLsCommand { command_name: self.name_copy(), path }))
    }

    fn parse_pwd(&mut self) -> (res: Result<UshParsedCommand, UshParseError>)
        ensures
            parsed_step(
                UshCommand::Pwd,
                old(self).name_view(),
                old(self).remaining(),
                res,
                final(self).remaining(),
            ),
            final(self).remaining() == old(self).remaining(),
    {
        proof {
            assert(old(self).remaining().skip(0) =~= old(self).remaining());
        }
        Ok(UshParsedCommand::Pwd(UshPwdCommand { command_name: self.name_copy() }))
    }

    fn parse_list_users(&mut self) -> (res: Result<UshParsedCommand, UshParseError>)
        ensures
            parsed_step(
                UshCommand::ListUsers,
                old(self).name_view(),
                old(self).remaining(),
                res,
                final(self).remaining(),
            ),
            final(self).remaining() == old(self).remaining(),
    {
        proof {
            assert(old(self).remaining().skip(0) =~= old(self).remaining());
        }
        Ok(UshParsedCommand::ListUsers(UshListUsersCommand { command_name: self.name_copy() }))
    }

    fn parse_echo(&mut self) -> (res: Result<UshParsedCommand, UshParseError>)
        ensures
            parsed_step(
                UshCommand::Echo,
                old(self).name_view(),
                old(self).remaining(),
                res,
                final(self).remaining(),
            ),
    {
        let ghost toks = self.remaining();
        let ghost mut k: int = 0;
        let mut args: Vec<Spanned<String>> = Vec::new();
        proof {
            assert(toks.take(0) =~= Seq::<LexemeView>::empty());
            assert(toks.skip(0) =~= toks);
            assert(super::command::spanned_strings_view(args@) =~= Seq::empty());
        }
        loop
            invariant
                0 <= k <= toks.len(),
                self.remaining() == toks.skip(k),
                toks == old(self).remaining(),
                self.name_view() == old(self).name_view(),
                echo_args(toks.take(k)) == Ok::<Seq<SpannedText>, ParseErrorView>(
                    super::command::spanned_strings_view(args@),
                ),
            ensures
                k == toks.len(),
                self.remaining().len() == 0,
                self.name_view() == old(self).name_view(),
                echo_args(toks.take(k)) == Ok::<Seq<SpannedText>, ParseErrorView>(
                    super::command::spanned_strings_view(args@),
                ),
            decreases toks.len() - k,
        {
            match self.lexer.next() {
                None => {
                    break ;
                },
                Some(t) => {
                    proof {
                        assert(toks.take(k + 1).drop_last() =~= toks.take(k));
                        assert(toks.take(k + 1).last() == toks[k]);
                        assert(toks.skip(k).skip(1) =~= toks.skip(k + 1));
                    }
                    match t.token {
                        Token::Error => {
                            proof {
                                lemma_echo_prefix_err(toks, k + 1);
                            }
                            return Err(UshParseError::UnexpectedToken(lexeme_text(&t)));
                        },
                        _ => {},
                    }
                    let ghost before = args@;
                    args.push(lexeme_text(&t));
                    proof {
                        assert(super::command::spanned_strings_view(args@) =~= super::command::spanned_strings_view(before).push(lexeme_spanned(toks[k])));
                        k = k + 1;
                    }
                },
            }
        }
        proof {
            assert(toks.take(k) =~= toks);
            assert(toks.skip(k) =~= Seq::<LexemeView>::empty());
        }
        Ok(UshParsedCommand::Echo(UshEchoCommand { command_name: self.name_copy(), args }))
    }

    fn parse_exit(&mut self) -> (res: Result<UshParsedCommand, UshParseError>)
        ensures
            parsed_step(
                UshCommand::Exit,
                old(self).name_view(),
                old(self).remaining(),
                res,
                final(self).remaining(),
            ),
    {
        let next = self.lexer.next();
        let exit_code = match next {
            Some(t) => match t.token {
                Token::Value => {
                    let cs = chars_of(t.text.as_str());
                    match parse_i32(cs.as_slice()) {
                        Ok(v) => Some(Spanned { span: t.span, value: v }),
                        Err(e) => {
                            return Err(UshParseError::ParseIntError(e));
                        },
                    }
                },
                _ => None,
            },
            None => {
                proof {
                    assert(old(self).remaining().skip(0) =~= old(self).remaining());
                }
                None
            },
        };
        Ok(UshParsedCommand::Exit(UshExitCommand { command_name: self.name_copy(), exit_code }))
    }

    fn parse_login(&mut self) -> (res: Result<UshParsedCommand, UshParseError>)
        requires
            all_lexemes_wf(old(self).remaining()),
        ensures
            parsed_step(
                UshCommand::Login,
                old(self).name_view(),
                old(self).remaining(),
                res,
                final(self).remaining(),
            ),
    {
        let decls = ArgDeclList::new().arg("username", username_arg_decl).arg("password", keep_arg);
        proof {
            assert(decls@.args =~= login_decls().args);
            assert(decls@.flags =~= login_decls().flags);
            assert(decls@.flag_groups =~= login_decls().flag_groups);
        }
        let ghost rest = self.remaining();
        let st = match decls.parse_from(self) {
            Ok(st) => st,
            Err(e) => {
                return Err(e);
            },
        };
        let username = match take_required(&st, "username") {
            Ok(s) => s,
            Err(e) => {
                return Err(e);
            },
        };
        let password = match take_required(&st, "password") {
            Ok(s) => s,
            Err(e) => {
                return Err(e);
            },
        };
        proof {
            assert(rest.skip(rest.len() as int) =~= self.remaining());
        }
        Ok(
            UshParsedCommand::Login(
                UshLoginCommand {
                    command_name: self.name_copy(),
                    username: Spanned { span: username.span, value: Username(username.value) },
                    password,
                },
            ),
        )
    }

    fn parse_create_repo(&mut self) -> (res: Result<UshParsedCommand, UshParseError>)
        requires
            all_lexemes_wf(old(self).remaining()),
        ensures
            parsed_step(
                UshCommand::CreateRepo,
                old(self).name_view(),
                old(self).remaining(),
                res,
                final(self).remaining(),
            ),
    {
        let decls = ArgDeclList::new().arg("name", keep_arg);
        proof {
            assert(decls@.args =~= create_repo_decls().args);
            assert(decls@.flags =~= create_repo_decls().flags);
            assert(decls@.flag_groups =~= create_repo_decls().flag_groups);
        }
        let ghost rest = self.remaining();
        let st = match decls.parse_from(self) {
            Ok(st) => st,
            Err(e) => {
                return Err(e);
            },
        };
        let value = match take_required(&st, "name") {
            Ok(s) => s,
            Err(e) => {
                return Err(e);
            },
        };
        proof {
            assert(rest.skip(rest.len() as int) =~= self.remaining());
        }
        Ok(UshParsedCommand::CreateRepo(UshCreateRepoCommand { command_name: self.name_copy(), repo_name: value }))
    }

    fn parse_http_url(&mut self) -> (res: Result<UshParsedCommand, UshParseError>)
        requires
            all_lexemes_wf(old(self).remaining()),
        ensures
            parsed_step(
                UshCommand::HttpUrl,
                old(self).name_view(),
                old(self).remaining(),
                res,
                final(self).remaining(),
            ),
    {
        let decls = ArgDeclList::new().arg("remote-path", keep_arg);
        proof {
            assert(decls@.args =~= remote_path_decls().args);
            assert(decls@.flags =~= remote_path_decls().flags);
            assert(decls@.flag_groups =~= remote_path_decls().flag_groups);
        }
        let ghost rest = self.remaining();
        let st = match decls.parse_from(self) {
            Ok(st) => st,
            Err(e) => {
                return Err(e);
            },
        };
        let value = match take_required(&st, "remote-path") {
            Ok(s) => s,
            Err(e) => {
                return Err(e);
            },
        };
        proof {
            assert(rest.skip(rest.len() as int) =~= self.remaining());
        }
        Ok(UshParsedCommand::HttpUrl(UshHttpUrlCommand { command_name: self.name_copy(), repo_path: value }))
    }

    fn parse_git_url(&mut self) -> (res: Result<UshParsedCommand, UshParseError>)
        requires
            all_lexemes_wf(old(self).remaining()),
        ensures
            parsed_step(
                UshCommand::GitUrl,
                old(self).name_view(),
                old(self).remaining(),
                res,
                final(self).remaining(),
            ),
    {
        let decls = ArgDeclList::new().arg("remote-path", keep_arg);
        proof {
            assert(decls@.args =~= remote_path_decls().args);
            assert(decls@.flags =~= remote_path_decls().flags);
            assert(decls@.flag_groups =~= remote_path_decls().flag_groups);
        }
        let ghost rest = self.remaining();
        let st = match decls.parse_from(self) {
            Ok(st) => st,
            Err(e) => {
                return Err(e);
            },
        };
        let value = match take_required(&st, "remote-path") {
            Ok(s) => s,
            Err(e) => {
                return Err(e);
            },
        };
        proof {
            assert(rest.skip(rest.len() as int) =~= self.remaining());
        }
        Ok(UshParsedCommand::GitUrl(UshGitUrlCommand { command_name: self.name_copy(), repo_path: value }))
    }

    fn parse_ssh_url(&mut self) -> (res: Result<UshParsedCommand, UshParseError>)
        requires
            all_lexemes_wf(old(self).remaining()),
        ensures
            parsed_step(
                UshCommand::SshUrl,
                old(self).name_view(),
                old(self).remaining(),
                res,
                final(self).remaining(),
            ),
    {
        let decls = ArgDeclList::new().arg("remote-path", keep_arg);
        proof {
            assert(decls@.args =~= remote_path_decls().args);
            assert(decls@.flags =~= remote_path_decls().flags);
            assert(decls@.flag_groups =~= remote_path_decls().flag_groups);
        }
        let ghost rest = self.remaining();
        let st = match decls.parse_from(self) {
            Ok(st) => st,
            Err(e) => {
                return Err(e);
            },
        };
        let value = match take_required(&st, "remote-path") {
            Ok(s) => s,
            Err(e) => {
                return Err(e);
            },
        };
        proof {
            assert(rest.skip(rest.len() as int) =~= self.remaining());
        }
        Ok(UshParsedCommand::SshUrl(UshSshUrlCommand { command_name: self.name_copy(), repo_path: value }))
    }

    fn parse_upload_ssh_key(&mut self) -> (res: Result<UshParsedCommand, UshParseError>)
        requires
            all_lexemes_wf(old(self).remaining()),
        ensures
            parsed_step(
                UshCommand::UploadSshKey,
                old(self).name_view(),
                old(self).remaining(),
                res,
                final(self).remaining(),
            ),
    {
        let decls = ArgDeclList::new().arg("key", path_arg_decl);
        proof {
            assert(decls@.args =~= upload_ssh_key_decls().args);
            assert(decls@.flags =~= upload_ssh_key_decls().flags);
            assert(decls@.flag_groups =~= upload_ssh_key_decls().flag_groups);
        }
        let ghost rest = self.remaining();
        let st = match decls.parse_from(self) {
            Ok(st) => st,
            Err(e) => {
                return Err(e);
            },
        };
        let value = match take_required(&st, "key") {
            Ok(s) => s,
            Err(e) => {
                return Err(e);
            },
        };
        proof {
            assert(rest.skip(rest.len() as int) =~= self.remaining());
        }
        Ok(UshParsedCommand::UploadSshKey(UshUploadSshKeyCommand { command_name: self.name_copy(), key: Spanned { span: value.span, value: UshPath(value.value) } }))
    }

    fn parse_create_user(&mut self) -> (res: Result<UshParsedCommand, UshParseError>)
        requires
            all_lexemes_wf(old(self).remaining()),
        ensures
            parsed_step(
                UshCommand::CreateUser,
                old(self).name_view(),
                old(self).remaining(),
                res,
                final(self).remaining(),
            ),
    {
        let decls = ArgDeclList::new().arg("username", keep_arg).arg("password", keep_arg).arg(
            "email",
            keep_arg,
        );
        proof {
            assert(decls@.args =~= create_user_decls().args);
            assert(decls@.flags =~= create_user_decls().flags);
            assert(decls@.flag_groups =~= create_user_decls().flag_groups);
        }
        let ghost rest = self.remaining();
        let st = match decls.parse_from(self) {
            Ok(st) => st,
            Err(e) => {
                return Err(e);
            },
        };
        let username = match take_required(&st, "username") {
            Ok(s) => s,
            Err(e) => {
                return Err(e);
            },
        };
        let password = match take_required(&st, "password") {
            Ok(s) => s,
            Err(e) => {
                return Err(e);
            },
        };
        let email = match take_required(&st, "email") {
            Ok(s) => s,
            Err(e) => {
                return Err(e);
            },
        };
        proof {
            assert(rest.skip(rest.len() as int) =~= self.remaining());
        }
        Ok(
            UshParsedCommand::CreateUser(
                UshCreateUserCommand {
                    command_name: self.name_copy(),
                    username: Spanned { span: username.span, value: Username(username.value) },
                    password,
                    email,
                },
            ),
        )
    }

    /// The protocol group: `--git`, `--ssh` or `--http`, required, `http` by default.
    fn proto_group_fg_init(fg: FlagGroup) -> (res: FlagGroup)
        requires
            fg@ == FlagGroup::initial_view("protocol"@),
        ensures
            res@ == proto_group_view(),
    {
        let res = fg.flag("git", keep_flag).flag("ssh", keep_flag).flag("http", keep_flag).required().group_default(
            "http",
        );
        proof {
            assert(res@.flags =~= proto_group_view().flags);
        }
        res
    }

    fn parse_clone(&mut self) -> (res: Result<UshParsedCommand, UshParseError>)
        requires
            all_lexemes_wf(old(self).remaining()),
        ensures
            parsed_step(
                UshCommand::Clone,
                old(self).name_view(),
                old(self).remaining(),
                res,
                final(self).remaining(),
            ),
    {
        let decls = ArgDeclList::new().arg("remote-path", keep_arg).arg("to", optional_arg_decl).flag_group(
            "protocol",
            Self::proto_group_fg_init,
        );
        proof {
            assert(decls@.args =~= clone_decls().args);
            assert(decls@.flags =~= clone_decls().flags);
            assert(decls@.flag_groups =~= clone_decls().flag_groups);
        }
        let ghost rest = self.remaining();
        let st = match decls.parse_from(self) {
            Ok(st) => st,
            Err(e) => {
                return Err(e);
            },
        };
        let (access_protocol, access_protocol_flag) = proto_group_value(st.flag_group("protocol"));
        let repo_path = match take_required(&st, "remote-path") {
            Ok(s) => s,
            Err(e) => {
                return Err(e);
            },
        };
        let arg_to = match take_optional(&st, "to") {
            Some(s) => Some(Spanned { span: s.span, value: UshPath(s.value) }),
            None => None,
        };
        let to = match &arg_to {
            Some(t) => UshPath(t.value.0.clone()),
            None => UshPath(last_segment_exec(&repo_path.value)),
        };
        proof {
            assert(rest.skip(rest.len() as int) =~= self.remaining());
        }
        Ok(
            UshParsedCommand::Clone(
                UshCloneCommand {
                    command_name: self.name_copy(),
                    repo_path,
                    arg_to,
                    to,
                    access_protocol,
                    access_protocol_flag,
                },
            ),
        )
    }

    fn parse_url(&mut self) -> (res: Result<UshParsedCommand, UshParseError>)
        requires
            all_lexemes_wf(old(self).remaining()),
        ensures
            parsed_step(
                UshCommand::Url,
                old(self).name_view(),
                old(self).remaining(),
                res,
                final(self).remaining(),
            ),
    {
        let decls = ArgDeclList::new().arg("remote-path", keep_arg).flag_group(
            "protocol",
            Self::proto_group_fg_init,
        );
        proof {
            assert(decls@.args =~= url_decls().args);
            assert(decls@.flags =~= url_decls().flags);
            assert(decls@.flag_groups =~= url_decls().flag_groups);
        }
        let ghost rest = self.remaining();
        let st = match decls.parse_from(self) {
            Ok(st) => st,
            Err(e) => {
                return Err(e);
            },
        };
        let (protocol, protocol_flag) = proto_group_value(st.flag_group("protocol"));
        let repo_path = match take_required(&st, "remote-path") {
            Ok(s) => s,
            Err(e) => {
                return Err(e);
            },
        };
        proof {
            assert(rest.skip(rest.len() as int) =~= self.remaining());
        }
        Ok(
            UshParsedCommand::Url(
                UshUrlCommand { command_name: self.name_copy(), repo_path, protocol, protocol_flag },
            ),
        )
    }
}

/// Parses a command line.
pub fn parse_line(line: &str) -> (res: Result<UshParsedCommand, UshParseError>)
    ensures
        parse_result_view(res) == parse_line_spec(line@),
{
    match UshCommandParser::new(line) {
        Ok(p) => p.fully_parse(),
        Err(e) => Err(e),
    }
}

} // verus!
