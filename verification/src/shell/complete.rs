//! Line completion and hints for the interactive shell.
//!
//! Positions in a line count characters; the spans of the parser, which
//! are byte offsets, are read as the characters they cover.

use vstd::prelude::*;

use super::args::{is_flag_text, key_index, key_index_from, kv_get, kv_insert, lemma_key_index_from};
use super::command::{command_names, names_with_prefix, ParsedView, UshCommand, UshParsedCommand, Username};
use super::error::{strs_view, ParseErrorView, UshParseError};
use super::parser::{parse_line, parse_line_spec, parse_result_view};
use super::span::Span;
use crate::text::{char_width, chars_of, push_str, str_eq, string_of, utf8_width};

verus! {

// ---------------------------------------------------------------------------
// Signed-in users
// ---------------------------------------------------------------------------

/// A session token handed out by the server.
#[derive(Debug)]
pub struct JwtToken(pub String);

impl View for JwtToken {
    type V = Seq<char>;

    open spec fn view(&self) -> Seq<char> {
        self.0@
    }
}

/// The users signed in during the session, each with the tokens received
/// for them, in the order the users first signed in.
#[derive(Debug)]
pub struct UserMap {
    map: Vec<(Username, Vec<JwtToken>)>,
}

pub open spec fn tokens_view(ts: Seq<JwtToken>) -> Seq<Seq<char>> {
    ts.map_values(|t: JwtToken| t@)
}

/// `m` after `t` is recorded for user `u`: appended to the user's tokens,
/// or as the first token of a new user at the end.
pub open spec fn push_token_spec(
    m: Seq<(Seq<char>, Seq<Seq<char>>)>,
    u: Seq<char>,
    t: Seq<char>,
) -> Seq<(Seq<char>, Seq<Seq<char>>)> {
    kv_insert(
        m,
        u,
        match kv_get(m, u) {
            Some(ts) => ts.push(t),
            None => seq![t],
        },
    )
}

/// The user names of a user map, in order.
pub open spec fn user_names(m: Seq<(Seq<char>, Seq<Seq<char>>)>) -> Seq<Seq<char>> {
    m.map_values(|e: (Seq<char>, Seq<Seq<char>>)| e.0)
}

/// No user name occurs twice.
pub open spec fn distinct_users(m: Seq<(Seq<char>, Seq<Seq<char>>)>) -> bool {
    forall|i: int, j: int| 0 <= i < j < m.len() ==> m[i].0 != m[j].0
}

pub open spec fn users_view(v: Seq<(Username, Vec<JwtToken>)>) -> Seq<(Seq<char>, Seq<Seq<char>>)> {
    v.map_values(|e: (Username, Vec<JwtToken>)| (e.0@, tokens_view(e.1@)))
}

impl View for UserMap {
    type V = Seq<(Seq<char>, Seq<Seq<char>>)>;

    closed spec fn view(&self) -> Seq<(Seq<char>, Seq<Seq<char>>)> {
        users_view(self.map@)
    }
}

impl UserMap {
    /// No user name occurs twice.
    #[verifier::type_invariant]
    spec fn users_distinct(self) -> bool {
        forall|i: int, j: int| 0 <= i < j < self.map@.len() ==> #[trigger] self.map@[i].0@ != #[trigger] self.map@[j].0@
    }

    /// A map without users.
    pub fn new() -> (res: Self)
        ensures
            res@ == Seq::<(Seq<char>, Seq<Seq<char>>)>::empty(),
            distinct_users(res@),
    {
        let res = UserMap { map: Vec::new() };
        proof {
            assert(res@ =~= Seq::<(Seq<char>, Seq<Seq<char>>)>::empty());
        }
        res
    }

    /// Records `token` as received for `username`.
    #[verifier::loop_isolation(false)]
    pub fn push_token(&mut self, username: &Username, token: JwtToken)
        ensures
            final(self)@ == push_token_spec(old(self)@, username@, token@),
            distinct_users(final(self)@),
    {
        proof {
            use_type_invariant(&*self);
            assert forall|a: int, b: int| 0 <= a < b < self@.len() implies self@[a].0 != self@[b].0 by {
                assert(self@[a].0 == self.map@[a].0@ && self@[b].0 == self.map@[b].0@);
            }
            lemma_push_token_keeps_users_distinct(self@, username@, token@);
        }
        let ghost m = self@;
        let mut map: Vec<(Username, Vec<JwtToken>)> = Vec::new();
        std::mem::swap(&mut map, &mut self.map);
        let mut i: usize = 0;
        let n = map.len();
        proof {
            assert(users_view(map@) == m);
            lemma_key_index_from(m, username@, 0);
        }
        while i < n
            invariant
                i <= n,
                n == map@.len(),
                users_view(map@) == m,
                m.len() == n,
                key_index(m, username@) == key_index_from(m, username@, i as int),
            decreases n - i,
        {
            if str_eq(map[i].0.0.as_str(), username.0.as_str()) {
                proof {
                    assert(m[i as int].0 == username@);
                    assert(key_index(m, username@) == i);
                }
                let ghost tv = token@;
                let mut entry = map.remove(i);
                let ghost old_tokens = tokens_view(entry.1@);
                proof {
                    assert(old_tokens == m[i as int].1);
                    assert(kv_get(m, username@) == Some(old_tokens));
                }
                entry.1.push(token);
                proof {
                    assert(tokens_view(entry.1@) =~= old_tokens.push(token@));
                }
                map.insert(i, entry);
                proof {
                    assert(users_view(map@) =~= m.update(i as int, (username@, old_tokens.push(tv))));
                    assert(push_token_spec(m, username@, tv) == m.update(
                        i as int,
                        (username@, old_tokens.push(tv)),
                    ));
                    let fm = users_view(map@);
                    assert forall|a: int, b: int| 0 <= a < b < map@.len() implies #[trigger] map@[a].0@ != #[trigger] map@[b].0@ by {
                        assert(fm[a].0 == map@[a].0@ && fm[b].0 == map@[b].0@);
                    }
                }
                self.map = map;
                return;
            }
            proof {
                assert(m[i as int].0 != username@);
            }
            i = i + 1;
        }
        let name = Username(username.0.clone());
        let ghost tv = token@;
        let mut tokens: Vec<JwtToken> = Vec::new();
        tokens.push(token);
        proof {
            assert(tokens_view(tokens@).len() == 1);
            assert(tokens_view(tokens@)[0] == tokens@[0]@);
            assert(tokens_view(tokens@) =~= seq![tv]);
            assert(name@ == username@);
        }
        let ghost entry = (name, tokens);
        let ghost pre = map@;
        map.push((name, tokens));
        proof {
            assert(key_index(m, username@) == -1);
            assert(kv_get(m, username@) is None);
            assert(map@ == pre.push(entry));
            assert(users_view(map@) =~= m.push((username@, seq![tv])));
            let fm = users_view(map@);
            assert forall|a: int, b: int| 0 <= a < b < map@.len() implies #[trigger] map@[a].0@ != #[trigger] map@[b].0@ by {
                assert(fm[a].0 == map@[a].0@ && fm[b].0 == map@[b].0@);
            }
        }
        self.map = map;
    }

    /// Calls `f` on each user and the user's tokens, in order.
    pub fn for_each_user<F>(&self, mut f: F) where F: FnMut(&Username, &[JwtToken]),
        requires
            forall|u: &Username, ts: &[JwtToken]| call_requires(f, (u, ts)),
    {
        let mut i: usize = 0;
        while i < self.map.len()
            invariant
                i <= self.map@.len(),
                forall|u: &Username, ts: &[JwtToken]| call_requires(f, (u, ts)),
            decreases self.map@.len() - i,
        {
            let entry = &self.map[i];
            f(&entry.0, entry.1.as_slice());
            i = i + 1;
        }
    }

    /// The user names that start with `prefix`, in order.
    fn names_with_prefix(&self, prefix: &[char]) -> (res: Vec<CompletionCandidate>)
        ensures
            candidates_view(res@) == user_candidates(user_names(self@), prefix@),
    {
        let ghost names = user_names(self@);
        let mut res: Vec<CompletionCandidate> = Vec::new();
        let mut i: usize = 0;
        proof {
            assert(names.take(0) =~= Seq::<Seq<char>>::empty());
        }
        while i < self.map.len()
            invariant
                i <= self.map@.len(),
                names == user_names(self@),
                names.len() == self.map@.len(),
                candidates_view(res@) == user_candidates(names.take(i as int), prefix@),
            decreases self.map@.len() - i,
        {
            let name = &self.map[i].0;
            let nc = chars_of(name.0.as_str());
            proof {
                assert(names.take(i + 1).drop_last() =~= names.take(i as int));
                assert(names.take(i + 1).last() == name@);
                assert(names[i as int] == self@[i as int].0);
            }
            if super::command::chars_prefix_of(prefix, nc.as_slice()) {
                let ghost before = res@;
                res.push(CompletionCandidate { display: name.0.clone(), replacement: name.0.clone() });
                proof {
                    assert(candidates_view(res@) =~= candidates_view(before).push((name@, name@)));
                }
            }
            i = i + 1;
        }
        proof {
            assert(names.take(self.map@.len() as int) =~= names);
        }
        res
    }
}

/// Recording a token keeps the user names distinct.
pub proof fn lemma_push_token_keeps_users_distinct(
    m: Seq<(Seq<char>, Seq<Seq<char>>)>,
    u: Seq<char>,
    t: Seq<char>,
)
    requires
        distinct_users(m),
    ensures
        distinct_users(push_token_spec(m, u, t)),
        kv_get(push_token_spec(m, u, t), u) == Some(
            match kv_get(m, u) {
                Some(ts) => ts.push(t),
                None => seq![t],
            },
        ),
{
    lemma_key_index_from(m, u, 0);
    let ts = match kv_get(m, u) {
        Some(ts) => ts.push(t),
        None => seq![t],
    };
    let r = push_token_spec(m, u, t);
    let i = key_index(m, u);
    if i >= 0 {
        assert(r == m.update(i, (u, ts)));
        assert forall|a: int, b: int| 0 <= a < b < r.len() implies r[a].0 != r[b].0 by {
            assert(m[a].0 != m[b].0);
        }
        lemma_key_index_from(r, u, 0);
        assert(r[i].0 == u);
        if key_index(r, u) != i {
            let k = key_index(r, u);
            assert(r[k].0 == u);
            if k < i {
                assert(r[k].0 != r[i].0);
            } else {
                assert(r[i].0 != r[k].0);
            }
        }
    } else {
        assert(r == m.push((u, ts)));
        assert forall|a: int, b: int| 0 <= a < b < r.len() implies r[a].0 != r[b].0 by {
            if b == m.len() {
                if m[a].0 == u {
                    lemma_first_key_index(m, u, a);
                }
            } else {
                assert(m[a].0 != m[b].0);
            }
        }
        lemma_key_index_from(r, u, 0);
        let k = key_index(r, u);
        if k >= 0 && k < m.len() {
            assert(r[k].0 == u);
            assert(m[k].0 == u);
            lemma_first_key_index(m, u, k);
        }
        if k == -1 {
            lemma_first_key_index(r, u, m.len() as int);
        }
    }
}

/// A sequence that holds key `k` at index `a` has a first index of `k`.
proof fn lemma_first_key_index<V>(s: Seq<(Seq<char>, V)>, k: Seq<char>, a: int)
    requires
        0 <= a < s.len(),
        s[a].0 == k,
    ensures
        0 <= key_index(s, k) <= a,
{
    lemma_key_index_from_reaches(s, k, 0, a);
}

proof fn lemma_key_index_from_reaches<V>(s: Seq<(Seq<char>, V)>, k: Seq<char>, i: int, a: int)
    requires
        0 <= i <= a < s.len(),
        s[a].0 == k,
    ensures
        i <= key_index_from(s, k, i) <= a,
    decreases a - i,
{
    if s[i].0 != k {
        lemma_key_index_from_reaches(s, k, i + 1, a);
    }
}

// ---------------------------------------------------------------------------
// Completion candidates
// ---------------------------------------------------------------------------

/// One completion offered to the user: what is shown, and what is inserted.
pub struct CompletionCandidate {
    pub display: String,
    pub replacement: String,
}

impl View for CompletionCandidate {
    type V = (Seq<char>, Seq<char>);

    open spec fn view(&self) -> (Seq<char>, Seq<char>) {
        (self.display@, self.replacement@)
    }
}

pub open spec fn candidates_view(v: Seq<CompletionCandidate>) -> Seq<(Seq<char>, Seq<char>)> {
    v.map_values(|c: CompletionCandidate| c@)
}

/// The names that start with `prefix`, each offered with a `:` after it.
pub open spec fn arg_prefix_candidates(names: Seq<Seq<char>>, prefix: Seq<char>) -> Seq<
    (Seq<char>, Seq<char>),
>
    decreases names.len(),
{
    if names.len() == 0 {
        Seq::empty()
    } else {
        let n = names.last();
        arg_prefix_candidates(names.drop_last(), prefix) + if prefix.is_prefix_of(n) {
            seq![(n, n + ":"@)]
        } else {
            Seq::empty()
        }
    }
}

/// All `names`, each offered with a `:` after it.
pub open spec fn arg_candidates(names: Seq<Seq<char>>) -> Seq<(Seq<char>, Seq<char>)> {
    names.map_values(|n: Seq<char>| (n, n + ":"@))
}

/// The flags among `names` that start with `prefix`, offered as `--name`.
pub open spec fn flag_prefix_candidates(names: Seq<Seq<char>>, prefix: Seq<char>) -> Seq<
    (Seq<char>, Seq<char>),
>
    decreases names.len(),
{
    if names.len() == 0 {
        Seq::empty()
    } else {
        let n = names.last();
        flag_prefix_candidates(names.drop_last(), prefix) + if prefix.is_prefix_of(n) {
            seq![("--"@ + n, "--"@ + n)]
        } else {
            Seq::empty()
        }
    }
}

/// All flags `names`, offered as `--name`.
pub open spec fn flag_candidates(names: Seq<Seq<char>>) -> Seq<(Seq<char>, Seq<char>)> {
    names.map_values(|n: Seq<char>| ("--"@ + n, "--"@ + n))
}

/// The names, offered as they are.
pub open spec fn plain_candidates(names: Seq<Seq<char>>) -> Seq<(Seq<char>, Seq<char>)> {
    names.map_values(|n: Seq<char>| (n, n))
}

/// The user names that start with `prefix`, offered as they are.
pub open spec fn user_candidates(users: Seq<Seq<char>>, prefix: Seq<char>) -> Seq<
    (Seq<char>, Seq<char>),
>
    decreases users.len(),
{
    if users.len() == 0 {
        Seq::empty()
    } else {
        let u = users.last();
        user_candidates(users.drop_last(), prefix) + if prefix.is_prefix_of(u) {
            seq![(u, u)]
        } else {
            Seq::empty()
        }
    }
}

/// Unicode `White_Space` characters (as `char::is_whitespace` reads them).
pub open spec fn is_white_space(c: char) -> bool {
    c == '\t' || c == '\n' || c == '\u{0B}' || c == '\u{0C}' || c == '\r' || c == ' ' || c
        == '\u{85}' || c == '\u{A0}' || c == '\u{1680}' || ('\u{2000}' <= c && c <= '\u{200A}')
        || c == '\u{2028}' || c == '\u{2029}' || c == '\u{202F}' || c == '\u{205F}' || c
        == '\u{3000}'
}

fn is_white_space_char(c: char) -> (res: bool)
    ensures
        res == is_white_space(c),
{
    c == '\t' || c == '\n' || c == '\u{0B}' || c == '\u{0C}' || c == '\r' || c == ' ' || c
        == '\u{85}' || c == '\u{A0}' || c == '\u{1680}' || ('\u{2000}' <= c && c <= '\u{200A}')
        || c == '\u{2028}' || c == '\u{2029}' || c == '\u{202F}' || c == '\u{205F}' || c
        == '\u{3000}'
}

/// The cursor at `pos` stands next to white space: at the end of a line
/// that ends in white space, at the start of one that starts with it, or
/// between two white-space characters.
pub open spec fn pos_around_ws_spec(line: Seq<char>, pos: int) -> bool {
    if pos >= line.len() {
        line.len() > 0 && is_white_space(line.last())
    } else if pos == 0 {
        is_white_space(line[0])
    } else {
        is_white_space(line[pos - 1]) && is_white_space(line[pos])
    }
}

/// What the completer does for a line.
pub enum Completion {
    /// Replace from the position on with one of the candidates.
    Candidates(usize, Vec<CompletionCandidate>),
    /// Complete the file path under the cursor.
    Path,
}

pub enum CompletionView {
    Candidates(int, Seq<(Seq<char>, Seq<char>)>),
    Path,
}

impl View for Completion {
    type V = CompletionView;

    open spec fn view(&self) -> CompletionView {
        match self {
            Completion::Candidates(p, v) => CompletionView::Candidates(*p as int, candidates_view(v@)),
            Completion::Path => CompletionView::Path,
        }
    }
}

pub open spec fn no_completion() -> CompletionView {
    CompletionView::Candidates(0, Seq::empty())
}

/// The character position of byte offset `b` in `s`: the number of
/// characters whose encoding ends at or before `b`.
pub open spec fn char_position(s: Seq<char>, b: int) -> int
    decreases s.len(),
{
    if s.len() == 0 || b < utf8_width(s[0]) {
        0
    } else {
        1 + char_position(s.drop_first(), b - utf8_width(s[0]))
    }
}

proof fn lemma_char_position_bound(s: Seq<char>, b: int)
    ensures
        0 <= char_position(s, b) <= s.len(),
    decreases s.len(),
{
    if s.len() > 0 {
        lemma_char_position_bound(s.drop_first(), b - utf8_width(s[0]));
    }
}

/// The character position of byte offset `b` in `cs`.
fn char_position_of(cs: &[char], b: usize) -> (res: usize)
    ensures
        res == char_position(cs@, b as int),
        res <= cs@.len(),
{
    let mut i: usize = 0;
    let mut acc: usize = 0;
    proof {
        assert(cs@.skip(0) =~= cs@);
    }
    while i < cs.len() && char_width(cs[i]) <= b - acc
        invariant
            i <= cs@.len(),
            acc <= b,
            char_position(cs@, b as int) == i + char_position(cs@.skip(i as int), b - acc),
        decreases cs@.len() - i,
    {
        proof {
            let t = cs@.skip(i as int);
            assert(t[0] == cs@[i as int]);
            assert(t.drop_first() =~= cs@.skip(i + 1));
        }
        acc = acc + char_width(cs[i]);
        i = i + 1;
    }
    proof {
        if i < cs@.len() {
            assert(cs@.skip(i as int)[0] == cs@[i as int]);
        } else {
            assert(cs@.skip(i as int).len() == 0);
        }
        lemma_char_position_bound(cs@, b as int);
    }
    i
}

/// The span `s` covers the cursor at character position `pos` of `line`.
pub open spec fn span_covers(line: Seq<char>, s: Span, pos: int) -> bool {
    char_position(line, s.start as int) <= pos && pos <= char_position(line, s.end as int)
}

/// The text of a flag token without its leading `--`.
pub open spec fn flag_name(t: Seq<char>) -> Seq<char> {
    if is_flag_text(t) {
        t.skip(2)
    } else {
        t
    }
}

/// What the cursor at `pos` completes inside a command that parsed: a path
/// argument of `cd`, `ls` or `upload-ssh-key`, or the user name of `login`
/// (from the signed-in users).
pub open spec fn target_completion(
    cmd: ParsedView,
    line: Seq<char>,
    pos: int,
    users: Seq<Seq<char>>,
) -> CompletionView {
    match cmd {
        ParsedView::Cd(_, Some(p)) => if span_covers(line, p.span, pos) {
            CompletionView::Path
        } else {
            no_completion()
        },
        ParsedView::Ls(_, Some(p)) => if span_covers(line, p.span, pos) {
            CompletionView::Path
        } else {
            no_completion()
        },
        ParsedView::Login(_, user, _) => if span_covers(line, user.span, pos) && pos <= line.len() {
            CompletionView::Candidates(
                char_position(line, user.span.start as int),
                user_candidates(users, line.subrange(char_position(line, user.span.start as int), pos)),
            )
        } else {
            no_completion()
        },
        ParsedView::UploadSshKey(_, key) => if span_covers(line, key.span, pos) {
            CompletionView::Path
        } else {
            no_completion()
        },
        _ => no_completion(),
    }
}

/// The completions for the cursor at `pos` in `line`, given the users
/// signed in.
pub open spec fn complete_spec(line: Seq<char>, pos: int, users: Seq<Seq<char>>) -> CompletionView {
    match parse_line_spec(line) {
        Err(ParseErrorView::ExpectedArg(token, names)) => if char_position(line, token.span.end as int) == pos {
            CompletionView::Candidates(
                char_position(line, token.span.start as int),
                arg_prefix_candidates(names, token.value),
            )
        } else {
            no_completion()
        },
        Err(ParseErrorView::MissingRequiredArgs(args)) => if pos_around_ws_spec(line, pos) {
            CompletionView::Candidates(pos, arg_candidates(args))
        } else {
            no_completion()
        },
        Err(ParseErrorView::UnknownCommand(name)) => CompletionView::Candidates(
            char_position(line, name.span.start as int),
            plain_candidates(names_with_prefix(name.value)),
        ),
        Err(ParseErrorView::Empty) => CompletionView::Candidates(
            0,
            plain_candidates(command_names()),
        ),
        Err(ParseErrorView::UnexpectedFlag(flag, possible)) => CompletionView::Candidates(
            char_position(line, flag.span.start as int),
            flag_prefix_candidates(possible, flag_name(flag.value)),
        ),
        Err(ParseErrorView::MissingFlagGroupRequiredFlag(_, flags)) => if pos_around_ws_spec(
            line,
            pos,
        ) {
            CompletionView::Candidates(line.len() as int, flag_candidates(flags))
        } else {
            no_completion()
        },
        Err(_) => no_completion(),
        Ok(cmd) => target_completion(cmd, line, pos, users),
    }
}

/// The cursor inside the path given to `cd` or `ls` completes a file path:
/// where the line parses as either command with a path whose span (read
/// in characters) holds the cursor, the completion is a path completion.
pub proof fn lemma_path_argument_completes_path(line: Seq<char>, pos: int, users: Seq<Seq<char>>)
    ensures
        match parse_line_spec(line) {
            Ok(ParsedView::Cd(_, Some(p))) | Ok(ParsedView::Ls(_, Some(p))) =>
                char_position(line, p.span.start as int) <= pos <= char_position(line, p.span.end as int)
                    ==> complete_spec(line, pos, users) == CompletionView::Path,
            _ => true,
        },
{
}

/// `s` followed by `suffix`.
fn with_suffix(s: &String, suffix: &str) -> (res: String)
    ensures
        res@ == s@ + suffix@,
{
    let mut out = s.clone();
    push_str(&mut out, suffix);
    out
}

/// `--` followed by `s`.
fn as_flag(s: &String) -> (res: String)
    ensures
        res@ == "--"@ + s@,
{
    let mut out = String::new();
    push_str(&mut out, "--");
    push_str(&mut out, s.as_str());
    proof {
        assert(Seq::<char>::empty() + "--"@ =~= "--"@);
    }
    out
}

fn arg_prefix_cands(names: &Vec<String>, prefix: &[char]) -> (res: Vec<CompletionCandidate>)
    ensures
        candidates_view(res@) == arg_prefix_candidates(strs_view(names@), prefix@),
{
    let ghost ns = strs_view(names@);
    let mut res: Vec<CompletionCandidate> = Vec::new();
    let mut i: usize = 0;
    proof {
        assert(ns.take(0) =~= Seq::<Seq<char>>::empty());
    }
    while i < names.len()
        invariant
            i <= names@.len(),
            ns == strs_view(names@),
            candidates_view(res@) == arg_prefix_candidates(ns.take(i as int), prefix@),
        decreases names@.len() - i,
    {
        let nc = chars_of(names[i].as_str());
        proof {
            assert(ns.take(i + 1).drop_last() =~= ns.take(i as int));
            assert(ns.take(i + 1).last() == names@[i as int]@);
        }
        if super::command::chars_prefix_of(prefix, nc.as_slice()) {
            let ghost before = res@;
            let c = CompletionCandidate {
                display: names[i].clone(),
                replacement: with_suffix(&names[i], ":"),
            };
            res.push(c);
            proof {
                assert(candidates_view(res@) =~= candidates_view(before).push(
                    (names@[i as int]@, names@[i as int]@ + ":"@),
                ));
            }
        }
        i = i + 1;
    }
    proof {
        assert(ns.take(names@.len() as int) =~= ns);
    }
    res
}

fn arg_cands(names: &Vec<String>) -> (res: Vec<CompletionCandidate>)
    ensures
        candidates_view(res@) == arg_candidates(strs_view(names@)),
{
    let mut res: Vec<CompletionCandidate> = Vec::new();
    let mut i: usize = 0;
    while i < names.len()
        invariant
            i <= names@.len(),
            candidates_view(res@) == arg_candidates(strs_view(names@).take(i as int)),
        decreases names@.len() - i,
    {
        let ghost before = res@;
        let c = CompletionCandidate { display: names[i].clone(), replacement: with_suffix(&names[i], ":") };
        let ghost cv = c@;
        res.push(c);
        proof {
            let ns = strs_view(names@);
            assert(cv == (ns[i as int], ns[i as int] + ":"@));
            assert(candidates_view(res@) =~= candidates_view(before).push(cv));
            assert(arg_candidates(ns.take(i + 1)) =~= arg_candidates(ns.take(i as int)).push(cv));
        }
        i = i + 1;
    }
    proof {
        assert(strs_view(names@).take(names@.len() as int) =~= strs_view(names@));
    }
    res
}

fn flag_prefix_cands(names: &Vec<String>, prefix: &[char]) -> (res: Vec<CompletionCandidate>)
    ensures
        candidates_view(res@) == flag_prefix_candidates(strs_view(names@), prefix@),
{
    let ghost ns = strs_view(names@);
    let mut res: Vec<CompletionCandidate> = Vec::new();
    let mut i: usize = 0;
    proof {
        assert(ns.take(0) =~= Seq::<Seq<char>>::empty());
    }
    while i < names.len()
        invariant
            i <= names@.len(),
            ns == strs_view(names@),
            candidates_view(res@) == flag_prefix_candidates(ns.take(i as int), prefix@),
        decreases names@.len() - i,
    {
        let nc = chars_of(names[i].as_str());
        proof {
            assert(ns.take(i + 1).drop_last() =~= ns.take(i as int));
            assert(ns.take(i + 1).last() == names@[i as int]@);
        }
        if super::command::chars_prefix_of(prefix, nc.as_slice()) {
            let ghost before = res@;
            let c = CompletionCandidate { display: as_flag(&names[i]), replacement: as_flag(&names[i]) };
            res.push(c);
            proof {
                assert(candidates_view(res@) =~= candidates_view(before).push(
                    ("--"@ + names@[i as int]@, "--"@ + names@[i as int]@),
                ));
            }
        }
        i = i + 1;
    }
    proof {
        assert(ns.take(names@.len() as int) =~= ns);
    }
    res
}

fn flag_cands(names: &Vec<String>) -> (res: Vec<CompletionCandidate>)
    ensures
        candidates_view(res@) == flag_candidates(strs_view(names@)),
{
    let mut res: Vec<CompletionCandidate> = Vec::new();
    let mut i: usize = 0;
    while i < names.len()
        invariant
            i <= names@.len(),
            candidates_view(res@) == flag_candidates(strs_view(names@).take(i as int)),
        decreases names@.len() - i,
    {
        let ghost before = res@;
        let c = CompletionCandidate { display: as_flag(&names[i]), replacement: as_flag(&names[i]) };
        let ghost cv = c@;
        res.push(c);
        proof {
            let ns = strs_view(names@);
            assert(cv == ("--"@ + ns[i as int], "--"@ + ns[i as int]));
            assert(candidates_view(res@) =~= candidates_view(before).push(cv));
            assert(flag_candidates(ns.take(i + 1)) =~= flag_candidates(ns.take(i as int)).push(cv));
        }
        i = i + 1;
    }
    proof {
        assert(strs_view(names@).take(names@.len() as int) =~= strs_view(names@));
    }
    res
}

fn plain_cands(names: &Vec<&'static str>) -> (res: Vec<CompletionCandidate>)
    ensures
        candidates_view(res@) == plain_candidates(names@.map_values(|s: &'static str| s@)),
{
    let ghost ns = names@.map_values(|s: &'static str| s@);
    let mut res: Vec<CompletionCandidate> = Vec::new();
    let mut i: usize = 0;
    while i < names.len()
        invariant
            i <= names@.len(),
            ns == names@.map_values(|s: &'static str| s@),
            candidates_view(res@) == plain_candidates(ns.take(i as int)),
        decreases names@.len() - i,
    {
        let n = names[i];
        let ghost before = res@;
        let c = CompletionCandidate { display: n.to_owned(), replacement: n.to_owned() };
        let ghost cv = c@;
        res.push(c);
        proof {
            assert(cv == (ns[i as int], ns[i as int]));
            assert(candidates_view(res@) =~= candidates_view(before).push(cv));
            assert(plain_candidates(ns.take(i + 1)) =~= plain_candidates(ns.take(i as int)).push(cv));
        }
        i = i + 1;
    }
    proof {
        assert(ns.take(names@.len() as int) =~= ns);
    }
    res
}

/// The empty completion at the start of the line.
fn no_candidates() -> (res: Completion)
    ensures
        res@ == no_completion(),
{
    let v: Vec<CompletionCandidate> = Vec::new();
    proof {
        assert(candidates_view(v@) =~= Seq::<(Seq<char>, Seq<char>)>::empty());
    }
    Completion::Candidates(0, v)
}

/// The line completer and hinter of the shell: the working directory and
/// the users signed in.
pub struct Helper {
    pub cwd: String,
    pub usermap: UserMap,
}

impl Helper {
    /// Whether the cursor at `pos` stands next to white space.
    fn pos_around_ws(line: &str, pos: usize) -> (res: bool)
        ensures
            res == pos_around_ws_spec(line@, pos as int),
    {
        let cs = chars_of(line);
        let n = cs.len();
        if pos >= n {
            return n > 0 && is_white_space_char(cs[n - 1]);
        }
        if pos == 0 {
            return is_white_space_char(cs[0]);
        }
        is_white_space_char(cs[pos - 1]) && is_white_space_char(cs[pos])
    }

    /// What the cursor at `pos` completes in a command that parsed.
    fn complete_parsed(&self, parsed: &UshParsedCommand, line: &[char], pos: usize) -> (res: Completion)
        ensures
            res@ == target_completion(parsed@, line@, pos as int, user_names(self.usermap@)),
    {
        match parsed {
            UshParsedCommand::Cd(c) => match &c.path {
                Some(p) => if char_position_of(line, p.span.start) <= pos && pos <= char_position_of(line, p.span.end) {
                    Completion::Path
                } else {
                    no_candidates()
                },
                None => no_candidates(),
            },
            UshParsedCommand::Ls(c) => match &c.path {
                Some(p) => if char_position_of(line, p.span.start) <= pos && pos <= char_position_of(line, p.span.end) {
                    Completion::Path
                } else {
                    no_candidates()
                },
                None => no_candidates(),
            },
            UshParsedCommand::Login(c) => {
                let sp = c.username.span;
                let start = char_position_of(line, sp.start);
                if start <= pos && pos <= char_position_of(line, sp.end) && pos <= line.len() {
                    let typed = crate::text::chars_between(line, start, pos);
                    Completion::Candidates(start, self.usermap.names_with_prefix(typed.as_slice()))
                } else {
                    no_candidates()
                }
            },
            UshParsedCommand::UploadSshKey(c) => {
                if char_position_of(line, c.key.span.start) <= pos && pos <= char_position_of(line, c.key.span.end) {
                    Completion::Path
                } else {
                    no_candidates()
                }
            },
            _ => no_candidates(),
        }
    }

    /// The completions for the cursor at `pos` in `line`: argument names,
    /// flags or command names where the line fails to parse for want of
    /// them, the signed-in users for the user name of `login`, or a file
    /// path for path arguments.
    pub fn complete(&self, line: &str, pos: usize) -> (res: Completion)
        ensures
            res@ == complete_spec(line@, pos as int, user_names(self.usermap@)),
    {
        let cs = chars_of(line);
        let result = parse_line(line);
        match result {
            Ok(parsed) => self.complete_parsed(&parsed, cs.as_slice(), pos),
            Err(UshParseError::ExpectedArg(token, names)) => {
                if char_position_of(cs.as_slice(), token.span.end) == pos {
                    let typed = chars_of(token.value.as_str());
                    let start = char_position_of(cs.as_slice(), token.span.start);
                    Completion::Candidates(start, arg_prefix_cands(&names, typed.as_slice()))
                } else {
                    no_candidates()
                }
            },
            Err(UshParseError::MissingRequiredArgs(args)) => {
                if !Self::pos_around_ws(line, pos) {
                    no_candidates()
                } else {
                    Completion::Candidates(pos, arg_cands(&args))
                }
            },
            Err(UshParseError::UnknownCommand(name)) => {
                let names = UshCommand::get_for_prefix(name.value.as_str());
                Completion::Candidates(char_position_of(cs.as_slice(), name.span.start), plain_cands(&names))
            },
            Err(UshParseError::Empty) => {
                let names = UshCommand::get_all_for_empty();
                Completion::Candidates(0, plain_cands(&names))
            },
            Err(UshParseError::UnexpectedFlag(flag, possible_flags)) => {
                let fc = chars_of(flag.value.as_str());
                let name = if fc.len() >= 2 && fc[0] == '-' && fc[1] == '-' {
                    crate::text::chars_between(fc.as_slice(), 2, fc.len())
                } else {
                    fc
                };
                proof {
                    if is_flag_text(flag.value@) {
                        assert(flag.value@.skip(2) =~= flag.value@.subrange(2, flag.value@.len() as int));
                    }
                }
                let start = char_position_of(cs.as_slice(), flag.span.start);
                Completion::Candidates(start, flag_prefix_cands(&possible_flags, name.as_slice()))
            },
            Err(UshParseError::MissingFlagGroupRequiredFlag(_group, flags)) => {
                if !Self::pos_around_ws(line, pos) {
                    no_candidates()
                } else {
                    Completion::Candidates(cs.len(), flag_cands(&flags))
                }
            },
            Err(_) => no_candidates(),
        }
    }
}

// ---------------------------------------------------------------------------
// Hints
// ---------------------------------------------------------------------------

/// The only item of `items`, or `None` where there are none or several.
pub fn iter_single<T>(items: Vec<T>) -> (res: Option<T>)
    ensures
        res == (if items@.len() == 1 {
            Some(items@[0])
        } else {
            None::<T>
        }),
{
    if items.len() == 1 {
        let mut items = items;
        items.pop()
    } else {
        None
    }
}

pub open spec fn single_seq(s: Seq<Seq<char>>) -> Option<Seq<char>> {
    if s.len() == 1 {
        Some(s[0])
    } else {
        None
    }
}

/// The names that start with `p`, in order.
pub open spec fn with_prefix(names: Seq<Seq<char>>, p: Seq<char>) -> Seq<Seq<char>>
    decreases names.len(),
{
    if names.len() == 0 {
        Seq::empty()
    } else {
        with_prefix(names.drop_last(), p) + if p.is_prefix_of(names.last()) {
            seq![names.last()]
        } else {
            Seq::empty()
        }
    }
}

/// The flags `--name` that start with `p`, in order.
pub open spec fn flags_with_prefix(names: Seq<Seq<char>>, p: Seq<char>) -> Seq<Seq<char>>
    decreases names.len(),
{
    if names.len() == 0 {
        Seq::empty()
    } else {
        flags_with_prefix(names.drop_last(), p) + if p.is_prefix_of("--"@ + names.last()) {
            seq!["--"@ + names.last()]
        } else {
            Seq::empty()
        }
    }
}

/// The names, each followed by `:`, separated by spaces.
pub open spec fn colon_join(args: Seq<Seq<char>>) -> Seq<char>
    decreases args.len(),
{
    if args.len() == 0 {
        Seq::empty()
    } else if args.len() == 1 {
        args[0] + ":"@
    } else {
        colon_join(args.drop_last()) + " "@ + args.last() + ":"@
    }
}

/// A space, unless the line already ends in white space.
pub open spec fn space_unless(ends_with_space: bool) -> Seq<char> {
    if ends_with_space {
        Seq::empty()
    } else {
        " "@
    }
}

/// The text that would complete the word before the cursor at `pos`, given
/// the error that parsing the line gave: only at the end of the line, and
/// only where one completion is possible.
pub open spec fn hint_completion_spec(
    err: ParseErrorView,
    line_ends_with_space: bool,
    line: Seq<char>,
    pos: int,
) -> Option<Seq<char>> {
    if pos < line.len() {
        None
    } else {
        match err {
            ParseErrorView::UnknownCommand(command) => match single_seq(
                names_with_prefix(command.value),
            ) {
                Some(n) => Some(n.skip(command.value.len() as int)),
                None => None,
            },
            ParseErrorView::MissingRequiredArg(arg_name) => Some(
                space_unless(line_ends_with_space) + arg_name + ":"@,
            ),
            ParseErrorView::MissingRequiredArgs(args) => Some(
                space_unless(line_ends_with_space) + colon_join(args),
            ),
            ParseErrorView::ExpectedArg(name, possible) => if char_position(line, name.span.end as int) != pos
                || char_position(line, name.span.start as int) > pos || pos > line.len() {
                None
            } else {
                let typed = line.subrange(char_position(line, name.span.start as int), pos);
                match single_seq(with_prefix(possible, typed)) {
                    Some(n) => Some(n.skip(pos - char_position(line, name.span.start as int))),
                    None => None,
                }
            },
            ParseErrorView::UnexpectedFlag(flag, possible) => if char_position(line, flag.span.end as int) != pos
                || char_position(line, flag.span.start as int) > pos || pos > line.len() {
                None
            } else {
                let typed = line.subrange(char_position(line, flag.span.start as int), pos);
                match single_seq(flags_with_prefix(possible, typed)) {
                    Some(n) => Some(n.skip(pos - char_position(line, flag.span.start as int))),
                    None => None,
                }
            },
            _ => None,
        }
    }
}

/// A hint shown after the cursor: the parse error, and the text that
/// accepting the hint inserts.
pub struct Hint {
    display: String,
    completion: Option<String>,
}

impl Hint {
    pub closed spec fn display_spec(&self) -> Seq<char> {
        self.display@
    }

    pub closed spec fn completion_spec(&self) -> Option<Seq<char>> {
        match self.completion {
            Some(c) => Some(c@),
            None => None,
        }
    }

    /// The text shown.
    pub fn display(&self) -> (res: &str)
        ensures
            res@ == self.display_spec(),
    {
        self.display.as_str()
    }

    /// The text inserted on accepting the hint.
    pub fn completion(&self) -> (res: Option<&str>)
        ensures
            match res {
                Some(c) => self.completion_spec() == Some(c@),
                None => self.completion_spec() is None,
            },
    {
        match &self.completion {
            Some(c) => Some(c.as_str()),
            None => None,
        }
    }
}

fn colon_join_exec(args: &Vec<String>) -> (res: String)
    ensures
        res@ == colon_join(strs_view(args@)),
{
    let mut out = String::new();
    let mut i: usize = 0;
    proof {
        assert(strs_view(args@).take(0) =~= Seq::<Seq<char>>::empty());
    }
    while i < args.len()
        invariant
            i <= args@.len(),
            out@ == colon_join(strs_view(args@).take(i as int)),
        decreases args@.len() - i,
    {
        let ghost before = out@;
        if i > 0 {
            push_str(&mut out, " ");
        }
        push_str(&mut out, args[i].as_str());
        push_str(&mut out, ":");
        proof {
            let sv = strs_view(args@);
            assert(sv.take(i + 1).drop_last() =~= sv.take(i as int));
            assert(sv.take(i + 1).last() == args@[i as int]@);
            if i == 0 {
                assert(sv.take(1)[0] == args@[0]@);
                assert(before =~= Seq::<char>::empty());
            }
            assert(out@ =~= colon_join(sv.take(i + 1)));
        }
        i = i + 1;
    }
    proof {
        assert(strs_view(args@).take(args@.len() as int) =~= strs_view(args@));
    }
    out
}

/// The names among `names` that start with `prefix`.
fn select_with_prefix(names: Vec<String>, prefix: &[char]) -> (res: Vec<String>)
    ensures
        strs_view(res@) == with_prefix(strs_view(names@), prefix@),
{
    let ghost ns = strs_view(names@);
    let mut res: Vec<String> = Vec::new();
    let mut i: usize = 0;
    proof {
        assert(ns.take(0) =~= Seq::<Seq<char>>::empty());
    }
    while i < names.len()
        invariant
            i <= names@.len(),
            ns == strs_view(names@),
            strs_view(res@) == with_prefix(ns.take(i as int), prefix@),
        decreases names@.len() - i,
    {
        let nc = chars_of(names[i].as_str());
        proof {
            assert(ns.take(i + 1).drop_last() =~= ns.take(i as int));
            assert(ns.take(i + 1).last() == names@[i as int]@);
        }
        if super::command::chars_prefix_of(prefix, nc.as_slice()) {
            let ghost before = res@;
            res.push(names[i].clone());
            proof {
                assert(strs_view(res@) =~= strs_view(before).push(names@[i as int]@));
            }
        }
        i = i + 1;
    }
    proof {
        assert(ns.take(names@.len() as int) =~= ns);
    }
    res
}

/// The flags `--name` among `names` that start with `prefix`.
fn select_flags_with_prefix(names: Vec<String>, prefix: &[char]) -> (res: Vec<String>)
    ensures
        strs_view(res@) == flags_with_prefix(strs_view(names@), prefix@),
{
    let ghost ns = strs_view(names@);
    let mut res: Vec<String> = Vec::new();
    let mut i: usize = 0;
    proof {
        assert(ns.take(0) =~= Seq::<Seq<char>>::empty());
    }
    while i < names.len()
        invariant
            i <= names@.len(),
            ns == strs_view(names@),
            strs_view(res@) == flags_with_prefix(ns.take(i as int), prefix@),
        decreases names@.len() - i,
    {
        let f = as_flag(&names[i]);
        let fc = chars_of(f.as_str());
        proof {
            assert(ns.take(i + 1).drop_last() =~= ns.take(i as int));
            assert(ns.take(i + 1).last() == names@[i as int]@);
        }
        if super::command::chars_prefix_of(prefix, fc.as_slice()) {
            let ghost before = res@;
            let ghost fv = f@;
            res.push(f);
            proof {
                assert(strs_view(res@) =~= strs_view(before).push(fv));
            }
        }
        i = i + 1;
    }
    proof {
        assert(ns.take(names@.len() as int) =~= ns);
    }
    res
}

/// The characters of `s` from position `k` on.
fn chars_from(s: &String, k: usize) -> (res: String)
    requires
        k <= s@.len(),
    ensures
        res@ == s@.skip(k as int),
{
    let cs = chars_of(s.as_str());
    let tail = crate::text::chars_between(cs.as_slice(), k, cs.len());
    proof {
        assert(s@.skip(k as int) =~= s@.subrange(k as int, s@.len() as int));
    }
    string_of(tail.as_slice())
}

pub open spec fn line_ends_with_space(line: Seq<char>) -> bool {
    line.len() > 0 && is_white_space(line.last())
}

/// The hint for `line` with the cursor at `pos`: none where the line
/// parses, else the parse error's message and the text that would
/// complete the word at the cursor.
pub open spec fn hint_spec(line: Seq<char>, pos: int) -> Option<(Seq<char>, Option<Seq<char>>)> {
    match parse_line_spec(line) {
        Ok(_) => None,
        Err(e) => Some(
            (
                super::error::message_spec(e),
                hint_completion_spec(e, line_ends_with_space(line), line, pos),
            ),
        ),
    }
}

impl Helper {
    /// The text that would complete the word before the cursor at `pos`,
    /// given the error that parsing `line` gave.
    fn hint_completion(
        &self,
        err: UshParseError,
        line_ends_with_space: bool,
        line: &str,
        pos: usize,
    ) -> (res: Option<String>)
        ensures
            match res {
                Some(r) => hint_completion_spec(err@, line_ends_with_space, line@, pos as int)
                    == Some(r@),
                None => hint_completion_spec(err@, line_ends_with_space, line@, pos as int) is None,
            },
    {
        let cs = chars_of(line);
        if pos < cs.len() {
            return None;
        }
        match err {
            UshParseError::UnknownCommand(command) => {
                let names = UshCommand::get_for_prefix(command.value.as_str());
                let ghost nv = names@.map_values(|s: &'static str| s@);
                match iter_single(names) {
                    None => None,
                    Some(completion) => {
                        proof {
                            assert(nv.len() == 1);
                            assert(nv[0] == completion@);
                            assert(names_with_prefix(command.value@).len() == 1);
                            assert(command.value@.is_prefix_of(nv[0]));
                        }
                        let owned = completion.to_owned();
                        let vc = chars_of(command.value.as_str());
                        Some(chars_from(&owned, vc.len()))
                    },
                }
            },
            UshParseError::MissingRequiredArg(arg_name) => {
                let mut out = String::new();
                if !line_ends_with_space {
                    push_str(&mut out, " ");
                }
                push_str(&mut out, arg_name.as_str());
                push_str(&mut out, ":");
                proof {
                    assert(out@ =~= space_unless(line_ends_with_space) + arg_name@ + ":"@);
                }
                Some(out)
            },
            UshParseError::MissingRequiredArgs(args) => {
                let mut out = String::new();
                if !line_ends_with_space {
                    push_str(&mut out, " ");
                }
                let joined = colon_join_exec(&args);
                push_str(&mut out, joined.as_str());
                proof {
                    assert(out@ =~= space_unless(line_ends_with_space) + colon_join(strs_view(args@)));
                }
                Some(out)
            },
            UshParseError::ExpectedArg(name, possible_args) => {
                let start = char_position_of(cs.as_slice(), name.span.start);
                if char_position_of(cs.as_slice(), name.span.end) != pos || start > pos || pos > cs.len() {
                    return None;
                }
                let typed = crate::text::chars_between(cs.as_slice(), start, pos);
                let selected = select_with_prefix(possible_args, typed.as_slice());
                let ghost sv = strs_view(selected@);
                match iter_single(selected) {
                    None => None,
                    Some(c) => {
                        proof {
                            assert(sv[0] == c@);
                            lemma_with_prefix_all(strs_view(possible_args@), typed@);
                            assert(typed@.is_prefix_of(sv[0]));
                        }
                        Some(chars_from(&c, pos - start))
                    },
                }
            },
            UshParseError::UnexpectedFlag(flag, possible_values) => {
                let start = char_position_of(cs.as_slice(), flag.span.start);
                if char_position_of(cs.as_slice(), flag.span.end) != pos || start > pos || pos > cs.len() {
                    return None;
                }
                let typed = crate::text::chars_between(cs.as_slice(), start, pos);
                let selected = select_flags_with_prefix(possible_values, typed.as_slice());
                let ghost sv = strs_view(selected@);
                match iter_single(selected) {
                    None => None,
                    Some(c) => {
                        proof {
                            assert(sv[0] == c@);
                            lemma_flags_with_prefix_all(strs_view(possible_values@), typed@);
                            assert(typed@.is_prefix_of(sv[0]));
                        }
                        Some(chars_from(&c, pos - start))
                    },
                }
            },
            _ => None,
        }
    }

    /// The hint for `line` with the cursor at `pos`.
    pub fn hint(&self, line: &str, pos: usize) -> (res: Option<Hint>)
        ensures
            match res {
                Some(h) => hint_spec(line@, pos as int) == Some(
                    (h.display_spec(), h.completion_spec()),
                ),
                None => hint_spec(line@, pos as int) is None,
            },
    {
        let result = parse_line(line);
        match result {
            Ok(_) => None,
            Err(err) => {
                let display = err.message();
                let cs = chars_of(line);
                let ends = cs.len() > 0 && is_white_space_char(cs[cs.len() - 1]);
                let completion = self.hint_completion(err, ends, line, pos);
                Some(Hint { display, completion })
            },
        }
    }

    /// Whether `input` is a complete command: `Err` with the parse error's
    /// message where it is not.
    pub fn validate(&self, input: &str) -> (res: Result<(), String>)
        ensures
            match res {
                Ok(_) => parse_line_spec(input@) is Ok,
                Err(m) => parse_line_spec(input@) matches Err(e) && m@ == super::error::message_spec(e),
            },
    {
        match parse_line(input) {
            Ok(_) => Ok(()),
            Err(err) => Err(err.message()),
        }
    }
}

proof fn lemma_with_prefix_all(names: Seq<Seq<char>>, p: Seq<char>)
    ensures
        forall|i: int| 0 <= i < with_prefix(names, p).len() ==> p.is_prefix_of(
            #[trigger] with_prefix(names, p)[i],
        ),
    decreases names.len(),
{
    if names.len() > 0 {
        lemma_with_prefix_all(names.drop_last(), p);
        let a = with_prefix(names.drop_last(), p);
        assert forall|i: int| 0 <= i < with_prefix(names, p).len() implies p.is_prefix_of(
            #[trigger] with_prefix(names, p)[i],
        ) by {
            if i < a.len() {
                assert(with_prefix(names, p)[i] == a[i]);
            }
        }
    }
}

proof fn lemma_flags_with_prefix_all(names: Seq<Seq<char>>, p: Seq<char>)
    ensures
        forall|i: int| 0 <= i < flags_with_prefix(names, p).len() ==> p.is_prefix_of(
            #[trigger] flags_with_prefix(names, p)[i],
        ),
    decreases names.len(),
{
    if names.len() > 0 {
        lemma_flags_with_prefix_all(names.drop_last(), p);
        let a = flags_with_prefix(names.drop_last(), p);
        assert forall|i: int| 0 <= i < flags_with_prefix(names, p).len() implies p.is_prefix_of(
            #[trigger] flags_with_prefix(names, p)[i],
        ) by {
            if i < a.len() {
                assert(flags_with_prefix(names, p)[i] == a[i]);
            }
        }
    }
}

} // verus!
