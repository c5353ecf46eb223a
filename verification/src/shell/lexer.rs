//! Tokenizer for shell command lines.
//!
//! A line is split into tokens after skipping blanks (space, tab, form feed):
//! * `Value`: a maximal run of `[~a-zA-Z0-9_.\\/:-]`;
//! * `SingleQuotedValue`: `'` up to and including the next `'`;
//! * `DoubleQuotedValue`: `"` up to the first `"` that is not escaped, where a
//!   backslash run inside the quotes must have odd length and be followed by `"`;
//! * `Error`: anything else.  An unterminated or malformed quoted value yields an
//!   `Error` covering the characters read before the scan failed; any other
//!   character that cannot start a token yields a one-character `Error`.
//!
//! Spans are byte offsets into the line's UTF-8 encoding.

use vstd::prelude::*;

use super::span::{Span, Spanned};
use crate::text::{byte_offset, byte_offsets, chars_of, string_of};

verus! {

/// The kinds of token of a command line.
#[derive(PartialEq, Eq, Clone, Copy, Debug)]
pub enum Token {
    Value,
    SingleQuotedValue,
    DoubleQuotedValue,
    Error,
}

/// A token together with its span and the text it covers.
#[derive(PartialEq, Eq, Clone, Debug)]
pub struct Lexeme {
    pub token: Token,
    pub span: Span,
    pub text: String,
}

/// The mathematical content of a [`Lexeme`].
pub struct LexemeView {
    pub token: Token,
    pub span: Span,
    pub text: Seq<char>,
}

impl View for Lexeme {
    type V = LexemeView;

    open spec fn view(&self) -> LexemeView {
        LexemeView { token: self.token, span: self.span, text: self.text@ }
    }
}

pub open spec fn is_value_char(c: char) -> bool {
    ||| ('a' <= c && c <= 'z')
    ||| ('A' <= c && c <= 'Z')
    ||| ('0' <= c && c <= '9')
    ||| c == '~'
    ||| c == '_'
    ||| c == '.'
    ||| c == '\\'
    ||| c == '/'
    ||| c == ':'
    ||| c == '-'
}

pub open spec fn is_blank(c: char) -> bool {
    c == ' ' || c == '\t' || c == '\x0c'
}

/// First position at or after `i` that does not hold a blank.
pub open spec fn skip_blanks(s: Seq<char>, i: int) -> int
    decreases s.len() - i,
{
    if 0 <= i < s.len() && is_blank(s[i]) {
        skip_blanks(s, i + 1)
    } else {
        i
    }
}

/// First position at or after `i` that does not hold a value character.
pub open spec fn value_end(s: Seq<char>, i: int) -> int
    decreases s.len() - i,
{
    if 0 <= i < s.len() && is_value_char(s[i]) {
        value_end(s, i + 1)
    } else {
        i
    }
}

/// Position of the first `'` at or after `i`, or `s.len()` if there is none.
pub open spec fn squote_close(s: Seq<char>, i: int) -> int
    decreases s.len() - i,
{
    if i < 0 || i >= s.len() {
        s.len() as int
    } else if s[i] == '\'' {
        i
    } else {
        squote_close(s, i + 1)
    }
}

/// Scans the inside of a double-quoted value from `i`.  `run` is 0 outside a
/// backslash run, 1 inside a run of odd length and 2 inside a run of even length.
/// Yields whether the value was closed, and the position after the closing
/// quote (on success) or the position where the scan failed.
pub open spec fn dquote_scan(s: Seq<char>, i: int, run: int) -> (bool, int)
    decreases s.len() - i,
{
    if i < 0 || i >= s.len() {
        (false, i)
    } else if run == 0 {
        if s[i] == '"' {
            (true, i + 1)
        } else if s[i] == '\\' {
            dquote_scan(s, i + 1, 1)
        } else {
            dquote_scan(s, i + 1, 0)
        }
    } else if s[i] == '\\' {
        dquote_scan(s, i + 1, if run == 1 { 2 } else { 1 })
    } else if s[i] == '"' && run == 1 {
        dquote_scan(s, i + 1, 0)
    } else {
        (false, i)
    }
}

/// The token starting at `st` and the position where it ends.
pub open spec fn token_at(s: Seq<char>, st: int) -> (Token, int) {
    if is_value_char(s[st]) {
        (Token::Value, value_end(s, st))
    } else if s[st] == '\'' {
        let c = squote_close(s, st + 1);
        if c < s.len() {
            (Token::SingleQuotedValue, c + 1)
        } else {
            (Token::Error, s.len() as int)
        }
    } else if s[st] == '"' {
        let r = dquote_scan(s, st + 1, 0);
        (if r.0 {
            Token::DoubleQuotedValue
        } else {
            Token::Error
        }, r.1)
    } else {
        (Token::Error, st + 1)
    }
}

/// The tokens of `s` from position `i` on.
pub open spec fn lex_from(s: Seq<char>, i: int) -> Seq<LexemeView>
    decreases s.len() - i,
{
    let st = skip_blanks(s, i);
    if i < 0 || st >= s.len() {
        Seq::empty()
    } else {
        let (tok, end) = token_at(s, st);
        if end <= st || end <= i || end > s.len() {
            Seq::empty()
        } else {
            seq![
                LexemeView {
                    token: tok,
                    span: Span { start: byte_offset(s, st) as usize, end: byte_offset(s, end) as usize },
                    text: s.subrange(st, end),
                },
            ] + lex_from(s, end)
        }
    }
}

/// The tokens of a whole line.
pub open spec fn lex_spec(s: Seq<char>) -> Seq<LexemeView> {
    lex_from(s, 0)
}

proof fn lemma_skip_blanks(s: Seq<char>, i: int)
    requires
        0 <= i <= s.len(),
    ensures
        i <= skip_blanks(s, i) <= s.len(),
        skip_blanks(s, i) < s.len() ==> !is_blank(s[skip_blanks(s, i)]),
    decreases s.len() - i,
{
    if i < s.len() && is_blank(s[i]) {
        lemma_skip_blanks(s, i + 1);
    }
}

proof fn lemma_value_end(s: Seq<char>, i: int)
    requires
        0 <= i <= s.len(),
    ensures
        i <= value_end(s, i) <= s.len(),
    decreases s.len() - i,
{
    if i < s.len() && is_value_char(s[i]) {
        lemma_value_end(s, i + 1);
    }
}

proof fn lemma_squote_close(s: Seq<char>, i: int)
    requires
        0 <= i <= s.len(),
    ensures
        i <= squote_close(s, i) <= s.len(),
    decreases s.len() - i,
{
    if i < s.len() && s[i] != '\'' {
        lemma_squote_close(s, i + 1);
    }
}

proof fn lemma_dquote_scan(s: Seq<char>, i: int, run: int)
    requires
        0 <= i <= s.len(),
    ensures
        i <= dquote_scan(s, i, run).1 <= s.len(),
        dquote_scan(s, i, run).0 ==> i < dquote_scan(s, i, run).1,
    decreases s.len() - i,
{
    if i < s.len() {
        if run == 0 {
            if s[i] == '"' {
            } else if s[i] == '\\' {
                lemma_dquote_scan(s, i + 1, 1);
            } else {
                lemma_dquote_scan(s, i + 1, 0);
            }
        } else if s[i] == '\\' {
            lemma_dquote_scan(s, i + 1, if run == 1 { 2 } else { 1 });
        } else if s[i] == '"' && run == 1 {
            lemma_dquote_scan(s, i + 1, 0);
        }
    }
}

fn is_value_char_exec(c: char) -> (b: bool)
    ensures
        b == is_value_char(c),
{
    (c >= 'a' && c <= 'z') || (c >= 'A' && c <= 'Z') || (c >= '0' && c <= '9') || c == '~' || c
        == '_' || c == '.' || c == '\\' || c == '/' || c == ':' || c == '-'
}

fn is_blank_exec(c: char) -> (b: bool)
    ensures
        b == is_blank(c),
{
    c == ' ' || c == '\t' || c == '\x0c'
}

/// Computes the token starting at `st` (which holds no blank) and its end.
fn token_at_exec(s: &Vec<char>, st: usize) -> (res: (Token, usize))
    requires
        st < s@.len(),
    ensures
        res.0 == token_at(s@, st as int).0,
        res.1 == token_at(s@, st as int).1,
        st < res.1 <= s@.len(),
{
    let len = s.len();
    let c = s[st];
    if is_value_char_exec(c) {
        let mut j = st;
        while j < len && is_value_char_exec(s[j])
            invariant
                st <= j <= len,
                len == s@.len(),
                value_end(s@, st as int) == value_end(s@, j as int),
                forall|k: int| st <= k < j ==> is_value_char(#[trigger] s@[k]),
            decreases len - j,
        {
            j = j + 1;
        }
        proof {
            assert(is_value_char(s@[st as int]));
        }
        (Token::Value, j)
    } else if c == '\'' {
        let mut j = st + 1;
        while j < len && s[j] != '\''
            invariant
                st < j <= len,
                len == s@.len(),
                squote_close(s@, st + 1) == squote_close(s@, j as int),
            decreases len - j,
        {
            j = j + 1;
        }
        if j < len {
            (Token::SingleQuotedValue, j + 1)
        } else {
            (Token::Error, len)
        }
    } else if c == '"' {
        let mut j = st + 1;
        let mut run: u8 = 0;
        let mut done = false;
        let mut ok = false;
        while !done
            invariant
                st < j <= len,
                len == s@.len(),
                run <= 2,
                !done ==> !ok,
                !done ==> dquote_scan(s@, st + 1, 0) == dquote_scan(s@, j as int, run as int),
                done ==> dquote_scan(s@, st + 1, 0) == (ok, j as int),
            decreases (len - j) as int + if done { 0int } else { 1int },
        {
            if j >= len {
                done = true;
            } else if run == 0 {
                if s[j] == '"' {
                    ok = true;
                    done = true;
                    j = j + 1;
                } else if s[j] == '\\' {
                    run = 1;
                    j = j + 1;
                } else {
                    j = j + 1;
                }
            } else if s[j] == '\\' {
                run = if run == 1 {
                    2
                } else {
                    1
                };
                j = j + 1;
            } else if s[j] == '"' && run == 1 {
                run = 0;
                j = j + 1;
            } else {
                done = true;
            }
        }
        (if ok {
            Token::DoubleQuotedValue
        } else {
            Token::Error
        }, j)
    } else {
        (Token::Error, st + 1)
    }
}

/// Splits a command line into its tokens.
pub fn lex(line: &str) -> (res: Vec<Lexeme>)
    ensures
        res@.map_values(|l: Lexeme| l@) == lex_spec(line@),
{
    let s = chars_of(line);
    let len = s.len();
    let nbytes = line.as_bytes().len();
    let offs = byte_offsets(s.as_slice(), Ghost(nbytes as nat));
    let mut out: Vec<Lexeme> = Vec::new();
    let mut i: usize = 0;
    while i < len
        invariant
            i <= len,
            len == s@.len(),
            s@ == line@,
            offs@.len() == len + 1,
            forall|k: int| 0 <= k <= len ==> offs@[k] == byte_offset(s@, k),
            out@.map_values(|l: Lexeme| l@) + lex_from(s@, i as int) == lex_spec(s@),
        decreases len - i,
    {
        let mut st = i;
        while st < len && is_blank_exec(s[st])
            invariant
                i <= st <= len,
                len == s@.len(),
                skip_blanks(s@, i as int) == skip_blanks(s@, st as int),
            decreases len - st,
        {
            st = st + 1;
        }
        proof {
            lemma_skip_blanks(s@, st as int);
        }
        if st >= len {
            proof {
                assert(lex_from(s@, i as int) =~= Seq::empty());
                assert(lex_from(s@, len as int) =~= Seq::empty());
            }
            i = len;
        } else {
            let (tok, end) = token_at_exec(&s, st);
            let text = string_of(vstd::slice::slice_subrange(s.as_slice(), st, end));
            let lexeme = Lexeme { token: tok, span: Span { start: offs[st], end: offs[end] }, text };
            let ghost prev = out@;
            out.push(lexeme);
            proof {
                let m = |l: Lexeme| l@;
                assert(out@.map_values(m) =~= prev.map_values(m).push(lexeme@));
                assert(lex_from(s@, i as int) == seq![lexeme@] + lex_from(s@, end as int));
                assert(out@.map_values(m) + lex_from(s@, end as int) =~= prev.map_values(m) + (
                seq![lexeme@] + lex_from(s@, end as int)));
            }
            i = end;
        }
    }
    proof {
        assert(lex_from(s@, len as int) =~= Seq::empty());
        assert(out@.map_values(|l: Lexeme| l@) + Seq::<LexemeView>::empty() =~= out@.map_values(
            |l: Lexeme| l@,
        ));
    }
    out
}

/// The tokens of a line still to be read, with one token of lookahead.
pub struct UshCommandLexer {
    /// The tokens still to be read, last one first.
    pending: Vec<Lexeme>,
}

impl View for UshCommandLexer {
    type V = Seq<LexemeView>;

    /// The tokens still to be read, in order.
    closed spec fn view(&self) -> Seq<LexemeView> {
        self.pending@.map_values(|l: Lexeme| l@).reverse()
    }
}

impl Lexeme {
    /// A copy of this token.
    pub fn copy(&self) -> (res: Lexeme)
        ensures
            res@ == self@,
    {
        Lexeme { token: self.token, span: self.span, text: self.text.clone() }
    }
}

impl UshCommandLexer {
    /// A lexer over the tokens of `line`.
    pub fn new(line: &str) -> (res: Self)
        ensures
            res@ == lex_spec(line@),
    {
        let mut tokens = lex(line);
        let ghost all = tokens@.map_values(|l: Lexeme| l@);
        let mut pending: Vec<Lexeme> = Vec::new();
        while tokens.len() > 0
            invariant
                all == lex_spec(line@),
                all =~= tokens@.map_values(|l: Lexeme| l@) + pending@.map_values(
                    |l: Lexeme| l@,
                ).reverse(),
            decreases tokens.len(),
        {
            let ghost before = tokens@;
            let ghost pend = pending@;
            let t = tokens.pop().unwrap();
            pending.push(t);
            proof {
                let m = |l: Lexeme| l@;
                assert(before.map_values(m) =~= tokens@.map_values(m).push(t@));
                assert(pending@.map_values(m) =~= pend.map_values(m).push(t@));
                assert(pending@.map_values(m).reverse() =~= seq![t@] + pend.map_values(m).reverse());
            }
        }
        UshCommandLexer { pending }
    }

    /// The next token, without consuming it.
    pub fn peek(&self) -> (res: Option<&Lexeme>)
        ensures
            match res {
                Some(l) => self@.len() > 0 && l@ == self@[0],
                None => self@.len() == 0,
            },
    {
        let n = self.pending.len();
        if n == 0 {
            None
        } else {
            Some(&self.pending[n - 1])
        }
    }

    /// Consumes and returns the next token.
    pub fn next(&mut self) -> (res: Option<Lexeme>)
        ensures
            match res {
                Some(l) => old(self)@.len() > 0 && l@ == old(self)@[0] && final(self)@ == old(
                    self,
                )@.skip(1),
                None => old(self)@.len() == 0 && final(self)@ == old(self)@,
            },
    {
        let ghost before = self.pending@;
        let r = self.pending.pop();
        proof {
            let m = |l: Lexeme| l@;
            if r is Some {
                assert(before.map_values(m) =~= self.pending@.map_values(m).push(r->0@));
                assert(before.map_values(m).reverse().skip(1) =~= self.pending@.map_values(
                    m,
                ).reverse());
            }
        }
        r
    }
}

} // verus!
