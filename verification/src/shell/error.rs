//! Errors of the shell command parser, and decimal `i32` parsing.

use vstd::prelude::*;

use super::args::ArgHint;
use super::span::Spanned;
use super::url::{decimal, decimal_chars};
use crate::text::{push_str, string_of};

verus! {

/// The ways in which a decimal integer can fail to parse.
#[derive(PartialEq, Eq, Clone, Copy, Debug)]
pub enum IntErrorKind {
    Empty,
    InvalidDigit,
    PosOverflow,
    NegOverflow,
}

/// Error of [`parse_i32`].
#[derive(PartialEq, Eq, Clone, Copy, Debug)]
pub struct ParseIntError {
    pub kind: IntErrorKind,
}

/// Errors of the command parser.
#[derive(PartialEq, Eq, Clone, Debug)]
pub enum UshParseError {
    Empty,
    UnknownCommand(Spanned<String>),
    UnexpectedToken(Spanned<String>),
    ExpectedEndOfInput(Spanned<String>),
    MissingRequiredArg(String),
    MissingRequiredArgs(Vec<String>),
    ExpectedArg(Spanned<String>, Vec<String>),
    UnexpectedArg(Spanned<String>),
    UnexpectedFlag(Spanned<String>, Vec<String>),
    FlagGroupConflict(String, Spanned<String>, Spanned<String>),
    MissingFlagGroupRequiredFlag(String, Vec<String>),
    EmptyArg(Spanned<String>, ArgHint),
    ParseIntError(ParseIntError),
}

/// The mathematical content of a [`UshParseError`].
pub enum ParseErrorView {
    Empty,
    UnknownCommand(Spanned<Seq<char>>),
    UnexpectedToken(Spanned<Seq<char>>),
    ExpectedEndOfInput(Spanned<Seq<char>>),
    MissingRequiredArg(Seq<char>),
    MissingRequiredArgs(Seq<Seq<char>>),
    ExpectedArg(Spanned<Seq<char>>, Seq<Seq<char>>),
    UnexpectedArg(Spanned<Seq<char>>),
    UnexpectedFlag(Spanned<Seq<char>>, Seq<Seq<char>>),
    FlagGroupConflict(Seq<char>, Spanned<Seq<char>>, Spanned<Seq<char>>),
    MissingFlagGroupRequiredFlag(Seq<char>, Seq<Seq<char>>),
    EmptyArg(Spanned<Seq<char>>, ArgHint),
    ParseIntError(IntErrorKind),
}

/// The character sequences of a list of strings.
pub open spec fn strs_view(v: Seq<String>) -> Seq<Seq<char>> {
    v.map_values(|s: String| s@)
}

impl View for UshParseError {
    type V = ParseErrorView;

    open spec fn view(&self) -> ParseErrorView {
        match self {
            UshParseError::Empty => ParseErrorView::Empty,
            UshParseError::UnknownCommand(s) => ParseErrorView::UnknownCommand(s@),
            UshParseError::UnexpectedToken(s) => ParseErrorView::UnexpectedToken(s@),
            UshParseError::ExpectedEndOfInput(s) => ParseErrorView::ExpectedEndOfInput(s@),
            UshParseError::MissingRequiredArg(s) => ParseErrorView::MissingRequiredArg(s@),
            UshParseError::MissingRequiredArgs(v) => ParseErrorView::MissingRequiredArgs(
                strs_view(v@),
            ),
            UshParseError::ExpectedArg(s, v) => ParseErrorView::ExpectedArg(s@, strs_view(v@)),
            UshParseError::UnexpectedArg(s) => ParseErrorView::UnexpectedArg(s@),
            UshParseError::UnexpectedFlag(s, v) => ParseErrorView::UnexpectedFlag(
                s@,
                strs_view(v@),
            ),
            UshParseError::FlagGroupConflict(g, a, b) => ParseErrorView::FlagGroupConflict(
                g@,
                a@,
                b@,
            ),
            UshParseError::MissingFlagGroupRequiredFlag(g, v) =>
                ParseErrorView::MissingFlagGroupRequiredFlag(g@, strs_view(v@)),
            UshParseError::EmptyArg(s, h) => ParseErrorView::EmptyArg(s@, *h),
            UshParseError::ParseIntError(e) => ParseErrorView::ParseIntError(e.kind),
        }
    }
}

pub open spec fn is_digit(c: char) -> bool {
    '0' <= c && c <= '9'
}

pub open spec fn digit_value(c: char) -> int {
    c as int - '0' as int
}

/// Reads the decimal digits `ds` from left to right, checking for overflow
/// before validating each digit, away from zero in the direction given by `neg`.
pub open spec fn accumulate_digits(ds: Seq<char>, neg: bool) -> Result<int, IntErrorKind>
    decreases ds.len(),
{
    if ds.len() == 0 {
        Ok(0)
    } else {
        match accumulate_digits(ds.drop_last(), neg) {
            Err(e) => Err(e),
            Ok(a) => {
                let c = ds.last();
                if !neg {
                    if a * 10 > i32::MAX {
                        Err(IntErrorKind::PosOverflow)
                    } else if !is_digit(c) {
                        Err(IntErrorKind::InvalidDigit)
                    } else if a * 10 + digit_value(c) > i32::MAX {
                        Err(IntErrorKind::PosOverflow)
                    } else {
                        Ok(a * 10 + digit_value(c))
                    }
                } else {
                    if a * 10 < i32::MIN {
                        Err(IntErrorKind::NegOverflow)
                    } else if !is_digit(c) {
                        Err(IntErrorKind::InvalidDigit)
                    } else if a * 10 - digit_value(c) < i32::MIN {
                        Err(IntErrorKind::NegOverflow)
                    } else {
                        Ok(a * 10 - digit_value(c))
                    }
                }
            },
        }
    }
}

/// Decimal `i32` syntax: an optional `+` or `-` followed by at least one digit.
pub open spec fn parse_i32_spec(s: Seq<char>) -> Result<int, IntErrorKind> {
    if s.len() == 0 {
        Err(IntErrorKind::Empty)
    } else if (s[0] == '+' || s[0] == '-') && s.len() == 1 {
        Err(IntErrorKind::InvalidDigit)
    } else if s[0] == '+' {
        accumulate_digits(s.skip(1), false)
    } else if s[0] == '-' {
        accumulate_digits(s.skip(1), true)
    } else {
        accumulate_digits(s, false)
    }
}

proof fn lemma_accumulate_range(ds: Seq<char>, neg: bool)
    ensures
        accumulate_digits(ds, neg) matches Ok(v) ==> i32::MIN <= v <= i32::MAX && (neg ==> v <= 0)
            && (!neg ==> v >= 0),
    decreases ds.len(),
{
    if ds.len() > 0 {
        lemma_accumulate_range(ds.drop_last(), neg);
    }
}

proof fn lemma_accumulate_prefix_error(ds: Seq<char>, k: int, neg: bool)
    requires
        0 <= k <= ds.len(),
        accumulate_digits(ds.take(k), neg) is Err,
    ensures
        accumulate_digits(ds, neg) == accumulate_digits(ds.take(k), neg),
    decreases ds.len() - k,
{
    if k < ds.len() {
        assert(ds.take(k + 1).drop_last() =~= ds.take(k));
        lemma_accumulate_prefix_error(ds, k + 1, neg);
    } else {
        assert(ds.take(k) =~= ds);
    }
}

/// Parses a decimal `i32` from characters.
pub fn parse_i32(s: &[char]) -> (res: Result<i32, ParseIntError>)
    ensures
        match res {
            Ok(v) => parse_i32_spec(s@) == Ok::<int, IntErrorKind>(v as int),
            Err(e) => parse_i32_spec(s@) == Err::<int, IntErrorKind>(e.kind),
        },
{
    let len = s.len();
    if len == 0 {
        return Err(ParseIntError { kind: IntErrorKind::Empty });
    }
    if (s[0] == '+' || s[0] == '-') && len == 1 {
        return Err(ParseIntError { kind: IntErrorKind::InvalidDigit });
    }
    let neg = s[0] == '-';
    let start: usize = if s[0] == '+' || s[0] == '-' {
        1
    } else {
        0
    };
    let ghost ds = s@.skip(start as int);
    proof {
        if start == 0 {
            assert(ds =~= s@);
        }
        assert(parse_i32_spec(s@) == accumulate_digits(ds, neg));
        assert(ds.take(0) =~= Seq::<char>::empty());
    }
    let mut acc: i32 = 0;
    let mut i = start;
    while i < len
        invariant
            start <= i <= len,
            len == s@.len(),
            ds == s@.skip(start as int),
            parse_i32_spec(s@) == accumulate_digits(ds, neg),
            accumulate_digits(ds.take(i - start), neg) == Ok::<int, IntErrorKind>(acc as int),
        decreases len - i,
    {
        let c = s[i];
        proof {
            assert(ds.take(i + 1 - start).drop_last() =~= ds.take(i - start));
            assert(ds.take(i + 1 - start).last() == c);
            lemma_accumulate_range(ds.take(i - start), neg);
        }
        let m = acc.checked_mul(10);
        match m {
            None => {
                proof {
                    let k = i + 1 - start;
                    assert(acc * 10 > i32::MAX || acc * 10 < i32::MIN);
                    if neg {
                        assert(accumulate_digits(ds.take(k), neg) == Err::<int, IntErrorKind>(IntErrorKind::NegOverflow));
                    } else {
                        assert(accumulate_digits(ds.take(k), neg) == Err::<int, IntErrorKind>(IntErrorKind::PosOverflow));
                    }
                    lemma_accumulate_prefix_error(ds, k, neg);
                }
                return Err(
                    ParseIntError {
                        kind: if neg {
                            IntErrorKind::NegOverflow
                        } else {
                            IntErrorKind::PosOverflow
                        },
                    },
                );
            },
            Some(m) => {
                if !(c >= '0' && c <= '9') {
                    proof {
                        let k = i + 1 - start;
                        assert(m == acc * 10);
                        assert(!is_digit(c));
                        assert(accumulate_digits(ds.take(k), neg) == Err::<int, IntErrorKind>(IntErrorKind::InvalidDigit));
                        lemma_accumulate_prefix_error(ds, k, neg);
                    }
                    return Err(ParseIntError { kind: IntErrorKind::InvalidDigit });
                }
                let d = (c as u32 - '0' as u32) as i32;
                let next = if neg {
                    m.checked_sub(d)
                } else {
                    m.checked_add(d)
                };
                match next {
                    None => {
                        proof {
                            lemma_accumulate_prefix_error(ds, i + 1 - start, neg);
                        }
                        return Err(
                            ParseIntError {
                                kind: if neg {
                                    IntErrorKind::NegOverflow
                                } else {
                                    IntErrorKind::PosOverflow
                                },
                            },
                        );
                    },
                    Some(n) => {
                        acc = n;
                    },
                }
            },
        }
        i = i + 1;
    }
    proof {
        assert(ds.take(len - start) =~= ds);
    }
    Ok(acc)
}

/// The Rust debug representation of a string: quoted, with special
/// characters escaped.
pub uninterp spec fn debug_quoted(s: Seq<char>) -> Seq<char>;

/// Formats `s` with `{:?}` (`<str as Debug>::fmt`).
#[verifier::external_body]
fn debug_str(s: &str) -> (res: String)
    ensures
        res@ == debug_quoted(s@),
{
    format!("{:?}", s)
}

/// The items of `v` in debug form, separated by `, `.
pub open spec fn debug_items(v: Seq<Seq<char>>) -> Seq<char>
    decreases v.len(),
{
    if v.len() == 0 {
        Seq::empty()
    } else if v.len() == 1 {
        debug_quoted(v[0])
    } else {
        debug_items(v.drop_last()) + ", "@ + debug_quoted(v.last())
    }
}

/// A list of strings in debug form: `["a", "b"]`.
pub open spec fn debug_list(v: Seq<Seq<char>>) -> Seq<char> {
    "["@ + debug_items(v) + "]"@
}

/// The message of an integer parse error.
pub open spec fn int_error_message(k: IntErrorKind) -> Seq<char> {
    match k {
        IntErrorKind::Empty => "cannot parse integer from empty string"@,
        IntErrorKind::InvalidDigit => "invalid digit found in string"@,
        IntErrorKind::PosOverflow => "number too large to fit in target type"@,
        IntErrorKind::NegOverflow => "number too small to fit in target type"@,
    }
}

/// The message of a parse error, as shown to the user.
pub open spec fn message_spec(e: ParseErrorView) -> Seq<char> {
    match e {
        ParseErrorView::Empty => "empty"@,
        ParseErrorView::UnknownCommand(s) => "unknown command: "@ + s.value,
        ParseErrorView::UnexpectedToken(s) => "unexpected token: "@ + s.value,
        ParseErrorView::ExpectedEndOfInput(s) => "expected end, got: "@ + s.value,
        ParseErrorView::MissingRequiredArg(a) => "missing required arg: "@ + a,
        ParseErrorView::MissingRequiredArgs(v) => "missing required args: "@ + debug_list(v),
        ParseErrorView::ExpectedArg(s, v) => "expected arg, got: "@ + s.value
            + " (possible values: "@ + debug_list(v) + ")"@,
        ParseErrorView::UnexpectedArg(s) => "unexpected arg: "@ + s.value,
        ParseErrorView::UnexpectedFlag(s, v) => "unexpected flag: "@ + s.value
            + " (possible values: "@ + debug_list(v) + ")"@,
        ParseErrorView::FlagGroupConflict(g, a, b) => "multiple flags in group '"@ + g + "': "@
            + a.value + " and "@ + b.value,
        ParseErrorView::MissingFlagGroupRequiredFlag(g, v) => "missing required flag group flag: "@
            + g + " (possible values: "@ + debug_list(v) + ")"@,
        ParseErrorView::EmptyArg(s, _) => "expected non-empty arg, got: "@ + debug_quoted(s.value)
            + " @ "@ + decimal(s.span.start as nat) + ".."@ + decimal(s.span.end as nat),
        ParseErrorView::ParseIntError(k) => "parse int error: "@ + int_error_message(k),
    }
}

fn push_debug_list(out: &mut String, v: &Vec<String>)
    ensures
        final(out)@ == old(out)@ + debug_list(strs_view(v@)),
{
    let ghost start = out@;
    push_str(out, "[");
    let mut i: usize = 0;
    while i < v.len()
        invariant
            i <= v@.len(),
            out@ == start + "["@ + debug_items(strs_view(v@).take(i as int)),
        decreases v@.len() - i,
    {
        let ghost before = out@;
        if i > 0 {
            push_str(out, ", ");
        }
        let d = debug_str(v[i].as_str());
        push_str(out, d.as_str());
        proof {
            let sv = strs_view(v@);
            assert(sv.take(i + 1).drop_last() =~= sv.take(i as int));
            assert(sv.take(i + 1).last() == v@[i as int]@);
            if i == 0 {
                assert(sv.take(0) =~= Seq::<Seq<char>>::empty());
                assert(sv.take(1)[0] == v@[0]@);
                assert(out@ =~= start + "["@ + debug_items(sv.take(i + 1)));
            } else {
                assert(out@ =~= start + "["@ + debug_items(sv.take(i + 1)));
            }
        }
        i = i + 1;
    }
    push_str(out, "]");
    proof {
        assert(strs_view(v@).take(v@.len() as int) =~= strs_view(v@));
        assert(out@ =~= start + debug_list(strs_view(v@)));
    }
}

fn push_decimal(out: &mut String, n: usize)
    ensures
        final(out)@ == old(out)@ + decimal(n as nat),
{
    let ds = decimal_chars(n as u64);
    let s = string_of(ds.as_slice());
    push_str(out, s.as_str());
}

impl UshParseError {
    /// The message shown to the user for this error.
    pub fn message(&self) -> (res: String)
        ensures
            res@ == message_spec(self@),
    {
        let mut out = String::new();
        match self {
            UshParseError::Empty => {
                push_str(&mut out, "empty");
            },
            UshParseError::UnknownCommand(s) => {
                push_str(&mut out, "unknown command: ");
                push_str(&mut out, s.value.as_str());
            },
            UshParseError::UnexpectedToken(s) => {
                push_str(&mut out, "unexpected token: ");
                push_str(&mut out, s.value.as_str());
            },
            UshParseError::ExpectedEndOfInput(s) => {
                push_str(&mut out, "expected end, got: ");
                push_str(&mut out, s.value.as_str());
            },
            UshParseError::MissingRequiredArg(a) => {
                push_str(&mut out, "missing required arg: ");
                push_str(&mut out, a.as_str());
            },
            UshParseError::MissingRequiredArgs(v) => {
                push_str(&mut out, "missing required args: ");
                push_debug_list(&mut out, v);
            },
            UshParseError::ExpectedArg(s, v) => {
                push_str(&mut out, "expected arg, got: ");
                push_str(&mut out, s.value.as_str());
                push_str(&mut out, " (possible values: ");
                push_debug_list(&mut out, v);
                push_str(&mut out, ")");
            },
            UshParseError::UnexpectedArg(s) => {
                push_str(&mut out, "unexpected arg: ");
                push_str(&mut out, s.value.as_str());
            },
            UshParseError::UnexpectedFlag(s, v) => {
                push_str(&mut out, "unexpected flag: ");
                push_str(&mut out, s.value.as_str());
                push_str(&mut out, " (possible values: ");
                push_debug_list(&mut out, v);
                push_str(&mut out, ")");
            },
            UshParseError::FlagGroupConflict(g, a, b) => {
                push_str(&mut out, "multiple flags in group '");
                push_str(&mut out, g.as_str());
                push_str(&mut out, "': ");
                push_str(&mut out, a.value.as_str());
                push_str(&mut out, " and ");
                push_str(&mut out, b.value.as_str());
            },
            UshParseError::MissingFlagGroupRequiredFlag(g, v) => {
                push_str(&mut out, "missing required flag group flag: ");
                push_str(&mut out, g.as_str());
                push_str(&mut out, " (possible values: ");
                push_debug_list(&mut out, v);
                push_str(&mut out, ")");
            },
            UshParseError::EmptyArg(s, _) => {
                push_str(&mut out, "expected non-empty arg, got: ");
                let d = debug_str(s.value.as_str());
                push_str(&mut out, d.as_str());
                push_str(&mut out, " @ ");
                push_decimal(&mut out, s.span.start);
                push_str(&mut out, "..");
                push_decimal(&mut out, s.span.end);
            },
            UshParseError::ParseIntError(e) => {
                push_str(&mut out, "parse int error: ");
                match e.kind {
                    IntErrorKind::Empty => push_str(&mut out, "cannot parse integer from empty string"),
                    IntErrorKind::InvalidDigit => push_str(&mut out, "invalid digit found in string"),
                    IntErrorKind::PosOverflow => push_str(
                        &mut out,
                        "number too large to fit in target type",
                    ),
                    IntErrorKind::NegOverflow => push_str(
                        &mut out,
                        "number too small to fit in target type",
                    ),
                }
            },
        }
        proof {
            assert(out@ =~= message_spec(self@));
        }
        out
    }
}

} // verus!
