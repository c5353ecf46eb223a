//! The decisions of the host that runs a program and shuts it down
//! gracefully: the grace period it is given, when to stop it, and the exit
//! code the host passes on.

use vstd::prelude::*;

use crate::text::{chars_between, chars_of, push_str, string_of};

verus! {

/// The value of the decimal digits `s`.
pub open spec fn digits_value(s: Seq<char>) -> int
    decreases s.len(),
{
    if s.len() == 0 {
        0
    } else {
        digits_value(s.drop_last()) * 10 + (s.last() as int - '0' as int)
    }
}

pub open spec fn all_digits(s: Seq<char>) -> bool {
    forall|i: int| 0 <= i < s.len() ==> '0' <= #[trigger] s[i] <= '9'
}

/// The number that `s` writes as an unsigned integer: an optional `+`,
/// then one or more decimal digits, of a value that fits in 64 bits.
pub open spec fn u64_literal(s: Seq<char>) -> Option<u64> {
    let t = if s.len() > 0 && s[0] == '+' {
        s.drop_first()
    } else {
        s
    };
    if t.len() > 0 && all_digits(t) && digits_value(t) <= u64::MAX {
        Some(digits_value(t) as u64)
    } else {
        None
    }
}

/// The unsigned integer that `s` writes (`str::parse::<u64>`), or the
/// message of the parse error; the message's text is not stated.
#[verifier::external_body]
fn parse_u64(s: &str) -> (res: Result<u64, String>)
    ensures
        match res {
            Ok(n) => u64_literal(s@) == Some(n),
            Err(_) => u64_literal(s@) is None,
        },
{
    s.parse::<u64>().map_err(|e| e.to_string())
}

/// `s` without one trailing `s`, where it has one.
pub open spec fn without_seconds_suffix(s: Seq<char>) -> Seq<char> {
    if s.len() > 0 && s.last() == 's' {
        s.drop_last()
    } else {
        s
    }
}

/// The grace period written as `s`: a number of seconds, with an optional
/// `s` after it; the error message starts with `Cannot parse duration: `.
pub fn parse_duration(s: &str) -> (res: Result<u64, String>)
    ensures
        match res {
            Ok(n) => u64_literal(without_seconds_suffix(s@)) == Some(n),
            Err(m) => u64_literal(without_seconds_suffix(s@)) is None && "Cannot parse duration: "@.is_prefix_of(
                m@,
            ),
        },
{
    let cs = chars_of(s);
    let digits = if cs.len() > 0 && cs[cs.len() - 1] == 's' {
        let t = chars_between(cs.as_slice(), 0, cs.len() - 1);
        proof {
            assert(t@ =~= s@.drop_last());
        }
        string_of(t.as_slice())
    } else {
        proof {
            assert(cs@ =~= s@);
        }
        string_of(cs.as_slice())
    };
    match parse_u64(digits.as_str()) {
        Ok(n) => Ok(n),
        Err(e) => {
            let mut m = String::new();
            push_str(&mut m, "Cannot parse duration: ");
            let ghost prefix = m@;
            push_str(&mut m, e.as_str());
            proof {
                assert(m@.subrange(0, prefix.len() as int) =~= prefix);
            }
            Err(m)
        },
    }
}

/// The exit code the host passes on for the program's exit code (`None`
/// where the program was stopped by a signal): the code where it fits in a
/// byte, 1 otherwise.
pub fn exit_code_byte(code: Option<i32>) -> (res: u8)
    ensures
        res == match code {
            Some(c) => if 0 <= c <= 255 {
                c as u8
            } else {
                1u8
            },
            None => 1u8,
        },
{
    match code {
        Some(c) => {
            if 0 <= c && c <= 255 {
                c as u8
            } else {
                1
            }
        },
        None => 1,
    }
}

/// What the host sees when it looks at the program: whether it has exited
/// (and with which code), and whether the kill file was created.
#[derive(Debug, Clone, Copy, PartialEq, Eq)]
pub struct HostEvent {
    pub exited: Option<Option<i32>>,
    pub kill_file_created: bool,
}

/// What the host does next.
#[derive(Debug, Clone, Copy, PartialEq, Eq)]
pub enum HostAction {
    /// Exit with the code.
    Exit(u8),
    /// Ask the program to stop, and give it the grace period.
    BeginGrace,
    /// Look again later.
    Wait,
}

/// The host's step while the program runs: pass on the program's exit,
/// begin the grace period once the kill file is there, else wait.
pub fn host_step(event: HostEvent) -> (res: HostAction)
    ensures
        res == match event.exited {
            Some(code) => HostAction::Exit(exit_code_byte_spec(code)),
            None => if event.kill_file_created {
                HostAction::BeginGrace
            } else {
                HostAction::Wait
            },
        },
{
    match event.exited {
        Some(code) => HostAction::Exit(exit_code_byte(code)),
        None => {
            if event.kill_file_created {
                HostAction::BeginGrace
            } else {
                HostAction::Wait
            }
        },
    }
}

pub open spec fn exit_code_byte_spec(code: Option<i32>) -> u8 {
    match code {
        Some(c) => if 0 <= c <= 255 {
            c as u8
        } else {
            1u8
        },
        None => 1u8,
    }
}

} // verus!
