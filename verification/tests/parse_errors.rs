use upsilon_dev::shell::args::{ArgParse, ArgStore};
use upsilon_dev::shell::error::IntErrorKind;
use upsilon_dev::shell::args::ArgHint;
use upsilon_dev::shell::error::UshParseError;
use upsilon_dev::shell::parser::parse_line;
use upsilon_dev::shell::span::{Span, Spanned};

fn assert_empty_arg(e: &UshParseError, arg: &str, hint: ArgHint) {
    match e {
        UshParseError::EmptyArg(s, h) => {
            assert_eq!(s.value, arg);
            assert_eq!(*h, hint);
        }
        _ => panic!("expected EmptyArg, got: {e:?}"),
    }
}

fn assert_expected_end_of_input(e: &UshParseError, got: &str) {
    match e {
        UshParseError::ExpectedEndOfInput(s) => assert_eq!(s.value, got),
        _ => panic!("expected ExpectedEndOfInput, got: {e:?}"),
    }
}

fn assert_unknown_arg(e: &UshParseError, name: &str) {
    match e {
        UshParseError::UnexpectedArg(s) => assert_eq!(s.value, name),
        _ => panic!("expected UnexpectedArg, got: {e:?}"),
    }
}

fn assert_expected_arg(e: &UshParseError, got: &str, possible: &[&str]) {
    match e {
        UshParseError::ExpectedArg(s, values) => {
            assert_eq!(s.value, got);
            assert_eq!(values, possible);
        }
        _ => panic!("expected ExpectedArg, got: {e:?}"),
    }
}

fn assert_unknown_flag(e: &UshParseError, flag: &str, possible: &[&str]) {
    match e {
        UshParseError::UnexpectedFlag(s, values) => {
            assert_eq!(s.value, flag);
            let mut a = values.clone();
            let mut b: Vec<String> = possible.iter().map(|s| s.to_string()).collect();
            a.sort();
            b.sort();
            assert_eq!(a, b);
        }
        _ => panic!("expected UnexpectedFlag, got: {e:?}"),
    }
}

#[test]
fn login_username_empty() {
    assert_empty_arg(&parse_line("login username:").unwrap_err(), "username:", ArgHint::Username);
}

#[test]
fn login_password_empty() {
    assert_empty_arg(&parse_line("login password:").unwrap_err(), "password:", ArgHint::Plain);
}

#[test]
fn create_user_username_empty() {
    assert_empty_arg(&parse_line("create-user username:").unwrap_err(), "username:", ArgHint::Plain);
}

#[test]
fn create_user_password_empty() {
    assert_empty_arg(&parse_line("create-user password:").unwrap_err(), "password:", ArgHint::Plain);
}

#[test]
fn create_user_email_empty() {
    assert_empty_arg(&parse_line("create-user email:").unwrap_err(), "email:", ArgHint::Plain);
}

#[test]
fn create_repo_name_empty() {
    assert_empty_arg(&parse_line("create-repo name:").unwrap_err(), "name:", ArgHint::Plain);
}

#[test]
fn clone_remote_path_empty() {
    assert_empty_arg(&parse_line("clone remote-path:").unwrap_err(), "remote-path:", ArgHint::Plain);
}

#[test]
fn clone_to_empty() {
    assert_empty_arg(&parse_line("clone to:").unwrap_err(), "to:", ArgHint::Plain);
}

#[test]
fn git_url_remote_path_empty() {
    assert_empty_arg(&parse_line("git-url remote-path:").unwrap_err(), "remote-path:", ArgHint::Plain);
}

#[test]
fn http_url_remote_path_empty() {
    assert_empty_arg(&parse_line("http-url remote-path:").unwrap_err(), "remote-path:", ArgHint::Plain);
}

#[test]
fn ssh_url_remote_path_empty() {
    assert_empty_arg(&parse_line("ssh-url remote-path:").unwrap_err(), "remote-path:", ArgHint::Plain);
}

#[test]
fn url_remote_path_empty() {
    assert_empty_arg(&parse_line("url remote-path:").unwrap_err(), "remote-path:", ArgHint::Plain);
}

#[test]
fn cd_with_one_extra_arg() {
    assert_expected_end_of_input(&parse_line("cd a b").unwrap_err(), "b");
}

#[test]
fn cd_with_two_extra_args() {
    assert_expected_end_of_input(&parse_line("cd a b c").unwrap_err(), "b");
}

#[test]
fn ls_with_one_extra_arg() {
    assert_expected_end_of_input(&parse_line("ls a b").unwrap_err(), "b");
}

#[test]
fn ls_with_two_extra_args() {
    assert_expected_end_of_input(&parse_line("ls a b c").unwrap_err(), "b");
}

#[test]
fn pwd_with_arg() {
    assert_expected_end_of_input(&parse_line("pwd a").unwrap_err(), "a");
}

#[test]
fn pwd_with_two_args() {
    assert_expected_end_of_input(&parse_line("pwd a b").unwrap_err(), "a");
}

#[test]
fn exit_with_two_args() {
    assert_expected_end_of_input(&parse_line("exit 1 b").unwrap_err(), "b");
}

#[test]
fn exit_with_three_args() {
    assert_expected_end_of_input(&parse_line("exit 1 b c").unwrap_err(), "b");
}

#[test]
fn login_unknown_arg() {
    assert_unknown_arg(&parse_line("login usernaame:aaa").unwrap_err(), "usernaame");
}

#[test]
fn login_unknown_arg_2() {
    assert_unknown_arg(&parse_line("login username:aaa passwoord:bbb").unwrap_err(), "passwoord");
}

#[test]
fn create_user_unknown_arg() {
    assert_unknown_arg(&parse_line("create-user usernaame:aaa password:bbb").unwrap_err(), "usernaame");
}

#[test]
fn clone_unknown_arg() {
    assert_unknown_arg(&parse_line("clone repo:aaa").unwrap_err(), "repo");
}

#[test]
fn clone_unknown_arg_2() {
    assert_unknown_arg(&parse_line("clone remote-path:aaa branch:bbb").unwrap_err(), "branch");
}

#[test]
fn clone_expected() {
    assert_expected_arg(&parse_line("clone remot").unwrap_err(), "remot", &["remote-path", "to"]);
}

#[test]
fn clone_expected_2() {
    assert_expected_arg(&parse_line("clone remote-pat").unwrap_err(), "remote-pat", &["remote-path", "to"]);
}

#[test]
fn clone_expected_3() {
    assert_expected_arg(&parse_line("clone remote-path").unwrap_err(), "remote-path", &["remote-path", "to"]);
}

fn unknown_flag_cases(command: &str) {
    for flag in ["--", "--g", "--gi", "--h", "--ht", "--htt", "--s", "--ss", "--unknown", "--unknown-1"] {
        let line = format!("{command} {flag}");
        assert_unknown_flag(&parse_line(&line).unwrap_err(), flag, &["http", "git", "ssh"]);
    }
}

#[test]
fn clone_unknown_flags() {
    unknown_flag_cases("clone");
}

#[test]
fn url_unknown_flags() {
    unknown_flag_cases("url");
}

#[test]
fn empty_line_is_an_error() {
    assert_eq!(parse_line(""), Err(UshParseError::Empty));
    assert_eq!(parse_line("   \t "), Err(UshParseError::Empty));
}

#[test]
fn unknown_command_is_reported_with_its_span() {
    match parse_line("  frobnicate x").unwrap_err() {
        UshParseError::UnknownCommand(s) => {
            assert_eq!(s.value, "frobnicate");
            assert_eq!((s.span.start, s.span.end), (2, 12));
        }
        e => panic!("expected UnknownCommand, got: {e:?}"),
    }
}

#[test]
fn exit_code_must_be_a_number() {
    assert!(matches!(parse_line("exit abc"), Err(UshParseError::ParseIntError(_))));
    assert!(matches!(parse_line("exit 99999999999"), Err(UshParseError::ParseIntError(_))));
}

#[test]
fn missing_required_args_are_listed() {
    match parse_line("create-user").unwrap_err() {
        UshParseError::MissingRequiredArgs(v) => assert_eq!(v, vec!["username", "password", "email"]),
        e => panic!("expected MissingRequiredArgs, got: {e:?}"),
    }
}

#[test]
fn conflicting_protocol_flags() {
    assert!(matches!(
        parse_line("clone remote-path:x --ssh --git"),
        Err(UshParseError::FlagGroupConflict(_, _, _))
    ));
}

#[test]
fn argument_values_parse_as_i32() {
    assert_eq!(<i32 as ArgParse>::parse_arg("42"), Ok(42));
    assert_eq!(<i32 as ArgParse>::parse_arg("-7"), Ok(-7));
    assert_eq!(<i32 as ArgParse>::parse_arg("4x").map_err(|e| e.kind), Err(IntErrorKind::InvalidDigit));
    assert_eq!(<i32 as ArgParse>::parse_arg("").map_err(|e| e.kind), Err(IntErrorKind::Empty));
    assert!(ArgStore::new().arg_parse::<i32>("code").is_none());
}

#[test]
fn spanned_text_parses_keeping_its_span() {
    let span = Span { start: 3, end: 5 };
    let parsed = Spanned::new(span, "12".to_owned()).parse_to::<i32>();
    assert_eq!(parsed, Ok(Spanned { span, value: 12 }));
    let bad = Spanned::new(span, "1a".to_owned()).parse_to::<i32>();
    assert_eq!(bad.map_err(|e| e.kind), Err(IntErrorKind::InvalidDigit));
}

#[test]
fn spans_are_byte_offsets() {
    match parse_line("\"ü\"").unwrap_err() {
        UshParseError::UnexpectedToken(s) => assert_eq!((s.span.start, s.span.end), (0, 4)),
        e => panic!("expected UnexpectedToken, got: {e:?}"),
    }
    match parse_line("echo \"é\" ok").unwrap() {
        upsilon_dev::shell::command::UshParsedCommand::Echo(c) => {
            assert_eq!(c.args.len(), 2);
            assert_eq!((c.args[0].span.start, c.args[0].span.end), (5, 9));
            assert_eq!((c.args[1].span.start, c.args[1].span.end), (10, 12));
        }
        _ => panic!("expected echo"),
    }
}
