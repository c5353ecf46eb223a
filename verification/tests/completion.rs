use upsilon_dev::shell::command::Username;
use upsilon_dev::shell::complete::{iter_single, Completion, Helper, JwtToken, UserMap};
use upsilon_dev::shell::parser::parse_line;

fn helper() -> Helper {
    Helper { cwd: "/".to_owned(), usermap: UserMap::new() }
}

fn candidates(c: Completion) -> (usize, Vec<(String, String)>) {
    match c {
        Completion::Candidates(pos, v) => {
            (pos, v.into_iter().map(|c| (c.display, c.replacement)).collect())
        }
        Completion::Path => panic!("expected candidates"),
    }
}

#[test]
fn iter_single_examples() {
    assert_eq!(iter_single(vec![1, 2, 3]), None);
    assert_eq!(iter_single(vec![1, 2]), None);
    assert_eq!(iter_single(vec![1]), Some(1));
    assert_eq!(iter_single(Vec::<i32>::new()), None);
}

#[test]
fn empty_line_offers_all_commands() {
    let (pos, c) = candidates(helper().complete("", 0));
    assert_eq!(pos, 0);
    let names: Vec<String> = c.iter().map(|(d, _)| d.clone()).collect();
    assert_eq!(
        names,
        vec![
            "cd", "ls", "pwd", "echo", "exit", "login", "create-user", "create-repo", "clone",
            "http-url", "git-url", "ssh-url", "url", "upload-ssh-key", "list-users"
        ]
    );
}

#[test]
fn unknown_command_offers_commands_with_its_prefix() {
    let (pos, c) = candidates(helper().complete("cr", 2));
    assert_eq!(pos, 0);
    assert_eq!(
        c,
        vec![
            ("create-user".to_owned(), "create-user".to_owned()),
            ("create-repo".to_owned(), "create-repo".to_owned())
        ]
    );
}

#[test]
fn partial_argument_name_is_completed() {
    let (pos, c) = candidates(helper().complete("clone remot", 11));
    assert_eq!(pos, 6);
    assert_eq!(c, vec![("remote-path".to_owned(), "remote-path:".to_owned())]);
}

#[test]
fn argument_name_away_from_cursor_gives_nothing() {
    let (pos, c) = candidates(helper().complete("clone remot", 3));
    assert_eq!(pos, 0);
    assert!(c.is_empty());
}

#[test]
fn missing_arguments_are_offered_after_a_space() {
    let (pos, c) = candidates(helper().complete("login ", 6));
    assert_eq!(pos, 6);
    assert_eq!(
        c,
        vec![
            ("username".to_owned(), "username:".to_owned()),
            ("password".to_owned(), "password:".to_owned())
        ]
    );
    let (pos, c) = candidates(helper().complete("login", 5));
    assert_eq!(pos, 0);
    assert!(c.is_empty());
}

#[test]
fn partial_flags_are_completed() {
    let (pos, c) = candidates(helper().complete("clone remote-path:x --s", 23));
    assert_eq!(pos, 20);
    assert_eq!(c, vec![("--ssh".to_owned(), "--ssh".to_owned())]);
}

#[test]
fn path_arguments_complete_as_paths() {
    assert!(matches!(helper().complete("cd abc", 5), Completion::Path));
    assert!(matches!(helper().complete("cd abc", 1), Completion::Candidates(0, _)));
    assert!(matches!(helper().complete("upload-ssh-key key:k", 20), Completion::Path));
}

#[test]
fn login_user_names_come_from_signed_in_users() {
    let mut h = helper();
    h.usermap.push_token(&Username("alice".to_owned()), JwtToken("t1".to_owned()));
    h.usermap.push_token(&Username("bob".to_owned()), JwtToken("t2".to_owned()));
    h.usermap.push_token(&Username("alex".to_owned()), JwtToken("t3".to_owned()));
    h.usermap.push_token(&Username("alice".to_owned()), JwtToken("t4".to_owned()));
    let line = "login username:al password:x";
    assert!(parse_line(line).is_ok());
    let (pos, c) = candidates(h.complete(line, 17));
    assert_eq!(pos, 15);
    assert_eq!(
        c,
        vec![("alice".to_owned(), "alice".to_owned()), ("alex".to_owned(), "alex".to_owned())]
    );
    let (pos, c) = candidates(h.complete(line, 22));
    assert_eq!(pos, 0);
    assert!(c.is_empty());
}

#[test]
fn user_map_keeps_tokens_per_user() {
    let mut m = UserMap::new();
    m.push_token(&Username("alice".to_owned()), JwtToken("t1".to_owned()));
    m.push_token(&Username("bob".to_owned()), JwtToken("t2".to_owned()));
    m.push_token(&Username("alice".to_owned()), JwtToken("t3".to_owned()));
    let mut seen: Vec<(String, Vec<String>)> = Vec::new();
    m.for_each_user(|u, ts| seen.push((u.0.clone(), ts.iter().map(|t| t.0.clone()).collect())));
    assert_eq!(
        seen,
        vec![
            ("alice".to_owned(), vec!["t1".to_owned(), "t3".to_owned()]),
            ("bob".to_owned(), vec!["t2".to_owned()])
        ]
    );
}

#[test]
fn hints_complete_unique_commands() {
    let h = helper();
    let hint = h.hint("pw", 2).unwrap();
    assert_eq!(hint.display(), "unknown command: pw");
    assert_eq!(hint.completion(), Some("d"));
    let hint = h.hint("c", 1).unwrap();
    assert_eq!(hint.completion(), None);
    assert!(h.hint("pwd", 3).is_none());
}

#[test]
fn hints_list_missing_arguments() {
    let h = helper();
    let hint = h.hint("create-user", 11).unwrap();
    assert_eq!(hint.display(), "missing required args: [\"username\", \"password\", \"email\"]");
    assert_eq!(hint.completion(), Some(" username: password: email:"));
    let hint = h.hint("create-user ", 12).unwrap();
    assert_eq!(hint.completion(), Some("username: password: email:"));
    let hint = h.hint("create-user", 3).unwrap();
    assert_eq!(hint.completion(), None);
}

#[test]
fn hints_complete_argument_names_and_flags() {
    let h = helper();
    let hint = h.hint("clone remot", 11).unwrap();
    assert_eq!(hint.completion(), Some("e-path"));
    let hint = h.hint("clone remote-path:x --gi", 24).unwrap();
    assert_eq!(hint.completion(), Some("t"));
    let hint = h.hint("clone remote-path:x --", 22).unwrap();
    assert_eq!(hint.completion(), None);
}

#[test]
fn validation_reports_parse_errors() {
    let h = helper();
    assert_eq!(h.validate("pwd"), Ok(()));
    assert_eq!(h.validate(""), Err("empty".to_owned()));
    assert_eq!(h.validate("exit x"), Err("parse int error: invalid digit found in string".to_owned()));
    assert_eq!(
        h.validate("login username:"),
        Err("expected non-empty arg, got: \"username:\" @ 6..15".to_owned())
    );
}
