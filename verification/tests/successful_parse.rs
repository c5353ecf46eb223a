use upsilon_dev::shell::command::{UshParsedCommand, UshPath, UshRepoAccessProtocol};
use upsilon_dev::shell::parser::parse_line;

fn assert_cd(c: &UshParsedCommand, path: Option<&UshPath>) {
    match c {
        UshParsedCommand::Cd(cmd) => assert_eq!(cmd.path.as_ref().map(|it| &it.value), path),
        _ => panic!("expected cd command"),
    }
}

fn assert_ls(c: &UshParsedCommand, path: Option<&UshPath>) {
    match c {
        UshParsedCommand::Ls(cmd) => assert_eq!(cmd.path.as_ref().map(|it| &it.value), path),
        _ => panic!("expected ls command"),
    }
}

fn assert_echo(c: &UshParsedCommand, args: &[&str]) {
    match c {
        UshParsedCommand::Echo(cmd) => {
            assert_eq!(cmd.args.iter().map(|it| it.value.as_str()).collect::<Vec<_>>(), args);
        }
        _ => panic!("expected echo command"),
    }
}

fn assert_exit(c: &UshParsedCommand, exit_code: Option<i32>) {
    match c {
        UshParsedCommand::Exit(cmd) => assert_eq!(cmd.exit_code.map(|it| it.value), exit_code),
        _ => panic!("expected exit command"),
    }
}

fn assert_clone(c: &UshParsedCommand, remote_path: &str, to: &UshPath, proto: UshRepoAccessProtocol) {
    match c {
        UshParsedCommand::Clone(cmd) => {
            assert_eq!(&cmd.repo_path.value, remote_path);
            assert_eq!(&cmd.to, to);
            assert_eq!(cmd.access_protocol, proto);
        }
        _ => panic!("expected clone command"),
    }
}

fn assert_url(c: &UshParsedCommand, remote_path: &str, proto: UshRepoAccessProtocol) {
    match c {
        UshParsedCommand::Url(cmd) => {
            assert_eq!(&cmd.repo_path.value, remote_path);
            assert_eq!(cmd.protocol, proto);
        }
        _ => panic!("expected url command"),
    }
}

#[test]
fn cd_empty() {
    let command = parse_line("cd").unwrap();
    assert_cd(&command, None);
}

#[test]
fn cd_with_path() {
    let command = parse_line("cd aaa").unwrap();
    assert_cd(&command, Some(&UshPath::new("aaa")));
}

#[test]
fn ls_empty() {
    let command = parse_line("ls").unwrap();
    assert_ls(&command, None);
}

#[test]
fn ls_with_path() {
    let command = parse_line("ls aaa").unwrap();
    assert_ls(&command, Some(&UshPath::new("aaa")));
}

#[test]
fn pwd() {
    let command = parse_line("pwd").unwrap();
    assert!(matches!(command, UshParsedCommand::Pwd(_)));
}

#[test]
fn echo_empty() {
    let command = parse_line("echo").unwrap();
    assert_echo(&command, &[]);
}

#[test]
fn echo_with_args() {
    let command = parse_line("echo aaa bbb ccc").unwrap();
    assert_echo(&command, &["aaa", "bbb", "ccc"]);
}

#[test]
fn exit_no_args() {
    let command = parse_line("exit").unwrap();
    assert_exit(&command, None);
}

#[test]
fn exit_with_args() {
    let command = parse_line("exit 1").unwrap();
    assert_exit(&command, Some(1));
}

#[test]
fn login() {
    let command = parse_line("login username:aaa password:bbb").unwrap();
    match command {
        UshParsedCommand::Login(cmd) => {
            assert_eq!(&cmd.username.value.0, "aaa");
            assert_eq!(&cmd.password.value, "bbb");
        }
        _ => panic!("expected login command"),
    }
}

#[test]
fn create_user() {
    let command = parse_line("create-user username:aaa password:bbb email:ccc").unwrap();
    match command {
        UshParsedCommand::CreateUser(cmd) => {
            assert_eq!(&cmd.username.value.0, "aaa");
            assert_eq!(&cmd.password.value, "bbb");
            assert_eq!(&cmd.email.value, "ccc");
        }
        _ => panic!("expected create user command"),
    }
}

#[test]
fn create_repo() {
    let command = parse_line("create-repo name:aaa").unwrap();
    match command {
        UshParsedCommand::CreateRepo(cmd) => assert_eq!(&cmd.repo_name.value, "aaa"),
        _ => panic!("expected create repo command"),
    }
}

#[test]
fn clone_http() {
    let command = parse_line("clone remote-path:upsilon").unwrap();
    assert_clone(&command, "upsilon", &UshPath::new("upsilon"), UshRepoAccessProtocol::Http);
}

#[test]
fn clone_ssh() {
    let command = parse_line("clone remote-path:upsilon --ssh").unwrap();
    assert_clone(&command, "upsilon", &UshPath::new("upsilon"), UshRepoAccessProtocol::Ssh);
}

#[test]
fn clone_git() {
    let command = parse_line("clone remote-path:upsilon --git").unwrap();
    assert_clone(&command, "upsilon", &UshPath::new("upsilon"), UshRepoAccessProtocol::Git);
}

#[test]
fn clone_to() {
    let command = parse_line("clone remote-path:upsilon to:aaa").unwrap();
    assert_clone(&command, "upsilon", &UshPath::new("aaa"), UshRepoAccessProtocol::Http);
}

#[test]
fn clone_to_ssh() {
    let command = parse_line("clone remote-path:upsilon to:aaa --ssh").unwrap();
    assert_clone(&command, "upsilon", &UshPath::new("aaa"), UshRepoAccessProtocol::Ssh);
}

#[test]
fn http_url() {
    let command = parse_line("http-url remote-path:upsilon").unwrap();
    match command {
        UshParsedCommand::HttpUrl(cmd) => assert_eq!(&cmd.repo_path.value, "upsilon"),
        _ => panic!("expected http url command"),
    }
}

#[test]
fn git_url() {
    let command = parse_line("git-url remote-path:upsilon").unwrap();
    match command {
        UshParsedCommand::GitUrl(cmd) => assert_eq!(&cmd.repo_path.value, "upsilon"),
        _ => panic!("expected git url command"),
    }
}

#[test]
fn ssh_url() {
    let command = parse_line("ssh-url remote-path:upsilon").unwrap();
    match command {
        UshParsedCommand::SshUrl(cmd) => assert_eq!(&cmd.repo_path.value, "upsilon"),
        _ => panic!("expected ssh url command"),
    }
}

#[test]
fn url_default() {
    let command = parse_line("url remote-path:upsilon").unwrap();
    assert_url(&command, "upsilon", UshRepoAccessProtocol::Http);
}

#[test]
fn url_http() {
    let command = parse_line("url remote-path:upsilon --http").unwrap();
    assert_url(&command, "upsilon", UshRepoAccessProtocol::Http);
}

#[test]
fn url_ssh() {
    let command = parse_line("url remote-path:upsilon --ssh").unwrap();
    assert_url(&command, "upsilon", UshRepoAccessProtocol::Ssh);
}

#[test]
fn url_git() {
    let command = parse_line("url remote-path:upsilon --git").unwrap();
    assert_url(&command, "upsilon", UshRepoAccessProtocol::Git);
}

#[test]
fn path_from_string_keeps_text() {
    assert_eq!(UshPath::from("a/b".to_owned()), UshPath::new("a/b"));
    assert_eq!(UshPath::from(String::new()).0, "");
}
