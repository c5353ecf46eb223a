use upsilon_dev::shell::command::UshRepoAccessProtocol;
use upsilon_dev::shell::url::{BuildUrlError, UshHostInfo};

fn default_hostinfo() -> UshHostInfo {
    UshHostInfo {
        git_ssh_enabled: false,
        ssh_port: 22,
        git_protocol_enabled: false,
        git_port: 9418,
        git_http_enabled: true,
        http_port: 80,
        https_enabled: false,
        hostname: "localhost".to_owned(),
    }
}

#[test]
fn http_default_port() {
    let h = default_hostinfo();
    assert_eq!(
        UshRepoAccessProtocol::Http.build_url("upsilon", &h),
        Ok(String::from("http://localhost/upsilon"))
    );
}

#[test]
fn http_custom_port() {
    let mut h = default_hostinfo();
    h.http_port = 8000;
    assert_eq!(
        UshRepoAccessProtocol::Http.build_url("upsilon", &h),
        Ok(String::from("http://localhost:8000/upsilon"))
    );
}

#[test]
fn ssh_default_port() {
    let mut h = default_hostinfo();
    h.git_ssh_enabled = true;
    assert_eq!(
        UshRepoAccessProtocol::Ssh.build_url("upsilon", &h),
        Ok(String::from("git@localhost:upsilon"))
    );
}

#[test]
fn ssh_custom_port() {
    let mut h = default_hostinfo();
    h.git_ssh_enabled = true;
    h.ssh_port = 8000;
    assert_eq!(
        UshRepoAccessProtocol::Ssh.build_url("upsilon", &h),
        Ok(String::from("ssh://git@localhost:8000/upsilon"))
    );
}

#[test]
fn https_default_port() {
    let mut h = default_hostinfo();
    h.https_enabled = true;
    h.http_port = 443;
    assert_eq!(
        UshRepoAccessProtocol::Http.build_url("upsilon", &h),
        Ok(String::from("https://localhost/upsilon"))
    );
}

#[test]
fn https_custom_port() {
    let mut h = default_hostinfo();
    h.https_enabled = true;
    h.http_port = 8000;
    assert_eq!(
        UshRepoAccessProtocol::Http.build_url("upsilon", &h),
        Ok(String::from("https://localhost:8000/upsilon"))
    );
}

#[test]
fn git_default_port() {
    let mut h = default_hostinfo();
    h.git_protocol_enabled = true;
    assert_eq!(
        UshRepoAccessProtocol::Git.build_url("upsilon", &h),
        Ok(String::from("git://localhost/upsilon"))
    );
}

#[test]
fn git_custom_port() {
    let mut h = default_hostinfo();
    h.git_protocol_enabled = true;
    h.git_port = 8000;
    assert_eq!(
        UshRepoAccessProtocol::Git.build_url("upsilon", &h),
        Ok(String::from("git://localhost:8000/upsilon"))
    );
}

#[test]
fn http_remote_host() {
    let mut h = default_hostinfo();
    h.hostname = "upsilon.dnbln.dev".to_owned();
    h.http_port = 443;
    h.https_enabled = true;
    assert_eq!(
        UshRepoAccessProtocol::Http.build_url("upsilon", &h),
        Ok(String::from("https://upsilon.dnbln.dev/upsilon"))
    );
}

#[test]
fn ssh_remote_host() {
    let mut h = default_hostinfo();
    h.git_ssh_enabled = true;
    h.hostname = "upsilon.dnbln.dev".to_owned();
    h.ssh_port = 22;
    assert_eq!(
        UshRepoAccessProtocol::Ssh.build_url("upsilon", &h),
        Ok(String::from("git@upsilon.dnbln.dev:upsilon"))
    );
}

#[test]
fn ssh_remote_host_with_port() {
    let mut h = default_hostinfo();
    h.git_ssh_enabled = true;
    h.hostname = "upsilon.dnbln.dev".to_owned();
    h.ssh_port = 1234;
    assert_eq!(
        UshRepoAccessProtocol::Ssh.build_url("upsilon", &h),
        Ok(String::from("ssh://git@upsilon.dnbln.dev:1234/upsilon"))
    );
}

#[test]
fn disabled_protocols_give_no_url() {
    let h = default_hostinfo();
    assert_eq!(
        UshRepoAccessProtocol::Ssh.build_url("upsilon", &h),
        Err(BuildUrlError::ProtocolDisabled)
    );
    assert_eq!(
        UshRepoAccessProtocol::Git.build_url("upsilon", &h),
        Err(BuildUrlError::ProtocolDisabled)
    );
    let mut h2 = default_hostinfo();
    h2.git_http_enabled = false;
    assert_eq!(
        UshRepoAccessProtocol::Http.build_url("upsilon", &h2),
        Err(BuildUrlError::ProtocolDisabled)
    );
}

#[test]
fn port_numerals() {
    let mut h = default_hostinfo();
    h.http_port = 0;
    assert_eq!(
        UshRepoAccessProtocol::Http.build_url("r", &h),
        Ok(String::from("http://localhost:0/r"))
    );
    h.http_port = 65535;
    assert_eq!(
        UshRepoAccessProtocol::Http.build_url("r", &h),
        Ok(String::from("http://localhost:65535/r"))
    );
    h.https_enabled = true;
    h.http_port = 80;
    assert_eq!(
        UshRepoAccessProtocol::Http.build_url("r", &h),
        Ok(String::from("https://localhost:80/r"))
    );
}
