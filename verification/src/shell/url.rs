//! Clone URLs of repositories, built from what the host serves.

use vstd::prelude::*;

use super::command::UshRepoAccessProtocol;
use crate::text::{push_str, string_of};

verus! {

/// What a host serves, and where.
#[derive(Debug, PartialEq, Eq, Clone)]
pub struct UshHostInfo {
    pub hostname: String,
    pub git_http_enabled: bool,
    pub git_ssh_enabled: bool,
    pub git_protocol_enabled: bool,
    pub http_port: u16,
    pub ssh_port: u16,
    pub git_port: u16,
    pub https_enabled: bool,
}

/// Why no URL could be built.
#[derive(Debug, PartialEq, Eq, Clone, Copy)]
pub enum BuildUrlError {
    ProtocolDisabled,
}

pub open spec fn digit_char(d: nat) -> char {
    (d + '0' as nat) as char
}

/// The decimal numeral of `n`, without leading zeros.
pub open spec fn decimal(n: nat) -> Seq<char>
    decreases n,
{
    if n < 10 {
        seq![digit_char(n)]
    } else {
        decimal(n / 10).push(digit_char(n % 10))
    }
}

/// The decimal numeral of `n`.
pub fn decimal_chars(n: u64) -> (res: Vec<char>)
    ensures
        res@ == decimal(n as nat),
    decreases n,
{
    let d = n % 10;
    let c: char = if d == 0 {
        '0'
    } else if d == 1 {
        '1'
    } else if d == 2 {
        '2'
    } else if d == 3 {
        '3'
    } else if d == 4 {
        '4'
    } else if d == 5 {
        '5'
    } else if d == 6 {
        '6'
    } else if d == 7 {
        '7'
    } else if d == 8 {
        '8'
    } else {
        '9'
    };
    if n < 10 {
        vec![c]
    } else {
        let mut v = decimal_chars(n / 10);
        v.push(c);
        v
    }
}

/// `host` or `host:port`, then `/` and the path.
pub open spec fn host_path(host: Seq<char>, port: u16, default_port: u16, path: Seq<char>) -> Seq<
    char,
> {
    if port == default_port {
        host + "/"@ + path
    } else {
        host + ":"@ + decimal(port as nat) + "/"@ + path
    }
}

/// The URL through which `repo_path` is cloned over `protocol` from `host`:
/// the port appears only where it differs from the protocol's default
/// (443 for HTTPS, 80 for HTTP, 9418 for git, 22 for SSH, where the short
/// `git@host:path` form is used).
pub open spec fn build_url_spec(
    protocol: UshRepoAccessProtocol,
    repo_path: Seq<char>,
    host: UshHostInfo,
) -> Result<Seq<char>, BuildUrlError> {
    match protocol {
        UshRepoAccessProtocol::Http => if !host.git_http_enabled {
            Err(BuildUrlError::ProtocolDisabled)
        } else if host.https_enabled {
            Ok("https://"@ + host_path(host.hostname@, host.http_port, 443, repo_path))
        } else {
            Ok("http://"@ + host_path(host.hostname@, host.http_port, 80, repo_path))
        },
        UshRepoAccessProtocol::Git => if !host.git_protocol_enabled {
            Err(BuildUrlError::ProtocolDisabled)
        } else {
            Ok("git://"@ + host_path(host.hostname@, host.git_port, 9418, repo_path))
        },
        UshRepoAccessProtocol::Ssh => if !host.git_ssh_enabled {
            Err(BuildUrlError::ProtocolDisabled)
        } else if host.ssh_port == 22 {
            Ok("git@"@ + host.hostname@ + ":"@ + repo_path)
        } else {
            Ok("ssh://git@"@ + host_path(host.hostname@, host.ssh_port, 22, repo_path))
        },
    }
}

/// Appends `host_path(host, port, default_port, path)` to `out`.
fn push_host_path(out: &mut String, host: &str, port: u16, default_port: u16, path: &str)
    ensures
        final(out)@ == old(out)@ + host_path(host@, port, default_port, path@),
{
    push_str(out, host);
    if port != default_port {
        push_str(out, ":");
        let digits = decimal_chars(port as u64);
        let numeral = string_of(digits.as_slice());
        push_str(out, numeral.as_str());
    }
    push_str(out, "/");
    push_str(out, path);
    proof {
        if port == default_port {
            assert(final(out)@ =~= old(out)@ + host_path(host@, port, default_port, path@));
        } else {
            assert(final(out)@ =~= old(out)@ + host_path(host@, port, default_port, path@));
        }
    }
}

impl UshRepoAccessProtocol {
    /// The URL through which `repo_path` is cloned over this protocol from
    /// the host, or `ProtocolDisabled` where the host does not serve it.
    pub fn build_url(self, repo_path: &str, host_info: &UshHostInfo) -> (res: Result<
        String,
        BuildUrlError,
    >)
        ensures
            match res {
                Ok(url) => build_url_spec(self, repo_path@, *host_info) == Ok::<
                    Seq<char>,
                    BuildUrlError,
                >(url@),
                Err(e) => build_url_spec(self, repo_path@, *host_info) == Err::<
                    Seq<char>,
                    BuildUrlError,
                >(e),
            },
    {
        let mut url = String::new();
        match self {
            UshRepoAccessProtocol::Http => {
                if !host_info.git_http_enabled {
                    return Err(BuildUrlError::ProtocolDisabled);
                }
                if host_info.https_enabled {
                    push_str(&mut url, "https://");
                    push_host_path(
                        &mut url,
                        host_info.hostname.as_str(),
                        host_info.http_port,
                        443,
                        repo_path,
                    );
                } else {
                    push_str(&mut url, "http://");
                    push_host_path(
                        &mut url,
                        host_info.hostname.as_str(),
                        host_info.http_port,
                        80,
                        repo_path,
                    );
                }
            },
            UshRepoAccessProtocol::Git => {
                if !host_info.git_protocol_enabled {
                    return Err(BuildUrlError::ProtocolDisabled);
                }
                push_str(&mut url, "git://");
                push_host_path(
                    &mut url,
                    host_info.hostname.as_str(),
                    host_info.git_port,
                    9418,
                    repo_path,
                );
            },
            UshRepoAccessProtocol::Ssh => {
                if !host_info.git_ssh_enabled {
                    return Err(BuildUrlError::ProtocolDisabled);
                }
                if host_info.ssh_port == 22 {
                    push_str(&mut url, "git@");
                    push_str(&mut url, host_info.hostname.as_str());
                    push_str(&mut url, ":");
                    push_str(&mut url, repo_path);
                } else {
                    push_str(&mut url, "ssh://git@");
                    push_host_path(
                        &mut url,
                        host_info.hostname.as_str(),
                        host_info.ssh_port,
                        22,
                        repo_path,
                    );
                }
            },
        }
        proof {
            assert(Seq::<char>::empty() + build_url_spec(self, repo_path@, *host_info)->Ok_0
                =~= build_url_spec(self, repo_path@, *host_info)->Ok_0);
        }
        Ok(url)
    }
}

} // verus!
