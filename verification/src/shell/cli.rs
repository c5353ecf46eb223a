//! The command-line options of the shell, and what they resolve to.

use vstd::prelude::*;

use super::url::{decimal, decimal_chars, UshHostInfo};
use crate::text::{push_str, string_of};

verus! {

/// The options the shell was started with.
#[derive(Debug, Clone, PartialEq, Eq)]
pub struct App {
    pub ssh: bool,
    pub ssh_port: u16,
    pub git_protocol: bool,
    pub git_protocol_port: u16,
    pub git_http: bool,
    pub http_port: u16,
    pub https: bool,
    pub hostname: String,
    pub gql_endpoint: Option<String>,
    pub reconfigure: bool,
}

/// The options with the GraphQL endpoint resolved.
#[derive(Debug, Clone, PartialEq, Eq)]
pub struct ParsedApp {
    pub ssh: bool,
    pub ssh_port: u16,
    pub git_protocol: bool,
    pub git_protocol_port: u16,
    pub git_http: bool,
    pub http_port: u16,
    pub https: bool,
    pub hostname: String,
    pub gql_endpoint: String,
    pub reconfigure: bool,
}

/// The GraphQL endpoint of a host served over HTTP(S) at `port`: the port
/// is left out where it is the default one (443 for HTTPS, 80 for HTTP).
pub open spec fn default_gql_endpoint(https: bool, hostname: Seq<char>, port: u16) -> Seq<char> {
    let proto = if https {
        "https"@
    } else {
        "http"@
    };
    let default_port: u16 = if https {
        443
    } else {
        80
    };
    if port == default_port {
        proto + "://"@ + hostname + "/graphql"@
    } else {
        proto + "://"@ + hostname + ":"@ + decimal(port as nat) + "/graphql"@
    }
}

impl App {
    /// The options, with the GraphQL endpoint derived from the host where it
    /// was not given.
    pub fn into_parsed(self) -> (res: ParsedApp)
        ensures
            res.ssh == self.ssh,
            res.ssh_port == self.ssh_port,
            res.git_protocol == self.git_protocol,
            res.git_protocol_port == self.git_protocol_port,
            res.git_http == self.git_http,
            res.http_port == self.http_port,
            res.https == self.https,
            res.hostname == self.hostname,
            res.reconfigure == self.reconfigure,
            res.gql_endpoint@ == match self.gql_endpoint {
                Some(e) => e@,
                None => default_gql_endpoint(self.https, self.hostname@, self.http_port),
            },
    {
        let App {
            ssh,
            ssh_port,
            git_protocol,
            git_protocol_port,
            git_http,
            http_port,
            https,
            hostname,
            gql_endpoint,
            reconfigure,
        } = self;
        let endpoint = match gql_endpoint {
            Some(e) => e,
            None => {
                let mut out = String::new();
                let default_port: u16 = if https {
                    push_str(&mut out, "https");
                    443
                } else {
                    push_str(&mut out, "http");
                    80
                };
                push_str(&mut out, "://");
                push_str(&mut out, hostname.as_str());
                if http_port != default_port {
                    push_str(&mut out, ":");
                    let ds = decimal_chars(http_port as u64);
                    let numeral = string_of(ds.as_slice());
                    push_str(&mut out, numeral.as_str());
                }
                push_str(&mut out, "/graphql");
                proof {
                    assert(out@ =~= default_gql_endpoint(https, hostname@, http_port));
                }
                out
            },
        };
        ParsedApp {
            ssh,
            ssh_port,
            git_protocol,
            git_protocol_port,
            git_http,
            http_port,
            https,
            hostname,
            gql_endpoint: endpoint,
            reconfigure,
        }
    }
}

impl ParsedApp {
    /// What the host serves, as the options tell.
    pub fn to_ush_host_info(&self) -> (res: UshHostInfo)
        ensures
            res.git_ssh_enabled == self.ssh,
            res.ssh_port == self.ssh_port,
            res.git_protocol_enabled == self.git_protocol,
            res.git_port == self.git_protocol_port,
            res.git_http_enabled == self.git_http,
            res.http_port == self.http_port,
            res.https_enabled == self.https,
            res.hostname@ == self.hostname@,
    {
        UshHostInfo {
            git_ssh_enabled: self.ssh,
            ssh_port: self.ssh_port,
            git_protocol_enabled: self.git_protocol,
            git_port: self.git_protocol_port,
            git_http_enabled: self.git_http,
            http_port: self.http_port,
            https_enabled: self.https,
            hostname: self.hostname.clone(),
        }
    }
}

} // verus!
