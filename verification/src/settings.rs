//! Per-repository configuration: credentials and the remote endpoint,
//! classified from the origin URL's host.

use vstd::prelude::*;

use crate::hashes::str_eq;

verus! {

/// Credentials for the hosted endpoint.
pub struct Auth {
    pub username: String,
    pub password: String,
}

impl Auth {
    pub fn new(username: String, password: String) -> (r: Auth)
        ensures
            r.username == username,
            r.password == password,
    {
        Auth { username, password }
    }
}

/// Which host serves the repository. The known host set is closed.
#[derive(Clone, Copy, Debug, PartialEq, Eq, Structural)]
pub enum EndpointKind {
    Github,
    Bitbucket,
}

/// The endpoint kind a host name denotes, if any.
pub open spec fn kind_of_host(host: Seq<char>) -> Option<EndpointKind> {
    if host == "github.com"@ {
        Some(EndpointKind::Github)
    } else if host == "bitbucket.org"@ {
        Some(EndpointKind::Bitbucket)
    } else {
        None
    }
}

/// The remote endpoint a repository's origin points at.
pub struct Endpoint {
    pub kind: EndpointKind,
    pub name: String,
    pub owner: Option<String>,
}

impl Endpoint {
    /// Classifies a parsed origin URL into an endpoint: the host must
    /// be present and known, and the repository name and owner are
    /// taken as parsed.
    pub fn new(host: Option<String>, name: String, owner: Option<String>) -> (r: Option<Endpoint>)
        ensures
            match host {
                None => r is None,
                Some(h) => match kind_of_host(h@) {
                    None => r is None,
                    Some(k) => r is Some && r->0.kind == k && r->0.name == name && r->0.owner
                        == owner,
                },
            },
    {
        match host {
            None => None,
            Some(h) => {
                if str_eq(h.as_str(), "github.com") {
                    Some(Endpoint { kind: EndpointKind::Github, name, owner })
                } else if str_eq(h.as_str(), "bitbucket.org") {
                    Some(Endpoint { kind: EndpointKind::Bitbucket, name, owner })
                } else {
                    None
                }
            },
        }
    }
}

/// The whole persisted configuration.
pub struct Settings {
    pub auth: Auth,
    pub endpoint: Endpoint,
}

impl Settings {
    pub fn new(auth: Auth, endpoint: Endpoint) -> (r: Settings)
        ensures
            r.auth == auth,
            r.endpoint == endpoint,
    {
        Settings { auth, endpoint }
    }
}

} // verus!
