use vstd::prelude::*;

verus! {

/// Options on how to reach the site's REST API.
#[derive(Debug, Clone, Copy, PartialEq, Eq, Structural)]
pub struct ClientOpts {
    pub detect_proxy: bool,
    pub validate_api_cert: bool,
}

/// A server, and the receiver port on it when it is known.
#[derive(Debug, Clone)]
pub struct ServerSpec {
    pub server: String,
    pub port: Option<u16>,
}

/// Options that name the site to register with, and how.
#[derive(Debug, Clone)]
pub struct RegistrationConnectionOpts {
    pub server_spec: ServerSpec,
    pub site: String,
    pub user: String,
    pub password: Option<String>,
    pub trust_server_cert: bool,
    pub client_opts: ClientOpts,
}

/// Options of a registration under a host name.
#[derive(Debug, Clone)]
pub struct RegisterOpts {
    pub connection_opts: RegistrationConnectionOpts,
    pub hostname: String,
}

/// Options of the pull server.
#[derive(Debug, Clone)]
pub struct PullOpts {
    pub port: Option<u16>,
}

} // verus!
