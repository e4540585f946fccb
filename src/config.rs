use vstd::prelude::*;

use crate::cli::{ClientOpts, PullOpts, RegisterOpts, RegistrationConnectionOpts};
use crate::connection::TrustedConnection;
use crate::error::RegistryError;
use crate::labels::AgentLabels;
use crate::registry::{FileTime, RegisteredConnections, Registry};
use crate::site_id::SiteID;

verus! {

/// The port the pull server listens on when none is configured.
pub const DEFAULT_PULL_PORT: u16 = 6556;

/// Relies on gethostname::gethostname: the machine's host name, when it is valid UTF-8.
#[verifier::external_body]
fn machine_host_name() -> (r: Option<String>) {
    gethostname::gethostname().into_string().ok()
}

/// Settings of the runtime configuration file; each may be absent.
#[derive(Debug, Clone)]
pub struct RuntimeConfig {
    pub allowed_ip: Option<Vec<String>>,
    pub pull_port: Option<u16>,
    pub detect_proxy: Option<bool>,
    pub validate_api_cert: Option<bool>,
}

impl Default for RuntimeConfig {
    fn default() -> (r: RuntimeConfig)
        ensures
            r.allowed_ip is None,
            r.pull_port is None,
            r.detect_proxy is None,
            r.validate_api_cert is None,
    {
        RuntimeConfig { allowed_ip: None, pull_port: None, detect_proxy: None, validate_api_cert: None }
    }
}

/// An unset flag of the runtime configuration counts as `false`.
pub open spec fn flag(o: Option<bool>) -> bool {
    match o {
        Some(b) => b,
        None => false,
    }
}

/// How to reach a site's REST API.
#[derive(Debug, Clone, Copy, PartialEq, Eq, Structural)]
pub struct ClientConfig {
    pub use_proxy: bool,
    pub validate_api_cert: bool,
}

impl ClientConfig {
    /// Each setting holds when the command line or the runtime configuration sets it.
    pub fn new(runtime_config: RuntimeConfig, client_opts: ClientOpts) -> (r: ClientConfig)
        ensures
            r.use_proxy == (client_opts.detect_proxy || flag(runtime_config.detect_proxy)),
            r.validate_api_cert == (client_opts.validate_api_cert || flag(
                runtime_config.validate_api_cert,
            )),
    {
        let detect = match runtime_config.detect_proxy {
            Some(b) => b,
            None => false,
        };
        let validate = match runtime_config.validate_api_cert {
            Some(b) => b,
            None => false,
        };
        ClientConfig {
            use_proxy: client_opts.detect_proxy || detect,
            validate_api_cert: client_opts.validate_api_cert || validate,
        }
    }
}

/// What a registration needs to reach the site.
#[derive(Debug, Clone)]
pub struct RegistrationConnectionConfig {
    pub site_id: SiteID,
    pub receiver_port: u16,
    pub username: String,
    pub password: Option<String>,
    pub root_certificate: Option<String>,
    pub trust_server_cert: bool,
    pub client_config: ClientConfig,
}

impl RegistrationConnectionConfig {
    /// Builds the configuration from the options; the receiver port is the one
    /// given with the server, else `discovered_port`, and with neither the
    /// configuration is refused.
    pub fn new(
        runtime_config: RuntimeConfig,
        opts: RegistrationConnectionOpts,
        discovered_port: Option<u16>,
    ) -> (r: Result<RegistrationConnectionConfig, RegistryError>)
        ensures
            r is Ok <==> (opts.server_spec.port is Some || discovered_port is Some),
            r matches Ok(c) ==> {
                &&& c.site_id.server@ == opts.server_spec.server@
                &&& c.site_id.site@ == opts.site@
                &&& c.receiver_port == match opts.server_spec.port {
                    Some(p) => p,
                    None => discovered_port->0,
                }
                &&& c.username@ == opts.user@
                &&& c.password == opts.password
                &&& c.root_certificate is None
                &&& c.trust_server_cert == opts.trust_server_cert
                &&& c.client_config.use_proxy == (opts.client_opts.detect_proxy || flag(
                    runtime_config.detect_proxy,
                ))
                &&& c.client_config.validate_api_cert == (opts.client_opts.validate_api_cert
                    || flag(runtime_config.validate_api_cert))
            },
            r matches Err(e) ==> e is MissingReceiverPort,
    {
        let receiver_port = match opts.server_spec.port {
            Some(p) => p,
            None => match discovered_port {
                Some(p) => p,
                None => {
                    return Err(
                        RegistryError::MissingReceiverPort(
                            String::from_str("Failed to discover the receiver port of the site"),
                        ),
                    );
                },
            },
        };
        let client_config = ClientConfig::new(runtime_config, opts.client_opts);
        Ok(
            RegistrationConnectionConfig {
                site_id: SiteID { server: opts.server_spec.server, site: opts.site },
                receiver_port,
                username: opts.user,
                password: opts.password,
                root_certificate: None,
                trust_server_cert: opts.trust_server_cert,
                client_config,
            },
        )
    }
}

/// A registration under a host name.
#[derive(Debug, Clone)]
pub struct RegistrationConfigHostName {
    pub connection_config: RegistrationConnectionConfig,
    pub host_name: String,
}

impl RegistrationConfigHostName {
    /// The connection configuration of the options, and their host name.
    pub fn new(
        runtime_config: RuntimeConfig,
        register_opts: RegisterOpts,
        discovered_port: Option<u16>,
    ) -> (r: Result<RegistrationConfigHostName, RegistryError>)
        ensures
            r is Ok <==> (register_opts.connection_opts.server_spec.port is Some
                || discovered_port is Some),
            r matches Ok(c) ==> {
                &&& c.host_name@ == register_opts.hostname@
                &&& c.connection_config.site_id.server@
                    == register_opts.connection_opts.server_spec.server@
                &&& c.connection_config.site_id.site@ == register_opts.connection_opts.site@
                &&& c.connection_config.receiver_port == match register_opts.connection_opts.server_spec.port {
                    Some(p) => p,
                    None => discovered_port->0,
                }
                &&& c.connection_config.username@ == register_opts.connection_opts.user@
            },
            r matches Err(e) ==> e is MissingReceiverPort,
    {
        let connection_config = RegistrationConnectionConfig::new(
            runtime_config,
            register_opts.connection_opts,
            discovered_port,
        )?;
        Ok(RegistrationConfigHostName { connection_config, host_name: register_opts.hostname })
    }
}

/// The name of the label that holds the host name.
pub open spec fn host_name_label() -> Seq<char> {
    "cmk/hostname-simple"@
}

/// The name of the label that holds the operating system's family.
pub open spec fn os_family_label() -> Seq<char> {
    "cmk/os-family"@
}

/// The labels the agent sets by itself.
pub open spec fn automatic_labels(host_name: Seq<char>, os_family: Seq<char>) -> Map<
    Seq<char>,
    Seq<char>,
> {
    Map::<Seq<char>, Seq<char>>::empty().insert(host_name_label(), host_name).insert(
        os_family_label(),
        os_family,
    )
}

/// A registration under agent labels.
#[derive(Debug, Clone)]
pub struct RegistrationConfigAgentLabels {
    pub connection_config: RegistrationConnectionConfig,
    pub agent_labels: AgentLabels,
}

impl RegistrationConfigAgentLabels {
    /// The connection configuration, with the user's labels on top of the
    /// automatic ones: the machine's host name and `os_family`. Refused when
    /// the host name is not valid text.
    pub fn new(
        connection_config: RegistrationConnectionConfig,
        agent_labels: AgentLabels,
        os_family: &str,
    ) -> (r: Result<RegistrationConfigAgentLabels, RegistryError>)
        requires
            agent_labels.wf(),
        ensures
            r matches Ok(c) ==> {
                &&& c.connection_config == connection_config
                &&& c.agent_labels.wf()
                &&& exists|h: Seq<char>|
                    c.agent_labels.view() == #[trigger] automatic_labels(
                        h,
                        os_family@,
                    ).union_prefer_right(agent_labels.view())
            },
            r matches Err(e) ==> e is HostName,
    {
        let host_name = machine_host_name();
        let labels = RegistrationConfigAgentLabels::enrich_with_automatic_agent_labels(
            agent_labels,
            host_name,
            os_family,
        )?;
        Ok(RegistrationConfigAgentLabels { connection_config, agent_labels: labels })
    }

    /// The automatic labels for a host name and an operating system family.
    pub fn automatic_agent_labels(host_name: String, os_family: &str) -> (r: AgentLabels)
        ensures
            r.wf(),
            r.view() == automatic_labels(host_name@, os_family@),
    {
        let mut labels = AgentLabels::new();
        labels.insert(String::from_str("cmk/hostname-simple"), host_name);
        labels.insert(String::from_str("cmk/os-family"), String::from_str(os_family));
        labels
    }

    /// The user's labels on top of the automatic ones; refused without a host name.
    pub fn enrich_with_automatic_agent_labels(
        user_defined_agent_labels: AgentLabels,
        host_name: Option<String>,
        os_family: &str,
    ) -> (r: Result<AgentLabels, RegistryError>)
        requires
            user_defined_agent_labels.wf(),
        ensures
            r is Ok <==> host_name is Some,
            r matches Ok(l) ==> l.wf() && l.view() == automatic_labels(
                host_name->0@,
                os_family@,
            ).union_prefer_right(user_defined_agent_labels.view()),
            r matches Err(e) ==> e is HostName,
    {
        match host_name {
            Some(h) => {
                let mut labels = RegistrationConfigAgentLabels::automatic_agent_labels(h, os_family);
                labels.extend(user_defined_agent_labels);
                Ok(labels)
            },
            None => Err(
                RegistryError::HostName(String::from_str("Failed to transform host name to str")),
            ),
        }
    }
}

/// Credentials of a user at a site.
#[derive(Debug, Clone)]
pub struct Credentials {
    pub username: String,
    pub password: String,
}

/// A connection given in advance: the site's receiver port, when known, the
/// credentials to register with, and the site's root certificate.
#[derive(Debug, Clone)]
pub struct PreConfiguredConnection {
    pub port: Option<u16>,
    pub credentials: Credentials,
    pub root_cert: String,
}

/// Connections and labels given in advance.
#[derive(Debug, Clone)]
pub struct PreConfiguredConnections {
    pub connections: Vec<(SiteID, PreConfiguredConnection)>,
    pub agent_labels: AgentLabels,
    pub keep_vanished_connections: bool,
}

/// The pull server's settings and the registry it serves from.
#[derive(Debug, Clone)]
pub struct PullConfig {
    pub allowed_ip: Vec<String>,
    pub port: u16,
    pub max_connections: usize,
    pub connection_timeout: u64,
    pub registry: Registry,
}

impl PullConfig {
    /// The port is the one of the options, else the runtime configuration's,
    /// else the default; no allowed addresses configured means an empty list.
    pub fn new(
        runtime_config: RuntimeConfig,
        pull_opts: PullOpts,
        registry: Registry,
        max_connections: usize,
        connection_timeout: u64,
    ) -> (r: PullConfig)
        ensures
            r.allowed_ip@ == match runtime_config.allowed_ip {
                Some(v) => v@,
                None => Seq::<String>::empty(),
            },
            r.port == match pull_opts.port {
                Some(p) => p,
                None => match runtime_config.pull_port {
                    Some(p) => p,
                    None => DEFAULT_PULL_PORT,
                },
            },
            r.max_connections == max_connections,
            r.connection_timeout == connection_timeout,
            r.registry == registry,
    {
        let allowed_ip = match runtime_config.allowed_ip {
            Some(v) => v,
            None => Vec::new(),
        };
        let port = match pull_opts.port {
            Some(p) => p,
            None => match runtime_config.pull_port {
                Some(p) => p,
                None => DEFAULT_PULL_PORT,
            },
        };
        PullConfig { allowed_ip, port, max_connections, connection_timeout, registry }
    }

    /// Whether the registry file must be read again; see `Registry::refresh_needed`.
    pub fn refresh_needed(&self, current: Option<FileTime>) -> (r: bool)
        ensures
            r == crate::registry::reload_needed(current, self.registry.last_reload),
    {
        self.registry.refresh_needed(current)
    }

    /// Takes in what was read from the registry file.
    pub fn reload(&mut self, connections: RegisteredConnections, mtime: Option<FileTime>)
        requires
            connections.wf(),
        ensures
            final(self).registry.wf(),
            final(self).registry.connections == connections,
            final(self).registry.last_reload == mtime,
            final(self).registry.path == old(self).registry.path,
            final(self).registry.legacy_pull_marker == old(self).registry.legacy_pull_marker,
            final(self).allowed_ip == old(self).allowed_ip,
            final(self).port == old(self).port,
    {
        self.registry.reload(connections, mtime);
    }

    pub fn allow_legacy_pull(&self, marker_exists: bool) -> (r: bool)
        requires
            self.registry.wf(),
        ensures
            r == (self.registry.is_empty_spec() && marker_exists),
    {
        self.registry.legacy_pull_active(marker_exists)
    }

    /// The pull identities of the registry.
    pub fn connections(&self) -> (r: Vec<TrustedConnection>)
        requires
            self.registry.wf(),
        ensures
            r@.len() == self.registry.pull_view().len() + self.registry.imported_view().len(),
            forall|i: int|
                0 <= i < self.registry.pull_view().len() ==> #[trigger] r@[i]@
                    == self.registry.pull_view()[self.registry.connections.pull.order()[i]].trust,
            forall|i: int|
                self.registry.pull_view().len() <= i < r@.len() ==> #[trigger] r@[i]@
                    == self.registry.imported_view()[r@[i].uuid],
            r@.subrange(self.registry.pull_view().len() as int, r@.len() as int).map_values(
                |c: TrustedConnection| c.uuid,
            ).to_set() == self.registry.imported_view().dom(),
    {
        self.registry.pull_connections()
    }

    pub fn has_connections(&self) -> (r: bool)
        requires
            self.registry.wf(),
        ensures
            r == !(self.registry.pull_view() =~= Map::empty() && self.registry.imported_view()
                =~= Map::empty()),
    {
        !self.registry.pull_is_empty()
    }
}

} // verus!
