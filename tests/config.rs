use agent_registry::cli::{ClientOpts, PullOpts, RegisterOpts, RegistrationConnectionOpts, ServerSpec};
use agent_registry::config::{
    ClientConfig, PullConfig, RegistrationConfigAgentLabels, RegistrationConfigHostName,
    RegistrationConnectionConfig, RuntimeConfig, DEFAULT_PULL_PORT,
};
use agent_registry::connection::{ConnectionType, TrustedConnection, TrustedConnectionWithRemote};
use agent_registry::error::RegistryError;
use agent_registry::labels::AgentLabels;
use agent_registry::registry::Registry;
use agent_registry::site_id::SiteID;

fn registration_connection_opts() -> RegistrationConnectionOpts {
    RegistrationConnectionOpts {
        server_spec: ServerSpec { server: String::from("server"), port: Some(8000) },
        site: String::from("site"),
        user: String::from("user"),
        password: None,
        trust_server_cert: false,
        client_opts: ClientOpts { detect_proxy: false, validate_api_cert: false },
    }
}

fn runtime_config() -> RuntimeConfig {
    RuntimeConfig { allowed_ip: None, pull_port: None, detect_proxy: None, validate_api_cert: None }
}

#[test]
fn test_connection_config() {
    let connection_config =
        RegistrationConnectionConfig::new(runtime_config(), registration_connection_opts(), None)
            .unwrap();
    assert_eq!(connection_config.site_id.server, "server");
    assert_eq!(connection_config.site_id.site, "site");
    assert_eq!(connection_config.receiver_port, 8000);
    assert_eq!(connection_config.username, "user");
    assert!(connection_config.password.is_none());
}

#[test]
fn test_host_name_config() {
    assert_eq!(
        RegistrationConfigHostName::new(
            runtime_config(),
            RegisterOpts {
                connection_opts: registration_connection_opts(),
                hostname: String::from("host_name"),
            },
            None,
        )
        .unwrap()
        .host_name,
        "host_name"
    );
}

#[test]
fn test_automatic_agent_labels() {
    let agent_labels = RegistrationConfigAgentLabels::new(
        RegistrationConnectionConfig::new(runtime_config(), registration_connection_opts(), None)
            .unwrap(),
        AgentLabels::new(),
        "linux",
    )
    .unwrap()
    .agent_labels;

    let mut keys = agent_labels.keys();
    keys.sort();
    assert_eq!(keys, ["cmk/hostname-simple", "cmk/os-family"]);
}

#[test]
fn test_user_defined_labels() {
    let mut user = AgentLabels::new();
    user.insert(String::from("cmk/hostname-simple"), String::from("custom-name"));
    user.insert(String::from("a"), String::from("b"));
    let agent_labels = RegistrationConfigAgentLabels::new(
        RegistrationConnectionConfig::new(runtime_config(), registration_connection_opts(), None)
            .unwrap(),
        user,
        "linux",
    )
    .unwrap()
    .agent_labels;

    let mut keys = agent_labels.keys();
    keys.sort();
    assert_eq!(keys, ["a", "cmk/hostname-simple", "cmk/os-family"]);
    assert_eq!(agent_labels.get("cmk/hostname-simple").unwrap(), "custom-name");
    assert_eq!(agent_labels.get("a").unwrap(), "b");
}

#[test]
fn test_defaults() {
    let client_config = ClientConfig::new(
        RuntimeConfig { allowed_ip: None, pull_port: None, detect_proxy: None, validate_api_cert: None },
        ClientOpts { detect_proxy: false, validate_api_cert: false },
    );
    assert!(!client_config.use_proxy);
    assert!(!client_config.validate_api_cert);
}

#[test]
fn test_from_runtime_config() {
    let client_config = ClientConfig::new(
        RuntimeConfig {
            allowed_ip: None,
            pull_port: None,
            detect_proxy: Some(true),
            validate_api_cert: Some(true),
        },
        ClientOpts { detect_proxy: false, validate_api_cert: false },
    );
    assert!(client_config.use_proxy);
    assert!(client_config.validate_api_cert);
}

#[test]
fn test_from_client_opts() {
    let client_config = ClientConfig::new(
        RuntimeConfig { allowed_ip: None, pull_port: None, detect_proxy: None, validate_api_cert: None },
        ClientOpts { detect_proxy: true, validate_api_cert: true },
    );
    assert!(client_config.use_proxy);
    assert!(client_config.validate_api_cert);
}

#[test]
fn discovered_port_is_used_without_a_given_one() {
    let mut opts = registration_connection_opts();
    opts.server_spec.port = None;
    let c = RegistrationConnectionConfig::new(runtime_config(), opts.clone(), Some(8123)).unwrap();
    assert_eq!(c.receiver_port, 8123);
    assert!(matches!(
        RegistrationConnectionConfig::new(runtime_config(), opts, None),
        Err(RegistryError::MissingReceiverPort(_))
    ));
    let given =
        RegistrationConnectionConfig::new(runtime_config(), registration_connection_opts(), Some(1))
            .unwrap();
    assert_eq!(given.receiver_port, 8000);
}

#[test]
fn enrich_labels_from_given_host_name() {
    let mut user = AgentLabels::new();
    user.insert(String::from("cmk/os-family"), String::from("custom-os"));
    let labels = RegistrationConfigAgentLabels::enrich_with_automatic_agent_labels(
        user,
        Some(String::from("myhost")),
        "linux",
    )
    .unwrap();
    assert_eq!(labels.len(), 2);
    assert_eq!(labels.get("cmk/hostname-simple").unwrap(), "myhost");
    assert_eq!(labels.get("cmk/os-family").unwrap(), "custom-os");
    assert!(matches!(
        RegistrationConfigAgentLabels::enrich_with_automatic_agent_labels(AgentLabels::new(), None, "linux"),
        Err(RegistryError::HostName(_))
    ));
}

#[test]
fn default_runtime_config_is_unset() {
    let rc = RuntimeConfig::default();
    assert!(rc.allowed_ip.is_none() && rc.pull_port.is_none());
    assert!(rc.detect_proxy.is_none() && rc.validate_api_cert.is_none());
}

#[test]
fn pull_port_precedence() {
    let reg = Registry::new("/var/lib/agent/registry.json").unwrap();
    let mut rc = runtime_config();
    rc.pull_port = Some(7000);
    rc.allowed_ip = Some(vec![String::from("10.0.0.1")]);
    let from_opts = PullConfig::new(rc.clone(), PullOpts { port: Some(9000) }, reg.clone(), 10, 20);
    assert_eq!(from_opts.port, 9000);
    assert_eq!(from_opts.allowed_ip, vec![String::from("10.0.0.1")]);
    let from_runtime = PullConfig::new(rc, PullOpts { port: None }, reg.clone(), 10, 20);
    assert_eq!(from_runtime.port, 7000);
    let default = PullConfig::new(runtime_config(), PullOpts { port: None }, reg, 10, 20);
    assert_eq!(default.port, DEFAULT_PULL_PORT);
    assert!(default.allowed_ip.is_empty());
    assert_eq!(default.max_connections, 10);
    assert_eq!(default.connection_timeout, 20);
}

#[test]
fn pull_config_delegates_to_registry() {
    let mut reg = Registry::new("/var/lib/agent/registry.json").unwrap();
    let mut config = PullConfig::new(runtime_config(), PullOpts { port: None }, reg.clone(), 1, 1);
    assert!(!config.has_connections());
    assert!(config.allow_legacy_pull(true));
    assert!(!config.allow_legacy_pull(false));
    reg.register_connection(
        &ConnectionType::Pull,
        &SiteID::from_str("server/pull-site").unwrap(),
        TrustedConnectionWithRemote::new(TrustedConnection::new(3, "k", "c", "r"), 8000),
    );
    config.reload(reg.connections.clone(), None);
    assert!(config.has_connections());
    assert!(!config.allow_legacy_pull(true));
    assert_eq!(config.connections().len(), 1);
    assert_eq!(config.connections()[0].uuid, 3);
}

#[test]
fn agent_labels_config_keeps_connection_config() {
    let c = RegistrationConfigAgentLabels::new(
        RegistrationConnectionConfig::new(runtime_config(), registration_connection_opts(), None)
            .unwrap(),
        AgentLabels::new(),
        "linux",
    )
    .unwrap();
    assert_eq!(c.connection_config.site_id.to_string(), "server/site");
    assert_eq!(c.connection_config.receiver_port, 8000);
    assert_eq!(c.connection_config.username, "user");
    assert_eq!(c.agent_labels.get("cmk/os-family").unwrap(), "linux");
}
