use agent_registry::connection::{ConnectionType, TrustedConnection, TrustedConnectionWithRemote};
use agent_registry::error::RegistryError;
use agent_registry::registry::{FileTime, RegisteredConnections, Registry};
use agent_registry::site_id::SiteID;

const REGISTRY_PATH: &str = "/var/lib/agent/registry.json";

fn site(s: &str) -> SiteID {
    SiteID::from_str(s).unwrap()
}

fn connection_from(u: u128) -> TrustedConnection {
    TrustedConnection::new(u, "private_key", "certificate", "root_cert")
}

fn trusted_connection() -> TrustedConnection {
    connection_from(uuid::Uuid::new_v4().as_u128())
}

fn trusted_connection_with_remote() -> TrustedConnectionWithRemote {
    TrustedConnectionWithRemote::new(trusted_connection(), 8000)
}

fn registry() -> Registry {
    let mut registry = Registry::new(REGISTRY_PATH).unwrap();
    registry.register_connection(
        &ConnectionType::Push,
        &site("server/push-site"),
        trusted_connection_with_remote(),
    );
    registry.register_connection(
        &ConnectionType::Pull,
        &site("server/pull-site"),
        trusted_connection_with_remote(),
    );
    registry.register_imported_connection(trusted_connection());
    registry
}

#[test]
fn test_new() {
    let reg = Registry::new(REGISTRY_PATH).unwrap();
    assert!(reg.pull_is_empty() && reg.push_is_empty());
    assert!(reg.last_reload.is_none());
}

#[test]
fn test_register_push_connection_new() {
    let mut reg = registry();
    reg.register_connection(
        &ConnectionType::Push,
        &site("new_server/new-site"),
        trusted_connection_with_remote(),
    );
    assert!(reg.connections.push.len() == 2);
    assert!(reg.connections.pull.len() == 1);
    assert!(reg.connections.pull_imported.len() == 1);
}

#[test]
fn test_register_push_connection_from_pull() {
    let mut reg = registry();
    reg.register_connection(
        &ConnectionType::Push,
        &site("server/pull-site"),
        trusted_connection_with_remote(),
    );
    assert!(reg.connections.push.len() == 2);
    assert!(reg.connections.pull.is_empty());
    assert!(reg.connections.pull_imported.len() == 1);
}

#[test]
fn test_register_pull_connection_new() {
    let mut reg = registry();
    reg.register_connection(
        &ConnectionType::Pull,
        &site("new_server/new-site"),
        trusted_connection_with_remote(),
    );
    assert!(reg.connections.push.len() == 1);
    assert!(reg.connections.pull.len() == 2);
    assert!(reg.connections.pull_imported.len() == 1);
}

#[test]
fn test_register_pull_connection_from_push() {
    let mut reg = registry();
    reg.register_connection(
        &ConnectionType::Pull,
        &site("server/push-site"),
        trusted_connection_with_remote(),
    );
    assert!(reg.connections.push.is_empty());
    assert!(reg.connections.pull.len() == 2);
    assert!(reg.connections.pull_imported.len() == 1);
}

#[test]
fn test_register_imported_connection() {
    let mut reg = registry();
    let conn = trusted_connection();
    let uuid = conn.uuid;
    reg.register_imported_connection(conn);
    assert!(reg.connections.push.len() == 1);
    assert!(reg.connections.pull.len() == 1);
    assert!(reg.connections.pull_imported.len() == 2);
    assert!(reg.connections.pull_imported.contains(uuid));
}

#[test]
fn test_is_empty() {
    let mut reg = registry();
    assert!(!reg.is_empty());
    reg.connections.push.clear();
    assert!(!reg.is_empty());
    reg.connections.pull.clear();
    assert!(!reg.is_empty());
    reg.connections.pull_imported.clear();
    assert!(reg.is_empty());
}

#[test]
fn test_pull_connections() {
    let reg = registry();
    let pull_conns: Vec<TrustedConnection> = reg.pull_connections();
    assert!(pull_conns.len() == 2);
    assert!(pull_conns[0] == reg.connections.pull.get(&site("server/pull-site")).unwrap().trust);
    assert!(reg.connections.pull_imported.contains(pull_conns[1].uuid));
}

#[test]
fn test_registered_site_ids() {
    let reg = registry();
    let mut reg_site_ids: Vec<String> =
        reg.registered_site_ids().iter().map(|s| s.to_string()).collect();
    reg_site_ids.sort_unstable();
    assert_eq!(reg_site_ids, vec!["server/pull-site", "server/push-site"]);
}

#[test]
fn test_get_mutable() {
    let mut reg = registry();
    let pull_conn = reg.standard_pull_connections()[0].1.clone();
    let push_conn = reg.push_connections()[0].1.clone();
    assert_eq!(reg.get_mutable(&site("server/pull-site")).unwrap(), &pull_conn);
    assert_eq!(reg.get_mutable(&site("server/push-site")).unwrap(), &push_conn);
    assert!(reg.get_mutable(&site("a/b")).is_none());
}

#[test]
fn test_delete_push() {
    let mut reg = registry();
    assert!(reg.delete_standard_connection(&site("server/push-site")).is_ok());
    assert!(reg.connections.push.is_empty());
    assert!(reg.connections.pull.len() == 1);
    assert!(reg.connections.pull_imported.len() == 1);
}

#[test]
fn test_delete_pull() {
    let mut reg = registry();
    assert!(reg.delete_standard_connection(&site("server/pull-site")).is_ok());
    assert!(reg.connections.push.len() == 1);
    assert!(reg.connections.pull.is_empty());
    assert!(reg.connections.pull_imported.len() == 1);
}

#[test]
fn test_delete_missing() {
    let mut reg = registry();
    assert_eq!(
        reg.delete_standard_connection(&site("wiener_schnitzel/pommes"))
            .unwrap_err()
            .message(),
        "Connection 'wiener_schnitzel/pommes' not found"
    );
    assert!(reg.connections.push.len() == 1);
    assert!(reg.connections.pull.len() == 1);
    assert!(reg.connections.pull_imported.len() == 1);
}

#[test]
fn test_delete_imported_connection_ok() {
    let uuid_first_imported = uuid::Uuid::new_v4().as_u128();
    let uuid_second_imported = uuid::Uuid::new_v4().as_u128();
    let mut reg = registry();
    reg.connections.pull_imported.clear();
    reg.register_imported_connection(connection_from(uuid_first_imported));
    reg.register_imported_connection(connection_from(uuid_second_imported));
    assert!(reg.delete_imported_connection(uuid_first_imported).is_ok());
    assert!(reg.connections.pull_imported.len() == 1);
    assert!(reg.connections.pull_imported.contains(uuid_second_imported));
}

#[test]
fn test_delete_imported_connection_err() {
    let mut reg = registry();
    let uuid = uuid::Uuid::new_v4();
    assert_eq!(
        reg.delete_imported_connection(uuid.as_u128()).unwrap_err().message(),
        format!("Imported pull connection with UUID {} not found", uuid),
    );
    assert!(reg.connections.push.len() == 1);
    assert!(reg.connections.pull.len() == 1);
    assert!(reg.connections.pull_imported.len() == 1);
}

#[test]
fn test_clear() {
    let mut reg = registry();
    reg.clear();
    assert!(reg.is_empty());
}

#[test]
fn test_clear_imported() {
    let mut reg = registry();
    reg.clear_imported();
    assert!(reg.pull_imported_is_empty());
    assert!(!reg.is_empty());
}

#[test]
fn test_legacy_pull_marker_handling() {
    let mut registry = Registry::new("/var/lib/agent/registry.json").unwrap();
    let mut marker_exists = false;
    assert!(!registry.legacy_pull_active(marker_exists));
    let marker = registry.activate_legacy_pull().unwrap();
    assert_eq!(marker.path, "/var/lib/agent/allow-legacy-pull");
    marker_exists = true;
    assert!(registry.legacy_pull_active(marker_exists));
    registry.register_connection(
        &ConnectionType::Push,
        &site("server/push-site"),
        trusted_connection_with_remote(),
    );
    assert!(!registry.legacy_pull_active(marker_exists));
    assert!(registry.activate_legacy_pull().is_err());
}

#[test]
fn marker_lies_beside_the_registry_file() {
    let reg = Registry::new("/etc/agent/connections.json").unwrap();
    assert_eq!(reg.legacy_pull_marker.path, "/etc/agent/allow-legacy-pull");
    assert_eq!(reg.path(), "/etc/agent/connections.json");
    let relative = Registry::new("registry.json").unwrap();
    assert_eq!(relative.legacy_pull_marker.path, "allow-legacy-pull");
}

#[test]
fn path_without_parent_is_refused() {
    assert!(matches!(Registry::new("/"), Err(RegistryError::InvalidPath(_))));
    assert!(matches!(Registry::new(""), Err(RegistryError::InvalidPath(_))));
}

#[test]
fn push_and_pull_stay_apart_over_many_registrations() {
    let mut reg = Registry::new(REGISTRY_PATH).unwrap();
    let sites = ["a/one", "a/two", "b/one"];
    let kinds = [ConnectionType::Push, ConnectionType::Pull];
    for step in 0..12usize {
        let id = site(sites[step % 3]);
        reg.register_connection(&kinds[step % 2], &id, trusted_connection_with_remote());
        for s in sites.iter() {
            let id = site(s);
            assert!(!(reg.connections.push.contains(&id) && reg.connections.pull.contains(&id)));
        }
        assert!(reg.connections.push.len() + reg.connections.pull.len() <= 3);
    }
}

#[test]
fn registering_moves_a_site_between_maps() {
    let mut reg = registry();
    let moved = trusted_connection_with_remote();
    let uuid = moved.trust.uuid;
    reg.register_connection(&ConnectionType::Pull, &site("server/push-site"), moved);
    assert!(!reg.connections.push.contains(&site("server/push-site")));
    assert_eq!(reg.connections.pull.get(&site("server/push-site")).unwrap().trust.uuid, uuid);
    reg.register_connection(
        &ConnectionType::Push,
        &site("server/push-site"),
        trusted_connection_with_remote(),
    );
    assert!(!reg.connections.pull.contains(&site("server/push-site")));
    assert!(reg.connections.push.contains(&site("server/push-site")));
}

#[test]
fn reimporting_a_uuid_keeps_the_first_material() {
    let mut reg = Registry::new(REGISTRY_PATH).unwrap();
    let u = uuid::Uuid::new_v4().as_u128();
    reg.register_imported_connection(TrustedConnection::new(u, "key-1", "cert-1", "root-1"));
    reg.register_imported_connection(TrustedConnection::new(u, "key-2", "cert-2", "root-2"));
    let imported = reg.imported_pull_connections();
    assert_eq!(imported.len(), 1);
    assert_eq!(imported[0].private_key, "key-1");
    assert_eq!(imported[0].certificate, "cert-1");
}

#[test]
fn delete_missing_imported_names_the_uuid() {
    let mut reg = Registry::new(REGISTRY_PATH).unwrap();
    let u: u128 = 0x0123_4567_89ab_cdef_0011_2233_4455_6677;
    let err = reg.delete_imported_connection(u).unwrap_err();
    assert!(matches!(err, RegistryError::NotFound(_)));
    assert_eq!(
        err.message(),
        "Imported pull connection with UUID 01234567-89ab-cdef-0011-223344556677 not found"
    );
}

#[test]
fn delete_reports_which_map() {
    let mut reg = registry();
    assert_eq!(reg.delete_standard_connection(&site("server/push-site")).unwrap(), ConnectionType::Push);
    assert_eq!(reg.delete_standard_connection(&site("server/pull-site")).unwrap(), ConnectionType::Pull);
    assert!(reg.delete_standard_connection(&site("server/pull-site")).is_err());
}

#[test]
fn refresh_decisions() {
    let t1 = FileTime { nanos: 1_000 };
    let t2 = FileTime { nanos: 2_000 };
    let mut reg = Registry::new(REGISTRY_PATH).unwrap();
    assert!(!reg.refresh_needed(None));
    assert!(reg.refresh_needed(Some(t1)));
    reg.reload(RegisteredConnections::new(), Some(t2));
    assert!(!reg.refresh_needed(Some(t2)));
    assert!(reg.refresh_needed(Some(FileTime { nanos: 3_000 })));
    assert!(reg.refresh_needed(Some(t1)));
    assert!(reg.refresh_needed(None));
}

#[test]
fn reload_takes_the_new_content() {
    let mut reg = Registry::new(REGISTRY_PATH).unwrap();
    let other = registry();
    let t = FileTime { nanos: -5 };
    reg.reload(other.connections.clone(), Some(t));
    assert_eq!(reg.last_reload(), Some(t));
    assert_eq!(reg.connections.push.len(), 1);
    assert_eq!(reg.connections.pull.len(), 1);
    assert_eq!(reg.connections.pull_imported.len(), 1);
    assert!(!reg.refresh_needed(Some(t)));
}

#[test]
fn end_to_end_registration() {
    let reg = registry();
    let mut ids: Vec<String> = reg.registered_site_ids().iter().map(|s| s.to_string()).collect();
    ids.sort();
    assert_eq!(ids, vec!["server/pull-site", "server/push-site"]);
    assert_eq!(reg.pull_connections().len(), 2);
    assert!(!reg.is_empty());
}

#[test]
fn end_to_end_legacy_mode() {
    let mut reg = Registry::new(REGISTRY_PATH).unwrap();
    assert!(reg.activate_legacy_pull().is_ok());
    assert!(reg.legacy_pull_active(true));
    reg.register_connection(
        &ConnectionType::Push,
        &site("server/push-site"),
        trusted_connection_with_remote(),
    );
    assert!(!reg.legacy_pull_active(true));
    assert!(matches!(reg.activate_legacy_pull(), Err(RegistryError::PreconditionFailed(_))));
}

#[test]
fn imported_connection_ends_legacy_mode() {
    let mut reg = Registry::new(REGISTRY_PATH).unwrap();
    assert!(reg.legacy_pull_active(true));
    reg.register_imported_connection(trusted_connection());
    assert!(!reg.legacy_pull_active(true));
    assert!(!reg.legacy_pull_active(false));
}

#[test]
fn site_ids_read_and_print() {
    let id = SiteID::from_str("server/site").unwrap();
    assert_eq!(id.server, "server");
    assert_eq!(id.site, "site");
    assert_eq!(id.to_string(), "server/site");
    assert!(matches!(SiteID::from_str("server"), Err(RegistryError::InvalidSiteId(_))));
    assert!(SiteID::from_str("a/b/c").is_err());
    assert_eq!(SiteID::new("x", "y").to_string(), "x/y");
}

#[test]
fn connection_type_texts() {
    assert_eq!(ConnectionType::Push.as_str(), "push-agent");
    assert_eq!(ConnectionType::Pull.to_string(), "pull-agent");
    assert_eq!(ConnectionType::from_str("pull-agent").unwrap(), ConnectionType::Pull);
    assert_eq!(ConnectionType::from_str("push-agent").unwrap(), ConnectionType::Push);
    assert!(matches!(
        ConnectionType::from_str("push"),
        Err(RegistryError::InvalidConnectionType(_))
    ));
}

#[test]
fn equality_goes_by_uuid() {
    let a = TrustedConnection::new(7, "k1", "c1", "r1");
    let b = TrustedConnection::new(7, "k2", "c2", "r2");
    assert!(a == b);
    let ra = TrustedConnectionWithRemote::new(a, 1);
    let rb = TrustedConnectionWithRemote::new(b, 2);
    assert!(ra == rb);
    assert_eq!(ra.trust.uuid_string(), "00000000-0000-0000-0000-000000000007");
}

#[test]
fn parts_round_trip() {
    let reg = registry();
    let (push, pull, imported) = reg.connections.to_parts();
    assert_eq!(push.len(), 1);
    assert_eq!(pull.len(), 1);
    assert_eq!(imported.len(), 1);
    let back = RegisteredConnections::from_parts(push.clone(), pull.clone(), imported.clone());
    let (push2, pull2, imported2) = back.to_parts();
    assert_eq!(push2[0].0.to_string(), "server/push-site");
    assert_eq!(push2[0].1, push[0].1);
    assert_eq!(pull2[0].0.to_string(), "server/pull-site");
    assert_eq!(pull2[0].1.receiver_port, 8000);
    assert_eq!(imported2[0].uuid, imported[0].uuid);
}

#[test]
fn from_parts_duplicates() {
    let a = connection_from(1);
    let b = TrustedConnection::new(1, "other-key", "other-cert", "other-root");
    let first = TrustedConnectionWithRemote::new(connection_from(10), 1000);
    let second = TrustedConnectionWithRemote::new(connection_from(11), 1001);
    let c = RegisteredConnections::from_parts(
        vec![(site("s/x"), first), (site("s/x"), second)],
        vec![],
        vec![a, b],
    );
    assert_eq!(c.push.len(), 1);
    assert_eq!(c.push.get(&site("s/x")).unwrap().receiver_port, 1001);
    assert!(c.pull.is_empty());
    assert_eq!(c.pull_imported.len(), 1);
    assert_eq!(c.pull_imported.trusts()[0].private_key, "private_key");
}

#[test]
fn get_mutable_looks_in_push_first() {
    let push_conn = TrustedConnectionWithRemote::new(connection_from(21), 1001);
    let pull_conn = TrustedConnectionWithRemote::new(connection_from(22), 1002);
    let connections = RegisteredConnections::from_parts(
        vec![(site("server/both"), push_conn)],
        vec![(site("server/both"), pull_conn)],
        vec![],
    );
    let mut reg = Registry::loaded(REGISTRY_PATH, connections, None).unwrap();
    {
        let handle = reg.get_mutable(&site("server/both")).unwrap();
        assert_eq!(handle.trust.uuid, 21);
        handle.receiver_port = 2000;
    }
    assert_eq!(reg.connections.push.get(&site("server/both")).unwrap().receiver_port, 2000);
    assert_eq!(reg.connections.pull.get(&site("server/both")).unwrap().receiver_port, 1002);
}

#[test]
fn refused_legacy_activation_message() {
    let reg = registry();
    assert_eq!(
        reg.activate_legacy_pull().unwrap_err().message(),
        "Cannot enable legacy pull mode since there are registered connections"
    );
}
