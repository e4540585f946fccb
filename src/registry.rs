use vstd::prelude::*;

use crate::connection::{
    uuid_text, ConnectionType, ConnectionView, RemoteConnectionView, TrustedConnection,
    TrustedConnectionWithRemote,
};
use crate::error::RegistryError;
use crate::imported::{
    imported_map, lemma_imported_round_trip, lists_connections_of, ImportedConnections,
};
use crate::site_id::{SiteID, SiteKey};
use crate::site_map::{lemma_pairs_round_trip, lists_pairs_of, pairs_map, SiteMap};

verus! {

/// What std's `Path::parent` gives for a path: the path without its last
/// component, or none for a root or an empty path.
pub uninterp spec fn path_parent(path: Seq<char>) -> Option<Seq<char>>;

/// What std's `Path::join` gives for a directory and a name in it.
pub uninterp spec fn path_join(dir: Seq<char>, name: Seq<char>) -> Seq<char>;

/// Relies on std's `Path::parent`, for a path given as text.
#[verifier::external_body]
fn parent_dir(path: &str) -> (r: Option<String>)
    ensures
        r matches Some(p) ==> path_parent(path@) == Some(p@),
        r is None ==> path_parent(path@) is None,
{
    match std::path::Path::new(path).parent() {
        Some(p) => Some(p.to_string_lossy().into_owned()),
        None => None,
    }
}

/// Relies on std's `Path::join`, for paths given as text.
#[verifier::external_body]
fn join_path(dir: &str, name: &str) -> (r: String)
    ensures
        r@ == path_join(dir@, name@),
{
    std::path::Path::new(dir).join(name).to_string_lossy().into_owned()
}

/// The file name of the legacy pull marker, beside the registry file.
pub open spec fn marker_file_name() -> Seq<char> {
    "allow-legacy-pull"@
}

/// Where the legacy pull marker of a registry at `path` lies.
pub open spec fn marker_path_of(path: Seq<char>) -> Seq<char> {
    path_join(path_parent(path)->0, marker_file_name())
}

/// A modification time of the registry file, in nanoseconds from the Unix epoch
/// (negative before it).
#[derive(Debug, Clone, Copy, PartialEq, Eq, Structural)]
pub struct FileTime {
    pub nanos: i128,
}

/// Whether the registry must be read again: the file's modification time now
/// differs from the one seen at the last load, or the file came or went. An
/// earlier time than the recorded one counts as a change too.
pub open spec fn reload_needed(current: Option<FileTime>, last_reload: Option<FileTime>) -> bool {
    current != last_reload
}

/// No site is both in `push` and in `pull`.
pub open spec fn sites_apart(
    push: Map<SiteKey, RemoteConnectionView>,
    pull: Map<SiteKey, RemoteConnectionView>,
) -> bool {
    forall|k: SiteKey| !(#[trigger] push.contains_key(k) && pull.contains_key(k))
}

/// The push and pull maps after registering `v` for site `k` as `t`: the site
/// enters the map of `t` and leaves the other one.
pub open spec fn register_spec(
    push: Map<SiteKey, RemoteConnectionView>,
    pull: Map<SiteKey, RemoteConnectionView>,
    t: ConnectionType,
    k: SiteKey,
    v: RemoteConnectionView,
) -> (Map<SiteKey, RemoteConnectionView>, Map<SiteKey, RemoteConnectionView>) {
    match t {
        ConnectionType::Push => (push.insert(k, v), pull.remove(k)),
        ConnectionType::Pull => (push.remove(k), pull.insert(k, v)),
    }
}

/// The push and pull maps after a sequence of registrations, applied in order.
pub open spec fn register_all(
    push: Map<SiteKey, RemoteConnectionView>,
    pull: Map<SiteKey, RemoteConnectionView>,
    ops: Seq<(ConnectionType, SiteKey, RemoteConnectionView)>,
) -> (Map<SiteKey, RemoteConnectionView>, Map<SiteKey, RemoteConnectionView>)
    decreases ops.len(),
{
    if ops.len() == 0 {
        (push, pull)
    } else {
        let (p, q) = register_all(push, pull, ops.drop_last());
        let op = ops.last();
        register_spec(p, q, op.0, op.1, op.2)
    }
}

/// The registered connections: by site for push and for pull, and the pull
/// connections imported without a site.
#[derive(Debug, Clone)]
pub struct RegisteredConnections {
    pub push: SiteMap,
    pub pull: SiteMap,
    pub pull_imported: ImportedConnections,
}

impl RegisteredConnections {
    pub open spec fn wf(&self) -> bool {
        &&& self.push.wf()
        &&& self.pull.wf()
        &&& self.pull_imported.wf()
    }

    pub open spec fn is_empty_spec(&self) -> bool {
        &&& self.push.view() == Map::<SiteKey, RemoteConnectionView>::empty()
        &&& self.pull.view() == Map::<SiteKey, RemoteConnectionView>::empty()
        &&& self.pull_imported.view() == Map::<u128, ConnectionView>::empty()
    }

    /// No connection at all.
    pub fn new() -> (r: RegisteredConnections)
        ensures
            r.wf(),
            r.is_empty_spec(),
    {
        RegisteredConnections {
            push: SiteMap::new(),
            pull: SiteMap::new(),
            pull_imported: ImportedConnections::new(),
        }
    }

    /// The connections of three lists: by site for push and for pull, where a
    /// site comes twice the later pair wins; and imported, where a UUID comes
    /// twice the earlier connection stays.
    pub fn from_parts(
        push: Vec<(SiteID, TrustedConnectionWithRemote)>,
        pull: Vec<(SiteID, TrustedConnectionWithRemote)>,
        pull_imported: Vec<TrustedConnection>,
    ) -> (r: RegisteredConnections)
        ensures
            r.wf(),
            r.push.view() == pairs_map(push@),
            r.pull.view() == pairs_map(pull@),
            r.pull_imported.view() == imported_map(pull_imported@),
    {
        RegisteredConnections {
            push: SiteMap::from_pairs(push),
            pull: SiteMap::from_pairs(pull),
            pull_imported: ImportedConnections::from_connections(pull_imported),
        }
    }

    /// The three lists that hold these connections: push pairs, pull pairs
    /// and imported connections.
    pub fn to_parts(&self) -> (r: (
        Vec<(SiteID, TrustedConnectionWithRemote)>,
        Vec<(SiteID, TrustedConnectionWithRemote)>,
        Vec<TrustedConnection>,
    ))
        requires
            self.wf(),
        ensures
            lists_pairs_of(self.push, r.0@),
            lists_pairs_of(self.pull, r.1@),
            lists_connections_of(self.pull_imported, r.2@),
    {
        (self.push.pairs(), self.pull.pairs(), self.pull_imported.trusts())
    }
}

/// Writing the connections out as lists and reading the lists back gives the
/// same connections: `from_parts` after `to_parts` keeps every map and set.
pub proof fn lemma_parts_round_trip(
    c: RegisteredConnections,
    push: Seq<(SiteID, TrustedConnectionWithRemote)>,
    pull: Seq<(SiteID, TrustedConnectionWithRemote)>,
    pull_imported: Seq<TrustedConnection>,
)
    requires
        c.wf(),
        lists_pairs_of(c.push, push),
        lists_pairs_of(c.pull, pull),
        lists_connections_of(c.pull_imported, pull_imported),
    ensures
        pairs_map(push) == c.push.view(),
        pairs_map(pull) == c.pull.view(),
        imported_map(pull_imported) == c.pull_imported.view(),
{
    lemma_pairs_round_trip(c.push, push);
    lemma_pairs_round_trip(c.pull, pull);
    lemma_imported_round_trip(c.pull_imported, pull_imported);
}

/// Saving and loading again keeps a registry: a registry bound to the same
/// path and built by `from_parts` from the lists that `to_parts` gave holds
/// the same connections under the same path and marker.
pub proof fn lemma_registry_round_trip(
    saved: Registry,
    loaded: Registry,
    push: Seq<(SiteID, TrustedConnectionWithRemote)>,
    pull: Seq<(SiteID, TrustedConnectionWithRemote)>,
    pull_imported: Seq<TrustedConnection>,
)
    requires
        saved.wf(),
        lists_pairs_of(saved.connections.push, push),
        lists_pairs_of(saved.connections.pull, pull),
        lists_connections_of(saved.connections.pull_imported, pull_imported),
        loaded.connections.push.view() == pairs_map(push),
        loaded.connections.pull.view() == pairs_map(pull),
        loaded.connections.pull_imported.view() == imported_map(pull_imported),
        loaded.path@ == saved.path@,
        loaded.legacy_pull_marker.path@ == marker_path_of(saved.path@),
        saved.legacy_pull_marker.path@ == marker_path_of(saved.path@),
    ensures
        loaded.push_view() == saved.push_view(),
        loaded.pull_view() == saved.pull_view(),
        loaded.imported_view() == saved.imported_view(),
        loaded.path@ == saved.path@,
        loaded.legacy_pull_marker.path@ == saved.legacy_pull_marker.path@,
{
    lemma_parts_round_trip(saved.connections, push, pull, pull_imported);
}

/// The marker file whose presence allows the unauthenticated legacy pull mode.
#[derive(Debug, Clone)]
pub struct LegacyPullMarker {
    pub path: String,
}

/// The registry of trusted connections, bound to the file that holds it.
#[derive(Debug, Clone)]
pub struct Registry {
    pub connections: RegisteredConnections,
    pub path: String,
    /// The file's modification time when it was last read; none while it was absent.
    pub last_reload: Option<FileTime>,
    pub legacy_pull_marker: LegacyPullMarker,
}

impl Registry {
    pub open spec fn wf(&self) -> bool {
        self.connections.wf()
    }

    pub open spec fn push_view(&self) -> Map<SiteKey, RemoteConnectionView> {
        self.connections.push.view()
    }

    pub open spec fn pull_view(&self) -> Map<SiteKey, RemoteConnectionView> {
        self.connections.pull.view()
    }

    pub open spec fn imported_view(&self) -> Map<u128, ConnectionView> {
        self.connections.pull_imported.view()
    }

    pub open spec fn is_empty_spec(&self) -> bool {
        self.connections.is_empty_spec()
    }

    /// Path, marker and last load time are those of `other`.
    pub open spec fn same_binding(&self, other: &Registry) -> bool {
        &&& self.path@ == other.path@
        &&& self.last_reload == other.last_reload
        &&& self.legacy_pull_marker.path@ == other.legacy_pull_marker.path@
    }

    /// An empty registry bound to `path`; the path must have a parent directory,
    /// where the legacy pull marker lies.
    pub fn new(path: &str) -> (r: Result<Registry, RegistryError>)
        ensures
            r is Ok <==> path_parent(path@) is Some,
            r matches Ok(reg) ==> {
                &&& reg.wf()
                &&& reg.is_empty_spec()
                &&& reg.path@ == path@
                &&& reg.last_reload is None
                &&& reg.legacy_pull_marker.path@ == marker_path_of(path@)
            },
            r matches Err(e) ==> e is InvalidPath,
    {
        Registry::loaded(path, RegisteredConnections::new(), None)
    }

    /// A registry bound to `path` holding `connections`, as read from the file
    /// whose modification time was `mtime` (none: the file was absent).
    pub fn loaded(path: &str, connections: RegisteredConnections, mtime: Option<FileTime>) -> (r:
        Result<Registry, RegistryError>)
        requires
            connections.wf(),
        ensures
            r is Ok <==> path_parent(path@) is Some,
            r matches Ok(reg) ==> {
                &&& reg.wf()
                &&& reg.connections == connections
                &&& reg.path@ == path@
                &&& reg.last_reload == mtime
                &&& reg.legacy_pull_marker.path@ == marker_path_of(path@)
            },
            r matches Err(e) ==> e is InvalidPath,
    {
        match parent_dir(path) {
            Some(dir) => {
                let marker = join_path(dir.as_str(), "allow-legacy-pull");
                Ok(
                    Registry {
                        connections,
                        path: String::from_str(path),
                        last_reload: mtime,
                        legacy_pull_marker: LegacyPullMarker { path: marker },
                    },
                )
            },
            None => {
                let mut m = String::from_str("Failed to determine parent path of connection registry ");
                m.append(path);
                Err(RegistryError::InvalidPath(m))
            },
        }
    }

    pub fn path(&self) -> (r: &str)
        ensures
            r@ == self.path@,
    {
        self.path.as_str()
    }

    pub fn last_reload(&self) -> (r: Option<FileTime>)
        ensures
            r == self.last_reload,
    {
        self.last_reload
    }

    /// Whether the file must be read again, given its modification time now
    /// (none: the file is absent).
    pub fn refresh_needed(&self, current: Option<FileTime>) -> (r: bool)
        ensures
            r == reload_needed(current, self.last_reload),
    {
        match (current, self.last_reload) {
            (Some(now), Some(then)) => now.nanos != then.nanos,
            (None, None) => false,
            _ => true,
        }
    }

    /// Takes in what was read from the file, and its modification time then.
    pub fn reload(&mut self, connections: RegisteredConnections, mtime: Option<FileTime>)
        requires
            connections.wf(),
        ensures
            final(self).wf(),
            final(self).connections == connections,
            final(self).last_reload == mtime,
            final(self).path == old(self).path,
            final(self).legacy_pull_marker == old(self).legacy_pull_marker,
    {
        self.connections = connections;
        self.last_reload = mtime;
    }

    pub fn pull_standard_is_empty(&self) -> (r: bool)
        requires
            self.wf(),
        ensures
            r == (self.pull_view() == Map::<SiteKey, RemoteConnectionView>::empty()),
    {
        self.connections.pull.is_empty()
    }

    pub fn pull_imported_is_empty(&self) -> (r: bool)
        requires
            self.wf(),
        ensures
            r == (self.imported_view() == Map::<u128, ConnectionView>::empty()),
    {
        self.connections.pull_imported.is_empty()
    }

    pub fn pull_is_empty(&self) -> (r: bool)
        requires
            self.wf(),
        ensures
            r == (self.pull_view() == Map::<SiteKey, RemoteConnectionView>::empty()
                && self.imported_view() == Map::<u128, ConnectionView>::empty()),
    {
        self.pull_standard_is_empty() && self.pull_imported_is_empty()
    }

    pub fn push_is_empty(&self) -> (r: bool)
        requires
            self.wf(),
        ensures
            r == (self.push_view() == Map::<SiteKey, RemoteConnectionView>::empty()),
    {
        self.connections.push.is_empty()
    }

    pub fn is_empty(&self) -> (r: bool)
        requires
            self.wf(),
        ensures
            r == self.is_empty_spec(),
    {
        self.push_is_empty() && self.pull_is_empty()
    }

    /// The imported pull connections, each once.
    pub fn imported_pull_connections(&self) -> (r: Vec<TrustedConnection>)
        requires
            self.wf(),
        ensures
            r@.len() == self.imported_view().len(),
            r@.map_values(|c: TrustedConnection| c.uuid).to_set() == self.imported_view().dom(),
            forall|i: int| 0 <= i < r@.len() ==> #[trigger] r@[i]@ == self.imported_view()[r@[i].uuid],
    {
        let r = self.connections.pull_imported.trusts();
        proof {
            let imp = &self.connections.pull_imported;
            imp.lemma_order();
            assert(r@.map_values(|c: TrustedConnection| c.uuid) =~= imp.order());
        }
        r
    }

    /// Every pull identity: those of the pull map first, one per site, then
    /// the imported ones.
    pub fn pull_connections(&self) -> (r: Vec<TrustedConnection>)
        requires
            self.wf(),
        ensures
            r@.len() == self.pull_view().len() + self.imported_view().len(),
            forall|i: int|
                0 <= i < self.pull_view().len() ==> #[trigger] r@[i]@
                    == self.pull_view()[self.connections.pull.order()[i]].trust,
            self.connections.pull.order().to_set() == self.pull_view().dom(),
            forall|i: int|
                self.pull_view().len() <= i < r@.len() ==> #[trigger] r@[i]@
                    == self.imported_view()[r@[i].uuid],
            r@.subrange(self.pull_view().len() as int, r@.len() as int).map_values(
                |c: TrustedConnection| c.uuid,
            ).to_set() == self.imported_view().dom(),
    {
        proof {
            self.connections.pull.lemma_order();
        }
        let mut r = self.connections.pull.trusts();
        let mut imported = self.imported_pull_connections();
        let ghost first = r@;
        let ghost second = imported@;
        r.append(&mut imported);
        proof {
            assert(r@ == first + second);
            assert(r@.subrange(first.len() as int, r@.len() as int) =~= second);
            assert forall|i: int|
                first.len() <= i < r@.len() implies #[trigger] r@[i]@ == self.imported_view()[r@[i].uuid] by {
                assert(r@[i] == second[i - first.len()]);
            }
        }
        r
    }

    /// The sites that hold a push or a pull connection: those of the pull map,
    /// then those of the push map.
    pub fn registered_site_ids(&self) -> (r: Vec<SiteID>)
        requires
            self.wf(),
        ensures
            r@.map_values(|s: SiteID| s.key()) == self.connections.pull.order()
                + self.connections.push.order(),
            r@.map_values(|s: SiteID| s.key()).to_set() == self.pull_view().dom() + self.push_view().dom(),
    {
        proof {
            self.connections.pull.lemma_order();
            self.connections.push.lemma_order();
        }
        let mut r = self.connections.pull.site_ids();
        let mut push = self.connections.push.site_ids();
        let ghost first = r@;
        let ghost second = push@;
        r.append(&mut push);
        proof {
            assert(r@.map_values(|s: SiteID| s.key()) =~= first.map_values(|s: SiteID| s.key())
                + second.map_values(|s: SiteID| s.key()));
            let a = self.connections.pull.order();
            let b = self.connections.push.order();
            assert((a + b).to_set() =~= a.to_set() + b.to_set()) by {
                assert forall|x: SiteKey| (a + b).contains(x) <==> (a.contains(x) || b.contains(x)) by {
                    if (a + b).contains(x) {
                        let j = (a + b).index_of(x);
                        if j >= a.len() {
                            assert(b[j - a.len()] == x);
                        }
                    }
                    if a.contains(x) {
                        let j = a.index_of(x);
                        assert((a + b)[j] == x);
                    }
                    if b.contains(x) {
                        let j = b.index_of(x);
                        assert((a + b)[j + a.len()] == x);
                    }
                }
            }
        }
        r
    }

    /// Each pull site with its connection, in the pull map's order.
    pub fn standard_pull_connections(&self) -> (r: Vec<(SiteID, TrustedConnectionWithRemote)>)
        requires
            self.wf(),
        ensures
            r@.len() == self.pull_view().len(),
            self.connections.pull.order().to_set() == self.pull_view().dom(),
            forall|i: int|
                0 <= i < r@.len() ==> #[trigger] r@[i].0.key() == self.connections.pull.order()[i],
            forall|i: int| 0 <= i < r@.len() ==> #[trigger] r@[i].1@ == self.pull_view()[r@[i].0.key()],
    {
        proof {
            self.connections.pull.lemma_order();
        }
        self.connections.pull.pairs()
    }

    /// Each push site with its connection, in the push map's order.
    pub fn push_connections(&self) -> (r: Vec<(SiteID, TrustedConnectionWithRemote)>)
        requires
            self.wf(),
        ensures
            r@.len() == self.push_view().len(),
            self.connections.push.order().to_set() == self.push_view().dom(),
            forall|i: int|
                0 <= i < r@.len() ==> #[trigger] r@[i].0.key() == self.connections.push.order()[i],
            forall|i: int| 0 <= i < r@.len() ==> #[trigger] r@[i].1@ == self.push_view()[r@[i].0.key()],
    {
        proof {
            self.connections.push.lemma_order();
        }
        self.connections.push.pairs()
    }

    /// The connection of a site, to change in place: looked up among the push
    /// connections first, then among the pull ones.
    pub fn get_mutable(&mut self, site_id: &SiteID) -> (r: Option<&mut TrustedConnectionWithRemote>)
        requires
            old(self).wf(),
        ensures
            r is Some == (old(self).pull_view().contains_key(site_id.key()) || old(
                self,
            ).push_view().contains_key(site_id.key())),
            match r {
                Some(c) => {
                    &&& final(self).wf()
                    &&& final(self).imported_view() == old(self).imported_view()
                    &&& final(self).same_binding(old(self))
                    &&& if old(self).push_view().contains_key(site_id.key()) {
                        &&& c@ == old(self).push_view()[site_id.key()]
                        &&& final(self).push_view() == old(self).push_view().insert(
                            site_id.key(),
                            final(c)@,
                        )
                        &&& final(self).pull_view() == old(self).pull_view()
                    } else {
                        &&& c@ == old(self).pull_view()[site_id.key()]
                        &&& final(self).pull_view() == old(self).pull_view().insert(
                            site_id.key(),
                            final(c)@,
                        )
                        &&& final(self).push_view() == old(self).push_view()
                    }
                },
                None => *final(self) == *old(self),
            },
    {
        if self.connections.push.contains(site_id) {
            self.connections.push.get_mut(site_id)
        } else {
            self.connections.pull.get_mut(site_id)
        }
    }

    /// Registers `connection` for `site_id` as `connection_type`; the site
    /// leaves the other map, so that it is never both push and pull.
    pub fn register_connection(
        &mut self,
        connection_type: &ConnectionType,
        site_id: &SiteID,
        connection: TrustedConnectionWithRemote,
    )
        requires
            old(self).wf(),
        ensures
            final(self).wf(),
            (final(self).push_view(), final(self).pull_view()) == register_spec(
                old(self).push_view(),
                old(self).pull_view(),
                *connection_type,
                site_id.key(),
                connection@,
            ),
            final(self).imported_view() == old(self).imported_view(),
            final(self).same_binding(old(self)),
    {
        match connection_type {
            ConnectionType::Push => {
                self.connections.pull.remove(site_id);
                self.connections.push.insert(site_id.copied(), connection);
            },
            ConnectionType::Pull => {
                self.connections.push.remove(site_id);
                self.connections.pull.insert(site_id.copied(), connection);
            },
        }
    }

    /// Adds an imported pull connection; a connection with the same UUID
    /// already there stays as it is.
    pub fn register_imported_connection(&mut self, connection: TrustedConnection)
        requires
            old(self).wf(),
        ensures
            final(self).wf(),
            final(self).imported_view() == if old(self).imported_view().contains_key(
                connection.uuid,
            ) {
                old(self).imported_view()
            } else {
                old(self).imported_view().insert(connection.uuid, connection@)
            },
            final(self).push_view() == old(self).push_view(),
            final(self).pull_view() == old(self).pull_view(),
            final(self).same_binding(old(self)),
    {
        self.connections.pull_imported.insert(connection);
    }

    /// Deletes the connection of a site, from the push map if it is there,
    /// else from the pull map, and tells which; a site in neither is refused.
    pub fn delete_standard_connection(&mut self, site_id: &SiteID) -> (r: Result<
        ConnectionType,
        RegistryError,
    >)
        requires
            old(self).wf(),
        ensures
            final(self).wf(),
            final(self).imported_view() == old(self).imported_view(),
            final(self).same_binding(old(self)),
            old(self).push_view().contains_key(site_id.key()) ==> {
                &&& r == Ok::<ConnectionType, RegistryError>(ConnectionType::Push)
                &&& final(self).push_view() == old(self).push_view().remove(site_id.key())
                &&& final(self).pull_view() == old(self).pull_view()
            },
            !old(self).push_view().contains_key(site_id.key()) && old(self).pull_view().contains_key(
                site_id.key(),
            ) ==> {
                &&& r == Ok::<ConnectionType, RegistryError>(ConnectionType::Pull)
                &&& final(self).push_view() == old(self).push_view()
                &&& final(self).pull_view() == old(self).pull_view().remove(site_id.key())
            },
            !old(self).push_view().contains_key(site_id.key()) && !old(self).pull_view().contains_key(
                site_id.key(),
            ) ==> {
                &&& r matches Err(e) && e is NotFound && e.message_spec() == "Connection '"@
                    + site_id.text() + "' not found"@
                &&& final(self).push_view() == old(self).push_view()
                &&& final(self).pull_view() == old(self).pull_view()
            },
    {
        if self.connections.push.remove(site_id) {
            return Ok(ConnectionType::Push);
        }
        if self.connections.pull.remove(site_id) {
            return Ok(ConnectionType::Pull);
        }
        let mut m = String::from_str("Connection '");
        let text = site_id.to_string();
        m.append(text.as_str());
        m.append("' not found");
        Err(RegistryError::NotFound(m))
    }

    /// Deletes the imported connection with a UUID; an unknown UUID is refused.
    pub fn delete_imported_connection(&mut self, uuid: u128) -> (r: Result<(), RegistryError>)
        requires
            old(self).wf(),
        ensures
            final(self).wf(),
            final(self).imported_view() == old(self).imported_view().remove(uuid),
            final(self).push_view() == old(self).push_view(),
            final(self).pull_view() == old(self).pull_view(),
            final(self).same_binding(old(self)),
            r is Ok <==> old(self).imported_view().contains_key(uuid),
            r matches Err(e) ==> e is NotFound && e.message_spec()
                == "Imported pull connection with UUID "@ + uuid_text(uuid) + " not found"@,
    {
        if self.connections.pull_imported.remove(uuid) {
            return Ok(());
        }
        let mut m = String::from_str("Imported pull connection with UUID ");
        let text = crate::connection::uuid_to_string(uuid);
        m.append(text.as_str());
        m.append(" not found");
        Err(RegistryError::NotFound(m))
    }

    /// Removes every connection.
    pub fn clear(&mut self)
        requires
            old(self).wf(),
        ensures
            final(self).wf(),
            final(self).is_empty_spec(),
            final(self).same_binding(old(self)),
    {
        self.connections.push.clear();
        self.connections.pull.clear();
        self.clear_imported();
    }

    /// Removes the imported connections.
    pub fn clear_imported(&mut self)
        requires
            old(self).wf(),
        ensures
            final(self).wf(),
            final(self).imported_view() == Map::<u128, ConnectionView>::empty(),
            final(self).push_view() == old(self).push_view(),
            final(self).pull_view() == old(self).pull_view(),
            final(self).same_binding(old(self)),
    {
        self.connections.pull_imported.clear();
    }

    /// Legacy pull mode holds only while nothing is registered and the marker
    /// file exists.
    pub fn legacy_pull_active(&self, marker_exists: bool) -> (r: bool)
        requires
            self.wf(),
        ensures
            r == (self.is_empty_spec() && marker_exists),
    {
        self.is_empty() && marker_exists
    }

    /// The marker to create to allow legacy pull mode; refused while any
    /// connection is registered.
    pub fn activate_legacy_pull(&self) -> (r: Result<LegacyPullMarker, RegistryError>)
        requires
            self.wf(),
        ensures
            r is Ok <==> self.is_empty_spec(),
            r matches Ok(m) ==> m.path@ == self.legacy_pull_marker.path@,
            r matches Err(e) ==> e is PreconditionFailed && e.message_spec()
                == "Cannot enable legacy pull mode since there are registered connections"@,
    {
        if !self.is_empty() {
            return Err(
                RegistryError::PreconditionFailed(
                    String::from_str(
                        "Cannot enable legacy pull mode since there are registered connections",
                    ),
                ),
            );
        }
        Ok(LegacyPullMarker { path: self.legacy_pull_marker.path.clone() })
    }
}

/// Registration keeps sites apart: after any sequence of registrations that
/// starts with no site both push and pull, no site is both push and pull.
pub proof fn lemma_registrations_keep_sites_apart(
    push: Map<SiteKey, RemoteConnectionView>,
    pull: Map<SiteKey, RemoteConnectionView>,
    ops: Seq<(ConnectionType, SiteKey, RemoteConnectionView)>,
)
    requires
        sites_apart(push, pull),
    ensures
        sites_apart(register_all(push, pull, ops).0, register_all(push, pull, ops).1),
    decreases ops.len(),
{
    if ops.len() > 0 {
        lemma_registrations_keep_sites_apart(push, pull, ops.drop_last());
        let (p, q) = register_all(push, pull, ops.drop_last());
        let op = ops.last();
        lemma_registration_moves_site(p, q, op.0, op.1, op.2);
    }
}

/// Registering a site as push takes it out of pull, and the other way round:
/// afterwards it is in the map of its type, with the new connection, and not
/// in the other; no site that was apart before is in both.
pub proof fn lemma_registration_moves_site(
    push: Map<SiteKey, RemoteConnectionView>,
    pull: Map<SiteKey, RemoteConnectionView>,
    t: ConnectionType,
    k: SiteKey,
    v: RemoteConnectionView,
)
    ensures
        ({
            let (p, q) = register_spec(push, pull, t, k, v);
            &&& t == ConnectionType::Push ==> p.contains_key(k) && p[k] == v && !q.contains_key(k)
            &&& t == ConnectionType::Pull ==> q.contains_key(k) && q[k] == v && !p.contains_key(k)
            &&& sites_apart(push, pull) ==> sites_apart(p, q)
        }),
{
}

/// Any registration ends legacy pull mode at once, before anything is saved:
/// the registry is no longer empty.
pub proof fn lemma_registration_ends_legacy_pull(
    before: Registry,
    after: Registry,
    t: ConnectionType,
    k: SiteKey,
    v: RemoteConnectionView,
)
    requires
        (after.push_view(), after.pull_view()) == register_spec(
            before.push_view(),
            before.pull_view(),
            t,
            k,
            v,
        ),
    ensures
        !after.is_empty_spec(),
{
    lemma_registration_moves_site(before.push_view(), before.pull_view(), t, k, v);
    assert(!Map::<SiteKey, RemoteConnectionView>::empty().contains_key(k));
}

/// Importing a connection ends legacy pull mode at once as well.
pub proof fn lemma_import_ends_legacy_pull(before: Registry, after: Registry, c: ConnectionView)
    requires
        after.imported_view() == if before.imported_view().contains_key(c.uuid) {
            before.imported_view()
        } else {
            before.imported_view().insert(c.uuid, c)
        },
    ensures
        !after.is_empty_spec(),
{
    assert(after.imported_view().contains_key(c.uuid));
    assert(!Map::<u128, ConnectionView>::empty().contains_key(c.uuid));
}

/// Reload then refresh: a registry that took in `connections`, read at
/// modification time `mtime`, holds exactly that content; a later check finds
/// something to reload exactly when it sees another time, so a file absent
/// both times, or unchanged, gives nothing to reload.
pub proof fn lemma_reload_then_refresh(
    reloaded: Registry,
    connections: RegisteredConnections,
    mtime: Option<FileTime>,
    seen: Option<FileTime>,
)
    requires
        reloaded.connections == connections,
        reloaded.last_reload == mtime,
    ensures
        reloaded.push_view() == connections.push.view(),
        reloaded.pull_view() == connections.pull.view(),
        reloaded.imported_view() == connections.pull_imported.view(),
        reload_needed(seen, reloaded.last_reload) <==> seen != mtime,
        mtime is None ==> !reload_needed(None, reloaded.last_reload),
{
}

} // verus!
