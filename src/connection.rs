use vstd::arithmetic::power2::pow2;
use vstd::prelude::*;

use crate::error::RegistryError;

verus! {

/// A lower-case hexadecimal digit.
pub open spec fn hex_digit(d: int) -> char {
    seq!['0', '1', '2', '3', '4', '5', '6', '7', '8', '9', 'a', 'b', 'c', 'd', 'e', 'f'][d]
}

/// The lowest `n` hexadecimal digits of `v`, most significant first.
pub open spec fn hex_digits(v: nat, n: nat) -> Seq<char>
    decreases n,
{
    if n == 0 {
        seq![]
    } else {
        hex_digits(v / 16, (n - 1) as nat).push(hex_digit((v % 16) as int))
    }
}

/// The hyphenated text of a UUID whose 128 bits, read big-endian, are `v`:
/// groups of 8, 4, 4, 4 and 12 lower-case hexadecimal digits.
pub open spec fn uuid_text(v: u128) -> Seq<char> {
    let x = v as nat;
    hex_digits(x / pow2(96), 8) + seq!['-'] + hex_digits(x / pow2(80), 4) + seq!['-']
        + hex_digits(x / pow2(64), 4) + seq!['-'] + hex_digits(x / pow2(48), 4) + seq!['-']
        + hex_digits(x, 12)
}

/// Relies on uuid's `Display` for `Uuid::from_u128`: the lower-case hyphenated form.
#[verifier::external_body]
pub(crate) fn uuid_to_string(value: u128) -> (r: String)
    ensures
        r@ == uuid_text(value),
{
    uuid::Uuid::from_u128(value).to_string()
}

/// What a trusted connection holds.
pub ghost struct ConnectionView {
    pub uuid: u128,
    pub private_key: Seq<char>,
    pub certificate: Seq<char>,
    pub root_cert: Seq<char>,
}

/// What a trusted connection with a remote holds.
pub ghost struct RemoteConnectionView {
    pub trust: ConnectionView,
    pub receiver_port: u16,
}

/// The identity of one end of a connection: a UUID, as its 128-bit value, and PEM material.
/// Two connections are equal when their UUIDs are.
#[derive(Debug, Clone)]
pub struct TrustedConnection {
    pub uuid: u128,
    pub private_key: String,
    pub certificate: String,
    pub root_cert: String,
}

impl View for TrustedConnection {
    type V = ConnectionView;

    open spec fn view(&self) -> ConnectionView {
        ConnectionView {
            uuid: self.uuid,
            private_key: self.private_key@,
            certificate: self.certificate@,
            root_cert: self.root_cert@,
        }
    }
}

impl PartialEq for TrustedConnection {
    fn eq(&self, other: &TrustedConnection) -> (r: bool) {
        self.uuid == other.uuid
    }
}

impl vstd::std_specs::cmp::PartialEqSpecImpl for TrustedConnection {
    open spec fn obeys_eq_spec() -> bool {
        true
    }

    open spec fn eq_spec(&self, other: &TrustedConnection) -> bool {
        self.uuid == other.uuid
    }
}

impl Eq for TrustedConnection {}

impl TrustedConnection {
    pub fn new(uuid: u128, private_key: &str, certificate: &str, root_cert: &str) -> (r:
        TrustedConnection)
        ensures
            r@ == (ConnectionView {
                uuid,
                private_key: private_key@,
                certificate: certificate@,
                root_cert: root_cert@,
            }),
    {
        TrustedConnection {
            uuid,
            private_key: String::from_str(private_key),
            certificate: String::from_str(certificate),
            root_cert: String::from_str(root_cert),
        }
    }

    /// A copy holding the same UUID and material.
    pub fn copied(&self) -> (r: TrustedConnection)
        ensures
            r@ == self@,
    {
        TrustedConnection {
            uuid: self.uuid,
            private_key: self.private_key.clone(),
            certificate: self.certificate.clone(),
            root_cert: self.root_cert.clone(),
        }
    }

    /// The UUID in its hyphenated text form.
    pub fn uuid_string(&self) -> (r: String)
        ensures
            r@ == uuid_text(self.uuid),
    {
        uuid_to_string(self.uuid)
    }
}

/// A trusted connection and the port of the remote's receiver.
/// Equality goes by the trusted connection alone.
#[derive(Debug, Clone)]
pub struct TrustedConnectionWithRemote {
    pub trust: TrustedConnection,
    pub receiver_port: u16,
}

impl View for TrustedConnectionWithRemote {
    type V = RemoteConnectionView;

    open spec fn view(&self) -> RemoteConnectionView {
        RemoteConnectionView { trust: self.trust@, receiver_port: self.receiver_port }
    }
}

impl PartialEq for TrustedConnectionWithRemote {
    fn eq(&self, other: &TrustedConnectionWithRemote) -> (r: bool) {
        self.trust.uuid == other.trust.uuid
    }
}

impl vstd::std_specs::cmp::PartialEqSpecImpl for TrustedConnectionWithRemote {
    open spec fn obeys_eq_spec() -> bool {
        true
    }

    open spec fn eq_spec(&self, other: &TrustedConnectionWithRemote) -> bool {
        self.trust.uuid == other.trust.uuid
    }
}

impl Eq for TrustedConnectionWithRemote {}

impl TrustedConnectionWithRemote {
    pub fn new(trust: TrustedConnection, receiver_port: u16) -> (r: TrustedConnectionWithRemote)
        ensures
            r@ == (RemoteConnectionView { trust: trust@, receiver_port }),
    {
        TrustedConnectionWithRemote { trust, receiver_port }
    }

    /// A copy holding the same connection and port.
    pub fn copied(&self) -> (r: TrustedConnectionWithRemote)
        ensures
            r@ == self@,
    {
        TrustedConnectionWithRemote { trust: self.trust.copied(), receiver_port: self.receiver_port }
    }
}

/// Which way data flows on a connection to a site.
#[derive(Debug, Clone, Copy, PartialEq, Eq, Structural)]
pub enum ConnectionType {
    /// The agent sends data to the site: `push-agent`.
    Push,
    /// The site fetches data from the agent: `pull-agent`.
    Pull,
}

/// The text of each connection type.
pub open spec fn connection_type_text(t: ConnectionType) -> Seq<char> {
    match t {
        ConnectionType::Push => "push-agent"@,
        ConnectionType::Pull => "pull-agent"@,
    }
}

impl ConnectionType {
    /// `push-agent` or `pull-agent`.
    pub fn as_str(&self) -> (r: &'static str)
        ensures
            r@ == connection_type_text(*self),
    {
        match self {
            ConnectionType::Push => "push-agent",
            ConnectionType::Pull => "pull-agent",
        }
    }

    /// `push-agent` or `pull-agent`, as an owned string.
    pub fn to_string(&self) -> (r: String)
        ensures
            r@ == connection_type_text(*self),
    {
        String::from_str(self.as_str())
    }

    /// Reads `push-agent` or `pull-agent`; any other text is refused.
    pub fn from_str(s: &str) -> (r: Result<ConnectionType, RegistryError>)
        ensures
            r matches Ok(t) ==> connection_type_text(t) == s@,
            r is Err ==> (s@ != connection_type_text(ConnectionType::Push) && s@
                != connection_type_text(ConnectionType::Pull)),
            r matches Err(e) ==> e is InvalidConnectionType,
    {
        let owned = String::from_str(s);
        let push = String::from_str("push-agent");
        let pull = String::from_str("pull-agent");
        if owned == push {
            Ok(ConnectionType::Push)
        } else if owned == pull {
            Ok(ConnectionType::Pull)
        } else {
            let mut m = String::from_str("unknown connection type: ");
            m.append(s);
            Err(RegistryError::InvalidConnectionType(m))
        }
    }
}

} // verus!
