use vstd::prelude::*;

verus! {

/// Why an operation of the registry or of its configuration was refused.
/// Each variant carries the message shown to the operator.
#[derive(Debug, Clone)]
pub enum RegistryError {
    /// A text could not be read as `server/site`.
    InvalidSiteId(String),
    /// A text is neither `push-agent` nor `pull-agent`.
    InvalidConnectionType(String),
    /// A site or an imported connection is not registered.
    NotFound(String),
    /// The registry is not in a state that allows the operation.
    PreconditionFailed(String),
    /// The registry path has no parent directory.
    InvalidPath(String),
    /// No receiver port was given and none was discovered.
    MissingReceiverPort(String),
    /// The host name is not valid text.
    HostName(String),
}

impl RegistryError {
    pub open spec fn message_spec(&self) -> Seq<char> {
        match self {
            RegistryError::InvalidSiteId(m) => m@,
            RegistryError::InvalidConnectionType(m) => m@,
            RegistryError::NotFound(m) => m@,
            RegistryError::PreconditionFailed(m) => m@,
            RegistryError::InvalidPath(m) => m@,
            RegistryError::MissingReceiverPort(m) => m@,
            RegistryError::HostName(m) => m@,
        }
    }

    /// The message shown to the operator.
    pub fn message(&self) -> (r: String)
        ensures
            r@ == self.message_spec(),
    {
        match self {
            RegistryError::InvalidSiteId(m) => m.clone(),
            RegistryError::InvalidConnectionType(m) => m.clone(),
            RegistryError::NotFound(m) => m.clone(),
            RegistryError::PreconditionFailed(m) => m.clone(),
            RegistryError::InvalidPath(m) => m.clone(),
            RegistryError::MissingReceiverPort(m) => m.clone(),
            RegistryError::HostName(m) => m.clone(),
        }
    }
}

} // verus!
