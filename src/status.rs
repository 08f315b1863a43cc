use vstd::prelude::*;

verus! {

/// Lifecycle of a supervised server process.
#[derive(Debug, Clone, Copy, PartialEq, Eq, Structural)]
pub enum ServerStatus {
    Offline,
    Starting,
    Online,
    Stopping,
    Error,
}

/// The transition table: `Offline -> Starting -> Online -> Stopping -> Offline`,
/// `Starting | Online -> Error`, and `Error -> Starting` on an explicit restart.
/// A launch can also be stopped (`Starting -> Stopping`), and a launch whose
/// spawn failed before any process existed goes back (`Starting -> Offline`).
pub open spec fn transition_allowed(from: ServerStatus, to: ServerStatus) -> bool {
    match (from, to) {
        (ServerStatus::Offline, ServerStatus::Starting) => true,
        (ServerStatus::Starting, ServerStatus::Online) => true,
        (ServerStatus::Online, ServerStatus::Stopping) => true,
        (ServerStatus::Stopping, ServerStatus::Offline) => true,
        (ServerStatus::Starting, ServerStatus::Error) => true,
        (ServerStatus::Online, ServerStatus::Error) => true,
        (ServerStatus::Error, ServerStatus::Starting) => true,
        (ServerStatus::Starting, ServerStatus::Stopping) => true,
        (ServerStatus::Starting, ServerStatus::Offline) => true,
        _ => false,
    }
}

/// What one operation may do to a status: leave it, take one step of the
/// table, or pass through `Stopping` in one go (a hard stop).
pub open spec fn moves(from: ServerStatus, to: ServerStatus) -> bool {
    ||| from == to
    ||| transition_allowed(from, to)
    ||| transition_allowed(from, ServerStatus::Stopping) && transition_allowed(ServerStatus::Stopping, to)
}

impl ServerStatus {
    /// Whether the state machine permits moving from `self` to `to`.
    pub fn can_transition_to(&self, to: ServerStatus) -> (r: bool)
        ensures
            r == transition_allowed(*self, to),
    {
        match (*self, to) {
            (ServerStatus::Offline, ServerStatus::Starting) => true,
            (ServerStatus::Starting, ServerStatus::Online) => true,
            (ServerStatus::Online, ServerStatus::Stopping) => true,
            (ServerStatus::Stopping, ServerStatus::Offline) => true,
            (ServerStatus::Starting, ServerStatus::Error) => true,
            (ServerStatus::Online, ServerStatus::Error) => true,
            (ServerStatus::Error, ServerStatus::Starting) => true,
            (ServerStatus::Starting, ServerStatus::Stopping) => true,
            (ServerStatus::Starting, ServerStatus::Offline) => true,
            _ => false,
        }
    }
}

/// The lower-case name of a status, as it appears on the wire.
pub open spec fn status_name(s: ServerStatus) -> Seq<char> {
    match s {
        ServerStatus::Offline => "offline"@,
        ServerStatus::Starting => "starting"@,
        ServerStatus::Online => "online"@,
        ServerStatus::Stopping => "stopping"@,
        ServerStatus::Error => "error"@,
    }
}

impl ServerStatus {
    /// The lower-case name of the status.
    pub fn name(&self) -> (r: String)
        ensures
            r@ == status_name(*self),
    {
        match self {
            ServerStatus::Offline => "offline".to_string(),
            ServerStatus::Starting => "starting".to_string(),
            ServerStatus::Online => "online".to_string(),
            ServerStatus::Stopping => "stopping".to_string(),
            ServerStatus::Error => "error".to_string(),
        }
    }
}

} // verus!
