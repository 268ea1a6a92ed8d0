use vstd::prelude::*;

verus! {

/// The error taxonomy of the dispatcher.
///
/// `AccessDenied` is the one error with a recovery path: a denied handler
/// registration is retried once under elevated privileges. `OsError` carries
/// any other operating-system failure code verbatim.
#[derive(Debug, PartialEq, Eq)]
pub enum ProxyError {
    /// The command line was empty after trimming and cannot be split.
    MalformedCommandLine,
    /// The URL does not belong to the registered scheme (or is not a URL).
    NotSupportedScheme,
    /// No manager is assigned to this game, and no wildcard entry exists.
    NoManagerForGame(String),
    /// A manager was resolved but has no registered command template.
    ManagerNotRegistered,
    /// No handler is installed for the scheme.
    NotRegistered,
    /// The operating system denied access to the association store.
    AccessDenied,
    /// The manager process could not be started.
    SpawnFailed(u32),
    /// Any other operating-system failure, by its raw code.
    OsError(u32),
}

} // verus!
