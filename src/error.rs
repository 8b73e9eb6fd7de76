use vstd::prelude::*;

verus! {

/// Failures reported synchronously by the session's operations.
#[derive(Debug, Clone, Copy, PartialEq, Eq, Structural)]
pub enum Error {
    /// The driver could not set up the session's transport. The session core
    /// itself never reports it.
    InitializationError,
    /// The transport refused the broker address. The session core reports a
    /// malformed address as `ConfigurationError`.
    InvalidBrokerUrl,
    InvalidCredentials,
    /// A setting is malformed (a broker host that is empty or holds a blank
    /// or `/`, port 0, or a reconnect policy whose first wait is 0 or above
    /// its ceiling); nothing was changed and nothing sent.
    ConfigurationError,
    /// The connection could not be started from the current state.
    ConnectionError,
    /// Unknown subscription handle, or no handle left to allocate.
    SubscriptionError,
    /// The publication could not be tracked (no message id left).
    PublicationError,
    /// A topic or topic filter breaks the wildcard rules.
    InvalidTopic,
    /// A string holds a NUL character at the given character position.
    NulError(usize),
}

pub type Result<T> = core::result::Result<T, Error>;

} // verus!
