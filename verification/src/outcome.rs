//! Result types shared by the operations of a network scope.
use vstd::prelude::*;

verus! {

/// Why an object could not be killed.
#[derive(Debug, Clone, Copy, PartialEq, Eq, Structural)]
pub enum ObjectKillErr {
    /// The object is not alive, so there is nothing left to tear down.
    NotAlive,
}

/// Why an operation on a socket did not go through.
#[derive(Debug, Clone, Copy, PartialEq, Eq, Structural)]
pub enum SocketErr {
    /// The channel is closed. The conversation is over and the socket must
    /// not be used again.
    ChannelClosed,
    /// The other end is already waiting in the same operation, so neither
    /// side could ever be served. Only the side that asked second is told;
    /// it should back off and try again in another role or at another time.
    Lockup,
}

/// How a piece of work that depends on a channel came to its end.
#[derive(Debug, Clone, Copy, PartialEq, Eq, Structural)]
pub enum AbortResult {
    /// The channel closed before the work was done; the work was given up.
    Aborted,
    /// The work was done while the channel was still open.
    Finished,
}

/// Why a service could not be registered.
#[derive(Debug, Clone, Copy, PartialEq, Eq, Structural)]
pub enum RegistrationErr {
    /// Some object holds the service uniquely, so nobody else may provide it.
    UniquelyRegistered,
    /// The service is already provided by someone, so it cannot be
    /// registered uniquely until every such registration is discontinued.
    AlreadyRegistered,
}

/// The answer of one step of an operation that may have to wait.
#[derive(Debug, PartialEq, Eq)]
pub enum Step<T, P> {
    /// The operation is over, with this result.
    Done(T),
    /// The operation has to wait. The scope remembers what the caller waits
    /// for; the value is what the caller has to bring along when it repeats
    /// the call.
    Pending(P),
}

} // verus!
