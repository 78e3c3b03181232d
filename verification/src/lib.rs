//! Service arbitration and channel transfer for a capability-oriented
//! network of cooperating objects.
//!
//! A [`Scope`] holds one network: the registrations that objects have made,
//! the channels that connect requesters to providers, and a logical clock.
//! Every operation is one atomic step on that state. A step that cannot
//! finish yet answers [`Step::Pending`] and records what the caller is
//! waiting for; the caller repeats the call when the scope has changed.
//! What each step returns and how it changes the scope is stated over the
//! mathematical model [`World`].
pub mod outcome;
pub mod model;
pub mod select;
pub mod registry;
pub mod channel;
pub mod exchange;
pub mod lifecycle;
pub mod data;
pub mod service;
pub mod object;
pub mod network;
pub mod socket;
pub mod scope;
pub mod laws;

pub use crate::data::{Data, Time};
pub use crate::model::{
    Channel, Entry, Intent, ObjectId, Terminal, Registration, RegistrationForm, ServiceId, Side,
    Uniqueness, World,
};
pub use crate::network::{Connection, Network, OpenNetwork};
pub use crate::object::{Object, ObjectRef, OwnedObject, Process};
pub use crate::outcome::{AbortResult, ObjectKillErr, RegistrationErr, SocketErr, Step};
pub use crate::scope::Scope;
pub use crate::service::{Grant, OwnedService, Service, ServiceRef};
pub use crate::socket::{Endpoint, Socket};
