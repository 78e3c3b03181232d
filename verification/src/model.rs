//! The mathematical model of a network scope: its records, its channels and
//! what well-formedness means for them.
use vstd::prelude::*;

verus! {

/// Identifies a class of service within a network.
pub type ServiceId = u64;

/// Identifies a running object within a network.
pub type ObjectId = u64;

/// Refers to the handler that serves the connections of a registration.
/// The scope only carries it; the dispatcher outside knows what it stands for.
pub type Entry = u64;

/// What a provider hands in to register a service. A registration uses the
/// form up; discontinuing the registration hands a new one back.
#[derive(Debug, PartialEq, Eq, Structural)]
pub struct RegistrationForm {
    /// The handler to start on each accepted connection.
    pub entry: Entry,
    /// The service that is offered.
    pub id: ServiceId,
}

impl RegistrationForm {
    /// A form that offers service `id`, served by `entry`.
    pub fn new(entry: Entry, id: ServiceId) -> (form: Self)
        ensures
            form == (RegistrationForm { entry, id }),
    {
        RegistrationForm { entry, id }
    }
}

/// Whether a registration tolerates others for the same service.
#[derive(Debug, Clone, Copy, PartialEq, Eq, Structural)]
pub enum Uniqueness {
    /// Other shared registrations of the same service may exist beside it.
    Shared,
    /// No other registration of the same service may exist beside it.
    Unique,
}

/// One live registration, as the registry holds it.
#[derive(Debug, Clone, Copy, PartialEq, Eq, Structural)]
pub struct Registration {
    /// The service that is provided.
    pub id: ServiceId,
    /// The object that provides it.
    pub owner: ObjectId,
    /// Whether it excludes other registrations of `id`.
    pub class: Uniqueness,
    /// The handler that serves its connections.
    pub entry: Entry,
    /// The number under which it was admitted; no two registrations of a
    /// scope ever share one.
    pub ticket: u64,
}

/// One of the two ends of a channel.
#[derive(Debug, Clone, Copy, PartialEq, Eq, Structural)]
pub enum Side {
    /// The end of the object that asked for the service.
    Requester,
    /// The end of the object that provides it.
    Provider,
}

impl Side {
    /// The opposite end.
    pub open spec fn other(self) -> Side {
        match self {
            Side::Requester => Side::Provider,
            Side::Provider => Side::Requester,
        }
    }
}

/// What one end of a channel is waiting for. A deadline is a reading of the
/// scope's clock; `None` stands for a wait without end.
#[derive(Debug, Clone, Copy, PartialEq, Eq, Structural)]
pub enum Intent {
    /// The end waits for nothing.
    Idle,
    /// The end waits for data from the other end.
    Receiving(Option<u64>),
    /// The end waits for the other end to take its data.
    Sending(Option<u64>),
}

/// The state of one end of a channel.
pub struct Terminal<D> {
    /// What this end is waiting for.
    pub intent: Intent,
    /// Data that the other end has delivered and this end has not yet
    /// picked up.
    pub inbox: Option<D>,
}

/// One open channel between a requester and a provider.
pub struct Channel<D> {
    /// The number under which the channel was opened; no two channels of a
    /// scope ever share one.
    pub serial: u64,
    /// The object that asked for the service.
    pub requester: ObjectId,
    /// The object that provides it.
    pub provider: ObjectId,
    /// The service that was asked for.
    pub service: ServiceId,
    /// The ticket of the registration that serves the channel.
    pub ticket: u64,
    /// The requester's end.
    pub requester_terminal: Terminal<D>,
    /// The provider's end.
    pub provider_terminal: Terminal<D>,
}

impl<D> Channel<D> {
    /// The state of the end `side`.
    pub open spec fn terminal(self, side: Side) -> Terminal<D> {
        match side {
            Side::Requester => self.requester_terminal,
            Side::Provider => self.provider_terminal,
        }
    }

    /// This channel with the end `side` replaced by `terminal`.
    pub open spec fn with_terminal(self, side: Side, terminal: Terminal<D>) -> Self {
        match side {
            Side::Requester => Channel { requester_terminal: terminal, ..self },
            Side::Provider => Channel { provider_terminal: terminal, ..self },
        }
    }

    /// At most one end waits in each kind of operation, and an end that
    /// waits for data has none lying in its inbox.
    pub open spec fn coherent(self) -> bool {
        &&& !(self.requester_terminal.intent is Receiving
            && self.provider_terminal.intent is Receiving)
        &&& !(self.requester_terminal.intent is Sending
            && self.provider_terminal.intent is Sending)
        &&& self.requester_terminal.intent is Receiving ==> self.requester_terminal.inbox is None
        &&& self.provider_terminal.intent is Receiving ==> self.provider_terminal.inbox is None
    }

    /// The channel is served through the registration `record`.
    pub open spec fn served_by(self, record: Registration) -> bool {
        &&& record.ticket == self.ticket
        &&& record.owner == self.provider
        &&& record.id == self.service
    }
}

/// Everything a network scope holds, as plain mathematical values.
pub ghost struct World<D> {
    /// The live registrations, oldest first.
    pub records: Seq<Registration>,
    /// The open channels, oldest first.
    pub channels: Seq<Channel<D>>,
    /// The objects whose own execution is still going on.
    pub running: Seq<ObjectId>,
    /// The reading of the logical clock.
    pub now: u64,
    /// The ticket that the next registration gets.
    pub next_ticket: u64,
    /// The serial that the next channel gets.
    pub next_serial: u64,
}

impl<D> World<D> {
    /// Some registration of service `id` is live.
    pub open spec fn provided(self, id: ServiceId) -> bool {
        exists|i: int| 0 <= i < self.records.len() && (#[trigger] self.records[i]).id == id
    }

    /// A unique registration of service `id` is live.
    pub open spec fn uniquely_provided(self, id: ServiceId) -> bool {
        exists|i: int|
            0 <= i < self.records.len() && (#[trigger] self.records[i]).id == id
                && self.records[i].class is Unique
    }

    /// The registration with ticket `ticket` is live.
    pub open spec fn registered(self, ticket: u64) -> bool {
        exists|i: int| 0 <= i < self.records.len() && (#[trigger] self.records[i]).ticket == ticket
    }

    /// Object `object` owns a live registration.
    pub open spec fn provides_any(self, object: ObjectId) -> bool {
        exists|i: int| 0 <= i < self.records.len() && (#[trigger] self.records[i]).owner == object
    }

    /// Object `object` is alive: its own execution is going on, or it still
    /// provides a service.
    pub open spec fn alive(self, object: ObjectId) -> bool {
        self.running.contains(object) || self.provides_any(object)
    }

    /// The channel with serial `serial` is open.
    pub open spec fn is_open(self, serial: u64) -> bool {
        exists|i: int|
            0 <= i < self.channels.len() && (#[trigger] self.channels[i]).serial == serial
    }

    /// Where the channel with serial `serial` stands among the open ones.
    pub open spec fn slot(self, serial: u64) -> int {
        choose|i: int|
            0 <= i < self.channels.len() && (#[trigger] self.channels[i]).serial == serial
    }

    /// The open channel with serial `serial`.
    pub open spec fn channel(self, serial: u64) -> Channel<D> {
        self.channels[self.slot(serial)]
    }

    /// Some live registration serves the channel `channel`.
    pub open spec fn backs(self, channel: Channel<D>) -> bool {
        exists|k: int| 0 <= k < self.records.len() && channel.served_by(#[trigger] self.records[k])
    }

    /// Tickets grow along the records and stay below the next one to be
    /// given out.
    pub open spec fn tickets_in_order(self) -> bool {
        &&& forall|i: int|
            0 <= i < self.records.len() ==> (#[trigger] self.records[i]).ticket < self.next_ticket
        &&& forall|i: int, j: int|
            0 <= i < j < self.records.len() ==> (#[trigger] self.records[i]).ticket < (
            #[trigger] self.records[j]).ticket
    }

    /// A unique registration is the only registration of its service.
    pub open spec fn unique_is_alone(self) -> bool {
        forall|i: int, j: int|
            0 <= i < self.records.len() && 0 <= j < self.records.len() && i != j && (
            #[trigger] self.records[i]).id == (#[trigger] self.records[j]).id
                ==> self.records[i].class is Shared
    }

    /// Serials grow along the channels and stay below the next one to be
    /// given out.
    pub open spec fn serials_in_order(self) -> bool {
        &&& forall|i: int|
            0 <= i < self.channels.len() ==> (#[trigger] self.channels[i]).serial
                < self.next_serial
        &&& forall|i: int, j: int|
            0 <= i < j < self.channels.len() ==> (#[trigger] self.channels[i]).serial < (
            #[trigger] self.channels[j]).serial
    }

    /// Every open channel is coherent and served by a live registration.
    pub open spec fn channels_sound(self) -> bool {
        forall|i: int|
            0 <= i < self.channels.len() ==> (#[trigger] self.channels[i]).coherent() && self.backs(
                self.channels[i],
            )
    }

    /// What always holds of a scope.
    pub open spec fn wf(self) -> bool {
        &&& self.tickets_in_order()
        &&& self.unique_is_alone()
        &&& self.serials_in_order()
        &&& self.channels_sound()
        &&& self.running.no_duplicates()
    }

    /// The scope before anything has happened in it.
    pub open spec fn empty() -> Self {
        World {
            records: Seq::empty(),
            channels: Seq::empty(),
            running: Seq::empty(),
            now: 0,
            next_ticket: 0,
            next_serial: 0,
        }
    }
}

} // verus!
