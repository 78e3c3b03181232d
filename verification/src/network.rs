//! Networks, as seen by the objects that use them.
use vstd::prelude::*;
use crate::data::Data;
use crate::model::{Entry, ObjectId, Registration, RegistrationForm, ServiceId, Uniqueness, World};
use crate::outcome::RegistrationErr;
use crate::service::{Grant, Service, ServiceRef};
use crate::socket::Endpoint;

verus! {

/// A network of objects, services and channels.
pub trait Network: Sized {
    /// What the channels of the network carry.
    type Payload: Data;

    /// Everything that the network holds.
    spec fn world(&self) -> World<Self::Payload>;
}

/// What a connection brings about: one socket for each end of the new
/// channel, and the handler that is to be started with the provider's.
#[derive(Debug)]
pub struct Connection {
    /// The socket of the object that asked.
    pub requester_end: Endpoint,
    /// The socket of the provider; it goes to the handler.
    pub provider_end: Endpoint,
    /// The handler that the provider registered.
    pub entry: Entry,
}

/// A network that is open to an object: the object may register services in
/// it and ask for them.
pub trait OpenNetwork: Network {
    /// Connects `requester` to a provider of `service`. Where several
    /// objects provide the service, the one that registered first serves.
    /// The requester's socket and the provider's are bound to the same new
    /// channel, which is open and at rest. Where nobody provides the
    /// service, or no serial is left for another channel, nothing changes
    /// and `service` comes back.
    fn connect(&mut self, requester: ObjectId, service: ServiceRef) -> (outcome: Result<
        Connection,
        ServiceRef,
    >)
        requires
            old(self).world().wf(),
        ensures
            final(self).world().wf(),
            match outcome {
                Ok(connection) => {
                    &&& old(self).world().can_connect(service.ident())
                    &&& final(self).world() == old(self).world().connected(
                        requester,
                        service.ident(),
                    )
                    &&& connection.requester_end.joins(
                        old(self).world().fresh_channel(requester, service.ident()),
                        crate::model::Side::Requester,
                    )
                    &&& connection.provider_end.joins(
                        old(self).world().fresh_channel(requester, service.ident()),
                        crate::model::Side::Provider,
                    )
                    &&& connection.entry == old(self).world().records[old(self).world().elected(
                        service.ident(),
                    )].entry
                },
                Err(back) => {
                    &&& !old(self).world().can_connect(service.ident())
                    &&& final(self).world() == old(self).world()
                    &&& back == service
                },
            },
    ;

    /// Registers the service of `form` for `owner`, beside whoever else
    /// provides it. Refused only while some object holds the service
    /// uniquely.
    fn register(&mut self, form: RegistrationForm, owner: ObjectId) -> (outcome: Result<
        Grant,
        RegistrationErr,
    >)
        requires
            old(self).world().wf(),
            old(self).world().has_ticket(),
        ensures
            final(self).world().wf(),
            match outcome {
                Ok(grant) => {
                    &&& old(self).world().register_refusal(form.id) is None
                    &&& final(self).world() == old(self).world().enrolled(
                        form,
                        owner,
                        Uniqueness::Shared,
                    )
                    &&& grant.held() == old(self).world().fresh_record(
                        form,
                        owner,
                        Uniqueness::Shared,
                    )
                },
                Err(error) => {
                    &&& old(self).world().register_refusal(form.id) == Some(error)
                    &&& final(self).world() == old(self).world()
                },
            },
    ;

    /// Registers the service of `form` for `owner` alone: until it is
    /// discontinued nobody else can register the service, in either way.
    /// Refused while anybody provides the service.
    fn register_unique(&mut self, form: RegistrationForm, owner: ObjectId) -> (outcome: Result<
        Grant,
        RegistrationErr,
    >)
        requires
            old(self).world().wf(),
            old(self).world().has_ticket(),
        ensures
            final(self).world().wf(),
            match outcome {
                Ok(grant) => {
                    &&& old(self).world().register_unique_refusal(form.id) is None
                    &&& final(self).world() == old(self).world().enrolled(
                        form,
                        owner,
                        Uniqueness::Unique,
                    )
                    &&& grant.held() == old(self).world().fresh_record(
                        form,
                        owner,
                        Uniqueness::Unique,
                    )
                },
                Err(error) => {
                    &&& old(self).world().register_unique_refusal(form.id) == Some(error)
                    &&& final(self).world() == old(self).world()
                },
            },
    ;

    /// The live registrations of service `id`, oldest first, or nothing
    /// where there is none.
    fn lookup(&self, id: ServiceId) -> (found: Option<Vec<Registration>>)
        ensures
            match found {
                Some(records) => self.world().lookup(id) == Some(records@),
                None => self.world().lookup(id) is None,
            },
    ;

    /// Records that `owner` has died: every registration of `owner` leaves
    /// the network, together with every channel that `owner` provided for.
    fn on_object_death(&mut self, owner: ObjectId)
        requires
            old(self).world().wf(),
        ensures
            final(self).world() == old(self).world().bereft(owner),
            final(self).world().wf(),
    ;

    /// Whether another registration can be given a ticket.
    fn has_ticket(&self) -> (room: bool)
        ensures
            room == self.world().has_ticket(),
    ;
}

} // verus!
