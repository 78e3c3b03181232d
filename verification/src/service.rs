//! Services, as those see them who ask for one and those who provide one.
use vstd::prelude::*;
use crate::model::{Registration, RegistrationForm, ServiceId};
use crate::network::OpenNetwork;

verus! {

/// Points at a service that objects of the network may provide.
pub trait Service: Sized {
    /// The service that is pointed at.
    spec fn ident(&self) -> ServiceId;

    /// The identifier of the service.
    fn id(&self) -> (id: ServiceId)
        ensures
            id == self.ident(),
    ;

    /// A pointer at the service `id`. It can be made whether or not anybody
    /// provides the service; a connection through it goes through only
    /// while somebody does.
    fn by_id(id: ServiceId) -> (service: Self)
        ensures
            service.ident() == id,
    ;
}

/// The capability that a provider gets for a service it has registered in a
/// network of type `N`. Only through it can the registration be
/// discontinued, and discontinuing uses it up.
pub trait OwnedService<N: OpenNetwork>: Sized {
    /// The registration that the capability stands for.
    spec fn record(&self) -> Registration;

    /// The identifier of the registered service.
    fn id(&self) -> (id: ServiceId)
        ensures
            id == self.record().id,
    ;

    /// Stops providing the service: the registration leaves `net`, together
    /// with every channel that was served through it. Hands back a form with
    /// which the service can be registered anew. Where the registration has
    /// left `net` before, nothing changes.
    fn discontinue(self, net: &mut N) -> (form: RegistrationForm)
        requires
            old(net).world().wf(),
        ensures
            final(net).world() == old(net).world().released(self.record().ticket),
            final(net).world().wf(),
            form == (RegistrationForm { entry: self.record().entry, id: self.record().id }),
    ;
}

/// A pointer at a service.
#[derive(Debug, Clone, Copy, PartialEq, Eq, Structural)]
pub struct ServiceRef {
    id: ServiceId,
}

impl Service for ServiceRef {
    closed spec fn ident(&self) -> ServiceId {
        self.id
    }

    fn id(&self) -> (id: ServiceId) {
        self.id
    }

    fn by_id(id: ServiceId) -> (service: Self) {
        ServiceRef { id }
    }
}

/// The capability for one registration.
#[derive(Debug)]
pub struct Grant {
    record: Registration,
}

impl Grant {
    /// The registration that the capability stands for.
    pub closed spec fn held(&self) -> Registration {
        self.record
    }

    /// The capability for the registration `record`.
    pub(crate) fn issue(record: Registration) -> (grant: Self)
        ensures
            grant.held() == record,
    {
        Grant { record }
    }

    /// The registration that the capability stands for.
    pub fn registration(&self) -> (record: Registration)
        ensures
            record == self.held(),
    {
        self.record
    }
}

} // verus!
