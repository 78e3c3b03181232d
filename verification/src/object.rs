//! Objects, as others see them and as their owner does.
use vstd::prelude::*;
use crate::model::{ObjectId, ServiceId};
use crate::network::Network;
use crate::outcome::ObjectKillErr;
use crate::service::{Service, ServiceRef};

verus! {

/// An object of a network of type `N`: an instance of a program that runs
/// there and may ask for services and provide them.
pub trait Object<N: Network>: Sized {
    /// The object that is meant.
    spec fn ident(&self) -> ObjectId;

    /// The identifier of the object.
    fn id(&self) -> (id: ObjectId)
        ensures
            id == self.ident(),
    ;

    /// A pointer at the service `id` if the object provides it in `net`,
    /// nothing else.
    fn service_by_id(&self, net: &N, id: ServiceId) -> (service: Option<ServiceRef>)
        ensures
            match service {
                Some(pointer) => net.world().offers(self.ident(), id) && pointer.ident() == id,
                None => !net.world().offers(self.ident(), id),
            },
    ;
}

/// An object as the one sees it who may end it.
pub trait OwnedObject<N: Network>: Object<N> {
    /// Kills the object: it runs no more, its registrations leave `net`, and
    /// every channel that it is an end of is closed. An object that is not
    /// alive cannot be killed; `net` then stays as it is.
    fn kill(self, net: &mut N) -> (outcome: Result<(), ObjectKillErr>)
        requires
            old(net).world().wf(),
        ensures
            final(net).world().wf(),
            match outcome {
                Ok(_) => old(net).world().alive(self.ident()) && final(net).world() == old(
                    net,
                ).world().killed(self.ident()),
                Err(error) => error == ObjectKillErr::NotAlive && !old(net).world().alive(
                    self.ident(),
                ) && final(net).world() == old(net).world(),
            },
    ;

    /// Whether the object is alive in `net`: its own execution is going on,
    /// or it still provides a service.
    fn is_alive(&self, net: &N) -> (alive: bool)
        ensures
            alive == net.world().alive(self.ident()),
    ;
}

/// Names an object without any power over it.
#[derive(Debug, Clone, Copy, PartialEq, Eq, Structural)]
pub struct ObjectRef {
    id: ObjectId,
}

impl ObjectRef {
    /// The object that is named.
    pub closed spec fn named(&self) -> ObjectId {
        self.id
    }

    /// The name of the object `id`.
    pub fn of(id: ObjectId) -> (object: Self)
        ensures
            object.named() == id,
    {
        ObjectRef { id }
    }

    /// The identifier of the object that is named.
    pub fn number(&self) -> (id: ObjectId)
        ensures
            id == self.named(),
    {
        self.id
    }
}

/// Stands for an object that has been let into a scope, with the power to
/// end it.
#[derive(Debug)]
pub struct Process {
    id: ObjectId,
}

impl Process {
    /// The object that the handle stands for.
    pub closed spec fn named(&self) -> ObjectId {
        self.id
    }

    /// The handle for the object `id`.
    pub(crate) fn of(id: ObjectId) -> (process: Self)
        ensures
            process.named() == id,
    {
        Process { id }
    }

    /// The identifier of the object that the handle stands for.
    pub fn number(&self) -> (id: ObjectId)
        ensures
            id == self.named(),
    {
        self.id
    }
}

} // verus!
