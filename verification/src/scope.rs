//! A network scope that keeps its records and channels in vectors.
use vstd::prelude::*;
use crate::data::{Data, Time};
use crate::exchange::{
    lemma_advanced_wf, lemma_closed_wf, lemma_receive_keeps_wf, lemma_send_keeps_wf, lemma_slot_is,
};
use crate::lifecycle::{
    lemma_entered_wf, lemma_connected_wf, lemma_elected_is, lemma_killed_wf, lemma_retired_wf,
};
use crate::model::{
    Channel, ObjectId, Terminal, Registration, RegistrationForm, ServiceId, Side, Uniqueness, World,
};
use crate::network::{Connection, Network, OpenNetwork};
use crate::object::{Object, ObjectRef, OwnedObject, Process};
use crate::outcome::{AbortResult, ObjectKillErr, RegistrationErr, SocketErr, Step};
use crate::registry::{
    lemma_bereft_wf, lemma_enrolled_wf, lemma_of_service_start, lemma_of_service_step,
    lemma_released_wf, of_service, Cut, Named, Purge,
};
use crate::select::retain;
use crate::service::{Grant, OwnedService, Service, ServiceRef};
use crate::socket::{Endpoint, Socket};

verus! {

/// One network scope: a registry, the channels made through it, the objects
/// that run in it, and a logical clock.
pub struct Scope<D: Data> {
    records: Vec<Registration>,
    channels: Vec<Channel<D>>,
    running: Vec<ObjectId>,
    now: u64,
    next_ticket: u64,
    next_serial: u64,
}

impl<D: Data> Network for Scope<D> {
    type Payload = D;

    closed spec fn world(&self) -> World<D> {
        World {
            records: self.records@,
            channels: self.channels@,
            running: self.running@,
            now: self.now,
            next_ticket: self.next_ticket,
            next_serial: self.next_serial,
        }
    }
}

impl<D: Data> Scope<D> {
    /// A scope in which nothing has happened yet.
    pub fn new() -> (scope: Self)
        ensures
            scope.world() == World::<D>::empty(),
            scope.world().wf(),
    {
        Scope {
            records: Vec::new(),
            channels: Vec::new(),
            running: Vec::new(),
            now: 0,
            next_ticket: 0,
            next_serial: 0,
        }
    }

    /// Lets the object `object` into the scope as one that runs. Refused
    /// while an object of that identifier is alive in the scope.
    pub fn enter(&mut self, object: ObjectId) -> (process: Option<Process>)
        requires
            old(self).world().wf(),
        ensures
            final(self).world().wf(),
            match process {
                Some(handle) => {
                    &&& !old(self).world().alive(object)
                    &&& handle.named() == object
                    &&& final(self).world() == old(self).world().entered(object)
                },
                None => old(self).world().alive(object) && final(self).world() == old(
                    self,
                ).world(),
            },
    {
        if self.runs(object) || self.provides_any(object) {
            return None;
        }
        proof {
            lemma_entered_wf(self.world(), object);
        }
        self.running.push(object);
        Some(Process::of(object))
    }

    /// Records that the own execution of the object behind `process` has
    /// come to its end. What the object has registered stays, and keeps it
    /// alive.
    pub fn retire(&mut self, process: &Process)
        requires
            old(self).world().wf(),
        ensures
            final(self).world() == old(self).world().retired(process.named()),
            final(self).world().wf(),
    {
        proof {
            lemma_retired_wf(self.world(), process.named());
        }
        retain(&mut self.running, &Named { object: process.number() });
    }

    /// Lets `ticks` ticks pass on the clock of the scope.
    pub fn advance(&mut self, ticks: u64)
        requires
            old(self).world().wf(),
        ensures
            final(self).world() == old(self).world().advanced(ticks),
            final(self).world().wf(),
    {
        proof {
            lemma_advanced_wf(self.world(), ticks);
        }
        self.now = match self.now.checked_add(ticks) {
            Some(later) => later,
            None => u64::MAX,
        };
    }

    /// The reading of the clock of the scope.
    pub fn now(&self) -> (now: u64)
        ensures
            now == self.world().now,
    {
        self.now
    }

    /// Whether another channel can be given a serial.
    pub fn has_serial(&self) -> (room: bool)
        ensures
            room == (self.world().next_serial < u64::MAX),
    {
        self.next_serial < u64::MAX
    }

    /// Where the open channel `serial` stands.
    fn find_channel(&self, serial: u64) -> (found: Option<usize>)
        requires
            self.world().wf(),
        ensures
            match found {
                Some(at) => self.world().is_open(serial) && self.world().slot(serial) == at && at
                    < self.channels@.len(),
                None => !self.world().is_open(serial),
            },
    {
        let mut at: usize = 0;
        while at < self.channels.len()
            invariant
                self.world().wf(),
                at <= self.channels@.len(),
                forall|j: int| 0 <= j < at ==> (#[trigger] self.channels@[j]).serial != serial,
            decreases self.channels@.len() - at,
        {
            if self.channels[at].serial == serial {
                proof {
                    lemma_slot_is(self.world(), at as int);
                }
                return Some(at);
            }
            at += 1;
        }
        None
    }

    /// Where the oldest registration of service `id` stands.
    fn first_of(&self, id: ServiceId) -> (found: Option<usize>)
        ensures
            match found {
                Some(at) => self.world().is_elected(id, at as int),
                None => !self.world().provided(id),
            },
    {
        let mut at: usize = 0;
        while at < self.records.len()
            invariant
                at <= self.records@.len(),
                forall|j: int| 0 <= j < at ==> (#[trigger] self.records@[j]).id != id,
            decreases self.records@.len() - at,
        {
            if self.records[at].id == id {
                return Some(at);
            }
            at += 1;
        }
        None
    }

    /// Whether some object holds service `id` uniquely.
    fn holds_unique(&self, id: ServiceId) -> (held: bool)
        ensures
            held == self.world().uniquely_provided(id),
    {
        let mut at: usize = 0;
        while at < self.records.len()
            invariant
                at <= self.records@.len(),
                forall|j: int|
                    0 <= j < at ==> !((#[trigger] self.records@[j]).id == id
                        && self.records@[j].class is Unique),
            decreases self.records@.len() - at,
        {
            if self.records[at].id == id {
                if let Uniqueness::Unique = self.records[at].class {
                    return true;
                }
            }
            at += 1;
        }
        false
    }

    /// Whether `owner` provides anything, and whether it provides `id` if
    /// one is given.
    fn provides(&self, owner: ObjectId, id: Option<ServiceId>) -> (found: bool)
        ensures
            found == match id {
                Some(service) => self.world().offers(owner, service),
                None => self.world().provides_any(owner),
            },
    {
        let mut at: usize = 0;
        while at < self.records.len()
            invariant
                at <= self.records@.len(),
                forall|j: int|
                    0 <= j < at ==> !((#[trigger] self.records@[j]).owner == owner && match id {
                        Some(service) => self.records@[j].id == service,
                        None => true,
                    }),
            decreases self.records@.len() - at,
        {
            if self.records[at].owner == owner {
                let wanted = match id {
                    Some(service) => self.records[at].id == service,
                    None => true,
                };
                if wanted {
                    return true;
                }
            }
            at += 1;
        }
        false
    }

    /// Whether `owner` provides anything.
    fn provides_any(&self, owner: ObjectId) -> (found: bool)
        ensures
            found == self.world().provides_any(owner),
    {
        self.provides(owner, None)
    }

    /// Whether the own execution of `object` is going on.
    fn runs(&self, object: ObjectId) -> (found: bool)
        ensures
            found == self.world().running.contains(object),
    {
        let mut at: usize = 0;
        while at < self.running.len()
            invariant
                at <= self.running@.len(),
                forall|j: int| 0 <= j < at ==> self.running@[j] != object,
            decreases self.running@.len() - at,
        {
            if self.running[at] == object {
                return true;
            }
            at += 1;
        }
        false
    }

    /// Adds the record for `form`, admitted for `owner` in the way `class`.
    fn enroll(&mut self, form: RegistrationForm, owner: ObjectId, class: Uniqueness) -> (grant:
        Grant)
        requires
            old(self).world().wf(),
            old(self).world().has_ticket(),
            class is Shared ==> old(self).world().register_refusal(form.id) is None,
            class is Unique ==> old(self).world().register_unique_refusal(form.id) is None,
        ensures
            final(self).world() == old(self).world().enrolled(form, owner, class),
            final(self).world().wf(),
            grant.held() == old(self).world().fresh_record(form, owner, class),
    {
        proof {
            lemma_enrolled_wf(self.world(), form, owner, class);
        }
        let record = Registration {
            id: form.id,
            owner,
            class,
            entry: form.entry,
            ticket: self.next_ticket,
        };
        self.records.push(record);
        self.next_ticket = self.next_ticket + 1;
        Grant::issue(record)
    }
}

impl<D: Data> OpenNetwork for Scope<D> {
    fn connect(&mut self, requester: ObjectId, service: ServiceRef) -> (outcome: Result<
        Connection,
        ServiceRef,
    >) {
        let id = service.id();
        match self.first_of(id) {
            None => Err(service),
            Some(at) => {
                if self.next_serial == u64::MAX {
                    return Err(service);
                }
                let record = self.records[at];
                let serial = self.next_serial;
                proof {
                    lemma_elected_is(self.world(), id, at as int);
                    lemma_connected_wf(self.world(), requester, id);
                }
                self.channels.push(
                    Channel {
                        serial,
                        requester,
                        provider: record.owner,
                        service: id,
                        ticket: record.ticket,
                        requester_terminal: Terminal::new(),
                        provider_terminal: Terminal::new(),
                    },
                );
                self.next_serial = serial + 1;
                Ok(
                    Connection {
                        requester_end: Endpoint::bind(serial, Side::Requester, requester, id),
                        provider_end: Endpoint::bind(serial, Side::Provider, requester, id),
                        entry: record.entry,
                    },
                )
            },
        }
    }

    fn register(&mut self, form: RegistrationForm, owner: ObjectId) -> (outcome: Result<
        Grant,
        RegistrationErr,
    >) {
        if self.holds_unique(form.id) {
            return Err(RegistrationErr::UniquelyRegistered);
        }
        Ok(self.enroll(form, owner, Uniqueness::Shared))
    }

    fn register_unique(&mut self, form: RegistrationForm, owner: ObjectId) -> (outcome: Result<
        Grant,
        RegistrationErr,
    >) {
        if self.first_of(form.id).is_some() {
            return Err(RegistrationErr::AlreadyRegistered);
        }
        Ok(self.enroll(form, owner, Uniqueness::Unique))
    }

    fn lookup(&self, id: ServiceId) -> (found: Option<Vec<Registration>>) {
        let mut hits: Vec<Registration> = Vec::new();
        let mut at: usize = 0;
        proof {
            lemma_of_service_start(self.records@, id);
        }
        while at < self.records.len()
            invariant
                at <= self.records@.len(),
                hits@ == of_service(self.records@.take(at as int), id),
                hits@.len() > 0 <==> exists|j: int|
                    0 <= j < at && (#[trigger] self.records@[j]).id == id,
            decreases self.records@.len() - at,
        {
            proof {
                lemma_of_service_step(self.records@, id, at as int);
            }
            if self.records[at].id == id {
                hits.push(self.records[at]);
            }
            at += 1;
        }
        proof {
            assert(self.records@.take(at as int) =~= self.records@);
        }
        if hits.len() > 0 {
            Some(hits)
        } else {
            None
        }
    }

    fn on_object_death(&mut self, owner: ObjectId) {
        proof {
            lemma_bereft_wf(self.world(), owner);
        }
        retain(&mut self.records, &Purge::Owner(owner));
        retain(&mut self.channels, &Cut::Provider(owner));
    }

    fn has_ticket(&self) -> (room: bool) {
        self.next_ticket < u64::MAX
    }
}

impl<D: Data> OwnedService<Scope<D>> for Grant {
    open spec fn record(&self) -> Registration {
        self.held()
    }

    fn id(&self) -> (id: ServiceId) {
        self.registration().id
    }

    fn discontinue(self, net: &mut Scope<D>) -> (form: RegistrationForm) {
        let record = self.registration();
        proof {
            lemma_released_wf(net.world(), record.ticket);
        }
        retain(&mut net.records, &Purge::Ticket(record.ticket));
        retain(&mut net.channels, &Cut::Ticket(record.ticket));
        RegistrationForm::new(record.entry, record.id)
    }
}

impl<D: Data> Object<Scope<D>> for ObjectRef {
    open spec fn ident(&self) -> ObjectId {
        self.named()
    }

    fn id(&self) -> (id: ObjectId) {
        self.number()
    }

    fn service_by_id(&self, net: &Scope<D>, id: ServiceId) -> (service: Option<ServiceRef>) {
        if net.provides(self.number(), Some(id)) {
            Some(ServiceRef::by_id(id))
        } else {
            None
        }
    }
}

impl<D: Data> Object<Scope<D>> for Process {
    open spec fn ident(&self) -> ObjectId {
        self.named()
    }

    fn id(&self) -> (id: ObjectId) {
        self.number()
    }

    fn service_by_id(&self, net: &Scope<D>, id: ServiceId) -> (service: Option<ServiceRef>) {
        if net.provides(self.number(), Some(id)) {
            Some(ServiceRef::by_id(id))
        } else {
            None
        }
    }
}

impl<D: Data> OwnedObject<Scope<D>> for Process {
    fn kill(self, net: &mut Scope<D>) -> (outcome: Result<(), ObjectKillErr>) {
        let object = self.number();
        if !(net.runs(object) || net.provides_any(object)) {
            return Err(ObjectKillErr::NotAlive);
        }
        proof {
            lemma_killed_wf(net.world(), object);
        }
        retain(&mut net.records, &Purge::Owner(object));
        retain(&mut net.channels, &Cut::Party(object));
        retain(&mut net.running, &Named { object });
        Ok(())
    }

    fn is_alive(&self, net: &Scope<D>) -> (alive: bool) {
        let object = self.number();
        net.runs(object) || net.provides_any(object)
    }
}

impl<D: Data> Socket<Scope<D>> for Endpoint {
    open spec fn serial(&self) -> u64 {
        self.channel_serial()
    }

    open spec fn side(&self) -> Side {
        self.channel_side()
    }

    open spec fn requester_id(&self) -> ObjectId {
        self.channel_requester()
    }

    open spec fn service_id(&self) -> ServiceId {
        self.channel_service()
    }

    fn requester(&self) -> (object: ObjectRef) {
        ObjectRef::of(self.asked_by())
    }

    fn service(&self) -> (service: ServiceRef) {
        ServiceRef::by_id(self.asked_for())
    }

    fn receive(&self, net: &mut Scope<D>) -> (step: Step<Result<D, SocketErr>, ()>) {
        proof {
            lemma_receive_keeps_wf(net.world(), self.channel_serial(), self.channel_side(), 0);
        }
        match net.find_channel(self.number()) {
            None => Step::Done(Err(SocketErr::ChannelClosed)),
            Some(at) => net.channels[at].receive(self.end()),
        }
    }

    fn wait_to_receive<T: Time>(&self, net: &mut Scope<D>, time: T) -> (step: Step<
        Option<Result<D, SocketErr>>,
        (),
    >) {
        let span = time.ticks();
        proof {
            lemma_receive_keeps_wf(net.world(), self.channel_serial(), self.channel_side(), span);
        }
        match net.find_channel(self.number()) {
            None => Step::Done(Some(Err(SocketErr::ChannelClosed))),
            Some(at) => {
                let now = net.now;
                net.channels[at].wait_to_receive(self.end(), now, span)
            },
        }
    }

    fn send(&self, net: &mut Scope<D>, data: D) -> (step: Step<Result<(), SocketErr>, D>) {
        proof {
            lemma_send_keeps_wf(net.world(), self.channel_serial(), self.channel_side(), data, 0);
        }
        match net.find_channel(self.number()) {
            None => Step::Done(Err(SocketErr::ChannelClosed)),
            Some(at) => net.channels[at].send(self.end(), data),
        }
    }

    fn wait_to_send<T: Time>(&self, net: &mut Scope<D>, data: D, time: T) -> (step: Step<
        Option<Result<(), SocketErr>>,
        D,
    >) {
        let span = time.ticks();
        proof {
            lemma_send_keeps_wf(
                net.world(),
                self.channel_serial(),
                self.channel_side(),
                data,
                span,
            );
        }
        match net.find_channel(self.number()) {
            None => Step::Done(Some(Err(SocketErr::ChannelClosed))),
            Some(at) => {
                let now = net.now;
                net.channels[at].wait_to_send(self.end(), data, now, span)
            },
        }
    }

    fn close(self, net: &mut Scope<D>) {
        proof {
            lemma_closed_wf(net.world(), self.channel_serial());
        }
        retain(&mut net.channels, &Cut::Serial(self.number()));
    }

    fn run_abortable(&self, net: &Scope<D>, finished: bool) -> (step: Step<AbortResult, ()>) {
        if finished {
            return Step::Done(AbortResult::Finished);
        }
        if net.find_channel(self.number()).is_some() {
            Step::Pending(())
        } else {
            Step::Done(AbortResult::Aborted)
        }
    }

    fn check(self, net: &Scope<D>) -> (still: Option<Self>) {
        if net.find_channel(self.number()).is_some() {
            Some(self)
        } else {
            None
        }
    }

    fn is_opened(&self, net: &Scope<D>) -> (open: bool) {
        net.find_channel(self.number()).is_some()
    }
}

} // verus!
