//! What holds of every scope, whatever happens in it.
//!
//! [`Event`] lists everything that can happen in a scope, and
//! [`World::after`] says what a scope is after an event. The laws below are
//! stated over these and over the functions in which the operations state
//! their own results.
use vstd::prelude::*;
use crate::channel::{lemma_receive_keeps_channel, lemma_send_keeps_channel};
use crate::exchange::{
    lemma_advanced_wf, lemma_closed_wf, lemma_receive_keeps_wf, lemma_send_keeps_wf, lemma_slot_is,
    lemma_with_channel_wf,
};
use crate::lifecycle::{
    lemma_connected_wf, lemma_elected, lemma_entered_wf, lemma_killed_wf, lemma_retired_wf,
};
use crate::model::{
    Channel, Intent, ObjectId, Registration, RegistrationForm, ServiceId, Side, Uniqueness, World,
};
use crate::outcome::{AbortResult, RegistrationErr, SocketErr, Step};
use crate::registry::{
    lemma_bereft_wf, lemma_enrolled_wf, lemma_released_wf, of_service, Cut, Purge,
};
use crate::select::{lemma_kept_all, lemma_kept_members, Selector};

verus! {

/// One thing that can happen in a scope.
pub enum Event<D> {
    /// An object asks to register a service beside others.
    Register(RegistrationForm, ObjectId),
    /// An object asks to register a service for itself alone.
    RegisterUnique(RegistrationForm, ObjectId),
    /// The registration with this ticket is discontinued.
    Discontinue(u64),
    /// The registry learns that an object has died.
    Death(ObjectId),
    /// An object asks to be connected to a service.
    Connect(ObjectId, ServiceId),
    /// An object is killed.
    Kill(ObjectId),
    /// An object asks to be let in.
    Enter(ObjectId),
    /// The own execution of an object comes to its end.
    Retire(ObjectId),
    /// Time passes.
    Advance(u64),
    /// A step of a receive at one end of a channel.
    Receive(u64, Side),
    /// A step of a bounded receive at one end of a channel.
    WaitToReceive(u64, Side, u64),
    /// A step of a send at one end of a channel.
    Send(u64, Side, D),
    /// A step of a bounded send at one end of a channel.
    WaitToSend(u64, Side, D, u64),
    /// A channel is closed.
    Close(u64),
}

impl<D> World<D> {
    /// The scope after `event`. A request that is refused, or that the
    /// scope has no number left for, changes nothing.
    pub open spec fn after(self, event: Event<D>) -> Self {
        match event {
            Event::Register(form, owner) => if self.has_ticket() && self.register_refusal(form.id)
                is None {
                self.enrolled(form, owner, Uniqueness::Shared)
            } else {
                self
            },
            Event::RegisterUnique(form, owner) => if self.has_ticket()
                && self.register_unique_refusal(form.id) is None {
                self.enrolled(form, owner, Uniqueness::Unique)
            } else {
                self
            },
            Event::Discontinue(ticket) => self.released(ticket),
            Event::Death(owner) => self.bereft(owner),
            Event::Connect(requester, id) => if self.can_connect(id) {
                self.connected(requester, id)
            } else {
                self
            },
            Event::Kill(object) => if self.alive(object) {
                self.killed(object)
            } else {
                self
            },
            Event::Enter(object) => if self.alive(object) {
                self
            } else {
                self.entered(object)
            },
            Event::Retire(object) => self.retired(object),
            Event::Advance(ticks) => self.advanced(ticks),
            Event::Receive(serial, side) => self.after_receive(serial, side),
            Event::WaitToReceive(serial, side, span) => self.after_wait_to_receive(
                serial,
                side,
                span,
            ),
            Event::Send(serial, side, data) => self.after_send(serial, side, data),
            Event::WaitToSend(serial, side, data, span) => self.after_wait_to_send(
                serial,
                side,
                data,
                span,
            ),
            Event::Close(serial) => self.closed(serial),
        }
    }
}

/// Whatever happens, a well-formed scope stays well formed. In particular a
/// unique registration stays the only registration of its service, and at
/// no channel do both ends wait in the same operation.
pub proof fn law_well_formed_forever<D>(world: World<D>, event: Event<D>)
    requires
        world.wf(),
    ensures
        world.after(event).wf(),
{
    match event {
        Event::Register(form, owner) => {
            if world.has_ticket() && world.register_refusal(form.id) is None {
                lemma_enrolled_wf(world, form, owner, Uniqueness::Shared);
            }
        },
        Event::RegisterUnique(form, owner) => {
            if world.has_ticket() && world.register_unique_refusal(form.id) is None {
                lemma_enrolled_wf(world, form, owner, Uniqueness::Unique);
            }
        },
        Event::Discontinue(ticket) => lemma_released_wf(world, ticket),
        Event::Death(owner) => lemma_bereft_wf(world, owner),
        Event::Connect(requester, id) => {
            if world.can_connect(id) {
                lemma_connected_wf(world, requester, id);
            }
        },
        Event::Kill(object) => lemma_killed_wf(world, object),
        Event::Enter(object) => {
            if !world.alive(object) {
                lemma_entered_wf(world, object);
            }
        },
        Event::Retire(object) => lemma_retired_wf(world, object),
        Event::Advance(ticks) => lemma_advanced_wf(world, ticks),
        Event::Receive(serial, side) => lemma_receive_keeps_wf(world, serial, side, 0),
        Event::WaitToReceive(serial, side, span) => lemma_receive_keeps_wf(
            world,
            serial,
            side,
            span,
        ),
        Event::Send(serial, side, data) => lemma_send_keeps_wf(world, serial, side, data, 0),
        Event::WaitToSend(serial, side, data, span) => lemma_send_keeps_wf(
            world,
            serial,
            side,
            data,
            span,
        ),
        Event::Close(serial) => lemma_closed_wf(world, serial),
    }
}

/// The event ends the registration `record`: it is discontinued, or its
/// owner dies or is killed.
pub open spec fn ends<D>(event: Event<D>, record: Registration) -> bool {
    match event {
        Event::Discontinue(ticket) => ticket == record.ticket,
        Event::Death(owner) => owner == record.owner,
        Event::Kill(object) => object == record.owner,
        _ => false,
    }
}

/// While some object holds a service uniquely, every attempt to register
/// the service is refused: a shared one because the service is uniquely
/// registered, a unique one because it is registered already.
pub proof fn law_unique_excludes_all<D>(world: World<D>, id: ServiceId)
    requires
        world.uniquely_provided(id),
    ensures
        world.register_refusal(id) == Some(RegistrationErr::UniquelyRegistered),
        world.register_unique_refusal(id) == Some(RegistrationErr::AlreadyRegistered),
{
    let i = choose|i: int|
        0 <= i < world.records.len() && (#[trigger] world.records[i]).id == id
            && world.records[i].class is Unique;
    assert(world.records[i].id == id);
}

/// No service has two unique registrations at a time, nor a unique one
/// beside another.
pub proof fn law_one_unique_at_most<D>(world: World<D>, i: int, j: int)
    requires
        world.wf(),
        0 <= i < world.records.len(),
        0 <= j < world.records.len(),
        world.records[i].id == world.records[j].id,
        world.records[i].class is Unique,
    ensures
        i == j,
{
}

/// A unique registration that is granted holds the service from then on:
/// the scope has exactly this one registration of the service.
pub proof fn law_unique_registration_holds<D>(
    world: World<D>,
    form: RegistrationForm,
    owner: ObjectId,
)
    requires
        world.wf(),
        world.has_ticket(),
        world.register_unique_refusal(form.id) is None,
    ensures
        world.after(Event::RegisterUnique(form, owner)).uniquely_provided(form.id),
        world.after(Event::RegisterUnique(form, owner)).matching(form.id) == seq![
            world.fresh_record(form, owner, Uniqueness::Unique),
        ],
{
    let after = world.after(Event::RegisterUnique(form, owner));
    let fresh = world.fresh_record(form, owner, Uniqueness::Unique);
    let last = world.records.len() as int;
    assert(after.records[last] == fresh);
    assert(after.records[last].id == form.id && after.records[last].class is Unique);
    lemma_none_of_service(world.records, form.id);
    assert(after.records.drop_last() =~= world.records);
    assert(after.matching(form.id) =~= seq![fresh]) by {
        reveal(Seq::filter);
    }
}

/// Where no record is of service `id`, none is picked.
proof fn lemma_none_of_service(records: Seq<Registration>, id: ServiceId)
    requires
        forall|i: int| 0 <= i < records.len() ==> (#[trigger] records[i]).id != id,
    ensures
        of_service(records, id) == Seq::<Registration>::empty(),
    decreases records.len(),
{
    reveal(Seq::filter);
    if records.len() > 0 {
        lemma_none_of_service(records.drop_last(), id);
    }
}

/// A registration stays until an event ends it, and while it stays a
/// unique one keeps its service to itself.
pub proof fn law_registration_stays<D>(world: World<D>, event: Event<D>, record: Registration)
    requires
        world.wf(),
        world.records.contains(record),
        !ends(event, record),
    ensures
        world.after(event).records.contains(record),
        record.class is Unique ==> world.after(event).uniquely_provided(record.id),
{
    let after = world.after(event);
    let at = choose|at: int| 0 <= at < world.records.len() && world.records[at] == record;
    match event {
        Event::Register(form, owner) => {
            assert(after.records.len() >= world.records.len());
            assert(after.records[at] == record);
        },
        Event::RegisterUnique(form, owner) => {
            assert(after.records.len() >= world.records.len());
            assert(after.records[at] == record);
        },
        Event::Discontinue(ticket) => {
            lemma_kept_members(world.records, Purge::Ticket(ticket));
        },
        Event::Death(owner) => {
            lemma_kept_members(world.records, Purge::Owner(owner));
        },
        Event::Kill(object) => {
            lemma_kept_members(world.records, Purge::Owner(object));
        },
        _ => {
            assert(after.records == world.records);
        },
    }
    assert(after.records.contains(record));
    if record.class is Unique {
        let to = choose|to: int| 0 <= to < after.records.len() && after.records[to] == record;
        assert(after.records[to].id == record.id && after.records[to].class is Unique);
    }
}

impl<D> World<D> {
    /// The scope after the objects `owners` have one after the other asked
    /// to register the service of `form` beside others.
    pub open spec fn after_shared_round(self, form: RegistrationForm, owners: Seq<ObjectId>) -> Self
        decreases owners.len(),
    {
        if owners.len() == 0 {
            self
        } else {
            self.after_shared_round(form, owners.drop_last()).after(
                Event::Register(form, owners.last()),
            )
        }
    }
}

/// Any number of objects can register the same service beside each other:
/// while nobody holds it uniquely and tickets last, every one of them is
/// granted a registration of its own, and what was registered before stays.
pub proof fn law_shared_coexist<D>(world: World<D>, form: RegistrationForm, owners: Seq<ObjectId>)
    requires
        world.wf(),
        !world.uniquely_provided(form.id),
        world.next_ticket + owners.len() <= u64::MAX,
    ensures
        world.after_shared_round(form, owners).wf(),
        !world.after_shared_round(form, owners).uniquely_provided(form.id),
        world.after_shared_round(form, owners).next_ticket == world.next_ticket + owners.len(),
        world.after_shared_round(form, owners).records.len() == world.records.len() + owners.len(),
        forall|i: int|
            0 <= i < world.records.len() ==> (#[trigger] world.after_shared_round(
                form,
                owners,
            ).records[i]) == world.records[i],
        forall|k: int|
            0 <= k < owners.len() ==> (#[trigger] world.after_shared_round(
                form,
                owners,
            ).records[world.records.len() + k]) == (Registration {
                id: form.id,
                owner: owners[k],
                class: Uniqueness::Shared,
                entry: form.entry,
                ticket: (world.next_ticket + k) as u64,
            }),
    decreases owners.len(),
{
    if owners.len() > 0 {
        let before = world.after_shared_round(form, owners.drop_last());
        law_shared_coexist(world, form, owners.drop_last());
        let after = world.after_shared_round(form, owners);
        assert(before.has_ticket());
        assert(before.register_refusal(form.id) is None);
        assert(after == before.enrolled(form, owners.last(), Uniqueness::Shared));
        lemma_enrolled_wf(before, form, owners.last(), Uniqueness::Shared);
        if after.uniquely_provided(form.id) {
            let i = choose|i: int|
                0 <= i < after.records.len() && (#[trigger] after.records[i]).id == form.id
                    && after.records[i].class is Unique;
            if i < before.records.len() {
                assert(before.records[i].id == form.id && before.records[i].class is Unique);
            }
        }
        assert forall|i: int| 0 <= i < world.records.len() implies (
        #[trigger] after.records[i]) == world.records[i] by {
            assert(before.records[i] == world.records[i]);
        }
        assert forall|k: int| 0 <= k < owners.len() implies (#[trigger] after.records[world.records.len()
            + k]) == (Registration {
            id: form.id,
            owner: owners[k],
            class: Uniqueness::Shared,
            entry: form.entry,
            ticket: (world.next_ticket + k) as u64,
        }) by {
            if k < owners.len() - 1 {
                assert(before.records[world.records.len() + k] == after.records[world.records.len()
                    + k]);
                assert(owners.drop_last()[k] == owners[k]);
            }
        }
    }
}

/// Discontinuing takes exactly one registration out: the one with the
/// ticket is gone, and every other one is still there.
pub proof fn law_discontinue_takes_one<D>(world: World<D>, ticket: u64, other: Registration)
    requires
        world.wf(),
        world.records.contains(other),
        other.ticket != ticket,
    ensures
        !world.released(ticket).registered(ticket),
        world.released(ticket).records.contains(other),
{
    let after = world.released(ticket);
    lemma_kept_members(world.records, Purge::Ticket(ticket));
    if after.registered(ticket) {
        let i = choose|i: int|
            0 <= i < after.records.len() && (#[trigger] after.records[i]).ticket == ticket;
        assert(after.records.contains(after.records[i]));
    }
}

/// Once a registration is discontinued its service can be registered again,
/// uniquely too if the registration was unique. What is then registered is
/// new: it bears a ticket that no registration bore before, and none of
/// the old registration's channels is left to it.
pub proof fn law_free_after_discontinue<D>(
    world: World<D>,
    record: Registration,
    form: RegistrationForm,
    owner: ObjectId,
    class: Uniqueness,
)
    requires
        world.wf(),
        world.records.contains(record),
        form.id == record.id,
    ensures
        world.released(record.ticket).wf(),
        world.released(record.ticket).register_refusal(form.id) is None,
        record.class is Unique ==> world.released(record.ticket).register_unique_refusal(form.id)
            is None,
        world.released(record.ticket).fresh_record(form, owner, class).ticket > record.ticket,
        forall|serial: u64|
            world.released(record.ticket).is_open(serial) ==> world.released(
                record.ticket,
            ).channel(serial).ticket != record.ticket,
{
    let after = world.released(record.ticket);
    let at = choose|at: int| 0 <= at < world.records.len() && world.records[at] == record;
    lemma_released_wf(world, record.ticket);
    lemma_kept_members(world.records, Purge::Ticket(record.ticket));
    lemma_kept_members(world.channels, Cut::Ticket(record.ticket));
    assert(world.records[at].ticket < world.next_ticket);
    if after.provided(form.id) {
        let i = choose|i: int|
            0 <= i < after.records.len() && (#[trigger] after.records[i]).id == form.id;
        assert(after.records.contains(after.records[i]));
        let was = choose|was: int|
            0 <= was < world.records.len() && world.records[was] == after.records[i];
        assert(was != at);
        assert(world.records[was].id == world.records[at].id);
        assert(world.records[was].class is Shared && world.records[at].class is Shared);
    }
    if after.uniquely_provided(form.id) {
        let i = choose|i: int|
            0 <= i < after.records.len() && (#[trigger] after.records[i]).id == form.id
                && after.records[i].class is Unique;
        assert(after.records[i].id == form.id);
    }
    assert forall|serial: u64| after.is_open(serial) implies after.channel(serial).ticket
        != record.ticket by {
        let slot = after.slot(serial);
        assert(after.channels.contains(after.channels[slot]));
    }
}

/// In a well-formed scope every open channel is found under its serial.
proof fn lemma_open_channel<D>(world: World<D>, serial: u64)
    requires
        world.is_open(serial),
    ensures
        0 <= world.slot(serial) < world.channels.len(),
        world.channel(serial).serial == serial,
        world.channels.contains(world.channel(serial)),
{
}

/// A channel that is a member of a well-formed scope is the open channel of
/// its serial.
proof fn lemma_member_channel<D>(world: World<D>, channel: Channel<D>)
    requires
        world.wf(),
        world.channels.contains(channel),
    ensures
        world.is_open(channel.serial),
        world.channel(channel.serial) == channel,
{
    let at = choose|at: int| 0 <= at < world.channels.len() && world.channels[at] == channel;
    lemma_slot_is(world, at);
}

/// A connection that is made opens exactly one channel: it joins the
/// requester to the owner of the oldest registration of the service, both
/// of its ends are at rest, and every channel that was open before is as it
/// was.
pub proof fn law_connect_opens_one<D>(world: World<D>, requester: ObjectId, id: ServiceId)
    requires
        world.wf(),
        world.can_connect(id),
    ensures
        world.after(Event::Connect(requester, id)).channels == world.channels.push(
            world.fresh_channel(requester, id),
        ),
        !world.is_open(world.next_serial),
        world.after(Event::Connect(requester, id)).is_open(world.next_serial),
        world.after(Event::Connect(requester, id)).channel(world.next_serial)
            == world.fresh_channel(requester, id),
        world.fresh_channel(requester, id).requester == requester,
        world.fresh_channel(requester, id).service == id,
        world.offers(world.fresh_channel(requester, id).provider, id),
{
    lemma_connected_wf(world, requester, id);
    lemma_elected(world, id);
    let at = world.elected(id);
    assert(world.records[at].owner == world.fresh_channel(requester, id).provider
        && world.records[at].id == id);
}

/// As long as a channel is open it joins the same requester to the same
/// provider for the same service: no event changes what a channel is bound
/// to.
pub proof fn law_binding_is_fixed<D>(world: World<D>, event: Event<D>, serial: u64)
    requires
        world.wf(),
        world.is_open(serial),
        world.after(event).is_open(serial),
    ensures
        world.after(event).channel(serial).same_binding(world.channel(serial)),
{
    let after = world.after(event);
    law_well_formed_forever(world, event);
    lemma_open_channel(world, serial);
    lemma_open_channel(after, serial);
    let old_channel = world.channel(serial);
    let new_channel = after.channel(serial);
    match event {
        Event::Discontinue(ticket) => {
            lemma_kept_members(world.channels, Cut::Ticket(ticket));
            lemma_member_channel(world, new_channel);
        },
        Event::Death(owner) => {
            lemma_kept_members(world.channels, Cut::Provider(owner));
            lemma_member_channel(world, new_channel);
        },
        Event::Kill(object) => {
            if world.alive(object) {
                lemma_kept_members(world.channels, Cut::Party(object));
                lemma_member_channel(world, new_channel);
            }
        },
        Event::Close(closed) => {
            lemma_kept_members(world.channels, Cut::Serial(closed));
            lemma_member_channel(world, new_channel);
        },
        Event::Connect(requester, id) => {
            if world.can_connect(id) {
                lemma_connected_wf(world, requester, id);
                let at = world.slot(serial);
                assert(after.channels[at] == world.channels[at]);
                lemma_slot_is(after, at);
            }
        },
        Event::Receive(target, side) => {
            if world.is_open(target) {
                lemma_receive_keeps_channel(world.channel(target), side, world.now, 0);
                lemma_stepped_binding(
                    world,
                    target,
                    world.channel(target).after_receive(side),
                    serial,
                );
            }
        },
        Event::WaitToReceive(target, side, span) => {
            if world.is_open(target) {
                lemma_receive_keeps_channel(world.channel(target), side, world.now, span);
                lemma_stepped_binding(
                    world,
                    target,
                    world.channel(target).after_wait_to_receive(side, world.now, span),
                    serial,
                );
            }
        },
        Event::Send(target, side, data) => {
            if world.is_open(target) {
                lemma_send_keeps_channel(world.channel(target), side, data, world.now, 0);
                lemma_stepped_binding(
                    world,
                    target,
                    world.channel(target).after_send(side, data),
                    serial,
                );
            }
        },
        Event::WaitToSend(target, side, data, span) => {
            if world.is_open(target) {
                lemma_send_keeps_channel(world.channel(target), side, data, world.now, span);
                lemma_stepped_binding(
                    world,
                    target,
                    world.channel(target).after_wait_to_send(side, data, world.now, span),
                    serial,
                );
            }
        },
        _ => {
            assert(after.channels == world.channels);
        },
    }
}

/// A step at one channel leaves the binding of every channel alone.
proof fn lemma_stepped_binding<D>(world: World<D>, target: u64, stepped: Channel<D>, serial: u64)
    requires
        world.wf(),
        world.is_open(target),
        world.is_open(serial),
        stepped.coherent(),
        stepped.same_binding(world.channel(target)),
    ensures
        world.with_channel(target, stepped).is_open(serial),
        world.with_channel(target, stepped).channel(serial).same_binding(world.channel(serial)),
        serial != target ==> world.with_channel(target, stepped).channel(serial) == world.channel(
            serial,
        ),
{
    let after = world.with_channel(target, stepped);
    lemma_with_channel_wf(world, target, stepped);
    lemma_open_channel(world, serial);
    lemma_open_channel(world, target);
    let at = world.slot(serial);
    lemma_slot_is(after, at);
}

/// On a closed channel nothing waits and nothing blocks: every send and
/// every receive is answered at once with `ChannelClosed` and changes
/// nothing, closing it again changes nothing, and work that depends on it
/// is aborted.
pub proof fn law_closed_answers_closed<D>(
    world: World<D>,
    serial: u64,
    side: Side,
    data: D,
    span: u64,
)
    requires
        !world.is_open(serial),
    ensures
        world.receive_outcome(serial, side) == Step::<Result<D, SocketErr>, ()>::Done(
            Err(SocketErr::ChannelClosed),
        ),
        world.wait_to_receive_outcome(serial, side, span) == Step::<
            Option<Result<D, SocketErr>>,
            (),
        >::Done(Some(Err(SocketErr::ChannelClosed))),
        world.send_outcome(serial, side, data) == Step::<Result<(), SocketErr>, D>::Done(
            Err(SocketErr::ChannelClosed),
        ),
        world.wait_to_send_outcome(serial, side, data, span) == Step::<
            Option<Result<(), SocketErr>>,
            D,
        >::Done(Some(Err(SocketErr::ChannelClosed))),
        world.after(Event::Receive(serial, side)) == world,
        world.after(Event::WaitToReceive(serial, side, span)) == world,
        world.after(Event::Send(serial, side, data)) == world,
        world.after(Event::WaitToSend(serial, side, data, span)) == world,
        world.after(Event::Close(serial)) == world,
        world.abort_outcome(serial, false) == Step::<AbortResult, ()>::Done(AbortResult::Aborted),
{
    assert forall|i: int| 0 <= i < world.channels.len() implies !Cut::Serial(serial).hits(
        #[trigger] world.channels[i],
    ) by {
        assert(world.channels[i].serial != serial);
    }
    lemma_kept_all(world.channels, Cut::Serial(serial));
}

/// Closing closes, whatever state the channel was in, and closing twice is
/// closing once.
pub proof fn law_close_is_final<D>(world: World<D>, serial: u64)
    requires
        world.wf(),
    ensures
        !world.closed(serial).is_open(serial),
        world.closed(serial).closed(serial) == world.closed(serial),
{
    lemma_closed_wf(world, serial);
    law_closed_answers_closed(world.closed(serial), serial, Side::Requester, arbitrary(), 0);
}

/// A channel that is closed never opens again, whatever happens.
pub proof fn law_closed_forever<D>(world: World<D>, event: Event<D>, serial: u64)
    requires
        world.wf(),
        serial < world.next_serial,
        !world.is_open(serial),
    ensures
        !world.after(event).is_open(serial),
        serial < world.after(event).next_serial,
{
    let after = world.after(event);
    law_well_formed_forever(world, event);
    if after.is_open(serial) {
        lemma_open_channel(after, serial);
        let channel = after.channel(serial);
        match event {
            Event::Discontinue(ticket) => {
                lemma_kept_members(world.channels, Cut::Ticket(ticket));
                lemma_member_channel(world, channel);
            },
            Event::Death(owner) => {
                lemma_kept_members(world.channels, Cut::Provider(owner));
                lemma_member_channel(world, channel);
            },
            Event::Kill(object) => {
                if world.alive(object) {
                    lemma_kept_members(world.channels, Cut::Party(object));
                    lemma_member_channel(world, channel);
                }
            },
            Event::Close(closed) => {
                lemma_kept_members(world.channels, Cut::Serial(closed));
                lemma_member_channel(world, channel);
            },
            Event::Connect(requester, id) => {
                if world.can_connect(id) {
                    let at = after.slot(serial);
                    if at < world.channels.len() {
                        assert(world.channels[at].serial == serial);
                    }
                }
            },
            Event::Receive(target, side) => {
                lemma_step_opens_nothing(world, after, target, serial);
            },
            Event::WaitToReceive(target, side, span) => {
                lemma_step_opens_nothing(world, after, target, serial);
            },
            Event::Send(target, side, data) => {
                lemma_step_opens_nothing(world, after, target, serial);
            },
            Event::WaitToSend(target, side, data, span) => {
                lemma_step_opens_nothing(world, after, target, serial);
            },
            _ => {
                assert(after.channels == world.channels);
            },
        }
    }
}

/// A channel that is open after a step at some channel was open before it:
/// a step at a closed channel changes nothing, and a step at an open one
/// puts a channel of the same serial in its place.
proof fn lemma_step_opens_nothing<D>(world: World<D>, after: World<D>, target: u64, serial: u64)
    requires
        world.wf(),
        after.is_open(serial),
        after == world || (world.is_open(target) && after.channels.len() == world.channels.len()
            && after.channels[world.slot(target)].serial == target && forall|i: int|
            0 <= i < world.channels.len() && i != world.slot(target) ==> after.channels[i]
                == world.channels[i]),
    ensures
        world.is_open(serial),
{
    if after != world {
        let at = after.slot(serial);
        if at == world.slot(target) {
            assert(world.channels[world.slot(target)].serial == target);
        } else {
            assert(world.channels[at].serial == serial);
        }
    }
}

/// The state of the channel `serial` after a step at it that keeps it
/// coherent and bound as it was.
proof fn lemma_stepped_channel<D>(world: World<D>, serial: u64, stepped: Channel<D>)
    requires
        world.wf(),
        world.is_open(serial),
        stepped.coherent(),
        stepped.same_binding(world.channel(serial)),
    ensures
        world.with_channel(serial, stepped).wf(),
        world.with_channel(serial, stepped).is_open(serial),
        world.with_channel(serial, stepped).channel(serial) == stepped,
        world.with_channel(serial, stepped).now == world.now,
{
    lemma_with_channel_wf(world, serial, stepped);
}

/// In a well-formed scope every open channel is coherent.
proof fn lemma_open_is_coherent<D>(world: World<D>, serial: u64)
    requires
        world.wf(),
        world.is_open(serial),
    ensures
        world.channel(serial).coherent(),
{
    lemma_open_channel(world, serial);
}

/// A bounded receive that finds no data gives up when its time is over and
/// not before, and giving up loses nothing. Let an end with an empty inbox,
/// whose other end does not wait in a receive, begin a receive bounded by
/// `span` ticks. Then the first step has to wait unless `span` is zero;
/// after `ticks` ticks without data or closure, `ticks` no less than
/// `span`, the next step answers nothing and leaves the channel at rest as
/// it was; and when the end then receives without bound and the other end
/// sends, the send succeeds and the receive gets exactly what was sent.
pub proof fn law_timeout_loses_nothing<D>(
    world: World<D>,
    serial: u64,
    side: Side,
    span: u64,
    ticks: u64,
    data: D,
)
    requires
        world.wf(),
        world.is_open(serial),
        world.channel(serial).terminal(side).inbox is None,
        !(world.channel(serial).terminal(side).intent is Receiving),
        !(world.channel(serial).terminal(side.other()).intent is Receiving),
        world.now + span <= u64::MAX,
        span <= ticks,
    ensures
        ({
            let first = world.wait_to_receive_outcome(serial, side, span);
            let waiting = world.after(Event::WaitToReceive(serial, side, span));
            let later = waiting.after(Event::Advance(ticks));
            let second = later.wait_to_receive_outcome(serial, side, span);
            let given_up = later.after(Event::WaitToReceive(serial, side, span));
            let third = given_up.receive_outcome(serial, side);
            let parked = given_up.after(Event::Receive(serial, side));
            let sent = parked.send_outcome(serial, side.other(), data);
            let delivered = parked.after(Event::Send(serial, side.other(), data));
            let fourth = delivered.receive_outcome(serial, side);
            &&& span > 0 ==> first == Step::<Option<Result<D, SocketErr>>, ()>::Pending(())
            &&& second == Step::<Option<Result<D, SocketErr>>, ()>::Done(None)
            &&& given_up.is_open(serial)
            &&& given_up.channel(serial) == world.channel(serial).drained(side, Intent::Idle)
            &&& third == Step::<Result<D, SocketErr>, ()>::Pending(())
            &&& sent == Step::<Result<(), SocketErr>, D>::Done(Ok(()))
            &&& fourth == Step::<Result<D, SocketErr>, ()>::Done(Ok(data))
        }),
{
    let start = world.channel(serial);
    lemma_open_is_coherent(world, serial);
    let waiting = world.after(Event::WaitToReceive(serial, side, span));
    lemma_receive_keeps_channel(start, side, world.now, span);
    lemma_stepped_channel(world, serial, start.after_wait_to_receive(side, world.now, span));
    let later = waiting.after(Event::Advance(ticks));
    lemma_advanced_wf(waiting, ticks);
    assert(later.channels == waiting.channels);
    assert(later.is_open(serial) && later.channel(serial) == waiting.channel(serial));
    let held = later.channel(serial);
    let given_up = later.after(Event::WaitToReceive(serial, side, span));
    lemma_receive_keeps_channel(held, side, later.now, span);
    lemma_stepped_channel(later, serial, held.after_wait_to_receive(side, later.now, span));
    assert(given_up.channel(serial) =~= start.drained(side, Intent::Idle));
    let rested = given_up.channel(serial);
    let parked = given_up.after(Event::Receive(serial, side));
    lemma_receive_keeps_channel(rested, side, given_up.now, 0);
    lemma_stepped_channel(given_up, serial, rested.after_receive(side));
    let ready = parked.channel(serial);
    let delivered = parked.after(Event::Send(serial, side.other(), data));
    lemma_send_keeps_channel(ready, side.other(), data, parked.now, 0);
    lemma_stepped_channel(parked, serial, ready.after_send(side.other(), data));
}

/// Of two ends that ask for the same operation, exactly the second is
/// refused. Let both inboxes of a channel be empty and neither end wait in
/// a receive. When one end begins a receive it has to wait; when the other
/// end then asks to receive too it is told of the lockup, and the first
/// end goes on waiting as if nothing had happened.
pub proof fn law_lockup_hits_second<D>(world: World<D>, serial: u64, first: Side)
    requires
        world.wf(),
        world.is_open(serial),
        world.channel(serial).terminal(first).inbox is None,
        world.channel(serial).terminal(first.other()).inbox is None,
        !(world.channel(serial).terminal(first.other()).intent is Receiving),
    ensures
        ({
            let one = world.receive_outcome(serial, first);
            let waiting = world.after(Event::Receive(serial, first));
            let two = waiting.receive_outcome(serial, first.other());
            let refused = waiting.after(Event::Receive(serial, first.other()));
            let again = refused.receive_outcome(serial, first);
            &&& one == Step::<Result<D, SocketErr>, ()>::Pending(())
            &&& two == Step::<Result<D, SocketErr>, ()>::Done(Err(SocketErr::Lockup))
            &&& again == Step::<Result<D, SocketErr>, ()>::Pending(())
            &&& refused.channel(serial).terminal(first).intent is Receiving
            &&& refused.channel(serial).terminal(first.other()).intent is Idle
        }),
{
    let start = world.channel(serial);
    lemma_open_is_coherent(world, serial);
    let waiting = world.after(Event::Receive(serial, first));
    lemma_receive_keeps_channel(start, first, world.now, 0);
    lemma_stepped_channel(world, serial, start.after_receive(first));
    let held = waiting.channel(serial);
    lemma_receive_keeps_channel(held, first.other(), waiting.now, 0);
    lemma_stepped_channel(waiting, serial, held.after_receive(first.other()));
}

/// Of two ends that ask to send, exactly the second is refused. Let
/// neither end of a channel wait in a send or a receive. When one end
/// begins a send it has to wait and keeps its data; when the other end
/// then asks to send too it is told of the lockup, and the first end goes
/// on waiting as if nothing had happened.
pub proof fn law_lockup_hits_second_sender<D>(
    world: World<D>,
    serial: u64,
    first: Side,
    ours: D,
    theirs: D,
)
    requires
        world.wf(),
        world.is_open(serial),
        world.channel(serial).terminal(first).intent is Idle,
        world.channel(serial).terminal(first.other()).intent is Idle,
    ensures
        ({
            let one = world.send_outcome(serial, first, ours);
            let waiting = world.after(Event::Send(serial, first, ours));
            let two = waiting.send_outcome(serial, first.other(), theirs);
            let refused = waiting.after(Event::Send(serial, first.other(), theirs));
            let again = refused.send_outcome(serial, first, ours);
            &&& one == Step::<Result<(), SocketErr>, D>::Pending(ours)
            &&& two == Step::<Result<(), SocketErr>, D>::Done(Err(SocketErr::Lockup))
            &&& again == Step::<Result<(), SocketErr>, D>::Pending(ours)
            &&& refused.channel(serial).terminal(first).intent is Sending
            &&& refused.channel(serial).terminal(first.other()).intent is Idle
        }),
{
    let start = world.channel(serial);
    lemma_open_is_coherent(world, serial);
    let waiting = world.after(Event::Send(serial, first, ours));
    lemma_send_keeps_channel(start, first, ours, world.now, 0);
    lemma_stepped_channel(world, serial, start.after_send(first, ours));
    let held = waiting.channel(serial);
    lemma_send_keeps_channel(held, first.other(), theirs, waiting.now, 0);
    lemma_stepped_channel(waiting, serial, held.after_send(first.other(), theirs));
}

/// At no open channel do both ends wait to receive, and at none do both
/// wait to send.
pub proof fn law_never_both_waiting<D>(world: World<D>, serial: u64)
    requires
        world.wf(),
        world.is_open(serial),
    ensures
        !(world.channel(serial).terminal(Side::Requester).intent is Receiving && world.channel(
            serial,
        ).terminal(Side::Provider).intent is Receiving),
        !(world.channel(serial).terminal(Side::Requester).intent is Sending && world.channel(
            serial,
        ).terminal(Side::Provider).intent is Sending),
{
    lemma_open_is_coherent(world, serial);
}

/// Killing an object cleans up after it. The object is not alive any more
/// and provides nothing; a service that only it provided is not found any
/// more; and every channel that it was an end of is closed, so that the
/// other end is told so at its next receive.
pub proof fn law_death_cleans_up<D>(
    world: World<D>,
    object: ObjectId,
    id: ServiceId,
    serial: u64,
    side: Side,
)
    requires
        world.wf(),
    ensures
        !world.killed(object).alive(object),
        !world.killed(object).offers(object, id),
        (forall|i: int|
            0 <= i < world.records.len() && (#[trigger] world.records[i]).id == id
                ==> world.records[i].owner == object) ==> world.killed(object).lookup(id) is None,
        world.is_open(serial) && (world.channel(serial).requester == object || world.channel(
            serial,
        ).provider == object) ==> !world.killed(object).is_open(serial) && world.killed(
            object,
        ).receive_outcome(serial, side) == Step::<Result<D, SocketErr>, ()>::Done(
            Err(SocketErr::ChannelClosed),
        ),
{
    let after = world.killed(object);
    lemma_killed_wf(world, object);
    lemma_kept_members(world.records, Purge::Owner(object));
    lemma_kept_members(world.channels, Cut::Party(object));
    if after.offers(object, id) {
        let i = choose|i: int|
            0 <= i < after.records.len() && (#[trigger] after.records[i]).owner == object
                && after.records[i].id == id;
        assert(after.records.contains(after.records[i]));
    }
    if after.provided(id) {
        let i = choose|i: int|
            0 <= i < after.records.len() && (#[trigger] after.records[i]).id == id;
        assert(after.records.contains(after.records[i]));
        let was = choose|was: int|
            0 <= was < world.records.len() && world.records[was] == after.records[i];
        assert(world.records[was].id == id);
    }
    if world.is_open(serial) && after.is_open(serial) {
        lemma_open_channel(after, serial);
        lemma_member_channel(world, after.channel(serial));
    }
}

/// Killing an object does to the registry what the news of its death does:
/// the same registrations are left, and no channel stays open that the
/// registry would have closed.
pub proof fn law_kill_tells_the_registry<D>(world: World<D>, object: ObjectId, serial: u64)
    requires
        world.wf(),
    ensures
        world.killed(object).records == world.bereft(object).records,
        world.killed(object).is_open(serial) ==> world.bereft(object).is_open(serial),
{
    let killed = world.killed(object);
    let bereft = world.bereft(object);
    lemma_kept_members(world.channels, Cut::Party(object));
    lemma_kept_members(world.channels, Cut::Provider(object));
    if killed.is_open(serial) {
        lemma_open_channel(killed, serial);
        let channel = killed.channel(serial);
        assert(bereft.channels.contains(channel));
        let at = choose|at: int| 0 <= at < bereft.channels.len() && bereft.channels[at] == channel;
        assert(bereft.channels[at].serial == serial);
    }
}

/// When the registry learns of the death of a provider, nothing that it
/// registered is left, and every channel that it provided for is closed.
pub proof fn law_registry_forgets_the_dead<D>(
    world: World<D>,
    owner: ObjectId,
    id: ServiceId,
    serial: u64,
)
    requires
        world.wf(),
    ensures
        !world.bereft(owner).provides_any(owner),
        !world.bereft(owner).offers(owner, id),
        world.is_open(serial) && world.channel(serial).provider == owner ==> !world.bereft(
            owner,
        ).is_open(serial),
{
    let after = world.bereft(owner);
    lemma_bereft_wf(world, owner);
    lemma_kept_members(world.records, Purge::Owner(owner));
    lemma_kept_members(world.channels, Cut::Provider(owner));
    if after.provides_any(owner) {
        let i = choose|i: int|
            0 <= i < after.records.len() && (#[trigger] after.records[i]).owner == owner;
        assert(after.records.contains(after.records[i]));
    }
    if after.offers(owner, id) {
        let i = choose|i: int|
            0 <= i < after.records.len() && (#[trigger] after.records[i]).owner == owner
                && after.records[i].id == id;
        assert(after.records.contains(after.records[i]));
    }
    if world.is_open(serial) && after.is_open(serial) {
        lemma_open_channel(after, serial);
        lemma_member_channel(world, after.channel(serial));
    }
}

/// What is sent is what is received, one piece at a time. After a send
/// that succeeded, the next receive at the other end gets exactly the data
/// that was sent, and until then no further send from the same end goes
/// through, so that nothing can overtake it.
pub proof fn law_sent_is_received<D>(world: World<D>, serial: u64, side: Side, data: D, next: D)
    requires
        world.wf(),
        world.send_outcome(serial, side, data) == Step::<Result<(), SocketErr>, D>::Done(Ok(())),
    ensures
        world.after(Event::Send(serial, side, data)).receive_outcome(serial, side.other())
            == Step::<Result<D, SocketErr>, ()>::Done(Ok(data)),
        world.after(Event::Send(serial, side, data)).send_outcome(serial, side, next)
            == Step::<Result<(), SocketErr>, D>::Pending(next),
{
    let start = world.channel(serial);
    lemma_open_is_coherent(world, serial);
    lemma_send_keeps_channel(start, side, data, world.now, 0);
    lemma_stepped_channel(world, serial, start.after_send(side, data));
}

/// A bounded operation that gives up has had no effect: the channel is as
/// it was, but that the end that gave up waits no more. In particular a
/// send that gave up has handed nothing over.
pub proof fn law_giving_up_changes_nothing<D>(
    world: World<D>,
    serial: u64,
    side: Side,
    data: D,
    span: u64,
)
    requires
        world.wf(),
        world.is_open(serial),
    ensures
        world.wait_to_send_outcome(serial, side, data, span) == Step::<
            Option<Result<(), SocketErr>>,
            D,
        >::Done(None) ==> world.after(Event::WaitToSend(serial, side, data, span)).channel(serial)
            == world.channel(serial).resting(side, Intent::Idle),
        world.wait_to_receive_outcome(serial, side, span) == Step::<
            Option<Result<D, SocketErr>>,
            (),
        >::Done(None) ==> world.after(Event::WaitToReceive(serial, side, span)).channel(serial)
            == world.channel(serial).resting(side, Intent::Idle),
{
    let start = world.channel(serial);
    lemma_open_is_coherent(world, serial);
    lemma_send_keeps_channel(start, side, data, world.now, span);
    lemma_receive_keeps_channel(start, side, world.now, span);
    lemma_stepped_channel(world, serial, start.after_wait_to_send(side, data, world.now, span));
    lemma_stepped_channel(world, serial, start.after_wait_to_receive(side, world.now, span));
    if world.wait_to_receive_outcome(serial, side, span) == Step::<
        Option<Result<D, SocketErr>>,
        (),
    >::Done(None) {
        assert(start.after_wait_to_receive(side, world.now, span) =~= start.resting(
            side,
            Intent::Idle,
        ));
    }
}

} // verus!
