//! Service arbitration: which registrations a scope admits and what leaves
//! it when a service is discontinued or its provider dies.
use vstd::prelude::*;
use crate::model::{Channel, ObjectId, Registration, RegistrationForm, ServiceId, Uniqueness, World};
use crate::outcome::RegistrationErr;
use crate::select::{kept, lemma_kept_in_order, lemma_kept_members, Selector};

verus! {

/// Says which registrations leave the registry.
#[derive(Debug, Clone, Copy, PartialEq, Eq, Structural)]
pub enum Purge {
    /// The one registration with this ticket.
    Ticket(u64),
    /// Every registration that this object owns.
    Owner(ObjectId),
}

impl Selector<Registration> for Purge {
    open spec fn hits(&self, item: Registration) -> bool {
        match *self {
            Purge::Ticket(ticket) => item.ticket == ticket,
            Purge::Owner(owner) => item.owner == owner,
        }
    }

    fn strikes(&self, item: &Registration) -> (hit: bool) {
        match *self {
            Purge::Ticket(ticket) => item.ticket == ticket,
            Purge::Owner(owner) => item.owner == owner,
        }
    }
}

/// Says which channels are closed.
#[derive(Debug, Clone, Copy, PartialEq, Eq, Structural)]
pub enum Cut {
    /// The one channel with this serial.
    Serial(u64),
    /// Every channel served through the registration with this ticket.
    Ticket(u64),
    /// Every channel that this object provides for.
    Provider(ObjectId),
    /// Every channel that this object is an end of.
    Party(ObjectId),
}

impl<D> Selector<Channel<D>> for Cut {
    open spec fn hits(&self, item: Channel<D>) -> bool {
        match *self {
            Cut::Serial(serial) => item.serial == serial,
            Cut::Ticket(ticket) => item.ticket == ticket,
            Cut::Provider(object) => item.provider == object,
            Cut::Party(object) => item.provider == object || item.requester == object,
        }
    }

    fn strikes(&self, item: &Channel<D>) -> (hit: bool) {
        match *self {
            Cut::Serial(serial) => item.serial == serial,
            Cut::Ticket(ticket) => item.ticket == ticket,
            Cut::Provider(object) => item.provider == object,
            Cut::Party(object) => item.provider == object || item.requester == object,
        }
    }
}

/// Picks one object out of those that are running.
#[derive(Debug, Clone, Copy, PartialEq, Eq, Structural)]
pub struct Named {
    /// The object that is meant.
    pub object: ObjectId,
}

impl Selector<ObjectId> for Named {
    open spec fn hits(&self, item: ObjectId) -> bool {
        item == self.object
    }

    fn strikes(&self, item: &ObjectId) -> (hit: bool) {
        *item == self.object
    }
}

/// Those of `records` that are of service `id`, in their old order.
pub open spec fn of_service(records: Seq<Registration>, id: ServiceId) -> Seq<Registration> {
    records.filter(|record: Registration| record.id == id)
}

/// Looking at one more record either appends it to those of service `id` or
/// changes nothing.
pub proof fn lemma_of_service_step(records: Seq<Registration>, id: ServiceId, k: int)
    requires
        0 <= k < records.len(),
    ensures
        of_service(records.take(k + 1), id) == if records[k].id == id {
            of_service(records.take(k), id).push(records[k])
        } else {
            of_service(records.take(k), id)
        },
{
    reveal(Seq::filter);
    assert(records.take(k + 1).drop_last() =~= records.take(k));
}

/// Among no records there is none of service `id`.
pub proof fn lemma_of_service_start(records: Seq<Registration>, id: ServiceId)
    ensures
        of_service(records.take(0), id) == Seq::<Registration>::empty(),
{
    reveal(Seq::filter);
    assert(records.take(0) =~= Seq::<Registration>::empty());
}

impl<D> World<D> {
    /// Why a shared registration of service `id` is refused, if it is: some
    /// object holds the service uniquely.
    pub open spec fn register_refusal(self, id: ServiceId) -> Option<RegistrationErr> {
        if self.uniquely_provided(id) {
            Some(RegistrationErr::UniquelyRegistered)
        } else {
            None
        }
    }

    /// Why a unique registration of service `id` is refused, if it is: the
    /// service is provided already, by whatever kind of registration.
    pub open spec fn register_unique_refusal(self, id: ServiceId) -> Option<RegistrationErr> {
        if self.provided(id) {
            Some(RegistrationErr::AlreadyRegistered)
        } else {
            None
        }
    }

    /// The record that admitting `form` for `owner` adds.
    pub open spec fn fresh_record(
        self,
        form: RegistrationForm,
        owner: ObjectId,
        class: Uniqueness,
    ) -> Registration {
        Registration { id: form.id, owner, class, entry: form.entry, ticket: self.next_ticket }
    }

    /// The scope after `form` has been admitted for `owner`: one record
    /// more, at the end, under the next ticket.
    pub open spec fn enrolled(
        self,
        form: RegistrationForm,
        owner: ObjectId,
        class: Uniqueness,
    ) -> Self {
        World {
            records: self.records.push(self.fresh_record(form, owner, class)),
            next_ticket: (self.next_ticket + 1) as u64,
            ..self
        }
    }

    /// The scope after the registration with ticket `ticket` has been
    /// discontinued: the record is gone, and so is every channel that was
    /// served through it.
    pub open spec fn released(self, ticket: u64) -> Self {
        World {
            records: kept(self.records, Purge::Ticket(ticket)),
            channels: kept(self.channels, Cut::Ticket(ticket)),
            ..self
        }
    }

    /// The scope after the death of `owner` has been recorded in the
    /// registry: every registration of `owner` is gone, and so is every
    /// channel that `owner` provided for.
    pub open spec fn bereft(self, owner: ObjectId) -> Self {
        World {
            records: kept(self.records, Purge::Owner(owner)),
            channels: kept(self.channels, Cut::Provider(owner)),
            ..self
        }
    }

    /// The live registrations of service `id`, oldest first.
    pub open spec fn matching(self, id: ServiceId) -> Seq<Registration> {
        of_service(self.records, id)
    }

    /// What a lookup of service `id` answers: the live registrations of it,
    /// or nothing where there is none.
    pub open spec fn lookup(self, id: ServiceId) -> Option<Seq<Registration>> {
        if self.provided(id) {
            Some(self.matching(id))
        } else {
            None
        }
    }

    /// Object `object` provides service `id`.
    pub open spec fn offers(self, object: ObjectId, id: ServiceId) -> bool {
        exists|i: int|
            0 <= i < self.records.len() && (#[trigger] self.records[i]).owner == object
                && self.records[i].id == id
    }

    /// Another ticket can be given out.
    pub open spec fn has_ticket(self) -> bool {
        self.next_ticket < u64::MAX
    }
}

/// A scope stays well formed when records and channels leave it, as long as
/// those that stay keep their order and no channel stays behind without its
/// registration.
pub proof fn lemma_shrunk_wf<D>(
    world: World<D>,
    records: Seq<Registration>,
    channels: Seq<Channel<D>>,
)
    requires
        world.wf(),
        forall|i: int| 0 <= i < records.len() ==> world.records.contains(#[trigger] records[i]),
        forall|i: int, j: int|
            0 <= i < j < records.len() ==> (#[trigger] records[i]).ticket < (
            #[trigger] records[j]).ticket,
        forall|i: int| 0 <= i < channels.len() ==> world.channels.contains(#[trigger] channels[i]),
        forall|i: int, j: int|
            0 <= i < j < channels.len() ==> (#[trigger] channels[i]).serial < (
            #[trigger] channels[j]).serial,
        forall|i: int, k: int|
            0 <= i < channels.len() && 0 <= k < world.records.len() && (
            #[trigger] channels[i]).served_by(#[trigger] world.records[k]) ==> records.contains(
                world.records[k],
            ),
    ensures
        (World { records, channels, ..world }).wf(),
{
    let after = World { records, channels, ..world };
    assert(after.tickets_in_order()) by {
        assert forall|i: int| 0 <= i < records.len() implies (#[trigger] records[i]).ticket
            < after.next_ticket by {
            assert(world.records.contains(records[i]));
            let at = choose|at: int| 0 <= at < world.records.len() && world.records[at] == records[i];
            assert(world.records[at].ticket < world.next_ticket);
        }
    }
    assert(after.unique_is_alone()) by {
        assert forall|i: int, j: int|
            0 <= i < records.len() && 0 <= j < records.len() && i != j && (
            #[trigger] records[i]).id == (#[trigger] records[j]).id implies records[i].class
            is Shared by {
            assert(world.records.contains(records[i]));
            assert(world.records.contains(records[j]));
            let a = choose|a: int| 0 <= a < world.records.len() && world.records[a] == records[i];
            let b = choose|b: int| 0 <= b < world.records.len() && world.records[b] == records[j];
            if i < j {
                assert(records[i].ticket < records[j].ticket);
            } else {
                assert(records[j].ticket < records[i].ticket);
            }
            assert(a != b);
            assert(world.records[a].id == world.records[b].id);
        }
    }
    assert(after.serials_in_order()) by {
        assert forall|i: int| 0 <= i < channels.len() implies (#[trigger] channels[i]).serial
            < after.next_serial by {
            assert(world.channels.contains(channels[i]));
            let at = choose|at: int|
                0 <= at < world.channels.len() && world.channels[at] == channels[i];
            assert(world.channels[at].serial < world.next_serial);
        }
    }
    assert(after.channels_sound()) by {
        assert forall|i: int| 0 <= i < channels.len() implies (#[trigger] channels[i]).coherent()
            && after.backs(channels[i]) by {
            assert(world.channels.contains(channels[i]));
            let at = choose|at: int|
                0 <= at < world.channels.len() && world.channels[at] == channels[i];
            assert(world.channels[at].coherent() && world.backs(world.channels[at]));
            let k = choose|k: int|
                0 <= k < world.records.len() && channels[i].served_by(#[trigger] world.records[k]);
            assert(records.contains(world.records[k]));
            let m = choose|m: int| 0 <= m < records.len() && records[m] == world.records[k];
            assert(channels[i].served_by(after.records[m]));
        }
    }
}

/// A scope stays well formed when the records that `purge` hits and the
/// channels that `cut` hits leave it, as long as `cut` hits every channel
/// whose registration `purge` hits.
pub proof fn lemma_removal_wf<D>(world: World<D>, purge: Purge, cut: Cut)
    requires
        world.wf(),
        forall|record: Registration, channel: Channel<D>|
            #![trigger channel.served_by(record)]
            channel.served_by(record) && purge.hits(record) ==> cut.hits(channel),
    ensures
        (World {
            records: kept(world.records, purge),
            channels: kept(world.channels, cut),
            ..world
        }).wf(),
{
    let records = kept(world.records, purge);
    let channels = kept(world.channels, cut);
    lemma_kept_members(world.records, purge);
    lemma_kept_members(world.channels, cut);
    lemma_kept_in_order(world.records, purge, |record: Registration| record.ticket as int);
    lemma_kept_in_order(world.channels, cut, |channel: Channel<D>| channel.serial as int);
    assert forall|i: int| 0 <= i < records.len() implies world.records.contains(
        #[trigger] records[i],
    ) by {
        assert(records.contains(records[i]));
    }
    assert forall|i: int| 0 <= i < channels.len() implies world.channels.contains(
        #[trigger] channels[i],
    ) by {
        assert(channels.contains(channels[i]));
    }
    assert forall|i: int, k: int|
        0 <= i < channels.len() && 0 <= k < world.records.len() && (
        #[trigger] channels[i]).served_by(#[trigger] world.records[k]) implies records.contains(
        world.records[k],
    ) by {
        assert(channels.contains(channels[i]));
        assert(world.records.contains(world.records[k]));
    }
    lemma_shrunk_wf(world, records, channels);
}

/// Admitting a registration that is not refused keeps the scope well formed.
pub proof fn lemma_enrolled_wf<D>(
    world: World<D>,
    form: RegistrationForm,
    owner: ObjectId,
    class: Uniqueness,
)
    requires
        world.wf(),
        world.has_ticket(),
        class is Shared ==> world.register_refusal(form.id) is None,
        class is Unique ==> world.register_unique_refusal(form.id) is None,
    ensures
        world.enrolled(form, owner, class).wf(),
{
    let after = world.enrolled(form, owner, class);
    let last = world.records.len() as int;
    assert forall|i: int, j: int|
        0 <= i < after.records.len() && 0 <= j < after.records.len() && i != j && (
        #[trigger] after.records[i]).id == (#[trigger] after.records[j]).id implies after.records[i].class
        is Shared by {
        if i == last {
            assert(world.records[j].id == form.id);
        } else if j == last {
            assert(world.records[i].id == form.id);
            if world.records[i].class is Unique {
                assert(world.uniquely_provided(form.id));
            }
        } else {
            assert(world.records[i].id == world.records[j].id);
        }
    }
    assert forall|i: int| 0 <= i < after.channels.len() implies (
    #[trigger] after.channels[i]).coherent() && after.backs(after.channels[i]) by {
        assert(world.channels[i].coherent() && world.backs(world.channels[i]));
        let k = choose|k: int|
            0 <= k < world.records.len() && world.channels[i].served_by(#[trigger] world.records[k]);
        assert(after.channels[i].served_by(after.records[k]));
    }
}

/// Discontinuing a registration keeps the scope well formed.
pub proof fn lemma_released_wf<D>(world: World<D>, ticket: u64)
    requires
        world.wf(),
    ensures
        world.released(ticket).wf(),
{
    lemma_removal_wf(world, Purge::Ticket(ticket), Cut::Ticket(ticket));
}

/// Recording a provider's death keeps the scope well formed.
pub proof fn lemma_bereft_wf<D>(world: World<D>, owner: ObjectId)
    requires
        world.wf(),
    ensures
        world.bereft(owner).wf(),
{
    lemma_removal_wf(world, Purge::Owner(owner), Cut::Provider(owner));
}

} // verus!
