//! Connecting a requester to a provider, and the coming and going of
//! objects.
use vstd::prelude::*;
use crate::model::{Channel, ObjectId, Terminal, ServiceId, World};
use crate::registry::{lemma_removal_wf, Cut, Named, Purge};
use crate::select::{kept, lemma_kept_distinct, lemma_kept_members};

verus! {

impl<D> World<D> {
    /// The record at `at` is the oldest live registration of service `id`.
    pub open spec fn is_elected(self, id: ServiceId, at: int) -> bool {
        &&& 0 <= at < self.records.len()
        &&& self.records[at].id == id
        &&& forall|j: int| 0 <= j < at ==> (#[trigger] self.records[j]).id != id
    }

    /// Where the registration stands that serves the next connection to
    /// service `id`: the oldest live one.
    pub open spec fn elected(self, id: ServiceId) -> int {
        choose|at: int| self.is_elected(id, at)
    }

    /// A connection to service `id` can be made: somebody provides it, and
    /// another serial can be given out.
    pub open spec fn can_connect(self, id: ServiceId) -> bool {
        self.provided(id) && self.next_serial < u64::MAX
    }

    /// The channel that a connection of `requester` to service `id` opens:
    /// bound to `requester` and to the owner of the elected registration,
    /// under the next serial, with both ends at rest.
    pub open spec fn fresh_channel(self, requester: ObjectId, id: ServiceId) -> Channel<D> {
        let record = self.records[self.elected(id)];
        Channel {
            serial: self.next_serial,
            requester,
            provider: record.owner,
            service: id,
            ticket: record.ticket,
            requester_terminal: Terminal::idle(),
            provider_terminal: Terminal::idle(),
        }
    }

    /// The scope after `requester` has been connected to service `id`: one
    /// channel more, at the end.
    pub open spec fn connected(self, requester: ObjectId, id: ServiceId) -> Self {
        World {
            channels: self.channels.push(self.fresh_channel(requester, id)),
            next_serial: (self.next_serial + 1) as u64,
            ..self
        }
    }

    /// The scope after `object` has been killed: it runs no more, its
    /// registrations are gone, and every channel that it was an end of is
    /// closed.
    pub open spec fn killed(self, object: ObjectId) -> Self {
        World {
            records: kept(self.records, Purge::Owner(object)),
            channels: kept(self.channels, Cut::Party(object)),
            running: kept(self.running, Named { object }),
            ..self
        }
    }

    /// The scope after `object` has begun to run in it.
    pub open spec fn entered(self, object: ObjectId) -> Self {
        World { running: self.running.push(object), ..self }
    }

    /// The scope after the own execution of `object` has come to its end.
    /// What it has registered stays.
    pub open spec fn retired(self, object: ObjectId) -> Self {
        World { running: kept(self.running, Named { object }), ..self }
    }
}

/// Where a service is provided, one of its registrations is the oldest.
pub proof fn lemma_elected<D>(world: World<D>, id: ServiceId)
    requires
        world.provided(id),
    ensures
        world.is_elected(id, world.elected(id)),
{
    let some = choose|i: int| 0 <= i < world.records.len() && (#[trigger] world.records[i]).id == id;
    lemma_oldest_before(world, id, some);
}

/// Where the record at `upto` is of service `id`, some record at or before
/// it is the oldest of that service.
proof fn lemma_oldest_before<D>(world: World<D>, id: ServiceId, upto: int)
    requires
        0 <= upto < world.records.len(),
        world.records[upto].id == id,
    ensures
        exists|at: int| world.is_elected(id, at),
    decreases upto,
{
    if exists|j: int| 0 <= j < upto && (#[trigger] world.records[j]).id == id {
        let j = choose|j: int| 0 <= j < upto && (#[trigger] world.records[j]).id == id;
        lemma_oldest_before(world, id, j);
    } else {
        assert(world.is_elected(id, upto));
    }
}

/// The oldest registration of a service is the only one that is the oldest.
pub proof fn lemma_elected_is<D>(world: World<D>, id: ServiceId, at: int)
    requires
        world.is_elected(id, at),
    ensures
        world.elected(id) == at,
{
    let other = world.elected(id);
    assert(world.is_elected(id, other));
    if other < at {
        assert(world.records[other].id != id);
    } else if at < other {
        assert(world.records[at].id != id);
    }
}

/// Connecting keeps the scope well formed, and the new channel is open.
pub proof fn lemma_connected_wf<D>(world: World<D>, requester: ObjectId, id: ServiceId)
    requires
        world.wf(),
        world.can_connect(id),
    ensures
        world.connected(requester, id).wf(),
        world.connected(requester, id).is_open(world.next_serial),
        world.connected(requester, id).channel(world.next_serial) == world.fresh_channel(
            requester,
            id,
        ),
        !world.is_open(world.next_serial),
{
    lemma_elected(world, id);
    let after = world.connected(requester, id);
    let fresh = world.fresh_channel(requester, id);
    let last = world.channels.len() as int;
    assert(after.channels[last] == fresh);
    assert forall|i: int| 0 <= i < after.channels.len() implies (
    #[trigger] after.channels[i]).coherent() && after.backs(after.channels[i]) by {
        if i == last {
            assert(fresh.served_by(after.records[world.elected(id)]));
        } else {
            assert(world.channels[i].coherent() && world.backs(world.channels[i]));
            let k = choose|k: int|
                0 <= k < world.records.len() && world.channels[i].served_by(
                    #[trigger] world.records[k],
                );
            assert(after.channels[i].served_by(after.records[k]));
        }
    }
    assert(after.serials_in_order()) by {
        assert forall|i: int, j: int| 0 <= i < j < after.channels.len() implies (
        #[trigger] after.channels[i]).serial < (#[trigger] after.channels[j]).serial by {
            if j == last {
                assert(world.channels[i].serial < world.next_serial);
            } else {
                assert(world.channels[i].serial < world.channels[j].serial);
            }
        }
        assert forall|i: int| 0 <= i < after.channels.len() implies (
        #[trigger] after.channels[i]).serial < after.next_serial by {
            if i < last {
                assert(world.channels[i].serial < world.next_serial);
            }
        }
    }
    assert(after.wf());
    crate::exchange::lemma_slot_is(after, last);
    if world.is_open(world.next_serial) {
        let at = world.slot(world.next_serial);
        assert(world.channels[at].serial < world.next_serial);
    }
}

/// Killing an object keeps the scope well formed and leaves the object dead.
pub proof fn lemma_killed_wf<D>(world: World<D>, object: ObjectId)
    requires
        world.wf(),
    ensures
        world.killed(object).wf(),
        !world.killed(object).alive(object),
{
    let after = world.killed(object);
    lemma_removal_wf(world, Purge::Owner(object), Cut::Party(object));
    lemma_kept_distinct(world.running, Named { object });
    lemma_kept_members(world.running, Named { object });
    lemma_kept_members(world.records, Purge::Owner(object));
    if after.provides_any(object) {
        let i = choose|i: int|
            0 <= i < after.records.len() && (#[trigger] after.records[i]).owner == object;
        assert(after.records.contains(after.records[i]));
    }
}

/// Letting an object in that is not alive keeps the scope well formed.
pub proof fn lemma_entered_wf<D>(world: World<D>, object: ObjectId)
    requires
        world.wf(),
        !world.alive(object),
    ensures
        world.entered(object).wf(),
        world.entered(object).alive(object),
{
    let after = world.entered(object);
    assert forall|i: int, j: int|
        0 <= i < after.running.len() && 0 <= j < after.running.len() && i != j implies after.running[i]
        != after.running[j] by {
        if i == world.running.len() {
            assert(world.running.contains(world.running[j]));
        } else if j == world.running.len() {
            assert(world.running.contains(world.running[i]));
        }
    }
    assert(after.running[world.running.len() as int] == object);
    assert forall|i: int| 0 <= i < after.channels.len() implies (
    #[trigger] after.channels[i]).coherent() && after.backs(after.channels[i]) by {
        assert(world.channels[i].coherent() && world.backs(world.channels[i]));
        let k = choose|k: int|
            0 <= k < world.records.len() && world.channels[i].served_by(#[trigger] world.records[k]);
        assert(after.channels[i].served_by(after.records[k]));
    }
}

/// The end of an object's own execution keeps the scope well formed.
pub proof fn lemma_retired_wf<D>(world: World<D>, object: ObjectId)
    requires
        world.wf(),
    ensures
        world.retired(object).wf(),
        !world.retired(object).running.contains(object),
{
    let after = world.retired(object);
    lemma_kept_distinct(world.running, Named { object });
    lemma_kept_members(world.running, Named { object });
    assert forall|i: int| 0 <= i < after.channels.len() implies (
    #[trigger] after.channels[i]).coherent() && after.backs(after.channels[i]) by {
        assert(world.channels[i].coherent() && world.backs(world.channels[i]));
        let k = choose|k: int|
            0 <= k < world.records.len() && world.channels[i].served_by(#[trigger] world.records[k]);
        assert(after.channels[i].served_by(after.records[k]));
    }
}

} // verus!
