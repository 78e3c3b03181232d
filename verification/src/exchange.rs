//! What the operations on a socket do to the scope that holds its channel.
use vstd::prelude::*;
use crate::channel::{lemma_receive_keeps_channel, lemma_send_keeps_channel};
use crate::model::{Channel, Side, World};
use crate::outcome::{AbortResult, SocketErr, Step};
use crate::registry::Cut;
use crate::select::{kept, lemma_kept_in_order, lemma_kept_members};

verus! {

impl<D> World<D> {
    /// The scope with the open channel of serial `serial` replaced by
    /// `channel`.
    pub open spec fn with_channel(self, serial: u64, channel: Channel<D>) -> Self {
        World { channels: self.channels.update(self.slot(serial), channel), ..self }
    }

    /// What a receive at `side` of the channel `serial` answers: what the
    /// channel's state gives while it is open, else that it is closed.
    pub open spec fn receive_outcome(self, serial: u64, side: Side) -> Step<
        Result<D, SocketErr>,
        (),
    > {
        if self.is_open(serial) {
            self.channel(serial).receive_outcome(side)
        } else {
            Step::Done(Err(SocketErr::ChannelClosed))
        }
    }

    /// The scope after a receive at `side` of the channel `serial`.
    pub open spec fn after_receive(self, serial: u64, side: Side) -> Self {
        if self.is_open(serial) {
            self.with_channel(serial, self.channel(serial).after_receive(side))
        } else {
            self
        }
    }

    /// What a receive at `side` of the channel `serial` bounded by `span`
    /// ticks answers.
    pub open spec fn wait_to_receive_outcome(self, serial: u64, side: Side, span: u64) -> Step<
        Option<Result<D, SocketErr>>,
        (),
    > {
        if self.is_open(serial) {
            self.channel(serial).wait_to_receive_outcome(side, self.now, span)
        } else {
            Step::Done(Some(Err(SocketErr::ChannelClosed)))
        }
    }

    /// The scope after a receive at `side` of the channel `serial` bounded by
    /// `span` ticks.
    pub open spec fn after_wait_to_receive(self, serial: u64, side: Side, span: u64) -> Self {
        if self.is_open(serial) {
            self.with_channel(
                serial,
                self.channel(serial).after_wait_to_receive(side, self.now, span),
            )
        } else {
            self
        }
    }

    /// What a send of `data` at `side` of the channel `serial` answers.
    pub open spec fn send_outcome(self, serial: u64, side: Side, data: D) -> Step<
        Result<(), SocketErr>,
        D,
    > {
        if self.is_open(serial) {
            self.channel(serial).send_outcome(side, data)
        } else {
            Step::Done(Err(SocketErr::ChannelClosed))
        }
    }

    /// The scope after a send of `data` at `side` of the channel `serial`.
    pub open spec fn after_send(self, serial: u64, side: Side, data: D) -> Self {
        if self.is_open(serial) {
            self.with_channel(serial, self.channel(serial).after_send(side, data))
        } else {
            self
        }
    }

    /// What a send of `data` at `side` of the channel `serial` bounded by
    /// `span` ticks answers.
    pub open spec fn wait_to_send_outcome(self, serial: u64, side: Side, data: D, span: u64) -> Step<
        Option<Result<(), SocketErr>>,
        D,
    > {
        if self.is_open(serial) {
            self.channel(serial).wait_to_send_outcome(side, data, self.now, span)
        } else {
            Step::Done(Some(Err(SocketErr::ChannelClosed)))
        }
    }

    /// The scope after a send of `data` at `side` of the channel `serial`
    /// bounded by `span` ticks.
    pub open spec fn after_wait_to_send(self, serial: u64, side: Side, data: D, span: u64) -> Self {
        if self.is_open(serial) {
            self.with_channel(
                serial,
                self.channel(serial).after_wait_to_send(side, data, self.now, span),
            )
        } else {
            self
        }
    }

    /// The scope after the channel `serial` has been closed: the channel is
    /// gone, and with it whatever lay in its inboxes.
    pub open spec fn closed(self, serial: u64) -> Self {
        World { channels: kept(self.channels, Cut::Serial(serial)), ..self }
    }

    /// How work that depends on the channel `serial` stands: finished if it
    /// has come to its end, aborted if the channel closed before that, and
    /// still going on else.
    pub open spec fn abort_outcome(self, serial: u64, finished: bool) -> Step<AbortResult, ()> {
        if finished {
            Step::Done(AbortResult::Finished)
        } else if !self.is_open(serial) {
            Step::Done(AbortResult::Aborted)
        } else {
            Step::Pending(())
        }
    }

    /// The scope after `ticks` ticks have passed. The clock stops at the end
    /// of its range.
    pub open spec fn advanced(self, ticks: u64) -> Self {
        World {
            now: if self.now + ticks <= u64::MAX {
                (self.now + ticks) as u64
            } else {
                u64::MAX
            },
            ..self
        }
    }
}

/// In a well-formed scope an open channel stands at the one place where its
/// serial is found.
pub proof fn lemma_slot_is<D>(world: World<D>, at: int)
    requires
        world.wf(),
        0 <= at < world.channels.len(),
    ensures
        world.is_open(world.channels[at].serial),
        world.slot(world.channels[at].serial) == at,
        world.channel(world.channels[at].serial) == world.channels[at],
{
    let serial = world.channels[at].serial;
    let found = world.slot(serial);
    assert(0 <= found < world.channels.len() && world.channels[found].serial == serial);
    if found < at {
        assert(world.channels[found].serial < world.channels[at].serial);
    } else if at < found {
        assert(world.channels[at].serial < world.channels[found].serial);
    }
}

/// A scope stays well formed when an open channel changes its state but
/// stays coherent and keeps its binding.
pub proof fn lemma_with_channel_wf<D>(world: World<D>, serial: u64, channel: Channel<D>)
    requires
        world.wf(),
        world.is_open(serial),
        channel.coherent(),
        channel.same_binding(world.channel(serial)),
    ensures
        world.with_channel(serial, channel).wf(),
        world.with_channel(serial, channel).is_open(serial),
        world.with_channel(serial, channel).channel(serial) == channel,
{
    let at = world.slot(serial);
    let after = world.with_channel(serial, channel);
    assert(0 <= at < world.channels.len() && world.channels[at].serial == serial);
    assert forall|i: int| 0 <= i < after.channels.len() implies (
    #[trigger] after.channels[i]).coherent() && after.backs(after.channels[i]) by {
        assert(world.channels[i].coherent() && world.backs(world.channels[i]));
        let k = choose|k: int|
            0 <= k < world.records.len() && world.channels[i].served_by(#[trigger] world.records[k]);
        assert(after.channels[i].served_by(after.records[k]));
    }
    assert(after.serials_in_order()) by {
        assert forall|i: int, j: int| 0 <= i < j < after.channels.len() implies (
        #[trigger] after.channels[i]).serial < (#[trigger] after.channels[j]).serial by {
            assert(world.channels[i].serial < world.channels[j].serial);
        }
        assert forall|i: int| 0 <= i < after.channels.len() implies (
        #[trigger] after.channels[i]).serial < after.next_serial by {
            assert(world.channels[i].serial < world.next_serial);
        }
    }
    assert(after.wf());
    assert(after.channels[at] == channel);
    lemma_slot_is(after, at);
}

/// Every step of a receive keeps the scope well formed.
pub proof fn lemma_receive_keeps_wf<D>(world: World<D>, serial: u64, side: Side, span: u64)
    requires
        world.wf(),
    ensures
        world.after_receive(serial, side).wf(),
        world.after_wait_to_receive(serial, side, span).wf(),
{
    if world.is_open(serial) {
        let channel = world.channel(serial);
        let at = world.slot(serial);
        assert(0 <= at < world.channels.len() && world.channels[at].serial == serial);
        assert(world.channels[at].coherent());
        lemma_receive_keeps_channel(channel, side, world.now, span);
        lemma_with_channel_wf(world, serial, channel.after_receive(side));
        lemma_with_channel_wf(world, serial, channel.after_wait_to_receive(side, world.now, span));
    }
}

/// Every step of a send keeps the scope well formed.
pub proof fn lemma_send_keeps_wf<D>(world: World<D>, serial: u64, side: Side, data: D, span: u64)
    requires
        world.wf(),
    ensures
        world.after_send(serial, side, data).wf(),
        world.after_wait_to_send(serial, side, data, span).wf(),
{
    if world.is_open(serial) {
        let channel = world.channel(serial);
        let at = world.slot(serial);
        assert(0 <= at < world.channels.len() && world.channels[at].serial == serial);
        assert(world.channels[at].coherent());
        lemma_send_keeps_channel(channel, side, data, world.now, span);
        lemma_with_channel_wf(world, serial, channel.after_send(side, data));
        lemma_with_channel_wf(
            world,
            serial,
            channel.after_wait_to_send(side, data, world.now, span),
        );
    }
}

/// The passing of time keeps the scope well formed.
pub proof fn lemma_advanced_wf<D>(world: World<D>, ticks: u64)
    requires
        world.wf(),
    ensures
        world.advanced(ticks).wf(),
{
    let after = world.advanced(ticks);
    assert forall|i: int| 0 <= i < after.channels.len() implies (
    #[trigger] after.channels[i]).coherent() && after.backs(after.channels[i]) by {
        assert(world.channels[i].coherent() && world.backs(world.channels[i]));
        let k = choose|k: int|
            0 <= k < world.records.len() && world.channels[i].served_by(#[trigger] world.records[k]);
        assert(after.channels[i].served_by(after.records[k]));
    }
}

/// A scope stays well formed when channels are closed.
pub proof fn lemma_cut_wf<D>(world: World<D>, cut: Cut)
    requires
        world.wf(),
    ensures
        (World { channels: kept(world.channels, cut), ..world }).wf(),
{
    let channels = kept(world.channels, cut);
    lemma_kept_members(world.channels, cut);
    lemma_kept_in_order(world.channels, cut, |channel: Channel<D>| channel.serial as int);
    assert forall|i: int| 0 <= i < channels.len() implies world.channels.contains(
        #[trigger] channels[i],
    ) by {
        assert(channels.contains(channels[i]));
    }
    assert forall|i: int| 0 <= i < world.records.len() implies world.records.contains(
        #[trigger] world.records[i],
    ) by {}
    crate::registry::lemma_shrunk_wf(world, world.records, channels);
}

/// Closing a channel keeps the scope well formed and leaves the channel
/// closed.
pub proof fn lemma_closed_wf<D>(world: World<D>, serial: u64)
    requires
        world.wf(),
    ensures
        world.closed(serial).wf(),
        !world.closed(serial).is_open(serial),
{
    lemma_cut_wf(world, Cut::Serial(serial));
    lemma_kept_members(world.channels, Cut::Serial(serial));
    let after = world.closed(serial);
    if after.is_open(serial) {
        let at = after.slot(serial);
        assert(after.channels.contains(after.channels[at]));
    }
}

} // verus!
