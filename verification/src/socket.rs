//! Sockets: the two handles on a channel, one for each end.
use vstd::prelude::*;
use crate::data::Time;
use crate::model::{Channel, ObjectId, ServiceId, Side};
use crate::network::Network;
use crate::object::ObjectRef;
use crate::outcome::{AbortResult, SocketErr, Step};
use crate::service::{Service, ServiceRef};

verus! {

/// One end of a channel in a network of type `N`.
///
/// An operation that may have to wait is made in steps. A step that answers
/// `Pending` has noted in the network what this end waits for; the caller
/// repeats the call once the network has changed. While one end waits in
/// an operation, the other end is refused the same operation with a lockup,
/// and the one that waits goes on undisturbed.
pub trait Socket<N: Network>: Sized {
    /// The serial of the channel.
    spec fn serial(&self) -> u64;

    /// The end of the channel that this socket is.
    spec fn side(&self) -> Side;

    /// The object that asked for the channel.
    spec fn requester_id(&self) -> ObjectId;

    /// The service that the channel was asked for.
    spec fn service_id(&self) -> ServiceId;

    /// The object that asked for the service.
    fn requester(&self) -> (object: ObjectRef)
        ensures
            object.named() == self.requester_id(),
    ;

    /// The service that was asked for.
    fn service(&self) -> (service: ServiceRef)
        ensures
            service.ident() == self.service_id(),
    ;

    /// Receives data from the other end, however long it takes. Answers
    /// with the data once the other end has sent some, with `ChannelClosed`
    /// once the channel is closed, and with `Lockup` where the other end
    /// waits in a receive too.
    fn receive(&self, net: &mut N) -> (step: Step<Result<N::Payload, SocketErr>, ()>)
        requires
            old(net).world().wf(),
        ensures
            step == old(net).world().receive_outcome(self.serial(), self.side()),
            final(net).world() == old(net).world().after_receive(self.serial(), self.side()),
            final(net).world().wf(),
    ;

    /// Receives as `receive` does, but gives up and answers nothing once
    /// `time` has passed since the first step without data, closure or
    /// lockup. Giving up changes nothing but that this end waits no more.
    fn wait_to_receive<T: Time>(&self, net: &mut N, time: T) -> (step: Step<
        Option<Result<N::Payload, SocketErr>>,
        (),
    >)
        requires
            old(net).world().wf(),
        ensures
            step == old(net).world().wait_to_receive_outcome(
                self.serial(),
                self.side(),
                time.span(),
            ),
            final(net).world() == old(net).world().after_wait_to_receive(
                self.serial(),
                self.side(),
                time.span(),
            ),
            final(net).world().wf(),
    ;

    /// Sends `data` to the other end, however long it takes. Answers with
    /// success once the other end, waiting in a receive, has got the data,
    /// with `ChannelClosed` once the channel is closed, and with `Lockup`
    /// where the other end waits in a send too. While it has to wait, `data`
    /// comes back with `Pending`, to be offered again in the next step.
    fn send(&self, net: &mut N, data: N::Payload) -> (step: Step<
        Result<(), SocketErr>,
        N::Payload,
    >)
        requires
            old(net).world().wf(),
        ensures
            step == old(net).world().send_outcome(self.serial(), self.side(), data),
            final(net).world() == old(net).world().after_send(self.serial(), self.side(), data),
            final(net).world().wf(),
    ;

    /// Sends as `send` does, but gives up and answers nothing once `time`
    /// has passed since the first step without the data being taken. A send
    /// that gave up has handed nothing over.
    fn wait_to_send<T: Time>(&self, net: &mut N, data: N::Payload, time: T) -> (step: Step<
        Option<Result<(), SocketErr>>,
        N::Payload,
    >)
        requires
            old(net).world().wf(),
        ensures
            step == old(net).world().wait_to_send_outcome(
                self.serial(),
                self.side(),
                data,
                time.span(),
            ),
            final(net).world() == old(net).world().after_wait_to_send(
                self.serial(),
                self.side(),
                data,
                time.span(),
            ),
            final(net).world().wf(),
    ;

    /// Closes the channel for both ends and uses the socket up. Closing a
    /// channel that is closed already changes nothing.
    fn close(self, net: &mut N)
        requires
            old(net).world().wf(),
        ensures
            final(net).world() == old(net).world().closed(self.serial()),
            final(net).world().wf(),
            !final(net).world().is_open(self.serial()),
    ;

    /// Says how work stands that must not outlive the channel. `finished`
    /// tells whether the work has come to its end. Work that has is
    /// `Finished`; work that has not is `Aborted` once the channel is
    /// closed, and is to be waited for while the channel is open.
    fn run_abortable(&self, net: &N, finished: bool) -> (step: Step<AbortResult, ()>)
        requires
            net.world().wf(),
        ensures
            step == net.world().abort_outcome(self.serial(), finished),
    ;

    /// Hands the socket back if its channel is open, and uses it up if not.
    fn check(self, net: &N) -> (still: Option<Self>)
        requires
            net.world().wf(),
        ensures
            still == if net.world().is_open(self.serial()) {
                Some(self)
            } else {
                None
            },
    ;

    /// Whether the channel is open.
    fn is_opened(&self, net: &N) -> (open: bool)
        requires
            net.world().wf(),
        ensures
            open == net.world().is_open(self.serial()),
    ;
}

/// The handle on one end of one channel.
#[derive(Debug)]
pub struct Endpoint {
    serial: u64,
    side: Side,
    requester: ObjectId,
    service: ServiceId,
}

impl Endpoint {
    /// The serial of the channel.
    pub closed spec fn channel_serial(&self) -> u64 {
        self.serial
    }

    /// The end of the channel that the handle is for.
    pub closed spec fn channel_side(&self) -> Side {
        self.side
    }

    /// The object that asked for the channel.
    pub closed spec fn channel_requester(&self) -> ObjectId {
        self.requester
    }

    /// The service that the channel was asked for.
    pub closed spec fn channel_service(&self) -> ServiceId {
        self.service
    }

    /// The handle is for the end `side` of `channel`.
    pub open spec fn joins<D>(&self, channel: Channel<D>, side: Side) -> bool {
        &&& self.channel_serial() == channel.serial
        &&& self.channel_side() == side
        &&& self.channel_requester() == channel.requester
        &&& self.channel_service() == channel.service
    }

    /// The handle for the end `side` of the channel `serial`, which
    /// `requester` asked for to get `service`.
    pub(crate) fn bind(serial: u64, side: Side, requester: ObjectId, service: ServiceId) -> (end:
        Self)
        ensures
            end.channel_serial() == serial,
            end.channel_side() == side,
            end.channel_requester() == requester,
            end.channel_service() == service,
    {
        Endpoint { serial, side, requester, service }
    }

    /// The serial of the channel.
    pub fn number(&self) -> (serial: u64)
        ensures
            serial == self.channel_serial(),
    {
        self.serial
    }

    /// The end of the channel that the handle is for.
    pub fn end(&self) -> (side: Side)
        ensures
            side == self.channel_side(),
    {
        self.side
    }

    /// The object that asked for the channel.
    pub(crate) fn asked_by(&self) -> (object: ObjectId)
        ensures
            object == self.channel_requester(),
    {
        self.requester
    }

    /// The service that the channel was asked for.
    pub(crate) fn asked_for(&self) -> (service: ServiceId)
        ensures
            service == self.channel_service(),
    {
        self.service
    }
}

} // verus!
