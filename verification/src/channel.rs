//! The transfer protocol of one channel: what a send or a receive at one end
//! answers, and what it leaves behind.
//!
//! A send goes through only while the other end waits in a receive; the data
//! is then laid into that end's inbox, where its next receive finds it. An
//! end that cannot be served yet is noted as waiting, and the data of a send
//! that has to wait goes back to the caller. Whoever asks for an operation
//! in which the other end already waits is refused with a lockup.
use vstd::prelude::*;
use crate::model::{Channel, Intent, Terminal, Side};
use crate::outcome::{SocketErr, Step};

verus! {

/// The deadline of a bounded wait of `span` ticks: the one it already had if
/// it was begun before, else `span` ticks from `now`. A deadline beyond the
/// range of the clock is none.
pub open spec fn deadline(begun: Option<u64>, now: u64, span: u64) -> Option<u64> {
    match begun {
        Some(due) => Some(due),
        None => if now + span <= u64::MAX {
            Some((now + span) as u64)
        } else {
            None
        },
    }
}

/// The deadline has been reached.
pub open spec fn lapsed(deadline: Option<u64>, now: u64) -> bool {
    deadline matches Some(due) && due <= now
}

/// The deadline of a bounded wait of `span` ticks that may have been begun
/// before.
pub fn due_at(begun: Option<u64>, now: u64, span: u64) -> (due: Option<u64>)
    ensures
        due == deadline(begun, now, span),
{
    match begun {
        Some(due) => Some(due),
        None => now.checked_add(span),
    }
}

/// Whether the deadline has been reached.
pub fn is_lapsed(deadline: Option<u64>, now: u64) -> (over: bool)
    ensures
        over == lapsed(deadline, now),
{
    match deadline {
        Some(due) => due <= now,
        None => false,
    }
}

impl<D> Terminal<D> {
    /// An end that waits for nothing and holds nothing.
    pub open spec fn idle() -> Self {
        Terminal { intent: Intent::Idle, inbox: None }
    }

    /// The deadline of the receive that this end waits in, if it waits in
    /// one that has a deadline.
    pub open spec fn receive_due(self) -> Option<u64> {
        match self.intent {
            Intent::Receiving(due) => due,
            _ => None,
        }
    }

    /// The deadline of the send that this end waits in, if it waits in one
    /// that has a deadline.
    pub open spec fn send_due(self) -> Option<u64> {
        match self.intent {
            Intent::Sending(due) => due,
            _ => None,
        }
    }

    /// A fresh end.
    pub fn new() -> (terminal: Self)
        ensures
            terminal == Self::idle(),
    {
        Terminal { intent: Intent::Idle, inbox: None }
    }
}

impl<D> Channel<D> {
    /// What a receive at `side` answers: the data in its inbox if there is
    /// any; else a lockup if the other end waits in a receive too; else it
    /// has to wait.
    pub open spec fn receive_outcome(self, side: Side) -> Step<Result<D, SocketErr>, ()> {
        if self.terminal(side).inbox is Some {
            Step::Done(Ok(self.terminal(side).inbox->0))
        } else if self.terminal(side.other()).intent is Receiving {
            Step::Done(Err(SocketErr::Lockup))
        } else {
            Step::Pending(())
        }
    }

    /// What a receive at `side` bounded by `span` ticks answers: what an
    /// unbounded one would, but nothing at all once it would have to wait
    /// beyond its deadline.
    pub open spec fn wait_to_receive_outcome(self, side: Side, now: u64, span: u64) -> Step<
        Option<Result<D, SocketErr>>,
        (),
    > {
        match self.receive_outcome(side) {
            Step::Done(result) => Step::Done(Some(result)),
            Step::Pending(_) => if lapsed(deadline(self.terminal(side).receive_due(), now, span), now) {
                Step::Done(None)
            } else {
                Step::Pending(())
            },
        }
    }

    /// What a send of `data` at `side` answers: success if the other end
    /// waits in a receive; else a lockup if the other end waits in a send
    /// too; else it has to wait, and `data` goes back to the caller.
    pub open spec fn send_outcome(self, side: Side, data: D) -> Step<Result<(), SocketErr>, D> {
        let peer = self.terminal(side.other());
        if peer.intent is Receiving && peer.inbox is None {
            Step::Done(Ok(()))
        } else if peer.intent is Sending {
            Step::Done(Err(SocketErr::Lockup))
        } else {
            Step::Pending(data)
        }
    }

    /// What a send of `data` at `side` bounded by `span` ticks answers: what
    /// an unbounded one would, but nothing at all once it would have to wait
    /// beyond its deadline.
    pub open spec fn wait_to_send_outcome(self, side: Side, data: D, now: u64, span: u64) -> Step<
        Option<Result<(), SocketErr>>,
        D,
    > {
        match self.send_outcome(side, data) {
            Step::Done(result) => Step::Done(Some(result)),
            Step::Pending(back) => if lapsed(deadline(self.terminal(side).send_due(), now, span), now) {
                Step::Done(None)
            } else {
                Step::Pending(back)
            },
        }
    }

    /// The channel with `side` waiting for `intent`, its inbox empty.
    pub open spec fn drained(self, side: Side, intent: Intent) -> Self {
        self.with_terminal(side, Terminal { intent, inbox: None })
    }

    /// The channel with `side` waiting for `intent`, its inbox untouched.
    pub open spec fn resting(self, side: Side, intent: Intent) -> Self {
        self.with_terminal(side, Terminal { intent, inbox: self.terminal(side).inbox })
    }

    /// The channel after `side` has handed `data` over: it lies in the other
    /// end's inbox, and neither end waits any more.
    pub open spec fn handed_over(self, side: Side, data: D) -> Self {
        self.resting(side, Intent::Idle).with_terminal(
            side.other(),
            Terminal { intent: Intent::Idle, inbox: Some(data) },
        )
    }

    /// The channel after a receive at `side`: the inbox of `side` is empty,
    /// and `side` waits for data exactly if the receive has to wait.
    pub open spec fn after_receive(self, side: Side) -> Self {
        match self.receive_outcome(side) {
            Step::Done(_) => self.drained(side, Intent::Idle),
            Step::Pending(_) => self.drained(side, Intent::Receiving(None)),
        }
    }

    /// The channel after a receive at `side` bounded by `span` ticks: as
    /// after an unbounded one, with the deadline noted while it waits.
    pub open spec fn after_wait_to_receive(self, side: Side, now: u64, span: u64) -> Self {
        match self.wait_to_receive_outcome(side, now, span) {
            Step::Done(_) => self.drained(side, Intent::Idle),
            Step::Pending(_) => self.drained(
                side,
                Intent::Receiving(deadline(self.terminal(side).receive_due(), now, span)),
            ),
        }
    }

    /// The channel after a send of `data` at `side`: handed over if the send
    /// succeeds; else unchanged but for `side`, which waits to send exactly
    /// if the send has to wait.
    pub open spec fn after_send(self, side: Side, data: D) -> Self {
        match self.send_outcome(side, data) {
            Step::Done(Ok(_)) => self.handed_over(side, data),
            Step::Done(Err(_)) => self.resting(side, Intent::Idle),
            Step::Pending(_) => self.resting(side, Intent::Sending(None)),
        }
    }

    /// The channel after a send of `data` at `side` bounded by `span` ticks:
    /// as after an unbounded one, with the deadline noted while it waits.
    pub open spec fn after_wait_to_send(self, side: Side, data: D, now: u64, span: u64) -> Self {
        match self.wait_to_send_outcome(side, data, now, span) {
            Step::Done(Some(Ok(_))) => self.handed_over(side, data),
            Step::Done(_) => self.resting(side, Intent::Idle),
            Step::Pending(_) => self.resting(
                side,
                Intent::Sending(deadline(self.terminal(side).send_due(), now, span)),
            ),
        }
    }

    /// Both channels connect the same parties for the same service through
    /// the same registration, under the same serial.
    pub open spec fn same_binding(self, other: Self) -> bool {
        &&& self.serial == other.serial
        &&& self.requester == other.requester
        &&& self.provider == other.provider
        &&& self.service == other.service
        &&& self.ticket == other.ticket
    }
}

/// What a receive at the end `own` answers, whose other end is `peer`;
/// `bound` is the reading of the clock and the span of a bounded receive.
spec fn receive_answer<D>(own: Terminal<D>, peer: Terminal<D>, bound: Option<(u64, u64)>) -> Step<
    Option<Result<D, SocketErr>>,
    (),
> {
    if own.inbox is Some {
        Step::Done(Some(Ok(own.inbox->0)))
    } else if peer.intent is Receiving {
        Step::Done(Some(Err(SocketErr::Lockup)))
    } else {
        match bound {
            Some((now, span)) => if lapsed(deadline(own.receive_due(), now, span), now) {
                Step::Done(None)
            } else {
                Step::Pending(())
            },
            None => Step::Pending(()),
        }
    }
}

/// What the end `own` waits for after a receive.
spec fn receive_intent<D>(own: Terminal<D>, peer: Terminal<D>, bound: Option<(u64, u64)>) -> Intent {
    match receive_answer(own, peer, bound) {
        Step::Done(_) => Intent::Idle,
        Step::Pending(_) => match bound {
            Some((now, span)) => Intent::Receiving(deadline(own.receive_due(), now, span)),
            None => Intent::Receiving(None),
        },
    }
}

/// What a send of `data` at the end `own` answers, whose other end is
/// `peer`; `bound` is the reading of the clock and the span of a bounded
/// send.
spec fn send_answer<D>(own: Terminal<D>, peer: Terminal<D>, data: D, bound: Option<(u64, u64)>) -> Step<
    Option<Result<(), SocketErr>>,
    D,
> {
    if peer.intent is Receiving && peer.inbox is None {
        Step::Done(Some(Ok(())))
    } else if peer.intent is Sending {
        Step::Done(Some(Err(SocketErr::Lockup)))
    } else {
        match bound {
            Some((now, span)) => if lapsed(deadline(own.send_due(), now, span), now) {
                Step::Done(None)
            } else {
                Step::Pending(data)
            },
            None => Step::Pending(data),
        }
    }
}

/// What the end `own` waits for after a send.
spec fn send_intent<D>(own: Terminal<D>, peer: Terminal<D>, data: D, bound: Option<(u64, u64)>) -> Intent {
    match send_answer(own, peer, data, bound) {
        Step::Done(_) => Intent::Idle,
        Step::Pending(_) => match bound {
            Some((now, span)) => Intent::Sending(deadline(own.send_due(), now, span)),
            None => Intent::Sending(None),
        },
    }
}

/// One step of a receive at the end `own`, whose other end is `peer`.
fn receive_at<D>(own: &mut Terminal<D>, peer: &Terminal<D>, bound: Option<(u64, u64)>) -> (step: Step<
    Option<Result<D, SocketErr>>,
    (),
>)
    ensures
        step == receive_answer(*old(own), *peer, bound),
        *final(own) == (Terminal::<D> {
            intent: receive_intent(*old(own), *peer, bound),
            inbox: None,
        }),
{
    let begun = match own.intent {
        Intent::Receiving(due) => due,
        _ => None,
    };
    own.intent = Intent::Idle;
    match own.inbox.take() {
        Some(data) => Step::Done(Some(Ok(data))),
        None => {
            if let Intent::Receiving(_) = peer.intent {
                return Step::Done(Some(Err(SocketErr::Lockup)));
            }
            match bound {
                Some((now, span)) => {
                    let due = due_at(begun, now, span);
                    if is_lapsed(due, now) {
                        Step::Done(None)
                    } else {
                        own.intent = Intent::Receiving(due);
                        Step::Pending(())
                    }
                },
                None => {
                    own.intent = Intent::Receiving(None);
                    Step::Pending(())
                },
            }
        },
    }
}

/// One step of a send of `data` at the end `own`, whose other end is `peer`.
fn send_at<D>(own: &mut Terminal<D>, peer: &mut Terminal<D>, data: D, bound: Option<(u64, u64)>) -> (step:
    Step<Option<Result<(), SocketErr>>, D>)
    ensures
        step == send_answer(*old(own), *old(peer), data, bound),
        *final(own) == (Terminal::<D> {
            intent: send_intent(*old(own), *old(peer), data, bound),
            inbox: old(own).inbox,
        }),
        *final(peer) == if step == Step::<Option<Result<(), SocketErr>>, D>::Done(Some(Ok(()))) {
            Terminal { intent: Intent::Idle, inbox: Some(data) }
        } else {
            *old(peer)
        },
{
    let begun = match own.intent {
        Intent::Sending(due) => due,
        _ => None,
    };
    own.intent = Intent::Idle;
    let waited_for = match peer.intent {
        Intent::Receiving(_) => peer.inbox.is_none(),
        _ => false,
    };
    if waited_for {
        peer.intent = Intent::Idle;
        peer.inbox = Some(data);
        return Step::Done(Some(Ok(())));
    }
    if let Intent::Sending(_) = peer.intent {
        return Step::Done(Some(Err(SocketErr::Lockup)));
    }
    match bound {
        Some((now, span)) => {
            let due = due_at(begun, now, span);
            if is_lapsed(due, now) {
                Step::Done(None)
            } else {
                own.intent = Intent::Sending(due);
                Step::Pending(data)
            }
        },
        None => {
            own.intent = Intent::Sending(None);
            Step::Pending(data)
        },
    }
}

impl<D> Channel<D> {
    /// One step of a receive at `side`.
    pub fn receive(&mut self, side: Side) -> (step: Step<Result<D, SocketErr>, ()>)
        ensures
            step == old(self).receive_outcome(side),
            *final(self) == old(self).after_receive(side),
    {
        let step = match side {
            Side::Requester => receive_at(&mut self.requester_terminal, &self.provider_terminal, None),
            Side::Provider => receive_at(&mut self.provider_terminal, &self.requester_terminal, None),
        };
        match step {
            Step::Done(Some(result)) => Step::Done(result),
            Step::Done(None) => Step::Done(Err(SocketErr::Lockup)),
            Step::Pending(_) => Step::Pending(()),
        }
    }

    /// One step of a receive at `side` that gives up `span` ticks after it
    /// began; `now` is the reading of the clock.
    pub fn wait_to_receive(&mut self, side: Side, now: u64, span: u64) -> (step: Step<
        Option<Result<D, SocketErr>>,
        (),
    >)
        ensures
            step == old(self).wait_to_receive_outcome(side, now, span),
            *final(self) == old(self).after_wait_to_receive(side, now, span),
    {
        match side {
            Side::Requester => receive_at(
                &mut self.requester_terminal,
                &self.provider_terminal,
                Some((now, span)),
            ),
            Side::Provider => receive_at(
                &mut self.provider_terminal,
                &self.requester_terminal,
                Some((now, span)),
            ),
        }
    }

    /// One step of a send of `data` at `side`.
    pub fn send(&mut self, side: Side, data: D) -> (step: Step<Result<(), SocketErr>, D>)
        ensures
            step == old(self).send_outcome(side, data),
            *final(self) == old(self).after_send(side, data),
    {
        let step = match side {
            Side::Requester => send_at(
                &mut self.requester_terminal,
                &mut self.provider_terminal,
                data,
                None,
            ),
            Side::Provider => send_at(&mut self.provider_terminal, &mut self.requester_terminal, data, None),
        };
        match step {
            Step::Done(Some(result)) => Step::Done(result),
            Step::Done(None) => Step::Done(Err(SocketErr::Lockup)),
            Step::Pending(back) => Step::Pending(back),
        }
    }

    /// One step of a send of `data` at `side` that gives up `span` ticks
    /// after it began; `now` is the reading of the clock.
    pub fn wait_to_send(&mut self, side: Side, data: D, now: u64, span: u64) -> (step: Step<
        Option<Result<(), SocketErr>>,
        D,
    >)
        ensures
            step == old(self).wait_to_send_outcome(side, data, now, span),
            *final(self) == old(self).after_wait_to_send(side, data, now, span),
    {
        match side {
            Side::Requester => send_at(
                &mut self.requester_terminal,
                &mut self.provider_terminal,
                data,
                Some((now, span)),
            ),
            Side::Provider => send_at(
                &mut self.provider_terminal,
                &mut self.requester_terminal,
                data,
                Some((now, span)),
            ),
        }
    }
}

/// A receive keeps a channel coherent and leaves its binding alone.
pub proof fn lemma_receive_keeps_channel<D>(channel: Channel<D>, side: Side, now: u64, span: u64)
    requires
        channel.coherent(),
    ensures
        channel.after_receive(side).coherent(),
        channel.after_receive(side).same_binding(channel),
        channel.after_wait_to_receive(side, now, span).coherent(),
        channel.after_wait_to_receive(side, now, span).same_binding(channel),
{
}

/// A send keeps a channel coherent and leaves its binding alone.
pub proof fn lemma_send_keeps_channel<D>(channel: Channel<D>, side: Side, data: D, now: u64, span: u64)
    requires
        channel.coherent(),
    ensures
        channel.after_send(side, data).coherent(),
        channel.after_send(side, data).same_binding(channel),
        channel.after_wait_to_send(side, data, now, span).coherent(),
        channel.after_wait_to_send(side, data, now, span).same_binding(channel),
{
}

} // verus!
