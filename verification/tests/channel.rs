use ccs::{
    AbortResult, Connection, Endpoint, Object, OpenNetwork, OwnedService, RegistrationForm, Scope,
    Service, ServiceRef, Side, Socket, SocketErr, Step,
};

type Received<D> = Step<Result<D, SocketErr>, ()>;

type Sent<D> = Step<Result<(), SocketErr>, D>;

fn pair(net: &mut Scope<String>) -> (Endpoint, Endpoint) {
    net.register(RegistrationForm::new(1, 42), 100).unwrap();
    let Connection { requester_end, provider_end, .. } =
        net.connect(300, ServiceRef::by_id(42)).unwrap();
    (requester_end, provider_end)
}

fn ping() -> String {
    String::from("ping")
}

#[test]
fn both_sockets_see_the_same_channel() {
    let mut net: Scope<String> = Scope::new();
    net.register(RegistrationForm::new(11, 42), 100).unwrap();
    let connection = net.connect(300, ServiceRef::by_id(42)).unwrap();
    assert_eq!(connection.entry, 11);
    let r = connection.requester_end;
    let p = connection.provider_end;
    assert_eq!(r.number(), p.number());
    assert_eq!(r.end(), Side::Requester);
    assert_eq!(p.end(), Side::Provider);
    assert_eq!(Socket::<Scope<String>>::requester(&r).number(), 300);
    assert_eq!(Socket::<Scope<String>>::requester(&p).number(), 300);
    assert_eq!(Socket::<Scope<String>>::service(&r).id(), 42);
    assert_eq!(Socket::<Scope<String>>::service(&p).id(), 42);
    assert_eq!(Object::<Scope<String>>::id(&Socket::<Scope<String>>::requester(&r)), 300);
    // using the channel does not change what it is bound to
    assert_eq!(p.receive(&mut net), Step::Pending(()));
    assert_eq!(r.send(&mut net, ping()), Step::Done(Ok(())));
    assert_eq!(Socket::<Scope<String>>::requester(&p).number(), 300);
    assert_eq!(Socket::<Scope<String>>::service(&p).id(), 42);
    assert!(r.is_opened(&net));
    assert!(p.is_opened(&net));
}

#[test]
fn each_connection_gets_a_channel_of_its_own() {
    let mut net: Scope<String> = Scope::new();
    net.register(RegistrationForm::new(1, 42), 100).unwrap();
    let first = net.connect(300, ServiceRef::by_id(42)).unwrap();
    let second = net.connect(301, ServiceRef::by_id(42)).unwrap();
    assert_eq!(first.requester_end.number(), 0);
    assert_eq!(second.requester_end.number(), 1);
    first.requester_end.close(&mut net);
    assert!(!first.provider_end.is_opened(&net));
    assert!(second.provider_end.is_opened(&net));
}

#[test]
fn send_waits_for_a_receiver() {
    let mut net: Scope<String> = Scope::new();
    let (r, p) = pair(&mut net);
    // nobody receives: the send has to wait and the data comes back
    assert_eq!(r.send(&mut net, ping()), Step::Pending(ping()));
    // the provider begins to receive: nothing is there yet
    assert_eq!(p.receive(&mut net), Step::Pending(()));
    // now the send goes through
    assert_eq!(r.send(&mut net, ping()), Step::Done(Ok(())));
    // and the receiver finds the data
    assert_eq!(p.receive(&mut net), Step::Done(Ok(ping())));
    // once only
    assert_eq!(p.receive(&mut net), Step::Pending(()));
}

#[test]
fn data_flows_in_both_directions_in_order() {
    let mut net: Scope<String> = Scope::new();
    let (r, p) = pair(&mut net);
    for word in ["a", "b", "c"] {
        assert_eq!(p.receive(&mut net), Step::Pending(()));
        assert_eq!(r.send(&mut net, String::from(word)), Step::Done(Ok(())));
        assert_eq!(p.receive(&mut net), Step::Done(Ok(String::from(word))));
        assert_eq!(r.receive(&mut net), Step::Pending(()));
        assert_eq!(p.send(&mut net, String::from(word).repeat(2)), Step::Done(Ok(())));
        assert_eq!(r.receive(&mut net), Step::Done(Ok(String::from(word).repeat(2))));
    }
}

#[test]
fn a_second_send_waits_until_the_first_is_picked_up() {
    let mut net: Scope<String> = Scope::new();
    let (r, p) = pair(&mut net);
    assert_eq!(p.receive(&mut net), Step::Pending(()));
    assert_eq!(r.send(&mut net, String::from("one")), Step::Done(Ok(())));
    // the provider has not picked up yet and waits for nothing
    assert_eq!(r.send(&mut net, String::from("two")), Step::Pending(String::from("two")));
    assert_eq!(p.receive(&mut net), Step::Done(Ok(String::from("one"))));
    assert_eq!(p.receive(&mut net), Step::Pending(()));
    assert_eq!(r.send(&mut net, String::from("two")), Step::Done(Ok(())));
    assert_eq!(p.receive(&mut net), Step::Done(Ok(String::from("two"))));
}

#[test]
fn second_receiver_gets_the_lockup() {
    let mut net: Scope<String> = Scope::new();
    let (r, p) = pair(&mut net);
    assert_eq!(r.receive(&mut net), Step::Pending(()));
    assert_eq!(p.receive(&mut net), Step::Done(Err(SocketErr::Lockup)));
    // the first goes on waiting and is served when the other end sends
    assert_eq!(r.receive(&mut net), Step::Pending(()));
    assert_eq!(p.send(&mut net, ping()), Step::Done(Ok(())));
    assert_eq!(r.receive(&mut net), Step::Done(Ok(ping())));
}

#[test]
fn second_receiver_gets_the_lockup_whichever_end_is_first() {
    let mut net: Scope<String> = Scope::new();
    let (r, p) = pair(&mut net);
    assert_eq!(p.receive(&mut net), Step::Pending(()));
    assert_eq!(r.receive(&mut net), Step::Done(Err(SocketErr::Lockup)));
    assert_eq!(r.wait_to_receive(&mut net, 5u64), Step::Done(Some(Err(SocketErr::Lockup))));
    assert_eq!(p.receive(&mut net), Step::Pending(()));
}

#[test]
fn second_sender_gets_the_lockup() {
    let mut net: Scope<String> = Scope::new();
    let (r, p) = pair(&mut net);
    assert_eq!(r.send(&mut net, String::from("r")), Step::Pending(String::from("r")));
    let refused: Sent<String> = p.send(&mut net, String::from("p"));
    assert_eq!(refused, Step::Done(Err(SocketErr::Lockup)));
    assert_eq!(
        p.wait_to_send(&mut net, String::from("p"), 3u64),
        Step::Done(Some(Err(SocketErr::Lockup)))
    );
    // the first sender goes on waiting and is served when the other end receives
    assert_eq!(r.send(&mut net, String::from("r")), Step::Pending(String::from("r")));
    assert_eq!(p.receive(&mut net), Step::Pending(()));
    assert_eq!(r.send(&mut net, String::from("r")), Step::Done(Ok(())));
    assert_eq!(p.receive(&mut net), Step::Done(Ok(String::from("r"))));
}

#[test]
fn bounded_receive_gives_up_when_its_time_is_over() {
    let mut net: Scope<String> = Scope::new();
    let (r, p) = pair(&mut net);
    net.advance(100);
    assert_eq!(net.now(), 100);
    assert_eq!(r.wait_to_receive(&mut net, 10u64), Step::Pending(()));
    net.advance(9);
    // deadline is 110, the clock reads 109
    assert_eq!(r.wait_to_receive(&mut net, 10u64), Step::Pending(()));
    net.advance(1);
    assert_eq!(r.wait_to_receive(&mut net, 10u64), Step::Done(None));
    // nothing was lost: a later receive is served as ever
    assert_eq!(r.receive(&mut net), Step::Pending(()));
    assert_eq!(p.send(&mut net, ping()), Step::Done(Ok(())));
    let got: Received<String> = r.receive(&mut net);
    assert_eq!(got, Step::Done(Ok(ping())));
}

#[test]
fn bounded_receive_is_served_before_its_time_is_over() {
    let mut net: Scope<String> = Scope::new();
    let (r, p) = pair(&mut net);
    assert_eq!(r.wait_to_receive(&mut net, 10u64), Step::Pending(()));
    net.advance(5);
    assert_eq!(p.send(&mut net, ping()), Step::Done(Ok(())));
    // data that has arrived is handed out even when the time is over by then
    net.advance(50);
    assert_eq!(r.wait_to_receive(&mut net, 10u64), Step::Done(Some(Ok(ping()))));
}

#[test]
fn a_wait_of_no_time_is_a_single_try() {
    let mut net: Scope<String> = Scope::new();
    let (r, p) = pair(&mut net);
    assert_eq!(r.wait_to_receive(&mut net, 0u64), Step::Done(None));
    assert_eq!(r.wait_to_send(&mut net, ping(), 0u64), Step::Done(None));
    // neither try has left the end waiting: the other end is not locked up
    assert_eq!(p.receive(&mut net), Step::Pending(()));
    assert_eq!(r.wait_to_send(&mut net, ping(), 0u64), Step::Done(Some(Ok(()))));
    assert_eq!(p.wait_to_receive(&mut net, 0u64), Step::Done(Some(Ok(ping()))));
}

#[test]
fn bounded_send_gives_up_and_hands_nothing_over() {
    let mut net: Scope<String> = Scope::new();
    let (r, p) = pair(&mut net);
    assert_eq!(r.wait_to_send(&mut net, ping(), 4u64), Step::Pending(ping()));
    net.advance(3);
    assert_eq!(r.wait_to_send(&mut net, ping(), 4u64), Step::Pending(ping()));
    net.advance(1);
    assert_eq!(r.wait_to_send(&mut net, ping(), 4u64), Step::Done(None));
    // the provider finds nothing, and is not locked up either
    assert_eq!(p.wait_to_receive(&mut net, 0u64), Step::Done(None));
    assert_eq!(p.receive(&mut net), Step::Pending(()));
}

#[test]
fn a_deadline_beyond_the_clock_never_comes() {
    let mut net: Scope<String> = Scope::new();
    let (r, _p) = pair(&mut net);
    net.advance(10);
    assert_eq!(r.wait_to_receive(&mut net, u64::MAX), Step::Pending(()));
    net.advance(u64::MAX);
    assert_eq!(net.now(), u64::MAX);
    assert_eq!(r.wait_to_receive(&mut net, u64::MAX), Step::Pending(()));
}

#[test]
fn the_clock_stops_at_the_end_of_its_range() {
    let mut net: Scope<String> = Scope::new();
    net.advance(u64::MAX - 1);
    assert_eq!(net.now(), u64::MAX - 1);
    net.advance(5);
    assert_eq!(net.now(), u64::MAX);
    net.advance(0);
    assert_eq!(net.now(), u64::MAX);
}

#[test]
fn closed_channel_answers_closed() {
    let mut net: Scope<String> = Scope::new();
    let (r, p) = pair(&mut net);
    let again = Connection { requester_end: r, provider_end: p, entry: 0 };
    let serial = again.requester_end.number();
    again.requester_end.close(&mut net);
    let p = again.provider_end;
    assert!(!p.is_opened(&net));
    assert_eq!(p.number(), serial);
    assert_eq!(p.receive(&mut net), Step::Done(Err(SocketErr::ChannelClosed)));
    assert_eq!(p.send(&mut net, ping()), Step::Done(Err(SocketErr::ChannelClosed)));
    assert_eq!(
        p.wait_to_receive(&mut net, 10u64),
        Step::Done(Some(Err(SocketErr::ChannelClosed)))
    );
    assert_eq!(
        p.wait_to_send(&mut net, ping(), 10u64),
        Step::Done(Some(Err(SocketErr::ChannelClosed)))
    );
    // closing the other end too changes nothing
    p.close(&mut net);
    // a channel opened later is another one
    let later = net.connect(300, ServiceRef::by_id(42)).unwrap();
    assert_ne!(later.requester_end.number(), serial);
    assert!(later.requester_end.is_opened(&net));
}

#[test]
fn closing_wakes_the_one_that_waits() {
    let mut net: Scope<String> = Scope::new();
    let (r, p) = pair(&mut net);
    assert_eq!(r.receive(&mut net), Step::Pending(()));
    p.close(&mut net);
    assert_eq!(r.receive(&mut net), Step::Done(Err(SocketErr::ChannelClosed)));
}

#[test]
fn closing_drops_what_was_not_picked_up() {
    let mut net: Scope<String> = Scope::new();
    let (r, p) = pair(&mut net);
    assert_eq!(p.receive(&mut net), Step::Pending(()));
    assert_eq!(r.send(&mut net, ping()), Step::Done(Ok(())));
    r.close(&mut net);
    assert_eq!(p.receive(&mut net), Step::Done(Err(SocketErr::ChannelClosed)));
}

#[test]
fn check_hands_back_an_open_socket_only() {
    let mut net: Scope<String> = Scope::new();
    let (r, p) = pair(&mut net);
    let r = r.check(&net).unwrap();
    assert_eq!(r.end(), Side::Requester);
    p.close(&mut net);
    assert!(r.check(&net).is_none());
}

#[test]
fn abortable_work_follows_the_channel() {
    let mut net: Scope<String> = Scope::new();
    let (r, p) = pair(&mut net);
    assert_eq!(p.run_abortable(&net, false), Step::Pending(()));
    assert_eq!(p.run_abortable(&net, true), Step::Done(AbortResult::Finished));
    r.close(&mut net);
    assert_eq!(p.run_abortable(&net, false), Step::Done(AbortResult::Aborted));
    // work that was done when the channel closed counts as finished
    assert_eq!(p.run_abortable(&net, true), Step::Done(AbortResult::Finished));
}

#[test]
fn discontinuing_closes_the_channels_of_the_service() {
    let mut net: Scope<String> = Scope::new();
    let first = net.register(RegistrationForm::new(1, 42), 100).unwrap();
    let second = net.register(RegistrationForm::new(2, 42), 101).unwrap();
    let served_by_first = net.connect(300, ServiceRef::by_id(42)).unwrap();
    assert_eq!(served_by_first.entry, 1);
    first.discontinue(&mut net);
    assert!(!served_by_first.requester_end.is_opened(&net));
    // the next connection goes to the registration that is left
    let served_by_second = net.connect(300, ServiceRef::by_id(42)).unwrap();
    assert_eq!(served_by_second.entry, 2);
    assert!(served_by_second.provider_end.is_opened(&net));
    second.discontinue(&mut net);
    assert!(!served_by_second.provider_end.is_opened(&net));
}

#[test]
fn connecting_to_nobody_hands_the_service_back() {
    let mut net: Scope<String> = Scope::new();
    let wanted = ServiceRef::by_id(7);
    let back = net.connect(300, wanted).unwrap_err();
    assert_eq!(back, wanted);
    assert_eq!(back.id(), 7);
    net.register(RegistrationForm::new(1, 8), 100).unwrap();
    assert!(net.connect(300, ServiceRef::by_id(7)).is_err());
    assert!(net.connect(300, ServiceRef::by_id(8)).is_ok());
}

#[test]
fn the_oldest_registration_serves() {
    let mut net: Scope<String> = Scope::new();
    net.register(RegistrationForm::new(5, 1), 10).unwrap();
    let old = net.register(RegistrationForm::new(6, 2), 11).unwrap();
    net.register(RegistrationForm::new(7, 2), 12).unwrap();
    for _ in 0..3 {
        assert_eq!(net.connect(300, ServiceRef::by_id(2)).unwrap().entry, 6);
    }
    old.discontinue(&mut net);
    assert_eq!(net.connect(300, ServiceRef::by_id(2)).unwrap().entry, 7);
}
