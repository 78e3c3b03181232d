use ccs::{
    Object, ObjectKillErr, ObjectRef, OpenNetwork, OwnedObject, OwnedService, RegistrationForm,
    Scope, Service, ServiceRef, Socket, SocketErr, Step, Time,
};

#[test]
fn an_object_is_let_in_once() {
    let mut net: Scope<u64> = Scope::new();
    let a = net.enter(1).unwrap();
    assert_eq!(a.number(), 1);
    assert_eq!(Object::<Scope<u64>>::id(&a), 1);
    assert!(a.is_alive(&net));
    assert!(net.enter(1).is_none());
    assert!(net.enter(2).is_some());
}

#[test]
fn an_object_lives_while_it_runs_or_provides() {
    let mut net: Scope<u64> = Scope::new();
    let a = net.enter(1).unwrap();
    let grant = net.register(RegistrationForm::new(1, 42), 1).unwrap();
    assert!(a.is_alive(&net));
    net.retire(&a);
    // its own execution is over, its service keeps it alive
    assert!(a.is_alive(&net));
    assert!(net.enter(1).is_none());
    grant.discontinue(&mut net);
    assert!(!a.is_alive(&net));
    assert_eq!(a.kill(&mut net), Err(ObjectKillErr::NotAlive));
    // the identifier is free again
    assert!(net.enter(1).is_some());
}

#[test]
fn killing_twice_fails_the_second_time() {
    let mut net: Scope<u64> = Scope::new();
    let a = net.enter(1).unwrap();
    assert_eq!(a.kill(&mut net), Ok(()));
    let again = net.enter(1).unwrap();
    net.retire(&again);
    assert_eq!(again.kill(&mut net), Err(ObjectKillErr::NotAlive));
}

#[test]
fn killing_removes_registrations_and_closes_channels() {
    let mut net: Scope<u64> = Scope::new();
    let a = net.enter(1).unwrap();
    let _b = net.enter(2).unwrap();
    let c = net.enter(3).unwrap();
    net.register_unique(RegistrationForm::new(1, 10), 1).unwrap();
    net.register(RegistrationForm::new(2, 20), 1).unwrap();
    net.register(RegistrationForm::new(3, 20), 2).unwrap();
    net.register(RegistrationForm::new(4, 30), 2).unwrap();
    // a channel that the object provides for
    let provided = net.connect(3, ServiceRef::by_id(10)).unwrap();
    // a channel that the object asked for
    let asked = net.connect(1, ServiceRef::by_id(30)).unwrap();
    // a channel between others
    let foreign = net.connect(3, ServiceRef::by_id(30)).unwrap();
    assert_eq!(provided.requester_end.receive(&mut net), Step::Pending(()));
    assert_eq!(a.kill(&mut net), Ok(()));
    assert!(net.lookup(10).is_none());
    let left = net.lookup(20).unwrap();
    assert_eq!(left.len(), 1);
    assert_eq!(left[0].owner, 2);
    assert!(net.connect(3, ServiceRef::by_id(10)).is_err());
    assert_eq!(
        provided.requester_end.receive(&mut net),
        Step::Done(Err(SocketErr::ChannelClosed))
    );
    assert_eq!(
        asked.provider_end.send(&mut net, 5),
        Step::Done(Err(SocketErr::ChannelClosed))
    );
    assert!(foreign.requester_end.is_opened(&net));
    assert!(c.is_alive(&net));
    // the service that the dead object held alone can be taken by another
    assert!(net.register_unique(RegistrationForm::new(9, 10), 2).is_ok());
}

#[test]
fn an_object_knows_what_it_provides() {
    let mut net: Scope<u64> = Scope::new();
    let a = net.enter(1).unwrap();
    net.register(RegistrationForm::new(1, 10), 1).unwrap();
    net.register(RegistrationForm::new(1, 11), 2).unwrap();
    assert_eq!(a.service_by_id(&net, 10).unwrap().id(), 10);
    assert!(a.service_by_id(&net, 11).is_none());
    let other = ObjectRef::of(2);
    assert_eq!(Object::<Scope<u64>>::id(&other), 2);
    assert_eq!(other.service_by_id(&net, 11), Some(ServiceRef::by_id(11)));
    assert!(other.service_by_id(&net, 10).is_none());
}

#[test]
fn the_requester_of_a_channel_is_who_asked() {
    let mut net: Scope<u64> = Scope::new();
    net.register(RegistrationForm::new(1, 10), 1).unwrap();
    let connection = net.connect(77, ServiceRef::by_id(10)).unwrap();
    let who: ObjectRef = Socket::<Scope<u64>>::requester(&connection.provider_end);
    assert_eq!(who, ObjectRef::of(77));
    assert!(who.service_by_id(&net, 10).is_none());
}

#[test]
fn ticks_are_their_own_measure() {
    assert_eq!(Time::ticks(&15u64), 15);
    assert_eq!(Time::ticks(&0u64), 0);
}
