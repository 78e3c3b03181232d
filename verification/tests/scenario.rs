use ccs::{
    OpenNetwork, OwnedObject, OwnedService, RegistrationErr, RegistrationForm, Scope, Service,
    ServiceRef, Socket, SocketErr, Step,
};

#[test]
fn unique_service_from_registration_to_handover() {
    let mut net: Scope<String> = Scope::new();
    let a = net.enter(1).unwrap();
    let _b = net.enter(2).unwrap();
    let _c = net.enter(3).unwrap();

    // A registers service 42 uniquely
    let c1 = net.register_unique(RegistrationForm::new(7, 42), 1).unwrap();
    // B is refused
    assert_eq!(
        net.register_unique(RegistrationForm::new(8, 42), 2).unwrap_err(),
        RegistrationErr::AlreadyRegistered
    );
    // C connects; the handler of A is to be started with the provider's socket
    let connection = net.connect(3, ServiceRef::by_id(42)).unwrap();
    assert_eq!(connection.entry, 7);
    let r = connection.requester_end;
    let p = connection.provider_end;
    // the handler waits for a request, C sends one
    assert_eq!(p.receive(&mut net), Step::Pending(()));
    assert_eq!(r.send(&mut net, String::from("ping")), Step::Done(Ok(())));
    assert_eq!(p.receive(&mut net), Step::Done(Ok(String::from("ping"))));
    // A discontinues: the channel is closed for C
    let form = c1.discontinue(&mut net);
    assert_eq!(form, RegistrationForm::new(7, 42));
    assert_eq!(r.receive(&mut net), Step::Done(Err(SocketErr::ChannelClosed)));
    assert_eq!(p.receive(&mut net), Step::Done(Err(SocketErr::ChannelClosed)));
    // B tries again and gets the service
    let c2 = net.register_unique(RegistrationForm::new(8, 42), 2).unwrap();
    assert_eq!(c2.registration().owner, 2);
    assert_eq!(net.connect(3, ServiceRef::by_id(42)).unwrap().entry, 8);
    assert!(a.is_alive(&net));
}
