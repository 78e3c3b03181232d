use ccs::{
    Grant, OpenNetwork, OwnedService, Registration, RegistrationErr, RegistrationForm, Scope,
    Uniqueness,
};

fn form(entry: u64, id: u64) -> RegistrationForm {
    RegistrationForm::new(entry, id)
}

#[test]
fn it_works() {
    let made = RegistrationForm::new(7, 42);
    assert_eq!(made.entry, 7);
    assert_eq!(made.id, 42);
    assert_eq!(made, RegistrationForm { entry: 7, id: 42 });
}

#[test]
fn unique_registration_excludes_every_other() {
    let mut net: Scope<u64> = Scope::new();
    let held: Grant = net.register_unique(form(1, 42), 100).unwrap();
    assert_eq!(
        held.registration(),
        Registration { id: 42, owner: 100, class: Uniqueness::Unique, entry: 1, ticket: 0 }
    );
    assert_eq!(
        net.register_unique(form(2, 42), 200).unwrap_err(),
        RegistrationErr::AlreadyRegistered
    );
    assert_eq!(net.register(form(2, 42), 200).unwrap_err(), RegistrationErr::UniquelyRegistered);
    // the owner itself is refused like anybody else
    assert_eq!(
        net.register_unique(form(1, 42), 100).unwrap_err(),
        RegistrationErr::AlreadyRegistered
    );
    assert_eq!(net.register(form(1, 42), 100).unwrap_err(), RegistrationErr::UniquelyRegistered);
    // another service is not touched by it
    assert!(net.register_unique(form(3, 43), 200).is_ok());
    // the refused attempts have left nothing behind
    assert_eq!(net.lookup(42).unwrap().len(), 1);
    let back = held.discontinue(&mut net);
    assert_eq!(back, form(1, 42));
    assert!(net.lookup(42).is_none());
    assert!(net.register_unique(form(2, 42), 200).is_ok());
}

#[test]
fn shared_registration_blocks_a_unique_one() {
    let mut net: Scope<u64> = Scope::new();
    let shared = net.register(form(1, 5), 10).unwrap();
    assert_eq!(OwnedService::<Scope<u64>>::id(&shared), 5);
    assert_eq!(
        net.register_unique(form(2, 5), 20).unwrap_err(),
        RegistrationErr::AlreadyRegistered
    );
    shared.discontinue(&mut net);
    let unique = net.register_unique(form(2, 5), 20).unwrap();
    assert_eq!(unique.registration().class, Uniqueness::Unique);
    assert_eq!(unique.registration().ticket, 1);
}

#[test]
fn shared_registrations_coexist_and_leave_one_by_one() {
    let mut net: Scope<u64> = Scope::new();
    let mut grants = Vec::new();
    for owner in 0..5u64 {
        grants.push(net.register(form(owner + 10, 9), owner).unwrap());
    }
    let found = net.lookup(9).unwrap();
    assert_eq!(found.len(), 5);
    for (k, record) in found.iter().enumerate() {
        assert_eq!(
            *record,
            Registration {
                id: 9,
                owner: k as u64,
                class: Uniqueness::Shared,
                entry: k as u64 + 10,
                ticket: k as u64,
            }
        );
    }
    // discontinue the third: the others stay, in their order
    let third = grants.remove(2);
    assert_eq!(third.discontinue(&mut net), form(12, 9));
    let owners: Vec<u64> = net.lookup(9).unwrap().iter().map(|record| record.owner).collect();
    assert_eq!(owners, vec![0, 1, 3, 4]);
    // a unique registration stays impossible until all are gone
    assert_eq!(
        net.register_unique(form(1, 9), 77).unwrap_err(),
        RegistrationErr::AlreadyRegistered
    );
    for grant in grants {
        grant.discontinue(&mut net);
    }
    assert!(net.lookup(9).is_none());
    assert!(net.register_unique(form(1, 9), 77).is_ok());
}

#[test]
fn one_object_may_register_a_service_twice() {
    let mut net: Scope<u64> = Scope::new();
    let first = net.register(form(1, 3), 8).unwrap();
    let second = net.register(form(2, 3), 8).unwrap();
    assert_ne!(first.registration().ticket, second.registration().ticket);
    first.discontinue(&mut net);
    let left = net.lookup(3).unwrap();
    assert_eq!(left, vec![second.registration()]);
}

#[test]
fn registration_after_discontinue_is_fresh() {
    let mut net: Scope<u64> = Scope::new();
    let old = net.register_unique(form(1, 42), 100).unwrap();
    let old_record = old.registration();
    let back = old.discontinue(&mut net);
    let new = net.register(back, 100).unwrap();
    assert_eq!(
        new.registration(),
        Registration { id: 42, owner: 100, class: Uniqueness::Shared, entry: 1, ticket: 1 }
    );
    assert_ne!(new.registration().ticket, old_record.ticket);
    // the service is shared now: a second provider is let in
    assert!(net.register(form(5, 42), 200).is_ok());
}

#[test]
fn discontinuing_twice_takes_nothing_more() {
    let mut net: Scope<u64> = Scope::new();
    let first = net.register(form(1, 3), 8).unwrap();
    let copy = first.registration();
    let other = net.register(form(2, 3), 9).unwrap();
    assert_eq!(first.discontinue(&mut net), form(1, 3));
    assert_eq!(net.lookup(3).unwrap(), vec![other.registration()]);
    assert_ne!(copy, other.registration());
}

#[test]
fn lookup_finds_only_the_service_asked_for() {
    let mut net: Scope<u64> = Scope::new();
    assert!(net.lookup(1).is_none());
    net.register(form(1, 1), 10).unwrap();
    net.register(form(2, 2), 10).unwrap();
    net.register(form(3, 1), 11).unwrap();
    let ones = net.lookup(1).unwrap();
    assert_eq!(ones.len(), 2);
    assert_eq!(ones[0].owner, 10);
    assert_eq!(ones[1].owner, 11);
    assert_eq!(net.lookup(2).unwrap().len(), 1);
    assert!(net.lookup(3).is_none());
}

#[test]
fn death_of_a_provider_frees_its_services() {
    let mut net: Scope<u64> = Scope::new();
    net.register_unique(form(1, 1), 10).unwrap();
    net.register(form(2, 2), 10).unwrap();
    net.register(form(3, 2), 11).unwrap();
    net.on_object_death(10);
    assert!(net.lookup(1).is_none());
    let twos = net.lookup(2).unwrap();
    assert_eq!(twos.len(), 1);
    assert_eq!(twos[0].owner, 11);
    assert!(net.register_unique(form(9, 1), 12).is_ok());
    // a death of somebody who provides nothing changes nothing
    net.on_object_death(99);
    assert_eq!(net.lookup(2).unwrap().len(), 1);
}

#[test]
fn a_fresh_scope_has_tickets() {
    let mut net: Scope<u64> = Scope::new();
    assert!(net.has_ticket());
    assert!(net.has_serial());
    net.register(form(1, 1), 1).unwrap();
    assert!(net.has_ticket());
}
