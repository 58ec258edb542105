use clup::shop::Department;
use clup::store::Store;
use clup::ticket::{Caller, CancelError, EnterResult, EstimateError, NewTicketResult};

fn dept(uid: i32, shop_id: i32, capacity: i32) -> Department {
    Department {
        uid,
        shop_id,
        description: String::new(),
        capacity,
    }
}

#[test]
fn new_ticket_test() {
    let shopid = 1;
    let (d1, d2) = (10, 11);
    let mut store = Store::new(vec![dept(d1, shopid, 20), dept(d2, shopid, 20)]);
    let customer_id = 7;
    let now = 100;

    let inserted = store
        .try_new(customer_id, shopid, vec![d1, d2], 25, true, now)
        .unwrap();

    let loaded = store.get(inserted.id, now);
    let loaded = loaded.unwrap();
    assert_eq!(&inserted, &loaded);
}

#[test]
fn duplicate_ticket_test() {
    let (s0, s1) = (1, 2);
    let (d0, d1, d2) = (10, 11, 20);
    let mut store = Store::new(vec![
        dept(d0, s0, 20),
        dept(d1, s0, 20),
        dept(d2, s1, 20),
    ]);
    let customer_id = 7;
    let now = 100;

    let _ = store
        .try_new(customer_id, s0, vec![d0], 25, true, now)
        .unwrap();

    match store.try_new(customer_id, s0, vec![d1], 25, true, now) {
        NewTicketResult::AlreadyExists => {}
        _ => panic!("Expected AlreadyExists"),
    }
    let _ = store
        .try_new(customer_id, s1, vec![d2], 25, true, now)
        .unwrap();
}

#[test]
fn queue_test() {
    let shopid = 1;
    let (d0, d1, d2, d3) = (10, 11, 12, 13);
    let mut store = Store::new(vec![
        dept(d0, shopid, 20),
        dept(d1, shopid, 20),
        dept(d2, shopid, 20),
        dept(d3, shopid, 20),
    ]);
    let (id_c1, id_c2) = (1, 2);

    let t1 = store
        .try_new(id_c1, shopid, vec![d0, d3], 25, true, 100)
        .unwrap();
    let t2 = store
        .try_new(id_c2, shopid, vec![d1, d2, d3], 25, true, 101)
        .unwrap();

    let queue = store.queue(shopid, 102);

    for t in queue.iter() {
        println!("{:?}", t);
    }
    assert_eq!(2, queue.len());
    assert!(queue.contains(&t1));
    assert!(queue.contains(&t2));

    assert_eq!(Some(&t1), queue.first());
}

#[test]
fn entry_exit_test() {
    let shopid = 1;
    let (d0, d1, d_small) = (10, 11, 12);
    let mut store = Store::new(vec![
        dept(d0, shopid, 20),
        dept(d1, shopid, 20),
        dept(d_small, shopid, 2),
    ]);
    let (id_c1, id_c2, id_c3) = (1, 2, 3);

    let t1 = store
        .try_new(id_c1, shopid, vec![d_small], 25, true, 100)
        .unwrap();
    let t2 = store
        .try_new(id_c2, shopid, vec![d_small, d0], 25, true, 101)
        .unwrap();
    let t3 = store
        .try_new(id_c3, shopid, vec![d_small, d1], 25, true, 102)
        .unwrap();
    let now = 200;

    assert_eq!(store.exit(t1.id, now), false);

    assert_eq!(store.try_enter(t2.id, now), EnterResult::NotFirst(1));
    assert_eq!(store.try_enter(t3.id, now), EnterResult::NotFirst(2));

    assert_eq!(store.try_enter(t1.id, now), EnterResult::Entered);
    assert_eq!(store.try_enter(t3.id, now), EnterResult::NotFirst(1));

    assert_eq!(store.try_enter(t2.id, now), EnterResult::Entered);
    assert_eq!(store.try_enter(t3.id, now), EnterResult::Full(d_small));

    assert_eq!(store.exit(t2.id, now), true);
    assert_eq!(store.try_enter(t3.id, now), EnterResult::Entered);

    assert_eq!(store.try_enter(t1.id, now), EnterResult::Invalid);

    assert_eq!(store.exit(t1.id, now), true);
    assert_eq!(store.exit(t3.id, now), true);
    assert_eq!(store.exit(t3.id, now), false);

    assert_eq!(store.try_enter(t1.id, now), EnterResult::Expired);
    assert_eq!(store.try_enter(t2.id, now), EnterResult::Expired);
    assert_eq!(store.try_enter(t3.id, now), EnterResult::Expired);
}

#[test]
fn empty_deps_occupancy_test() {
    let s1 = 1;
    let (d0, d1, d2) = (10, 11, 12);
    let store = Store::new(vec![
        dept(d0, s1, 20),
        dept(d1, s1, 20),
        dept(d2, s1, 20),
    ]);
    let res = store.get_occupancy(s1);
    assert_eq!(res.len(), 3);

    let ids = vec![d0, d1, d2];
    println!("res: {:?}\nids: {:?}", &res, &ids);

    for r in res.iter() {
        assert_eq!(r.occupancy, 0);
        assert!(ids.contains(&r.department_id));
    }
}

#[test]
fn deps_occupancy_test() {
    let s1 = 1;
    let (d0, d1) = (10, 11);
    let mut store = Store::new(vec![dept(d0, s1, 20), dept(d1, s1, 20)]);
    let (id_c1, id_c2) = (1, 2);
    let now = 100;

    let t1 = store.try_new(id_c1, s1, vec![d0], 25, true, now).unwrap();
    let t2 = store
        .try_new(id_c2, s1, vec![d0, d1], 25, true, now + 1)
        .unwrap();

    assert_eq!(store.try_enter(t1.id, now + 2), EnterResult::Entered);

    let res = store.get_occupancy(s1);
    assert_eq!(res.len(), 2);
    for r in res {
        match r.department_id {
            id if id == d0 => assert_eq!(r.occupancy, 1),
            id if id == d1 => assert_eq!(r.occupancy, 0),
            _ => panic!(),
        }
    }

    assert_eq!(store.try_enter(t2.id, now + 3), EnterResult::Entered);

    let res = store.get_occupancy(s1);
    assert_eq!(res.len(), 2);
    for r in res {
        match r.department_id {
            id if id == d0 => assert_eq!(r.occupancy, 2),
            id if id == d1 => assert_eq!(r.occupancy, 1),
            _ => panic!(),
        }
    }

    assert_eq!(store.exit(t1.id, now + 4), true);

    let res = store.get_occupancy(s1);
    assert_eq!(res.len(), 2);
    for r in res {
        match r.department_id {
            id if id == d0 => assert_eq!(r.occupancy, 1),
            id if id == d1 => assert_eq!(r.occupancy, 1),
            _ => panic!(),
        }
    }
}

#[test]
fn capacity_two_admission_scenario() {
    // department of capacity 2; three tickets in creation order
    let shopid = 1;
    let d = 10;
    let mut store = Store::new(vec![dept(d, shopid, 2)]);
    let t1 = store.try_new(1, shopid, vec![d], 25, true, 100).unwrap();
    let t2 = store.try_new(2, shopid, vec![d], 25, true, 101).unwrap();
    let t3 = store.try_new(3, shopid, vec![d], 25, true, 102).unwrap();
    let now = 150;

    assert_eq!(store.try_enter(t2.id, now), EnterResult::NotFirst(1));
    assert_eq!(store.try_enter(t1.id, now), EnterResult::Entered);
    assert_eq!(store.try_enter(t2.id, now), EnterResult::Entered);
    assert_eq!(store.try_enter(t3.id, now), EnterResult::Full(d));
    assert_eq!(store.exit(t1.id, now), true);
    assert_eq!(store.try_enter(t3.id, now), EnterResult::Entered);
}

#[test]
fn duplicate_after_exit_scenario() {
    // a second ticket for the same shop is possible only once the
    // first one has exited
    let shopid = 1;
    let d = 10;
    let mut store = Store::new(vec![dept(d, shopid, 5)]);
    let customer = 42;

    let t1 = store.try_new(customer, shopid, vec![d], 15, true, 100).unwrap();
    match store.try_new(customer, shopid, vec![d], 15, true, 101) {
        NewTicketResult::AlreadyExists => {}
        _ => panic!("Expected AlreadyExists"),
    }

    assert_eq!(store.try_enter(t1.id, 102), EnterResult::Entered);
    assert_eq!(store.exit(t1.id, 103), true);

    match store.try_new(customer, shopid, vec![d], 15, true, 104) {
        NewTicketResult::Created(_) => {}
        _ => panic!("Expected Created"),
    }
}

#[test]
fn expired_ticket_scenario() {
    // a ticket whose validity window has passed cannot enter and no
    // longer appears in the queue
    let shopid = 1;
    let d = 10;
    let mut store = Store::new(vec![dept(d, shopid, 5)]);
    let t = store.try_new(1, shopid, vec![d], 25, true, 0).unwrap();

    let after_expiry = t.expiration + 1;
    assert_eq!(store.try_enter(t.id, after_expiry), EnterResult::Expired);
    assert!(store.queue(shopid, after_expiry).is_empty());

    // right before the deadline it is still queued
    let before_expiry = t.expiration - 1;
    assert_eq!(store.queue(shopid, before_expiry).len(), 1);
}

#[test]
fn closed_shop_refuses_tickets() {
    let shopid = 1;
    let d = 10;
    let mut store = Store::new(vec![dept(d, shopid, 5)]);
    match store.try_new(1, shopid, vec![d], 25, false, 100) {
        NewTicketResult::Closed => {}
        _ => panic!("Expected Closed"),
    }
}

#[test]
fn cancel_test() {
    let shopid = 1;
    let other_shop = 2;
    let d = 10;
    let od = 20;
    let mut store = Store::new(vec![dept(d, shopid, 5), dept(od, other_shop, 5)]);
    let t1 = store.try_new(1, shopid, vec![d], 25, true, 100).unwrap();
    let t2 = store.try_new(2, shopid, vec![d], 25, true, 101).unwrap();
    let t3 = store.try_new(3, shopid, vec![d], 25, true, 102).unwrap();

    // unknown ticket
    assert_eq!(store.cancel(999, Caller::Customer(1)), Err(CancelError::NotFound));
    // neither the holder nor staff of the right shop
    assert_eq!(store.cancel(t1.id, Caller::Customer(2)), Err(CancelError::NotOwner));
    assert_eq!(
        store.cancel(t1.id, Caller::ShopStaff(other_shop)),
        Err(CancelError::NotOwner)
    );
    // the holder cancels; the queue moves up
    assert_eq!(store.cancel(t1.id, Caller::Customer(1)), Ok(()));
    assert_eq!(store.try_enter(t3.id, 103), EnterResult::NotFirst(1));
    // staff of the shop skip the next customer
    assert_eq!(store.cancel(t2.id, Caller::ShopStaff(shopid)), Ok(()));
    assert_eq!(store.try_enter(t3.id, 104), EnterResult::Entered);
    // an entered ticket cannot be cancelled any more
    assert_eq!(
        store.cancel(t3.id, Caller::Customer(3)),
        Err(CancelError::AlreadyEntered)
    );
}

#[test]
fn estimate_test() {
    let shopid = 1;
    let d = 10;
    let mut store = Store::new(vec![dept(d, shopid, 5)]);
    let t1 = store.try_new(1, shopid, vec![d], 10, true, 100).unwrap();
    let t2 = store.try_new(2, shopid, vec![d], 20, true, 101).unwrap();
    let t3 = store.try_new(3, shopid, vec![d], 30, true, 102).unwrap();
    let now = 150;

    // only the holder may ask
    assert_eq!(store.estimate(t3.id, 1, now), Err(EstimateError::NotOwner));

    let est = store.estimate(t3.id, 3, now).unwrap();
    assert_eq!(est.people, 2);
    assert_eq!(est.wait_minutes, 30); // 10 + 20 minutes ahead of it

    let est = store.estimate(t1.id, 1, now).unwrap();
    assert_eq!(est.people, 0);
    assert_eq!(est.wait_minutes, 0);

    // whole-queue totals, as shown before taking a ticket
    let totals = store.queue_totals(shopid, now);
    assert_eq!(totals.people, 3);
    assert_eq!(totals.wait_minutes, 60);

    // an entered ticket is no longer in the queue
    assert_eq!(store.try_enter(t1.id, now), EnterResult::Entered);
    assert_eq!(store.estimate(t1.id, 1, now), Err(EstimateError::NotInQueue));
    let est = store.estimate(t2.id, 2, now).unwrap();
    assert_eq!(est.people, 0);

    // an expired ticket gets no estimate
    assert_eq!(
        store.estimate(t2.id, 2, t2.expiration + 1),
        Err(EstimateError::InvalidOrExpired)
    );
}

#[test]
fn get_for_customer_test() {
    let (s1, s2) = (1, 2);
    let (d1, d2) = (10, 20);
    let mut store = Store::new(vec![dept(d1, s1, 5), dept(d2, s2, 5)]);
    let customer = 9;
    let ta = store.try_new(customer, s1, vec![d1], 25, true, 200).unwrap();
    let tb = store.try_new(customer, s2, vec![d2], 25, true, 100).unwrap();
    let _ = store.try_new(8, s1, vec![d1], 25, true, 50).unwrap();

    let mine = store.get_for_customer(customer, 300);
    assert_eq!(mine.len(), 2);
    // ordered by creation: the shop-2 ticket came first
    assert_eq!(mine[0], tb);
    assert_eq!(mine[1], ta);

    // after the window passes, nothing is returned
    assert!(store.get_for_customer(customer, ta.expiration + 1).is_empty());
}

#[test]
fn queue_filter_variants() {
    // the two selections behave differently for an entered ticket:
    // it leaves the shop queue but stays on the customer's list
    let shopid = 1;
    let d = 10;
    let mut store = Store::new(vec![dept(d, shopid, 5)]);
    let t = store.try_new(1, shopid, vec![d], 25, true, 100).unwrap();
    assert_eq!(store.try_enter(t.id, 101), EnterResult::Entered);

    assert!(store.queue(shopid, 102).is_empty());
    assert_eq!(store.get_for_customer(1, 102).len(), 1);
}

#[test]
fn find_shop_test() {
    let shops = vec![
        clup::shop::Shop {
            id: 5,
            name: "Shop five".to_owned(),
            description: String::new(),
            image: None,
            location: "somewhere".to_owned(),
        },
    ];
    assert_eq!(clup::shop::find_shop(&shops, 5).map(|s| s.id), Some(5));
    assert!(clup::shop::find_shop(&shops, 6).is_none());
}

#[test]
fn fifo_tie_broken_by_identifier() {
    // two tickets created in the same second: the earlier identifier
    // is first in line
    let shopid = 1;
    let d = 10;
    let mut store = Store::new(vec![dept(d, shopid, 5)]);
    let t1 = store.try_new(1, shopid, vec![d], 25, true, 100).unwrap();
    let t2 = store.try_new(2, shopid, vec![d], 25, true, 100).unwrap();
    assert!(t1.id < t2.id);

    let queue = store.queue(shopid, 101);
    assert_eq!(queue.first(), Some(&t1));
    assert_eq!(store.try_enter(t2.id, 101), EnterResult::NotFirst(1));
    assert_eq!(store.try_enter(t1.id, 101), EnterResult::Entered);
    assert_eq!(store.try_enter(t2.id, 101), EnterResult::Entered);
}
