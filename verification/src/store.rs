//! The admission-control engine: an in-memory snapshot of one ticket
//! table and one department catalog, with the operations that create,
//! admit, exit and cancel tickets and the queries that report the queue.
//!
//! Every mutating operation assumes and re-establishes `wf`, which
//! carries the safety invariants: ticket identifiers are unique, every
//! ticket targets existing departments of its own shop, an exit implies
//! an entry, and no department ever holds more tickets than its
//! capacity.  Callers own atomicity: one `&mut Store` call is one
//! transaction-equivalent critical section.

use vstd::prelude::*;

use crate::counting::{count_seq, lemma_count_bounds, lemma_count_remove, lemma_count_update,
    lemma_count_zero, sum_where};
use crate::shop::{Department, DepartmentOccupancy};
use crate::ticket::{earlier_in_queue, is_active_claim, is_expired, is_inside, is_waiting,
    may_cancel, targets, ticket_eq, Caller, CancelError, EnterResult, EstimateError,
    NewTicketResult, QueueEstimate, Ticket, TICKET_HORIZON_SECS};

verus! {

/// How many tickets are currently inside department `did`.
pub open spec fn occupancy_of(s: Seq<Ticket>, did: i32) -> int {
    count_seq(s, |t: Ticket| is_inside(t) && targets(t, did))
}

/// How many undischarged claims this customer holds at this shop.
pub open spec fn active_claim_count(s: Seq<Ticket>, customer_id: i32, shop_id: i32, now: i64) -> int {
    count_seq(
        s,
        |t: Ticket| t.customer_id == customer_id && t.shop_id == shop_id && is_active_claim(t, now),
    )
}

/// How many other tickets of the same shop wait ahead of `t`.
pub open spec fn earlier_waiting_count(s: Seq<Ticket>, t: Ticket, now: i64) -> int {
    count_seq(
        s,
        |u: Ticket| u.id != t.id && u.shop_id == t.shop_id && is_waiting(u, now)
            && earlier_in_queue(u, t),
    )
}

/// The sum of declared durations of the tickets waiting ahead of `t`.
pub open spec fn earlier_waiting_minutes(s: Seq<Ticket>, t: Ticket, now: i64) -> int {
    sum_where(
        s,
        |u: Ticket| u.id != t.id && u.shop_id == t.shop_id && is_waiting(u, now)
            && earlier_in_queue(u, t),
        |u: Ticket| u.est_minutes as int,
    )
}

/// The engine's state: a consistent snapshot of the department catalog
/// and the ticket table, plus the next free ticket identifier.
pub struct Store {
    pub departments: Vec<Department>,
    pub tickets: Vec<Ticket>,
    pub next_id: i32,
}

impl Store {
    pub open spec fn has_department(self, did: i32) -> bool {
        exists|i: int|
            0 <= i < self.departments@.len() && (#[trigger] self.departments@[i]).uid == did
    }

    pub open spec fn dept_index(self, did: i32) -> int {
        choose|i: int|
            0 <= i < self.departments@.len() && (#[trigger] self.departments@[i]).uid == did
    }

    pub open spec fn dept_capacity(self, did: i32) -> int {
        self.departments@[self.dept_index(did)].capacity as int
    }

    /// Department `did` exists and belongs to `shop`.
    pub open spec fn department_in_shop(self, did: i32, shop: i32) -> bool {
        exists|i: int|
            0 <= i < self.departments@.len() && (#[trigger] self.departments@[i]).uid == did
                && self.departments@[i].shop_id == shop
    }

    pub open spec fn has_ticket(self, tid: i32) -> bool {
        exists|i: int| 0 <= i < self.tickets@.len() && (#[trigger] self.tickets@[i]).id == tid
    }

    pub open spec fn ticket_index(self, tid: i32) -> int {
        choose|i: int| 0 <= i < self.tickets@.len() && (#[trigger] self.tickets@[i]).id == tid
    }

    /// The ticket with identifier `tid`; meaningful under `has_ticket`.
    pub open spec fn spec_ticket(self, tid: i32) -> Ticket {
        self.tickets@[self.ticket_index(tid)]
    }

    /// Structural soundness of one ticket against this store.
    pub open spec fn ticket_ok(self, t: Ticket) -> bool {
        &&& 0 <= t.id < self.next_id
        &&& t.department_ids@.len() > 0
        &&& forall|i: int, j: int|
            0 <= i < j < t.department_ids@.len() ==> t.department_ids@[i]
                != t.department_ids@[j]
        &&& forall|i: int|
            0 <= i < t.department_ids@.len() ==> self.department_in_shop(
                #[trigger] t.department_ids@[i],
                t.shop_id,
            )
        &&& t.exit is Some ==> t.entry is Some
    }

    /// The store's invariant.  In particular the last clause is the
    /// capacity guarantee: no department holds more tickets than its
    /// capacity, at any time.
    pub open spec fn wf(self) -> bool {
        &&& 0 <= self.next_id
        &&& self.tickets@.len() <= self.next_id
        &&& forall|i: int, j: int|
            0 <= i < j < self.departments@.len() ==> (#[trigger] self.departments@[i]).uid != (
            #[trigger] self.departments@[j]).uid
        &&& forall|i: int, j: int|
            0 <= i < j < self.tickets@.len() ==> (#[trigger] self.tickets@[i]).id != (
            #[trigger] self.tickets@[j]).id
        &&& forall|i: int| 0 <= i < self.tickets@.len() ==> self.ticket_ok(#[trigger] self.tickets@[i])
        &&& forall|i: int|
            0 <= i < self.departments@.len() ==> (#[trigger] self.departments@[i]).capacity >= 0
        &&& forall|i: int|
            0 <= i < self.departments@.len() ==> occupancy_of(
                self.tickets@,
                (#[trigger] self.departments@[i]).uid,
            ) <= self.departments@[i].capacity
    }

    /// A fresh store over a department catalog; no tickets yet.
    pub fn new(departments: Vec<Department>) -> (s: Store)
        requires
            forall|i: int, j: int|
                0 <= i < j < departments@.len() ==> (#[trigger] departments@[i]).uid != (
                #[trigger] departments@[j]).uid,
            forall|i: int| 0 <= i < departments@.len() ==> (#[trigger] departments@[i]).capacity >= 0,
        ensures
            s.wf(),
            s.departments@ == departments@,
            s.tickets@ == Seq::<Ticket>::empty(),
            s.next_id == 0,
    {
        let s = Store { departments, tickets: Vec::new(), next_id: 0 };
        proof {
            assert(s.tickets@ =~= Seq::<Ticket>::empty());
            assert forall|i: int| 0 <= i < s.departments@.len() implies occupancy_of(
                s.tickets@,
                (#[trigger] s.departments@[i]).uid,
            ) <= s.departments@[i].capacity by {
                assert(occupancy_of(s.tickets@, s.departments@[i].uid) == 0);
            }
        }
        s
    }

    /// Index of the ticket with identifier `tid`, if any.
    fn find_ticket(&self, tid: i32) -> (r: Option<usize>)
        ensures
            match r {
                Some(i) => i < self.tickets@.len() && self.tickets@[i as int].id == tid,
                None => !self.has_ticket(tid),
            },
    {
        let mut i: usize = 0;
        while i < self.tickets.len()
            invariant
                i <= self.tickets@.len(),
                forall|j: int| 0 <= j < i ==> (#[trigger] self.tickets@[j]).id != tid,
            decreases self.tickets@.len() - i,
        {
            if self.tickets[i].id == tid {
                return Some(i);
            }
            i += 1;
        }
        None
    }

    /// Index of the department with identifier `did`, if any.
    fn find_department(&self, did: i32) -> (r: Option<usize>)
        ensures
            match r {
                Some(i) => i < self.departments@.len() && self.departments@[i as int].uid == did,
                None => !self.has_department(did),
            },
    {
        let mut i: usize = 0;
        while i < self.departments.len()
            invariant
                i <= self.departments@.len(),
                forall|j: int| 0 <= j < i ==> (#[trigger] self.departments@[j]).uid != did,
            decreases self.departments@.len() - i,
        {
            if self.departments[i].uid == did {
                return Some(i);
            }
            i += 1;
        }
        None
    }

    /// How many tickets are currently inside department `did`.
    pub fn occupancy_count(&self, did: i32) -> (c: i32)
        requires
            self.wf(),
        ensures
            c as int == occupancy_of(self.tickets@, did),
    {
        let ghost p = |t: Ticket| is_inside(t) && targets(t, did);
        let mut c: i32 = 0;
        let mut i: usize = 0;
        proof {
            assert(self.tickets@.take(0) =~= Seq::<Ticket>::empty());
        }
        while i < self.tickets.len()
            invariant
                self.wf(),
                i <= self.tickets@.len(),
                p == (|t: Ticket| is_inside(t) && targets(t, did)),
                c as int == count_seq(self.tickets@.take(i as int), p),
                0 <= c as int <= i,
            decreases self.tickets@.len() - i,
        {
            proof {
                assert(self.tickets@.take(i + 1).drop_last() =~= self.tickets@.take(i as int));
                assert(self.tickets@.take(i + 1).last() == self.tickets@[i as int]);
            }
            let t = &self.tickets[i];
            if t.entry.is_some() && t.exit.is_none() && contains_id(&t.department_ids, did) {
                assert(p(self.tickets@[i as int]));
                c += 1;
            } else {
                assert(!p(self.tickets@[i as int]));
            }
            i += 1;
        }
        proof {
            assert(self.tickets@.take(self.tickets@.len() as int) =~= self.tickets@);
        }
        c
    }
}

/// The fields a newly created ticket must carry: fresh identifier, the
/// caller's identities, a validity window of `TICKET_HORIZON_SECS`
/// starting now, no entry or exit yet.
pub open spec fn fresh_ticket_fields(
    t: Ticket,
    id: i32,
    customer_id: i32,
    shop_id: i32,
    dids: Seq<i32>,
    est_minutes: i32,
    now: i64,
) -> bool {
    &&& t.id == id
    &&& t.customer_id == customer_id
    &&& t.shop_id == shop_id
    &&& t.creation == now
    &&& t.expiration == now + TICKET_HORIZON_SECS
    &&& t.entry is None
    &&& t.exit is None
    &&& t.est_minutes == est_minutes
    &&& t.valid
    &&& t.active
    &&& t.department_ids@ == dids
}

impl Store {
    /// Department `did` is a target of `t` and currently has no free
    /// slot.
    pub open spec fn is_full_for(self, t: Ticket, did: i32) -> bool {
        targets(t, did) && occupancy_of(self.tickets@, did) >= self.dept_capacity(did)
    }

    /// In a well-formed store, `ticket_index` of a ticket's id is that
    /// ticket's position.
    pub proof fn lemma_ticket_index_unique(self, i: int)
        requires
            self.wf(),
            0 <= i < self.tickets@.len(),
        ensures
            self.has_ticket(self.tickets@[i].id),
            self.ticket_index(self.tickets@[i].id) == i,
    {
        let tid = self.tickets@[i].id;
        assert(self.has_ticket(tid));
        let k = self.ticket_index(tid);
        if k < i {
            assert(self.tickets@[k].id != self.tickets@[i].id);
        } else if k > i {
            assert(self.tickets@[i].id != self.tickets@[k].id);
        }
    }

    /// In a well-formed store, `dept_index` of a department's uid is
    /// that department's position.
    pub proof fn lemma_dept_index_unique(self, i: int)
        requires
            self.wf(),
            0 <= i < self.departments@.len(),
        ensures
            self.has_department(self.departments@[i].uid),
            self.dept_index(self.departments@[i].uid) == i,
    {
        let did = self.departments@[i].uid;
        assert(self.has_department(did));
        let k = self.dept_index(did);
        if k < i {
            assert(self.departments@[k].uid != self.departments@[i].uid);
        } else if k > i {
            assert(self.departments@[i].uid != self.departments@[k].uid);
        }
    }

    /// Try to admit the ticket now: the staff-triggered transition from
    /// waiting to inside.
    ///
    /// The checks run in a fixed order on the current snapshot: a ticket
    /// that exited or expired is `Expired`; one that already entered is
    /// `Invalid`; one with earlier waiting tickets in its shop is
    /// `NotFirst` with their exact count; if any target department is at
    /// capacity the smallest such department id is reported `Full`;
    /// otherwise the entry is recorded now and the result is `Entered`.
    pub fn try_enter(&mut self, ticket_id: i32, now: i64) -> (r: EnterResult)
        requires
            old(self).wf(),
            old(self).has_ticket(ticket_id),
        ensures
            final(self).wf(),
            final(self).departments@ == old(self).departments@,
            final(self).next_id == old(self).next_id,
            ({
                let t = old(self).spec_ticket(ticket_id);
                let unchanged = final(self).tickets@ == old(self).tickets@;
                if t.exit is Some || is_expired(t, now) {
                    r == EnterResult::Expired && unchanged
                } else if t.entry is Some {
                    r == EnterResult::Invalid && unchanged
                } else if earlier_waiting_count(old(self).tickets@, t, now) > 0 {
                    r == EnterResult::NotFirst(
                        earlier_waiting_count(old(self).tickets@, t, now) as i64,
                    ) && unchanged
                } else if exists|d: i32| old(self).is_full_for(t, d) {
                    unchanged && (r matches EnterResult::Full(d) && old(self).is_full_for(t, d)
                        && (forall|d2: i32| old(self).is_full_for(t, d2) ==> d <= d2))
                } else {
                    r == EnterResult::Entered && final(self).tickets@ == old(self).tickets@.update(
                        old(self).ticket_index(ticket_id),
                        Ticket { entry: Some(now), ..t },
                    )
                }
            }),
    {
        let idx = match self.find_ticket(ticket_id) {
            Some(i) => i,
            None => unreached(),
        };
        proof {
            self.lemma_ticket_index_unique(idx as int);
        }
        let ghost t = old(self).spec_ticket(ticket_id);
        if self.tickets[idx].exit.is_some() || self.tickets[idx].expiration <= now {
            return EnterResult::Expired;
        }
        if self.tickets[idx].entry.is_some() {
            return EnterResult::Invalid;
        }
        let t_shop = self.tickets[idx].shop_id;
        let t_creation = self.tickets[idx].creation;
        let ghost q = |u: Ticket| u.id != t.id && u.shop_id == t.shop_id && is_waiting(u, now)
            && earlier_in_queue(u, t);
        let mut ahead: i64 = 0;
        let mut i: usize = 0;
        proof {
            assert(self.tickets@.take(0) =~= Seq::<Ticket>::empty());
        }
        while i < self.tickets.len()
            invariant
                *self == *old(self),
                self.wf(),
                idx < self.tickets@.len(),
                t == self.tickets@[idx as int],
                t_shop == t.shop_id,
                t_creation == t.creation,
                ticket_id == t.id,
                i <= self.tickets@.len(),
                q == (|u: Ticket| u.id != t.id && u.shop_id == t.shop_id && is_waiting(u, now)
                    && earlier_in_queue(u, t)),
                ahead as int == count_seq(self.tickets@.take(i as int), q),
                0 <= ahead as int <= i,
            decreases self.tickets@.len() - i,
        {
            proof {
                assert(self.tickets@.take(i + 1).drop_last() =~= self.tickets@.take(i as int));
                assert(self.tickets@.take(i + 1).last() == self.tickets@[i as int]);
                lemma_count_bounds(self.tickets@.take(i + 1), q);
            }
            let u = &self.tickets[i];
            if u.id != ticket_id && u.shop_id == t_shop && u.entry.is_none() && u.exit.is_none()
                && u.expiration > now && (u.creation < t_creation || (u.creation == t_creation
                && u.id < ticket_id)) {
                assert(q(self.tickets@[i as int]));
                ahead += 1;
            } else {
                assert(!q(self.tickets@[i as int]));
            }
            i += 1;
        }
        proof {
            assert(self.tickets@.take(self.tickets@.len() as int) =~= self.tickets@);
        }
        if ahead > 0 {
            return EnterResult::NotFirst(ahead);
        }
        let ghost full = |d: i32| old(self).is_full_for(t, d);
        let mut min_full: Option<i32> = None;
        let mut k: usize = 0;
        let n_targets = self.tickets[idx].department_ids.len();
        while k < n_targets
            invariant
                *self == *old(self),
                self.wf(),
                idx < self.tickets@.len(),
                t == self.tickets@[idx as int],
                n_targets == t.department_ids@.len(),
                k <= n_targets,
                full == (|d: i32| old(self).is_full_for(t, d)),
                match min_full {
                    None => forall|b: int| 0 <= b < k ==> !full(#[trigger] t.department_ids@[b]),
                    Some(d) => full(d) && targets(t, d) && (forall|b: int|
                        0 <= b < k && full(#[trigger] t.department_ids@[b])
                            ==> d <= t.department_ids@[b]),
                },
            decreases n_targets - k,
        {
            let did = self.tickets[idx].department_ids[k];
            let di = match self.find_department(did) {
                Some(di) => di,
                None => {
                    proof {
                        assert(self.ticket_ok(t));
                        assert(self.department_in_shop(t.department_ids@[k as int], t.shop_id));
                    }
                    unreached()
                },
            };
            proof {
                self.lemma_dept_index_unique(di as int);
            }
            let cap = self.departments[di].capacity;
            let occ = self.occupancy_count(did);
            proof {
                assert(self.dept_capacity(did) == cap as int);
                assert(targets(t, did)) by {
                    assert(t.department_ids@[k as int] == did);
                }
            }
            if occ >= cap {
                assert(full(did));
                match min_full {
                    None => { min_full = Some(did); },
                    Some(d) => {
                        if did < d {
                            min_full = Some(did);
                        }
                    },
                }
            }
            k += 1;
        }
        match min_full {
            Some(d) => {
                proof {
                    assert forall|d2: i32| #[trigger] old(self).is_full_for(t, d2) implies d
                        <= d2 by {
                        let b = choose|b: int|
                            0 <= b < t.department_ids@.len() && t.department_ids@[b] == d2;
                        assert(full(t.department_ids@[b]));
                    }
                }
                return EnterResult::Full(d);
            },
            None => {},
        }
        proof {
            assert forall|d2: i32| !(#[trigger] old(self).is_full_for(t, d2)) by {
                if targets(t, d2) {
                    let b = choose|b: int|
                        0 <= b < t.department_ids@.len() && t.department_ids@[b] == d2;
                    assert(!full(t.department_ids@[b]));
                }
            }
        }
        self.tickets[idx].entry = Some(now);
        proof {
            let s2 = *self;
            let prev = old(self).tickets@;
            let t2 = Ticket { entry: Some(now), ..t };
            assert(s2.tickets@ =~= prev.update(idx as int, t2));
            assert forall|a: int|
                0 <= a < s2.tickets@.len() implies s2.ticket_ok(#[trigger] s2.tickets@[a]) by {
                assert(old(self).ticket_ok(prev[a]));
                let ta = s2.tickets@[a];
                assert(ta == prev[a] || ta == t2);
                assert forall|b: int|
                    0 <= b < ta.department_ids@.len() implies s2.department_in_shop(
                    #[trigger] ta.department_ids@[b],
                    ta.shop_id,
                ) by {
                    assert(old(self).department_in_shop(
                        (if a == idx as int { t } else { prev[a] }).department_ids@[b],
                        prev[a].shop_id,
                    ));
                }
            }
            assert forall|a: int, b: int|
                0 <= a < b < s2.tickets@.len() implies (#[trigger] s2.tickets@[a]).id != (
            #[trigger] s2.tickets@[b]).id by {
                assert(prev[a].id != prev[b].id);
            }
            assert forall|a: int| 0 <= a < s2.departments@.len() implies occupancy_of(
                s2.tickets@,
                (#[trigger] s2.departments@[a]).uid,
            ) <= s2.departments@[a].capacity by {
                let uid = s2.departments@[a].uid;
                let qa = |u: Ticket| is_inside(u) && targets(u, uid);
                lemma_count_update(prev, qa, idx as int, t2);
                assert(!qa(t));
                assert(occupancy_of(prev, old(self).departments@[a].uid) <= old(
                    self,
                ).departments@[a].capacity);
                if targets(t2, uid) {
                    old(self).lemma_dept_index_unique(a);
                    assert(!full(uid));
                    assert(old(self).dept_capacity(uid) == old(self).departments@[a].capacity);
                }
            }
        }
        EnterResult::Entered
    }

    /// Record that the ticket's holder has left the shop.
    ///
    /// Succeeds exactly when the ticket is currently inside (entry
    /// recorded, exit not yet); then the exit time is set to `now`,
    /// once and forever.  Any other state returns `false` and changes
    /// nothing.
    pub fn exit(&mut self, ticket_id: i32, now: i64) -> (r: bool)
        requires
            old(self).wf(),
            old(self).has_ticket(ticket_id),
        ensures
            final(self).wf(),
            final(self).departments@ == old(self).departments@,
            final(self).next_id == old(self).next_id,
            ({
                let t = old(self).spec_ticket(ticket_id);
                &&& r == (t.entry is Some && t.exit is None)
                &&& if r {
                    final(self).tickets@ == old(self).tickets@.update(
                        old(self).ticket_index(ticket_id),
                        Ticket { exit: Some(now), ..t },
                    )
                } else {
                    final(self).tickets@ == old(self).tickets@
                }
            }),
    {
        let idx = match self.find_ticket(ticket_id) {
            Some(i) => i,
            None => unreached(),
        };
        proof {
            self.lemma_ticket_index_unique(idx as int);
        }
        let ghost t = old(self).spec_ticket(ticket_id);
        if self.tickets[idx].entry.is_none() || self.tickets[idx].exit.is_some() {
            return false;
        }
        self.tickets[idx].exit = Some(now);
        proof {
            let s2 = *self;
            let prev = old(self).tickets@;
            let t2 = Ticket { exit: Some(now), ..t };
            assert(s2.tickets@ =~= prev.update(idx as int, t2));
            assert forall|a: int|
                0 <= a < s2.tickets@.len() implies s2.ticket_ok(#[trigger] s2.tickets@[a]) by {
                assert(old(self).ticket_ok(prev[a]));
                let ta = s2.tickets@[a];
                assert(ta == prev[a] || ta == t2);
                assert forall|b: int|
                    0 <= b < ta.department_ids@.len() implies s2.department_in_shop(
                    #[trigger] ta.department_ids@[b],
                    ta.shop_id,
                ) by {
                    assert(old(self).department_in_shop(
                        (if a == idx as int { t } else { prev[a] }).department_ids@[b],
                        prev[a].shop_id,
                    ));
                }
            }
            assert forall|a: int, b: int|
                0 <= a < b < s2.tickets@.len() implies (#[trigger] s2.tickets@[a]).id != (
            #[trigger] s2.tickets@[b]).id by {
                assert(prev[a].id != prev[b].id);
            }
            assert forall|a: int| 0 <= a < s2.departments@.len() implies occupancy_of(
                s2.tickets@,
                (#[trigger] s2.departments@[a]).uid,
            ) <= s2.departments@[a].capacity by {
                let uid = s2.departments@[a].uid;
                let qa = |u: Ticket| is_inside(u) && targets(u, uid);
                lemma_count_update(prev, qa, idx as int, t2);
                assert(!qa(t2));
                assert(occupancy_of(prev, old(self).departments@[a].uid) <= old(
                    self,
                ).departments@[a].capacity);
            }
        }
        true
    }

    /// Remove a ticket before its holder has entered.
    ///
    /// The customer owning the ticket, or staff of its shop, may cancel
    /// it while it is not yet entered; the record is removed.  A ticket
    /// that does not exist, a caller with no claim to it, or a ticket
    /// already inside are refused, and nothing changes.
    pub fn cancel(&mut self, ticket_id: i32, caller: Caller) -> (r: Result<(), CancelError>)
        requires
            old(self).wf(),
        ensures
            final(self).wf(),
            final(self).departments@ == old(self).departments@,
            final(self).next_id == old(self).next_id,
            !old(self).has_ticket(ticket_id) ==> r == Err::<(), CancelError>(CancelError::NotFound)
                && final(self).tickets@ == old(self).tickets@,
            old(self).has_ticket(ticket_id) ==> ({
                let t = old(self).spec_ticket(ticket_id);
                let kept = final(self).tickets@ == old(self).tickets@;
                if !may_cancel(caller, t) {
                    r == Err::<(), CancelError>(CancelError::NotOwner) && kept
                } else if t.entry is Some {
                    r == Err::<(), CancelError>(CancelError::AlreadyEntered) && kept
                } else {
                    r == Ok::<(), CancelError>(()) && final(self).tickets@ == old(
                        self,
                    ).tickets@.remove(old(self).ticket_index(ticket_id))
                }
            }),
    {
        let idx = match self.find_ticket(ticket_id) {
            Some(i) => i,
            None => {
                return Err(CancelError::NotFound);
            },
        };
        proof {
            self.lemma_ticket_index_unique(idx as int);
        }
        let ghost t = old(self).spec_ticket(ticket_id);
        let allowed = match caller {
            Caller::Customer(c) => self.tickets[idx].customer_id == c,
            Caller::ShopStaff(s) => self.tickets[idx].shop_id == s,
        };
        if !allowed {
            return Err(CancelError::NotOwner);
        }
        if self.tickets[idx].entry.is_some() {
            return Err(CancelError::AlreadyEntered);
        }
        self.tickets.remove(idx);
        proof {
            let s2 = *self;
            let prev = old(self).tickets@;
            assert forall|a: int|
                0 <= a < s2.tickets@.len() implies s2.ticket_ok(#[trigger] s2.tickets@[a]) by {
                let a0 = if a < idx as int {
                    a
                } else {
                    a + 1
                };
                assert(s2.tickets@[a] == prev[a0]);
                assert(old(self).ticket_ok(prev[a0]));
                let ta = s2.tickets@[a];
                assert forall|b: int|
                    0 <= b < ta.department_ids@.len() implies s2.department_in_shop(
                    #[trigger] ta.department_ids@[b],
                    ta.shop_id,
                ) by {
                    assert(old(self).department_in_shop(
                        prev[a0].department_ids@[b],
                        prev[a0].shop_id,
                    ));
                }
            }
            assert forall|a: int, b: int|
                0 <= a < b < s2.tickets@.len() implies (#[trigger] s2.tickets@[a]).id != (
            #[trigger] s2.tickets@[b]).id by {
                let a0 = if a < idx as int {
                    a
                } else {
                    a + 1
                };
                let b0 = if b < idx as int {
                    b
                } else {
                    b + 1
                };
                assert(s2.tickets@[a] == prev[a0] && s2.tickets@[b] == prev[b0]);
                assert(prev[a0].id != prev[b0].id);
            }
            assert forall|a: int| 0 <= a < s2.departments@.len() implies occupancy_of(
                s2.tickets@,
                (#[trigger] s2.departments@[a]).uid,
            ) <= s2.departments@[a].capacity by {
                let uid = s2.departments@[a].uid;
                let qa = |u: Ticket| is_inside(u) && targets(u, uid);
                lemma_count_remove(prev, qa, idx as int);
                assert(occupancy_of(prev, old(self).departments@[a].uid) <= old(
                    self,
                ).departments@[a].capacity);
            }
        }
        Ok(())
    }

    /// Create a ticket for `customer_id` at `shop_id`, targeting the
    /// given departments.
    ///
    /// `accepting` is the shop's administrative "accepting tickets"
    /// flag, supplied by the catalog: when it is off the request is
    /// `Closed`.  If the customer already holds a ticket for this shop
    /// that has neither exited nor expired, the request is
    /// `AlreadyExists`; otherwise the ticket is inserted atomically and
    /// returned.
    pub fn try_new(
        &mut self,
        customer_id: i32,
        shop_id: i32,
        department_ids: Vec<i32>,
        est_minutes: i32,
        accepting: bool,
        now: i64,
    ) -> (r: NewTicketResult)
        requires
            old(self).wf(),
            old(self).next_id < 0x7fff_ffff,
            now <= 0x7fff_ffff_ffff_ffff - TICKET_HORIZON_SECS,
            department_ids@.len() > 0,
            forall|i: int, j: int|
                0 <= i < j < department_ids@.len() ==> department_ids@[i] != department_ids@[j],
            forall|i: int|
                0 <= i < department_ids@.len() ==> old(self).department_in_shop(
                    #[trigger] department_ids@[i],
                    shop_id,
                ),
        ensures
            final(self).wf(),
            final(self).departments@ == old(self).departments@,
            !accepting ==> final(self).tickets@ == old(self).tickets@ && final(self).next_id == old(
                self,
            ).next_id && r is Closed,
            accepting && active_claim_count(old(self).tickets@, customer_id, shop_id, now) > 0
                ==> final(self).tickets@ == old(self).tickets@ && final(self).next_id == old(
                self,
            ).next_id && r is AlreadyExists,
            accepting && active_claim_count(old(self).tickets@, customer_id, shop_id, now) == 0
                ==> {
                &&& final(self).next_id == old(self).next_id + 1
                &&& final(self).tickets@.len() == old(self).tickets@.len() + 1
                &&& final(self).tickets@.drop_last() == old(self).tickets@
                &&& fresh_ticket_fields(
                    final(self).tickets@.last(),
                    old(self).next_id,
                    customer_id,
                    shop_id,
                    department_ids@,
                    est_minutes,
                    now,
                )
                &&& r matches NewTicketResult::Created(t) && fresh_ticket_fields(
                    t,
                    old(self).next_id,
                    customer_id,
                    shop_id,
                    department_ids@,
                    est_minutes,
                    now,
                )
            },
    {
        if !accepting {
            return NewTicketResult::Closed;
        }
        let ghost p = |t: Ticket| t.customer_id == customer_id && t.shop_id == shop_id
            && is_active_claim(t, now);
        let mut i: usize = 0;
        while i < self.tickets.len()
            invariant
                accepting,
                *self == *old(self),
                self.wf(),
                i <= self.tickets@.len(),
                p == (|t: Ticket| t.customer_id == customer_id && t.shop_id == shop_id
                    && is_active_claim(t, now)),
                forall|j: int| 0 <= j < i ==> !p(#[trigger] self.tickets@[j]),
            decreases self.tickets@.len() - i,
        {
            let t = &self.tickets[i];
            if t.customer_id == customer_id && t.shop_id == shop_id && t.exit.is_none()
                && t.expiration > now {
                proof {
                    assert(p(self.tickets@[i as int]));
                    lemma_count_zero(self.tickets@, p);
                    lemma_count_bounds(self.tickets@, p);
                }
                return NewTicketResult::AlreadyExists;
            }
            i += 1;
        }
        proof {
            lemma_count_zero(self.tickets@, p);
        }
        let id = self.next_id;
        let dids_copy = crate::ticket::copy_ids(&department_ids);
        let expiration = now + TICKET_HORIZON_SECS;
        let stored = Ticket {
            id,
            customer_id,
            shop_id,
            creation: now,
            expiration,
            entry: None,
            exit: None,
            est_minutes,
            valid: true,
            active: true,
            department_ids,
        };
        let returned = Ticket {
            id,
            customer_id,
            shop_id,
            creation: now,
            expiration,
            entry: None,
            exit: None,
            est_minutes,
            valid: true,
            active: true,
            department_ids: dids_copy,
        };
        self.tickets.push(stored);
        self.next_id = id + 1;
        proof {
            let s2 = *self;
            let prev = old(self).tickets@;
            assert(s2.tickets@.drop_last() =~= prev);
            assert forall|a: int|
                0 <= a < s2.tickets@.len() implies s2.ticket_ok(#[trigger] s2.tickets@[a]) by {
                if a < prev.len() {
                    assert(old(self).ticket_ok(prev[a]));
                    assert forall|b: int|
                        0 <= b < prev[a].department_ids@.len() implies s2.department_in_shop(
                        #[trigger] prev[a].department_ids@[b],
                        prev[a].shop_id,
                    ) by {
                        assert(old(self).department_in_shop(
                            prev[a].department_ids@[b],
                            prev[a].shop_id,
                        ));
                    }
                } else {
                    assert forall|b: int|
                        0 <= b < department_ids@.len() implies s2.department_in_shop(
                        #[trigger] department_ids@[b],
                        shop_id,
                    ) by {
                        assert(old(self).department_in_shop(department_ids@[b], shop_id));
                    }
                }
            }
            assert forall|a: int| 0 <= a < s2.departments@.len() implies occupancy_of(
                s2.tickets@,
                (#[trigger] s2.departments@[a]).uid,
            ) <= s2.departments@[a].capacity by {
                let q = |t: Ticket| is_inside(t) && targets(t, s2.departments@[a].uid);
                assert(!q(s2.tickets@.last()));
                assert(occupancy_of(s2.tickets@, s2.departments@[a].uid) == occupancy_of(
                    prev,
                    s2.departments@[a].uid,
                ));
                assert(occupancy_of(prev, old(self).departments@[a].uid) <= old(
                    self,
                ).departments@[a].capacity);
            }
        }
        NewTicketResult::Created(returned)
    }
}

/// Which tickets a queue query selects.
///
/// + `WaitingInShop`: the live queue of one shop, as the admission
///   check sees it: not entered, not exited, not expired.
/// + `ActiveOfCustomer`: everything a customer still holds that has not
///   expired, whatever its state.
#[derive(Debug, PartialEq, Eq, Structural, Clone, Copy)]
pub enum TicketFilter {
    WaitingInShop(i32),
    ActiveOfCustomer(i32),
}

/// Whether ticket `t` is selected by `f` at time `now`.
pub open spec fn filter_selects(f: TicketFilter, t: Ticket, now: i64) -> bool {
    match f {
        TicketFilter::WaitingInShop(shop_id) => t.shop_id == shop_id && is_waiting(t, now),
        TicketFilter::ActiveOfCustomer(customer_id) => t.customer_id == customer_id && !is_expired(
            t,
            now,
        ),
    }
}

/// Ticket `t` is a copy of some entry of `s`.
pub open spec fn from_store(s: Seq<Ticket>, t: Ticket) -> bool {
    exists|j: int| 0 <= j < s.len() && ticket_eq(t, #[trigger] s[j])
}

/// What the queue queries promise: `q` holds copies of exactly the
/// tickets of `s` that the filter selects, in strict queue order.
pub open spec fn sorted_selection(q: Seq<Ticket>, s: Seq<Ticket>, f: TicketFilter, now: i64) -> bool {
    &&& forall|i: int| 0 <= i < q.len() ==> filter_selects(f, #[trigger] q[i], now)
    &&& forall|i: int| 0 <= i < q.len() ==> from_store(s, #[trigger] q[i])
    &&& forall|j: int|
        0 <= j < s.len() && filter_selects(f, #[trigger] s[j], now) ==> exists|i: int|
            0 <= i < q.len() && ticket_eq(#[trigger] q[i], s[j])
    &&& forall|i: int, j: int| 0 <= i < j < q.len() ==> earlier_in_queue(q[i], q[j])
}

impl Store {
    /// Copies of the tickets the filter selects, ordered by creation
    /// time with ties broken by identifier: the ground-truth queue
    /// order that admission enforces.
    #[verifier::rlimit(100)]
    pub fn select_sorted(&self, f: TicketFilter, now: i64) -> (q: Vec<Ticket>)
        requires
            self.wf(),
        ensures
            sorted_selection(q@, self.tickets@, f, now),
    {
        let mut q: Vec<Ticket> = Vec::new();
        let mut i: usize = 0;
        while i < self.tickets.len()
            invariant
                self.wf(),
                i <= self.tickets@.len(),
                forall|a: int| 0 <= a < q@.len() ==> filter_selects(f, #[trigger] q@[a], now),
                forall|a: int|
                    0 <= a < q@.len() ==> from_store(
                        self.tickets@.take(i as int),
                        #[trigger] q@[a],
                    ),
                forall|j: int|
                    0 <= j < i && filter_selects(f, #[trigger] self.tickets@[j], now)
                        ==> exists|a: int| 0 <= a < q@.len() && ticket_eq(
                        #[trigger] q@[a],
                        self.tickets@[j],
                    ),
                forall|a: int, b: int| 0 <= a < b < q@.len() ==> earlier_in_queue(q@[a], q@[b]),
            decreases self.tickets@.len() - i,
        {
            let t = &self.tickets[i];
            let selected = match f {
                TicketFilter::WaitingInShop(shop_id) => t.shop_id == shop_id && t.entry.is_none()
                    && t.exit.is_none() && t.expiration > now,
                TicketFilter::ActiveOfCustomer(customer_id) => t.customer_id == customer_id
                    && t.expiration > now,
            };
            assert(selected == filter_selects(f, self.tickets@[i as int], now));
            if selected {
                let c = t.clone();
                let ghost q0 = q@;
                let mut p: usize = 0;
                while p < q.len() && (q[p].creation < c.creation || (q[p].creation == c.creation
                    && q[p].id < c.id))
                    invariant
                        q@ == q0,
                        p <= q@.len(),
                        i < self.tickets@.len(),
                        ticket_eq(c, self.tickets@[i as int]),
                        forall|a: int| 0 <= a < p ==> earlier_in_queue(#[trigger] q@[a], c),
                    decreases q@.len() - p,
                {
                    p += 1;
                }
                proof {
                    if p < q0.len() {
                        let pre = self.tickets@.take(i as int);
                        assert(from_store(pre, q0[p as int]));
                        let a0 = choose|j: int|
                            0 <= j < pre.len() && ticket_eq(q0[p as int], #[trigger] pre[j]);
                        assert(pre[a0] == self.tickets@[a0]);
                        assert(self.tickets@[a0].id != self.tickets@[i as int].id);
                        assert(q0[p as int].id != c.id);
                        assert(earlier_in_queue(c, q0[p as int]));
                    }
                }
                q.insert(p, c);
                proof {
                    let qn = q@;
                    assert(qn.len() == q0.len() + 1);
                    assert forall|a: int|
                        0 <= a < qn.len() implies (if a < p as int {
                        qn[a] == q0[a]
                    } else if a == p as int {
                        qn[a] == c
                    } else {
                        qn[a] == q0[a - 1]
                    }) by {}
                    assert forall|a: int, b: int|
                        0 <= a < b < qn.len() implies earlier_in_queue(qn[a], qn[b]) by {
                        if a < p as int && b < p as int {
                        } else if a < p as int && b == p as int {
                        } else if b > p as int && a == p as int {
                            if b - 1 > p as int - 1 && b - 1 < q0.len() {
                                if (p as int) <= b - 1 {
                                    assert(earlier_in_queue(c, q0[p as int]));
                                    if b - 1 > p as int {
                                        assert(earlier_in_queue(q0[p as int], q0[b - 1]));
                                    }
                                }
                            }
                        } else if a > p as int && b > p as int {
                            assert(earlier_in_queue(q0[a - 1], q0[b - 1]));
                        } else {
                            if (p as int) <= b - 1 && b - 1 < q0.len() && a < p as int {
                                if (p as int) < b - 1 {
                                    assert(earlier_in_queue(q0[p as int], q0[b - 1]));
                                    assert(earlier_in_queue(q0[a], q0[p as int]));
                                } else {
                                    assert(earlier_in_queue(q0[a], c));
                                    assert(earlier_in_queue(c, q0[b - 1]) || c == q0[b - 1]);
                                }
                            }
                        }
                    }
                    assert forall|j: int|
                        0 <= j < i + 1 && filter_selects(f, #[trigger] self.tickets@[j], now)
                            implies exists|a: int| 0 <= a < qn.len() && ticket_eq(
                            #[trigger] qn[a],
                            self.tickets@[j],
                        ) by {
                        if j < i {
                            let a0 = choose|a: int|
                                0 <= a < q0.len() && ticket_eq(#[trigger] q0[a], self.tickets@[j]);
                            if a0 < p as int {
                                assert(qn[a0] == q0[a0]);
                            } else {
                                assert(qn[a0 + 1] == q0[a0]);
                            }
                        } else {
                            assert(qn[p as int] == c);
                        }
                    }
                    assert forall|a: int| 0 <= a < qn.len() implies from_store(
                        self.tickets@.take(i + 1),
                        #[trigger] qn[a],
                    ) by {
                        let nxt = self.tickets@.take(i + 1);
                        if a == p as int {
                            assert(nxt[i as int] == self.tickets@[i as int]);
                            assert(ticket_eq(qn[a], nxt[i as int]));
                        } else {
                            let pre = self.tickets@.take(i as int);
                            let a0 = if a < p as int {
                                a
                            } else {
                                a - 1
                            };
                            assert(qn[a] == q0[a0]);
                            assert(from_store(pre, q0[a0]));
                            let j = choose|j: int|
                                0 <= j < pre.len() && ticket_eq(q0[a0], #[trigger] pre[j]);
                            assert(nxt[j] == pre[j]);
                            assert(ticket_eq(qn[a], nxt[j]));
                        }
                    }
                }
            } else {
                proof {
                    assert forall|j: int|
                        0 <= j < i + 1 && filter_selects(f, #[trigger] self.tickets@[j], now)
                            implies exists|a: int| 0 <= a < q@.len() && ticket_eq(
                            #[trigger] q@[a],
                            self.tickets@[j],
                        ) by {}
                    assert forall|a: int| 0 <= a < q@.len() implies from_store(
                        self.tickets@.take(i + 1),
                        #[trigger] q@[a],
                    ) by {
                        let pre = self.tickets@.take(i as int);
                        let nxt = self.tickets@.take(i + 1);
                        assert(from_store(pre, q@[a]));
                        let j = choose|j: int|
                            0 <= j < pre.len() && ticket_eq(q@[a], #[trigger] pre[j]);
                        assert(nxt[j] == pre[j]);
                        assert(ticket_eq(q@[a], nxt[j]));
                    }
                }
            }
            i += 1;
        }
        proof {
            assert(self.tickets@.take(self.tickets@.len() as int) =~= self.tickets@);
        }
        q
    }

    /// The live queue of `shop_id`: its waiting tickets in FIFO order.
    /// This is the order `try_enter` enforces and customers poll.
    pub fn queue(&self, shop_id: i32, now: i64) -> (q: Vec<Ticket>)
        requires
            self.wf(),
        ensures
            sorted_selection(q@, self.tickets@, TicketFilter::WaitingInShop(shop_id), now),
    {
        self.select_sorted(TicketFilter::WaitingInShop(shop_id), now)
    }

    /// All unexpired tickets a customer holds, oldest first.
    pub fn get_for_customer(&self, customer_id: i32, now: i64) -> (q: Vec<Ticket>)
        requires
            self.wf(),
        ensures
            sorted_selection(q@, self.tickets@, TicketFilter::ActiveOfCustomer(customer_id), now),
    {
        self.select_sorted(TicketFilter::ActiveOfCustomer(customer_id), now)
    }

    /// A copy of the ticket with this identifier, unless it does not
    /// exist or has expired.
    pub fn get(&self, ticket_id: i32, now: i64) -> (r: Option<Ticket>)
        requires
            self.wf(),
        ensures
            match r {
                Some(t) => self.has_ticket(ticket_id) && ticket_eq(
                    t,
                    self.spec_ticket(ticket_id),
                ) && !is_expired(t, now),
                None => !self.has_ticket(ticket_id) || is_expired(
                    self.spec_ticket(ticket_id),
                    now,
                ),
            },
    {
        match self.find_ticket(ticket_id) {
            Some(i) => {
                proof {
                    self.lemma_ticket_index_unique(i as int);
                }
                if self.tickets[i].expiration > now {
                    Some(self.tickets[i].clone())
                } else {
                    None
                }
            },
            None => None,
        }
    }

    /// A customer's position in their shop's queue: how many tickets
    /// wait ahead, and the sum of those tickets' declared durations.
    ///
    /// Only the holder may ask; an invalidated or expired ticket gets
    /// no estimate; a ticket that already entered or exited is not in
    /// the queue any more.
    pub fn estimate(&self, ticket_id: i32, customer_id: i32, now: i64) -> (r: Result<
        QueueEstimate,
        EstimateError,
    >)
        requires
            self.wf(),
            self.has_ticket(ticket_id),
        ensures
            ({
                let t = self.spec_ticket(ticket_id);
                if t.customer_id != customer_id {
                    r == Err::<QueueEstimate, EstimateError>(EstimateError::NotOwner)
                } else if !t.valid || !t.active || is_expired(t, now) {
                    r == Err::<QueueEstimate, EstimateError>(EstimateError::InvalidOrExpired)
                } else if t.entry is Some || t.exit is Some {
                    r == Err::<QueueEstimate, EstimateError>(EstimateError::NotInQueue)
                } else {
                    r matches Ok(e) && e.people == earlier_waiting_count(self.tickets@, t, now)
                        && e.wait_minutes == earlier_waiting_minutes(self.tickets@, t, now)
                }
            }),
    {
        let idx = match self.find_ticket(ticket_id) {
            Some(i) => i,
            None => unreached(),
        };
        proof {
            self.lemma_ticket_index_unique(idx as int);
        }
        let ghost t = self.spec_ticket(ticket_id);
        if self.tickets[idx].customer_id != customer_id {
            return Err(EstimateError::NotOwner);
        }
        if !self.tickets[idx].valid || !self.tickets[idx].active
            || self.tickets[idx].expiration <= now {
            return Err(EstimateError::InvalidOrExpired);
        }
        if self.tickets[idx].entry.is_some() || self.tickets[idx].exit.is_some() {
            return Err(EstimateError::NotInQueue);
        }
        let t_shop = self.tickets[idx].shop_id;
        let t_creation = self.tickets[idx].creation;
        let ghost q = |u: Ticket| u.id != t.id && u.shop_id == t.shop_id && is_waiting(u, now)
            && earlier_in_queue(u, t);
        let ghost m = |u: Ticket| u.est_minutes as int;
        let mut people: i64 = 0;
        let mut minutes: i64 = 0;
        let mut i: usize = 0;
        proof {
            assert(self.tickets@.take(0) =~= Seq::<Ticket>::empty());
        }
        while i < self.tickets.len()
            invariant
                self.wf(),
                idx < self.tickets@.len(),
                t == self.tickets@[idx as int],
                t_shop == t.shop_id,
                t_creation == t.creation,
                ticket_id == t.id,
                i <= self.tickets@.len(),
                q == (|u: Ticket| u.id != t.id && u.shop_id == t.shop_id && is_waiting(u, now)
                    && earlier_in_queue(u, t)),
                m == (|u: Ticket| u.est_minutes as int),
                people as int == count_seq(self.tickets@.take(i as int), q),
                minutes as int == sum_where(self.tickets@.take(i as int), q, m),
                0 <= people as int <= i,
                -(i as int) * 0x8000_0000 <= minutes as int <= (i as int) * 0x8000_0000,
            decreases self.tickets@.len() - i,
        {
            proof {
                assert(self.tickets@.take(i + 1).drop_last() =~= self.tickets@.take(i as int));
                assert(self.tickets@.take(i + 1).last() == self.tickets@[i as int]);
                lemma_count_bounds(self.tickets@.take(i + 1), q);
                assert((i as int) * 0x8000_0000 + 0x8000_0000 == (i + 1) * 0x8000_0000)
                    by (nonlinear_arith);
                assert(-(i as int) * 0x8000_0000 - 0x8000_0000 == -((i + 1) as int) * 0x8000_0000)
                    by (nonlinear_arith);
            }
            let u = &self.tickets[i];
            if u.id != ticket_id && u.shop_id == t_shop && u.entry.is_none() && u.exit.is_none()
                && u.expiration > now && (u.creation < t_creation || (u.creation == t_creation
                && u.id < ticket_id)) {
                assert(q(self.tickets@[i as int]));
                people += 1;
                minutes += u.est_minutes as i64;
            } else {
                assert(!q(self.tickets@[i as int]));
            }
            i += 1;
        }
        proof {
            assert(self.tickets@.take(self.tickets@.len() as int) =~= self.tickets@);
        }
        Ok(QueueEstimate { people, wait_minutes: minutes })
    }

    /// The whole queue of a shop at a glance: how many tickets are
    /// waiting, and the sum of their declared durations in minutes —
    /// what a customer is shown before taking a ticket.
    pub fn queue_totals(&self, shop_id: i32, now: i64) -> (r: QueueEstimate)
        requires
            self.wf(),
        ensures
            r.people == count_seq(
                self.tickets@,
                |u: Ticket| u.shop_id == shop_id && is_waiting(u, now),
            ),
            r.wait_minutes == sum_where(
                self.tickets@,
                |u: Ticket| u.shop_id == shop_id && is_waiting(u, now),
                |u: Ticket| u.est_minutes as int,
            ),
    {
        let ghost q = |u: Ticket| u.shop_id == shop_id && is_waiting(u, now);
        let ghost m = |u: Ticket| u.est_minutes as int;
        let mut people: i64 = 0;
        let mut minutes: i64 = 0;
        let mut i: usize = 0;
        proof {
            assert(self.tickets@.take(0) =~= Seq::<Ticket>::empty());
        }
        while i < self.tickets.len()
            invariant
                self.wf(),
                i <= self.tickets@.len(),
                q == (|u: Ticket| u.shop_id == shop_id && is_waiting(u, now)),
                m == (|u: Ticket| u.est_minutes as int),
                people as int == count_seq(self.tickets@.take(i as int), q),
                minutes as int == sum_where(self.tickets@.take(i as int), q, m),
                0 <= people as int <= i,
                -(i as int) * 0x8000_0000 <= minutes as int <= (i as int) * 0x8000_0000,
            decreases self.tickets@.len() - i,
        {
            proof {
                assert(self.tickets@.take(i + 1).drop_last() =~= self.tickets@.take(i as int));
                assert(self.tickets@.take(i + 1).last() == self.tickets@[i as int]);
                lemma_count_bounds(self.tickets@.take(i + 1), q);
                assert((i as int) * 0x8000_0000 + 0x8000_0000 == (i + 1) * 0x8000_0000)
                    by (nonlinear_arith);
                assert(-(i as int) * 0x8000_0000 - 0x8000_0000 == -((i + 1) as int) * 0x8000_0000)
                    by (nonlinear_arith);
            }
            let u = &self.tickets[i];
            if u.shop_id == shop_id && u.entry.is_none() && u.exit.is_none()
                && u.expiration > now {
                assert(q(self.tickets@[i as int]));
                people += 1;
                minutes += u.est_minutes as i64;
            } else {
                assert(!q(self.tickets@[i as int]));
            }
            i += 1;
        }
        proof {
            assert(self.tickets@.take(self.tickets@.len() as int) =~= self.tickets@);
        }
        QueueEstimate { people, wait_minutes: minutes }
    }

    /// Per-department occupancy of one shop, in catalog order: how many
    /// tickets are inside each department right now.  Departments with
    /// no tickets report zero like any other.
    pub fn get_occupancy(&self, shop_id: i32) -> (r: Vec<DepartmentOccupancy>)
        requires
            self.wf(),
        ensures
            ({
                let ds = self.departments@.filter(|d: Department| d.shop_id == shop_id);
                &&& r@.len() == ds.len()
                &&& forall|i: int|
                    0 <= i < ds.len() ==> (#[trigger] r@[i]).department_id == ds[i].uid
                        && r@[i].capacity == ds[i].capacity && r@[i].occupancy as int
                        == occupancy_of(self.tickets@, ds[i].uid)
            }),
    {
        let ghost pf = |d: Department| d.shop_id == shop_id;
        let mut r: Vec<DepartmentOccupancy> = Vec::new();
        let mut i: usize = 0;
        proof {
            assert(self.departments@.take(0) =~= Seq::<Department>::empty());
            assert(self.departments@.take(0).filter(pf) =~= Seq::<Department>::empty());
        }
        while i < self.departments.len()
            invariant
                self.wf(),
                i <= self.departments@.len(),
                pf == (|d: Department| d.shop_id == shop_id),
                ({
                    let ds = self.departments@.take(i as int).filter(pf);
                    &&& r@.len() == ds.len()
                    &&& forall|a: int|
                        0 <= a < ds.len() ==> (#[trigger] r@[a]).department_id == ds[a].uid
                            && r@[a].capacity == ds[a].capacity && r@[a].occupancy as int
                            == occupancy_of(self.tickets@, ds[a].uid)
                }),
            decreases self.departments@.len() - i,
        {
            let ghost pre = self.departments@.take(i as int);
            proof {
                assert(self.departments@.take(i + 1).drop_last() =~= pre);
                assert(self.departments@.take(i + 1).last() == self.departments@[i as int]);
                reveal_with_fuel(Seq::filter, 2);
            }
            let d = &self.departments[i];
            if d.shop_id == shop_id {
                let occ = self.occupancy_count(d.uid);
                let entry = DepartmentOccupancy {
                    department_id: d.uid,
                    capacity: d.capacity,
                    occupancy: occ,
                };
                r.push(entry);
                proof {
                    assert(self.departments@.take(i + 1).filter(pf) =~= pre.filter(pf).push(
                        self.departments@[i as int],
                    ));
                }
            } else {
                proof {
                    assert(self.departments@.take(i + 1).filter(pf) =~= pre.filter(pf));
                }
            }
            i += 1;
        }
        proof {
            assert(self.departments@.take(self.departments@.len() as int) =~= self.departments@);
        }
        r
    }
}

/// Whether `ids` holds `did`.
pub fn contains_id(ids: &Vec<i32>, did: i32) -> (r: bool)
    ensures
        r == ids@.contains(did),
{
    let mut i: usize = 0;
    while i < ids.len()
        invariant
            i <= ids@.len(),
            forall|j: int| 0 <= j < i ==> ids@[j] != did,
        decreases ids@.len() - i,
    {
        if ids[i] == did {
            assert(ids@.contains(did));
            return true;
        }
        i += 1;
    }
    assert(!ids@.contains(did));
    false
}

} // verus!
