//! The engine's safety laws, stated once over the store's spec
//! functions and proved for every reachable state.  Together with the
//! exact postconditions of `try_enter`, `exit` and `try_new` these pin
//! down the behaviour the queueing core promises.

use vstd::prelude::*;

use crate::counting::lemma_count_zero;
use crate::store::{active_claim_count, earlier_waiting_count, occupancy_of, sorted_selection,
    Store, TicketFilter};
use crate::ticket::{earlier_in_queue, is_waiting, ticket_eq, Ticket};

verus! {

/// Capacity is never exceeded: in any well-formed store, the number of
/// tickets inside a department stays within its capacity.  Every
/// operation of the store keeps `wf`, so this holds at all times.
pub proof fn lemma_capacity_never_exceeded(s: Store, did: i32)
    requires
        s.wf(),
        s.has_department(did),
    ensures
        occupancy_of(s.tickets@, did) <= s.dept_capacity(did),
{
    let i = s.dept_index(did);
    assert(0 <= i < s.departments@.len() && s.departments@[i].uid == did);
    assert(occupancy_of(s.tickets@, s.departments@[i].uid) <= s.departments@[i].capacity);
}

/// Strict FIFO: a waiting ticket with no earlier waiting sibling — the
/// one `try_enter` would admit — is ahead of every other waiting ticket
/// of its shop, and every other one is held back with a positive
/// earlier-waiting count, exactly what `NotFirst` reports.
pub proof fn lemma_first_is_earliest(s: Store, tid: i32, other: i32, now: i64)
    requires
        s.wf(),
        s.has_ticket(tid),
        s.has_ticket(other),
        tid != other,
        is_waiting(s.spec_ticket(tid), now),
        is_waiting(s.spec_ticket(other), now),
        s.spec_ticket(other).shop_id == s.spec_ticket(tid).shop_id,
        earlier_waiting_count(s.tickets@, s.spec_ticket(tid), now) == 0,
    ensures
        earlier_in_queue(s.spec_ticket(tid), s.spec_ticket(other)),
        earlier_waiting_count(s.tickets@, s.spec_ticket(other), now) > 0,
{
    let t = s.spec_ticket(tid);
    let u = s.spec_ticket(other);
    let it = s.ticket_index(tid);
    let iu = s.ticket_index(other);
    assert(0 <= it < s.tickets@.len() && s.tickets@[it].id == tid);
    assert(0 <= iu < s.tickets@.len() && s.tickets@[iu].id == other);
    let pt = |u2: Ticket| u2.id != t.id && u2.shop_id == t.shop_id && is_waiting(u2, now)
        && earlier_in_queue(u2, t);
    lemma_count_zero(s.tickets@, pt);
    assert(!pt(s.tickets@[iu]));
    assert(!earlier_in_queue(u, t));
    assert(earlier_in_queue(t, u));
    let pu = |u2: Ticket| u2.id != u.id && u2.shop_id == u.shop_id && is_waiting(u2, now)
        && earlier_in_queue(u2, u);
    lemma_count_zero(s.tickets@, pu);
    crate::counting::lemma_count_bounds(s.tickets@, pu);
    assert(pu(s.tickets@[it]));
    assert(earlier_waiting_count(s.tickets@, u, now) == crate::counting::count_seq(
        s.tickets@,
        pu,
    ));
}

/// The queue query and the admission check agree: the head of a
/// non-empty `queue(shop)` result is a waiting ticket with no earlier
/// waiting sibling, so it is the one a successful `try_enter` admits
/// next.
pub proof fn lemma_queue_head_admitted_next(s: Store, q: Seq<Ticket>, shop_id: i32, now: i64)
    requires
        s.wf(),
        sorted_selection(q, s.tickets@, TicketFilter::WaitingInShop(shop_id), now),
        q.len() > 0,
    ensures
        is_waiting(q[0], now),
        q[0].shop_id == shop_id,
        earlier_waiting_count(s.tickets@, q[0], now) == 0,
{
    let t0 = q[0];
    let pt = |u2: Ticket| u2.id != t0.id && u2.shop_id == t0.shop_id && is_waiting(u2, now)
        && earlier_in_queue(u2, t0);
    lemma_count_zero(s.tickets@, pt);
    if earlier_waiting_count(s.tickets@, t0, now) != 0 {
        let j = choose|j: int| 0 <= j < s.tickets@.len() && pt(#[trigger] s.tickets@[j]);
        let u = s.tickets@[j];
        assert(crate::store::filter_selects(TicketFilter::WaitingInShop(shop_id), u, now));
        let a = choose|a: int| 0 <= a < q.len() && ticket_eq(#[trigger] q[a], u);
        if a == 0 {
            assert(q[0].id == u.id);
        } else {
            assert(earlier_in_queue(q[0], q[a]));
            assert(earlier_in_queue(t0, u));
            assert(earlier_in_queue(u, t0));
        }
    }
}

/// Counting is preserved by copying: if the elements of `s` and `q`
/// satisfying `p` correspond one to one — same identifiers, data equal
/// under `ticket_eq`, and `p` blind to the difference — the two counts
/// agree.
proof fn lemma_count_matched(s: Seq<Ticket>, q: Seq<Ticket>, p: spec_fn(Ticket) -> bool)
    requires
        forall|a: int, b: int|
            0 <= a < b < s.len() ==> (#[trigger] s[a]).id != (#[trigger] s[b]).id,
        forall|a: int, b: int|
            0 <= a < b < q.len() ==> (#[trigger] q[a]).id != (#[trigger] q[b]).id,
        forall|a: Ticket, b: Ticket| ticket_eq(a, b) ==> (#[trigger] p(a)) == #[trigger] p(b),
        forall|j: int|
            0 <= j < s.len() && p(#[trigger] s[j]) ==> exists|a: int|
                0 <= a < q.len() && ticket_eq(#[trigger] q[a], s[j]),
        forall|a: int|
            0 <= a < q.len() && p(#[trigger] q[a]) ==> exists|j: int|
                0 <= j < s.len() && ticket_eq(q[a], #[trigger] s[j]),
    ensures
        crate::counting::count_seq(s, p) == crate::counting::count_seq(q, p),
    decreases s.len(),
{
    if s.len() == 0 {
        lemma_count_zero(q, p);
        if crate::counting::count_seq(q, p) != 0 {
            let a = choose|a: int| 0 <= a < q.len() && p(#[trigger] q[a]);
        }
        crate::counting::lemma_count_bounds(q, p);
    } else {
        let t = s.last();
        let s2 = s.drop_last();
        assert(forall|j: int| 0 <= j < s2.len() ==> s2[j] == #[trigger] s[j]);
        if p(t) {
            let a = choose|a: int| 0 <= a < q.len() && ticket_eq(#[trigger] q[a], t);
            let q2 = q.remove(a);
            crate::counting::lemma_count_remove(q, p, a);
            assert forall|b: int|
                0 <= b < q2.len() implies (#[trigger] q2[b]) == (if b < a {
                q[b]
            } else {
                q[b + 1]
            }) by {}
            assert forall|x: int, y: int|
                0 <= x < y < q2.len() implies (#[trigger] q2[x]).id != (
            #[trigger] q2[y]).id by {
                let x0 = if x < a {
                    x
                } else {
                    x + 1
                };
                let y0 = if y < a {
                    y
                } else {
                    y + 1
                };
                assert(q[x0].id != q[y0].id);
            }
            assert forall|j: int|
                0 <= j < s2.len() && p(#[trigger] s2[j]) implies exists|b: int|
                0 <= b < q2.len() && ticket_eq(#[trigger] q2[b], s2[j]) by {
                let b0 = choose|b0: int| 0 <= b0 < q.len() && ticket_eq(#[trigger] q[b0], s[j]);
                assert(s[j].id != t.id);
                assert(q[b0].id != q[a].id);
                if b0 < a {
                    assert(q2[b0] == q[b0]);
                } else {
                    assert(q2[b0 - 1] == q[b0]);
                }
            }
            assert forall|b: int|
                0 <= b < q2.len() && p(#[trigger] q2[b]) implies exists|j: int|
                0 <= j < s2.len() && ticket_eq(q2[b], #[trigger] s2[j]) by {
                let b0 = if b < a {
                    b
                } else {
                    b + 1
                };
                assert(q2[b] == q[b0]);
                let j = choose|j: int| 0 <= j < s.len() && ticket_eq(q[b0], #[trigger] s[j]);
                assert(q[b0].id != q[a].id);
                assert(q[a].id == t.id);
                if j == s.len() - 1 {
                    assert(q[b0].id == t.id);
                }
                assert(s2[j] == s[j]);
            }
            lemma_count_matched(s2, q2, p);
        } else {
            assert forall|j: int|
                0 <= j < s2.len() && p(#[trigger] s2[j]) implies exists|a: int|
                0 <= a < q.len() && ticket_eq(#[trigger] q[a], s2[j]) by {
                assert(s2[j] == s[j]);
            }
            assert forall|a: int|
                0 <= a < q.len() && p(#[trigger] q[a]) implies exists|j: int|
                0 <= j < s2.len() && ticket_eq(q[a], #[trigger] s2[j]) by {
                let j = choose|j: int| 0 <= j < s.len() && ticket_eq(q[a], #[trigger] s[j]);
                if j == s.len() - 1 {
                    assert(p(t));
                }
                assert(s2[j] == s[j]);
            }
            lemma_count_matched(s2, q, p);
        }
    }
}

/// Count of the elements before a cut: if `p` selects exactly the
/// first `i` positions of `q`, the count is `i`.
proof fn lemma_count_prefix(q: Seq<Ticket>, p: spec_fn(Ticket) -> bool, i: int)
    requires
        0 <= i <= q.len(),
        forall|j: int| 0 <= j < q.len() ==> (p(#[trigger] q[j]) <==> j < i),
    ensures
        crate::counting::count_seq(q, p) == i,
    decreases q.len(),
{
    if q.len() > 0 {
        let q2 = q.drop_last();
        assert(forall|j: int| 0 <= j < q2.len() ==> q2[j] == #[trigger] q[j]);
        if i == q.len() {
            assert(p(q.last()));
            lemma_count_prefix(q2, p, i - 1);
        } else {
            assert(!p(q.last()));
            lemma_count_prefix(q2, p, i);
        }
    }
}

/// The queue is the admission order, position by position: the i-th
/// ticket of `queue(shop)` has exactly `i` earlier waiting tickets, so
/// `try_enter` would answer it `NotFirst(i)` (or admit it when i = 0).
pub proof fn lemma_queue_position_is_wait_count(
    s: Store,
    q: Seq<Ticket>,
    shop_id: i32,
    now: i64,
    i: int,
)
    requires
        s.wf(),
        sorted_selection(q, s.tickets@, TicketFilter::WaitingInShop(shop_id), now),
        0 <= i < q.len(),
    ensures
        earlier_waiting_count(s.tickets@, q[i], now) == i,
{
    let t0 = q[i];
    let p = |u: Ticket| u.id != t0.id && u.shop_id == t0.shop_id && is_waiting(u, now)
        && earlier_in_queue(u, t0);
    assert forall|a: int, b: int|
        0 <= a < b < q.len() implies (#[trigger] q[a]).id != (#[trigger] q[b]).id by {
        let ja = choose|j: int| 0 <= j < s.tickets@.len() && ticket_eq(q[a], #[trigger] s.tickets@[j]);
        let jb = choose|j: int| 0 <= j < s.tickets@.len() && ticket_eq(q[b], #[trigger] s.tickets@[j]);
        if q[a].id == q[b].id {
            assert(s.tickets@[ja].id == s.tickets@[jb].id);
            assert(ja == jb);
            assert(earlier_in_queue(q[a], q[b]));
        }
    }
    assert forall|j: int|
        0 <= j < s.tickets@.len() && p(#[trigger] s.tickets@[j]) implies exists|a: int|
        0 <= a < q.len() && ticket_eq(#[trigger] q[a], s.tickets@[j]) by {
        assert(crate::store::filter_selects(
            TicketFilter::WaitingInShop(shop_id),
            s.tickets@[j],
            now,
        ));
    }
    assert forall|a: int|
        0 <= a < q.len() && p(#[trigger] q[a]) implies exists|j: int|
        0 <= j < s.tickets@.len() && ticket_eq(q[a], #[trigger] s.tickets@[j]) by {
        assert(crate::store::from_store(s.tickets@, q[a]));
    }
    lemma_count_matched(s.tickets@, q, p);
    assert forall|j: int| 0 <= j < q.len() implies (p(#[trigger] q[j]) <==> j < i) by {
        if j < i {
            assert(earlier_in_queue(q[j], q[i]));
        } else if j == i {
        } else {
            assert(earlier_in_queue(q[i], q[j]));
        }
    }
    lemma_count_prefix(q, p, i);
}

/// One claim per customer and shop: creating a ticket where the
/// duplicate check found none — the only way `try_new` inserts —
/// leaves the customer with exactly one undischarged claim at that
/// shop, and every other (customer, shop) pair untouched.
pub proof fn lemma_single_active_claim(
    s1: Store,
    s2: Store,
    customer_id: i32,
    shop_id: i32,
    t: Ticket,
    now: i64,
)
    requires
        active_claim_count(s1.tickets@, customer_id, shop_id, now) == 0,
        s2.tickets@ == s1.tickets@.push(t),
        t.customer_id == customer_id,
        t.shop_id == shop_id,
        t.exit is None,
        !crate::ticket::is_expired(t, now),
    ensures
        active_claim_count(s2.tickets@, customer_id, shop_id, now) == 1,
        forall|c2: i32, sh2: i32|
            (c2 != customer_id || sh2 != shop_id) ==> #[trigger] active_claim_count(
                s2.tickets@,
                c2,
                sh2,
                now,
            ) == active_claim_count(s1.tickets@, c2, sh2, now),
{
    assert(s2.tickets@.drop_last() =~= s1.tickets@);
    assert forall|c2: i32, sh2: i32|
        (c2 != customer_id || sh2 != shop_id) implies #[trigger] active_claim_count(
        s2.tickets@,
        c2,
        sh2,
        now,
    ) == active_claim_count(s1.tickets@, c2, sh2, now) by {
        let p = |u: Ticket| u.customer_id == c2 && u.shop_id == sh2 && crate::ticket::is_active_claim(
            u,
            now,
        );
        assert(!p(t));
    }
}

/// Claims are only discharged by time: as the clock advances, a
/// customer's count of undischarged claims at a shop can only shrink,
/// never grow.  So once the duplicate check holds the count at one, it
/// stays at most one until the next creation.
pub proof fn lemma_claims_only_expire(
    s: Seq<Ticket>,
    customer_id: i32,
    shop_id: i32,
    now1: i64,
    now2: i64,
)
    requires
        now1 <= now2,
    ensures
        active_claim_count(s, customer_id, shop_id, now2) <= active_claim_count(
            s,
            customer_id,
            shop_id,
            now1,
        ),
{
    let p2 = |u: Ticket| u.customer_id == customer_id && u.shop_id == shop_id
        && crate::ticket::is_active_claim(u, now2);
    let p1 = |u: Ticket| u.customer_id == customer_id && u.shop_id == shop_id
        && crate::ticket::is_active_claim(u, now1);
    crate::counting::lemma_count_mono(s, p2, p1);
}

/// Exit happens at most once: after a successful `exit` the ticket's
/// exit stamp is set, so by `exit`'s postcondition a second call
/// returns `false`, and by `try_enter`'s postcondition any further
/// admission attempt is `Expired`.
pub proof fn lemma_exit_is_final(s1: Store, s2: Store, tid: i32, now: i64)
    requires
        s1.wf(),
        s1.has_ticket(tid),
        s1.spec_ticket(tid).entry is Some,
        s1.spec_ticket(tid).exit is None,
        s2.tickets@ == s1.tickets@.update(
            s1.ticket_index(tid),
            Ticket { exit: Some(now), ..s1.spec_ticket(tid) },
        ),
    ensures
        s2.has_ticket(tid),
        s2.spec_ticket(tid).entry is Some,
        s2.spec_ticket(tid).exit is Some,
{
    lemma_updated_ticket_found(s1, s2, tid, Ticket { exit: Some(now), ..s1.spec_ticket(tid) });
}

/// Entry happens at most once: after a successful `try_enter` the
/// ticket's entry stamp is set and its exit is still unset, so by
/// `try_enter`'s postcondition a later attempt returns `Invalid` while
/// the ticket is unexpired, and `Expired` after its window passes.
pub proof fn lemma_reentry_rejected(s1: Store, s2: Store, tid: i32, now: i64)
    requires
        s1.wf(),
        s1.has_ticket(tid),
        s1.spec_ticket(tid).entry is None,
        s1.spec_ticket(tid).exit is None,
        s2.tickets@ == s1.tickets@.update(
            s1.ticket_index(tid),
            Ticket { entry: Some(now), ..s1.spec_ticket(tid) },
        ),
    ensures
        s2.has_ticket(tid),
        s2.spec_ticket(tid).entry is Some,
        s2.spec_ticket(tid).exit is None,
{
    lemma_updated_ticket_found(s1, s2, tid, Ticket { entry: Some(now), ..s1.spec_ticket(tid) });
}

/// After updating the ticket at `tid`'s position with a ticket carrying
/// the same identifier, the store still finds it at the same position.
proof fn lemma_updated_ticket_found(s1: Store, s2: Store, tid: i32, t2: Ticket)
    requires
        s1.wf(),
        s1.has_ticket(tid),
        t2.id == tid,
        s2.tickets@ == s1.tickets@.update(s1.ticket_index(tid), t2),
    ensures
        s2.has_ticket(tid),
        s2.spec_ticket(tid) == t2,
{
    let idx = s1.ticket_index(tid);
    assert(0 <= idx < s1.tickets@.len() && s1.tickets@[idx].id == tid);
    assert(s2.tickets@[idx].id == tid);
    assert(s2.has_ticket(tid));
    let k = s2.ticket_index(tid);
    assert(0 <= k < s2.tickets@.len() && s2.tickets@[k].id == tid);
    if k != idx {
        assert(s2.tickets@[k] == s1.tickets@[k]);
        assert(s1.tickets@[k].id != s1.tickets@[idx].id);
    }
}

} // verus!
