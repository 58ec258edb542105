//! Tickets and the outcomes of the operations on them.  A ticket is a
//! customer's claim to a position in one shop's queue, targeting a
//! non-empty set of that shop's departments.

use vstd::prelude::*;

verus! {

/// The fixed validity horizon of a ticket, in seconds: six hours from
/// its creation.
pub const TICKET_HORIZON_SECS: i64 = 21600;

/// One ticket.  Timestamps are seconds on one common clock; `entry` and
/// `exit` are unset until the corresponding transition happens.
#[derive(Debug, PartialEq)]
pub struct Ticket {
    pub id: i32,
    pub customer_id: i32,
    pub shop_id: i32,
    pub creation: i64,
    pub expiration: i64,
    pub entry: Option<i64>,
    pub exit: Option<i64>,
    pub est_minutes: i32,
    pub valid: bool,
    pub active: bool,
    pub department_ids: Vec<i32>,
}

/// Two tickets carry the same data, field for field; the department
/// lists are compared by contents.
pub open spec fn ticket_eq(a: Ticket, b: Ticket) -> bool {
    &&& a.id == b.id
    &&& a.customer_id == b.customer_id
    &&& a.shop_id == b.shop_id
    &&& a.creation == b.creation
    &&& a.expiration == b.expiration
    &&& a.entry == b.entry
    &&& a.exit == b.exit
    &&& a.est_minutes == b.est_minutes
    &&& a.valid == b.valid
    &&& a.active == b.active
    &&& a.department_ids@ == b.department_ids@
}

/// Copy a department id list element by element.
pub fn copy_ids(ids: &Vec<i32>) -> (r: Vec<i32>)
    ensures
        r@ == ids@,
{
    let mut r: Vec<i32> = Vec::new();
    let mut i: usize = 0;
    while i < ids.len()
        invariant
            i <= ids@.len(),
            r@ == ids@.take(i as int),
        decreases ids@.len() - i,
    {
        r.push(ids[i]);
        proof {
            assert(ids@.take(i + 1) =~= ids@.take(i as int).push(ids@[i as int]));
        }
        i += 1;
    }
    proof {
        assert(ids@.take(ids@.len() as int) =~= ids@);
    }
    r
}

impl Clone for Ticket {
    /// A field-for-field copy of the ticket.
    fn clone(&self) -> (r: Self)
        ensures
            ticket_eq(r, *self),
    {
        Ticket {
            id: self.id,
            customer_id: self.customer_id,
            shop_id: self.shop_id,
            creation: self.creation,
            expiration: self.expiration,
            entry: self.entry,
            exit: self.exit,
            est_minutes: self.est_minutes,
            valid: self.valid,
            active: self.active,
            department_ids: copy_ids(&self.department_ids),
        }
    }
}

/// A ticket is expired exactly when the clock has reached its
/// expiration; expiration is always set, there is no open-ended ticket.
pub open spec fn is_expired(t: Ticket, now: i64) -> bool {
    now >= t.expiration
}

/// Waiting: neither entered nor exited, and still within its window.
/// These are the tickets that form the shop's queue.
pub open spec fn is_waiting(t: Ticket, now: i64) -> bool {
    t.entry is None && t.exit is None && !is_expired(t, now)
}

/// Inside: entered and not yet exited, so occupying one slot in each of
/// its target departments.
pub open spec fn is_inside(t: Ticket) -> bool {
    t.entry is Some && t.exit is None
}

/// An undischarged claim for the duplicate check: not yet exited and not
/// expired.  A customer may hold at most one per shop.
pub open spec fn is_active_claim(t: Ticket, now: i64) -> bool {
    t.exit is None && !is_expired(t, now)
}

pub open spec fn targets(t: Ticket, department_id: i32) -> bool {
    t.department_ids@.contains(department_id)
}

/// The queue's total order: by creation time, ties broken by
/// identifier.  Identifiers are unique, so this is strict and total on
/// any one store's tickets.
pub open spec fn earlier_in_queue(a: Ticket, b: Ticket) -> bool {
    a.creation < b.creation || (a.creation == b.creation && a.id < b.id)
}

/// The outcome of an admission attempt.
///
/// + `Entered`: the ticket was first in line, no target department was
///   full, and its entry has been recorded.
/// + `Full(d)`: department `d` had no free slot; nothing changed.
/// + `NotFirst(n)`: `n` earlier tickets are still waiting; nothing
///   changed.
/// + `Expired`: the ticket already exited or its window has passed.
/// + `Invalid`: the ticket has already entered.
#[derive(Debug, PartialEq, Eq, Structural, Clone, Copy)]
pub enum EnterResult {
    Entered,
    Full(i32),
    NotFirst(i64),
    Expired,
    Invalid,
}

/// The outcome of creating a ticket.
///
/// + `Created`: the ticket was inserted and is returned.
/// + `AlreadyExists`: the customer already holds an undischarged ticket
///   for this shop.
/// + `Closed`: the shop is not accepting tickets at the moment.
#[derive(Debug, PartialEq)]
pub enum NewTicketResult {
    Created(Ticket),
    AlreadyExists,
    Closed,
}

impl NewTicketResult {
    /// Extract the created ticket; callers must already know creation
    /// succeeded.
    pub fn unwrap(self) -> (t: Ticket)
        requires
            self is Created,
        ensures
            self == NewTicketResult::Created(t),
    {
        match self {
            NewTicketResult::Created(t) => t,
            NewTicketResult::AlreadyExists => unreached(),
            NewTicketResult::Closed => unreached(),
        }
    }
}

/// Who asks for a cancellation: the customer holding the ticket, or
/// staff of the shop it belongs to.
#[derive(Debug, PartialEq, Eq, Structural, Clone, Copy)]
pub enum Caller {
    Customer(i32),
    ShopStaff(i32),
}

/// Whether this caller may remove that ticket.
pub open spec fn may_cancel(caller: Caller, t: Ticket) -> bool {
    match caller {
        Caller::Customer(c) => t.customer_id == c,
        Caller::ShopStaff(s) => t.shop_id == s,
    }
}

/// Why a cancellation was refused.
#[derive(Debug, PartialEq, Eq, Structural, Clone, Copy)]
pub enum CancelError {
    NotFound,
    NotOwner,
    AlreadyEntered,
}

/// Why no wait estimate could be given.
#[derive(Debug, PartialEq, Eq, Structural, Clone, Copy)]
pub enum EstimateError {
    NotOwner,
    InvalidOrExpired,
    NotInQueue,
}

/// A customer's position: how many tickets wait ahead, and the sum of
/// their declared durations in minutes.
#[derive(Debug, PartialEq, Eq, Structural, Clone, Copy)]
pub struct QueueEstimate {
    pub people: i64,
    pub wait_minutes: i64,
}

/// A ticket-creation request as the transport layer hands it over.
#[derive(Debug, PartialEq)]
pub struct TicketNewRequest {
    pub est_minutes: i32,
    pub department_ids: Vec<String>,
}

} // verus!
