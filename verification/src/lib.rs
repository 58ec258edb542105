//! Virtual-queue admission control for shops with capacity-bounded
//! departments, together with the reversible integer codec that the
//! surrounding system uses to expose identifiers in URLs.
//!
//! The queueing core keeps an in-memory snapshot of the ticket table and
//! decides who may enter next; every operation carries a contract and the
//! safety properties (capacity is never exceeded, admission is first-come
//! first-served) are proved.

pub mod account;
pub mod counting;
pub mod customer;
pub mod encoding;
pub mod feistel;
pub mod laws;
pub mod persistence;
pub mod serial;
pub mod shop;
pub mod staff;
pub mod store;
pub mod ticket;
