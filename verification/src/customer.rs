//! The customer registry: registration with e-mail confirmation, login
//! lookup and password updates, over an in-memory snapshot of the
//! customer table and the pending registrations.

use vstd::prelude::*;

use vstd::string::StringSliceAdditionalSpecFns;

use crate::account::{argon2_digest_of, Account, TempCustomer};

verus! {

/// Accounts `a` and `b` carry the same data, buffers compared by
/// contents.
pub open spec fn account_eq(a: Account, b: Account) -> bool {
    &&& a.id == b.id
    &&& a.email@ == b.email@
    &&& a.salt@ == b.salt@
    &&& a.digest@ == b.digest@
}

/// The customer table and the pending registrations.
pub struct CustomerDirectory {
    pub customers: Vec<Account>,
    pub temp: Vec<TempCustomer>,
    pub next_id: i32,
}

impl CustomerDirectory {
    pub open spec fn has_email(self, email: Seq<char>) -> bool {
        exists|i: int|
            0 <= i < self.customers@.len() && (#[trigger] self.customers@[i]).email@ == email
    }

    pub open spec fn has_customer(self, id: i32) -> bool {
        exists|i: int| 0 <= i < self.customers@.len() && (#[trigger] self.customers@[i]).id == id
    }

    /// The registry's invariant: identifiers are fresh and unique, no
    /// two accounts share an e-mail address.
    pub open spec fn wf(self) -> bool {
        &&& 0 <= self.next_id
        &&& forall|i: int|
            0 <= i < self.customers@.len() ==> 0 <= (#[trigger] self.customers@[i]).id
                < self.next_id
        &&& forall|i: int, j: int|
            0 <= i < j < self.customers@.len() ==> (#[trigger] self.customers@[i]).id != (
            #[trigger] self.customers@[j]).id
        &&& forall|i: int, j: int|
            0 <= i < j < self.customers@.len() ==> (#[trigger] self.customers@[i]).email@ != (
            #[trigger] self.customers@[j]).email@
    }

    /// An empty registry.
    pub fn new() -> (d: CustomerDirectory)
        ensures
            d.wf(),
            d.customers@ == Seq::<Account>::empty(),
            d.temp@ == Seq::<TempCustomer>::empty(),
    {
        let d = CustomerDirectory { customers: Vec::new(), temp: Vec::new(), next_id: 0 };
        proof {
            assert(d.customers@ =~= Seq::<Account>::empty());
            assert(d.temp@ =~= Seq::<TempCustomer>::empty());
        }
        d
    }

    /// The account with this identifier, if any.
    pub fn get(&self, id: i32) -> (r: Option<&Account>)
        ensures
            match r {
                Some(a) => exists|i: int|
                    0 <= i < self.customers@.len() && *a == #[trigger] self.customers@[i]
                        && a.id == id,
                None => !self.has_customer(id),
            },
    {
        let mut i: usize = 0;
        while i < self.customers.len()
            invariant
                i <= self.customers@.len(),
                forall|j: int| 0 <= j < i ==> (#[trigger] self.customers@[j]).id != id,
            decreases self.customers@.len() - i,
        {
            if self.customers[i].id == id {
                return Some(&self.customers[i]);
            }
            i += 1;
        }
        None
    }

    /// The account registered under this e-mail address, if any.
    pub fn find(&self, email: &str) -> (r: Option<&Account>)
        ensures
            match r {
                Some(a) => exists|i: int|
                    0 <= i < self.customers@.len() && *a == #[trigger] self.customers@[i]
                        && a.email@ == email@,
                None => !self.has_email(email@),
            },
    {
        let key: String = email.to_owned();
        let mut i: usize = 0;
        while i < self.customers.len()
            invariant
                key@ == email@,
                i <= self.customers@.len(),
                forall|j: int| 0 <= j < i ==> (#[trigger] self.customers@[j]).email@ != email@,
            decreases self.customers@.len() - i,
        {
            if self.customers[i].email == key {
                return Some(&self.customers[i]);
            }
            i += 1;
        }
        None
    }

    /// Start a registration: if no account uses this e-mail yet, hash
    /// the password, park the data under a fresh random confirmation
    /// code and return the code.  An e-mail already registered is
    /// refused with `None`.  A pending registration for the same
    /// address does not block a new one; only confirmation decides.
    pub fn create(&mut self, email: &str, password: &str) -> (r: Option<Vec<u8>>)
        requires
            old(self).wf(),
            password.spec_bytes().len() <= 0xffff_ffff,
        ensures
            final(self).wf(),
            final(self).customers@ == old(self).customers@,
            final(self).next_id == old(self).next_id,
            old(self).has_email(email@) ==> r is None && final(self).temp@ == old(self).temp@,
            !old(self).has_email(email@) ==> ({
                &&& final(self).temp@.len() == old(self).temp@.len() + 1
                &&& final(self).temp@.drop_last() == old(self).temp@
                &&& ({
                    let t = final(self).temp@.last();
                    &&& t.email@ == email@
                    &&& t.code@.len() == 32
                    &&& t.salt@.len() == 16
                    &&& t.digest@ == argon2_digest_of(password.spec_bytes(), t.salt@)
                    &&& (r matches Some(code) && code@ == t.code@)
                })
            }),
    {
        let key: String = email.to_owned();
        let mut i: usize = 0;
        while i < self.customers.len()
            invariant
                *self == *old(self),
                self.wf(),
                key@ == email@,
                i <= self.customers@.len(),
                forall|j: int| 0 <= j < i ==> (#[trigger] self.customers@[j]).email@ != email@,
            decreases self.customers@.len() - i,
        {
            if self.customers[i].email == key {
                return None;
            }
            i += 1;
        }
        let hashed = Account::hash_password(password.as_bytes());
        let code = crate::account::random_bytes(32);
        let code_copy = crate::account::copy_bytes(&code);
        let parked = TempCustomer {
            code,
            email: email.to_owned(),
            salt: hashed.salt,
            digest: hashed.digest,
        };
        self.temp.push(parked);
        proof {
            assert(self.temp@.drop_last() =~= old(self).temp@);
        }
        Some(code_copy)
    }

    /// Complete a registration: the first pending entry under this code
    /// becomes an account with a fresh identifier and the entry is
    /// consumed.  An unknown code, or an e-mail that was taken while
    /// the registration was pending, yields `None` and changes nothing.
    pub fn finalize(&mut self, code: &[u8]) -> (r: Option<Account>)
        requires
            old(self).wf(),
            old(self).next_id < 0x7fff_ffff,
        ensures
            final(self).wf(),
            match r {
                Some(a) => exists|k: int|
                    0 <= k < old(self).temp@.len() && ({
                        let t = #[trigger] old(self).temp@[k];
                        &&& t.code@ == code@
                        &&& a.id == old(self).next_id
                        &&& a.email@ == t.email@
                        &&& a.salt@ == t.salt@
                        &&& a.digest@ == t.digest@
                        &&& !old(self).has_email(t.email@)
                        &&& final(self).temp@ == old(self).temp@.remove(k)
                        &&& final(self).customers@.len() == old(self).customers@.len() + 1
                        &&& final(self).customers@.drop_last() == old(self).customers@
                        &&& account_eq(final(self).customers@.last(), a)
                        &&& final(self).next_id == old(self).next_id + 1
                    }),
                None => *final(self) == *old(self) && ((forall|k: int|
                    0 <= k < old(self).temp@.len() ==> (#[trigger] old(self).temp@[k]).code@
                        != code@) || (exists|k: int|
                    0 <= k < old(self).temp@.len() && (#[trigger] old(self).temp@[k]).code@
                        == code@ && old(self).has_email(old(self).temp@[k].email@))),
            },
    {
        let mut k: usize = 0;
        let n = self.temp.len();
        while k < n
            invariant
                *self == *old(self),
                self.wf(),
                self.next_id < 0x7fff_ffff,
                n == self.temp@.len(),
                k <= n,
                forall|j: int|
                    0 <= j < k && (#[trigger] self.temp@[j]).code@ == code@ ==> self.has_email(
                        self.temp@[j].email@,
                    ),
            decreases n - k,
        {
            if crate::account::eq_byte_slices(self.temp[k].code.as_slice(), code) {
                let mut taken = false;
                let mut i: usize = 0;
                while i < self.customers.len()
                    invariant
                        *self == *old(self),
                        self.wf(),
                        self.next_id < 0x7fff_ffff,
                        k < self.temp@.len(),
                        self.temp@[k as int].code@ == code@,
                        i <= self.customers@.len(),
                        taken == exists|j: int|
                            0 <= j < i && (#[trigger] self.customers@[j]).email@
                                == self.temp@[k as int].email@,
                    decreases self.customers@.len() - i,
                {
                    if self.customers[i].email == self.temp[k].email {
                        taken = true;
                    }
                    i += 1;
                }
                if taken {
                    return None;
                }
                let entry = self.temp.remove(k);
                let id = self.next_id;
                self.next_id = id + 1;
                let copied = Account {
                    id,
                    email: entry.email.clone(),
                    salt: crate::account::copy_bytes(&entry.salt),
                    digest: crate::account::copy_bytes(&entry.digest),
                };
                let stored = Account {
                    id,
                    email: entry.email,
                    salt: entry.salt,
                    digest: entry.digest,
                };
                self.customers.push(stored);
                proof {
                    assert(self.customers@.drop_last() =~= old(self).customers@);
                    let ghost t0 = old(self).temp@[k as int];
                    assert(!old(self).has_email(t0.email@));
                }
                return Some(copied);
            }
            k += 1;
        }
        None
    }

    /// Replace a customer's password with a fresh hash of the new one.
    /// Returns whether the customer exists.
    pub fn update_password(&mut self, id: i32, password: &str) -> (r: bool)
        requires
            old(self).wf(),
            password.spec_bytes().len() <= 0xffff_ffff,
        ensures
            final(self).wf(),
            final(self).temp@ == old(self).temp@,
            final(self).next_id == old(self).next_id,
            r == old(self).has_customer(id),
            !r ==> final(self).customers@ == old(self).customers@,
            r ==> ({
                let i = choose|i: int|
                    0 <= i < old(self).customers@.len() && (#[trigger] old(
                        self,
                    ).customers@[i]).id == id;
                &&& final(self).customers@.len() == old(self).customers@.len()
                &&& (forall|j: int|
                    0 <= j < old(self).customers@.len() && j != i ==> final(self).customers@[j]
                        == #[trigger] old(self).customers@[j])
                &&& ({
                    let a = final(self).customers@[i];
                    &&& a.id == id
                    &&& a.email@ == old(self).customers@[i].email@
                    &&& a.salt@.len() == 16
                    &&& a.digest@ == argon2_digest_of(password.spec_bytes(), a.salt@)
                })
            }),
    {
        let mut i: usize = 0;
        while i < self.customers.len()
            invariant
                *self == *old(self),
                self.wf(),
                password.spec_bytes().len() <= 0xffff_ffff,
                i <= self.customers@.len(),
                forall|j: int| 0 <= j < i ==> (#[trigger] self.customers@[j]).id != id,
            decreases self.customers@.len() - i,
        {
            if self.customers[i].id == id {
                proof {
                    let w = choose|w: int|
                        0 <= w < old(self).customers@.len() && (#[trigger] old(
                            self,
                        ).customers@[w]).id == id;
                    if w != i as int {
                        assert(old(self).customers@[w].id != old(self).customers@[i as int].id);
                    }
                }
                let hashed = Account::hash_password(password.as_bytes());
                self.customers[i].salt = hashed.salt;
                self.customers[i].digest = hashed.digest;
                proof {
                    assert forall|a: int, b: int|
                        0 <= a < b < self.customers@.len() implies (
                        #[trigger] self.customers@[a]).email@ != (
                        #[trigger] self.customers@[b]).email@ by {
                        assert(old(self).customers@[a].email@ != old(self).customers@[b].email@);
                    }
                    assert forall|a: int, b: int|
                        0 <= a < b < self.customers@.len() implies (
                        #[trigger] self.customers@[a]).id != (
                        #[trigger] self.customers@[b]).id by {
                        assert(old(self).customers@[a].id != old(self).customers@[b].id);
                    }
                }
                return true;
            }
            i += 1;
        }
        false
    }
}

} // verus!
