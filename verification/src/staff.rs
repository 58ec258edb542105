//! Staff accounts: an account plus the shop its holder works for, and
//! the registry that creates and looks them up.

use vstd::prelude::*;

use vstd::string::StringSliceAdditionalSpecFns;

use crate::account::{argon2_digest_of, Account};

verus! {

/// A staff member: an account bound to one shop.
#[derive(Debug, PartialEq)]
pub struct Staff {
    pub account: Account,
    pub shop_id: i32,
}

impl Staff {
    pub fn new(account: Account, shop_id: i32) -> (s: Staff)
        ensures
            s.account == account,
            s.shop_id == shop_id,
    {
        Staff { account, shop_id }
    }

    pub fn shop_id(&self) -> (r: i32)
        ensures
            r == self.shop_id,
    {
        self.shop_id
    }

    /// The underlying account.
    pub fn account(&self) -> (r: &Account)
        ensures
            r == self.account,
    {
        &self.account
    }
}

/// The staff table: lookup by id or e-mail, and account creation with
/// the same e-mail-uniqueness rule as the customer registry.  Staff
/// accounts are created directly, without a confirmation step.
pub struct StaffDirectory {
    pub members: Vec<Staff>,
    pub next_id: i32,
}

impl StaffDirectory {
    pub open spec fn has_email(self, email: Seq<char>) -> bool {
        exists|i: int|
            0 <= i < self.members@.len() && (#[trigger] self.members@[i]).account.email@ == email
    }

    pub open spec fn has_staff(self, id: i32) -> bool {
        exists|i: int| 0 <= i < self.members@.len() && (#[trigger] self.members@[i]).account.id == id
    }

    /// The registry's invariant: identifiers are fresh and unique, no
    /// two staff accounts share an e-mail address.
    pub open spec fn wf(self) -> bool {
        &&& 0 <= self.next_id
        &&& forall|i: int|
            0 <= i < self.members@.len() ==> 0 <= (#[trigger] self.members@[i]).account.id
                < self.next_id
        &&& forall|i: int, j: int|
            0 <= i < j < self.members@.len() ==> (#[trigger] self.members@[i]).account.id != (
            #[trigger] self.members@[j]).account.id
        &&& forall|i: int, j: int|
            0 <= i < j < self.members@.len() ==> (#[trigger] self.members@[i]).account.email@ != (
            #[trigger] self.members@[j]).account.email@
    }

    /// An empty registry.
    pub fn new() -> (d: StaffDirectory)
        ensures
            d.wf(),
            d.members@ == Seq::<Staff>::empty(),
    {
        let d = StaffDirectory { members: Vec::new(), next_id: 0 };
        proof {
            assert(d.members@ =~= Seq::<Staff>::empty());
        }
        d
    }

    /// The staff member with this account identifier, if any.
    pub fn get(&self, id: i32) -> (r: Option<&Staff>)
        ensures
            match r {
                Some(s) => exists|i: int|
                    0 <= i < self.members@.len() && *s == #[trigger] self.members@[i]
                        && s.account.id == id,
                None => !self.has_staff(id),
            },
    {
        let mut i: usize = 0;
        while i < self.members.len()
            invariant
                i <= self.members@.len(),
                forall|j: int| 0 <= j < i ==> (#[trigger] self.members@[j]).account.id != id,
            decreases self.members@.len() - i,
        {
            if self.members[i].account.id == id {
                return Some(&self.members[i]);
            }
            i += 1;
        }
        None
    }

    /// The staff member registered under this e-mail address, if any.
    pub fn find(&self, email: &str) -> (r: Option<&Staff>)
        ensures
            match r {
                Some(s) => exists|i: int|
                    0 <= i < self.members@.len() && *s == #[trigger] self.members@[i]
                        && s.account.email@ == email@,
                None => !self.has_email(email@),
            },
    {
        let key: String = email.to_owned();
        let mut i: usize = 0;
        while i < self.members.len()
            invariant
                key@ == email@,
                i <= self.members@.len(),
                forall|j: int|
                    0 <= j < i ==> (#[trigger] self.members@[j]).account.email@ != email@,
            decreases self.members@.len() - i,
        {
            if self.members[i].account.email == key {
                return Some(&self.members[i]);
            }
            i += 1;
        }
        None
    }

    /// Create a staff account for a shop, unless the e-mail address is
    /// already in use.
    pub fn create(&mut self, email: &str, password: &str, shop_id: i32) -> (r: bool)
        requires
            old(self).wf(),
            old(self).next_id < 0x7fff_ffff,
            password.spec_bytes().len() <= 0xffff_ffff,
        ensures
            final(self).wf(),
            r == !old(self).has_email(email@),
            !r ==> final(self).members@ == old(self).members@ && final(self).next_id == old(
                self,
            ).next_id,
            r ==> ({
                &&& final(self).members@.len() == old(self).members@.len() + 1
                &&& final(self).members@.drop_last() == old(self).members@
                &&& ({
                    let s = final(self).members@.last();
                    &&& s.shop_id == shop_id
                    &&& s.account.id == old(self).next_id
                    &&& s.account.email@ == email@
                    &&& s.account.salt@.len() == 16
                    &&& s.account.digest@ == argon2_digest_of(
                        password.spec_bytes(),
                        s.account.salt@,
                    )
                })
                &&& final(self).next_id == old(self).next_id + 1
            }),
    {
        let key: String = email.to_owned();
        let mut i: usize = 0;
        while i < self.members.len()
            invariant
                *self == *old(self),
                self.wf(),
                self.next_id < 0x7fff_ffff,
                password.spec_bytes().len() <= 0xffff_ffff,
                key@ == email@,
                i <= self.members@.len(),
                forall|j: int|
                    0 <= j < i ==> (#[trigger] self.members@[j]).account.email@ != email@,
            decreases self.members@.len() - i,
        {
            if self.members[i].account.email == key {
                return false;
            }
            i += 1;
        }
        let hashed = Account::hash_password(password.as_bytes());
        let id = self.next_id;
        self.next_id = id + 1;
        let member = Staff {
            account: Account { id, email: email.to_owned(), salt: hashed.salt, digest: hashed.digest },
            shop_id,
        };
        self.members.push(member);
        proof {
            assert(self.members@.drop_last() =~= old(self).members@);
        }
        true
    }
}

/// A staff member's session data.
#[derive(Debug, PartialEq)]
pub struct StaffSession {
    pub id: i32,
    pub email: String,
    pub shop_id: i32,
}

/// Whether this staff session is allowed to act for the shop whose
/// encoded identifier appears in a request path: the identifier must
/// decode to the session's own shop.
pub fn check_staff_auth(session: &StaffSession, shop_uid: &str) -> (r: bool)
    ensures
        r == (crate::encoding::decode_serial_spec(shop_uid@) == Ok::<
            i32,
            crate::serial::FormatError,
        >(session.shop_id)),
{
    match crate::encoding::decode_serial(shop_uid) {
        Ok(id) => id == session.shop_id,
        Err(_) => false,
    }
}

/// A staff login request as the transport layer hands it over.
#[derive(Debug, PartialEq)]
pub struct RequestLogin {
    pub email: String,
    pub password: String,
    pub remember: Option<bool>,
}

/// The request naming a ticket whose entry or exit staff logs.
#[derive(Debug, PartialEq)]
pub struct LogTicketRequest {
    pub uid: String,
}

} // verus!
