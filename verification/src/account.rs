//! Accounts and password hashing.  The digest is computed by Argon2
//! through a trusted wrapper; everything around it — salt handling and
//! the comparison that decides authentication — is verified.

use vstd::prelude::*;

verus! {

/// The Argon2 digest of a password and salt under the library's fixed
/// configuration.  Its pages-long definition lives in the outside
/// crate; contracts only need that it is a function of the two inputs.
pub uninterp spec fn argon2_digest_of(password: Seq<u8>, salt: Seq<u8>) -> Seq<u8>;

/// Relies on argon2::hash_raw of the rust-argon2 crate, with
/// `Config::default()`: the 32-byte digest is a deterministic function
/// of password and salt alone.  With the default configuration and the
/// lengths bounded here, its validation cannot fail.
#[verifier::external_body]
fn argon2_hash(password: &[u8], salt: &Vec<u8>) -> (r: Vec<u8>)
    requires
        8 <= salt@.len() <= 0xffff_ffff,
        password@.len() <= 0xffff_ffff,
    ensures
        r@ == argon2_digest_of(password@, salt@),
        r@.len() == 32,
{
    let config = argon2::Config::default();
    match argon2::hash_raw(password, salt.as_slice(), &config) {
        Ok(digest) => digest,
        // unreachable: the default configuration passes every check of
        // Context::new for the lengths admitted above
        Err(_) => Vec::new(),
    }
}

/// Relies on rand::fill: the buffer is filled from the thread-local
/// generator.  Nothing is promised of the contents, only the length.
#[verifier::external_body]
pub(crate) fn random_bytes(n: usize) -> (r: Vec<u8>)
    ensures
        r@.len() == n,
{
    let mut buf = vec![0u8; n];
    rand::fill(&mut buf[..]);
    buf
}

/// Copy a byte buffer element by element.
pub(crate) fn copy_bytes(v: &Vec<u8>) -> (r: Vec<u8>)
    ensures
        r@ == v@,
{
    let mut r: Vec<u8> = Vec::new();
    let mut i: usize = 0;
    while i < v.len()
        invariant
            i <= v@.len(),
            r@ == v@.take(i as int),
        decreases v@.len() - i,
    {
        r.push(v[i]);
        proof {
            assert(v@.take(i + 1) =~= v@.take(i as int).push(v@[i as int]));
        }
        i += 1;
    }
    proof {
        assert(v@.take(v@.len() as int) =~= v@);
    }
    r
}

/// Byte-for-byte equality of two slices.
pub(crate) fn eq_byte_slices(a: &[u8], b: &[u8]) -> (r: bool)
    ensures
        r == (a@ == b@),
{
    if a.len() != b.len() {
        proof {
            assert(a@.len() != b@.len());
        }
        return false;
    }
    let mut i: usize = 0;
    while i < a.len()
        invariant
            a@.len() == b@.len(),
            i <= a@.len(),
            forall|j: int| 0 <= j < i ==> a@[j] == b@[j],
        decreases a@.len() - i,
    {
        if a[i] != b[i] {
            return false;
        }
        i += 1;
    }
    proof {
        assert(a@ =~= b@);
    }
    true
}

/// Login data for one account: a salted Argon2 digest of the password.
#[derive(Debug, PartialEq)]
pub struct Account {
    pub id: i32,
    pub email: String,
    pub salt: Vec<u8>,
    pub digest: Vec<u8>,
}

/// Salt and digest produced by the password hashing function.
#[derive(Debug, PartialEq)]
pub struct HashedPass {
    pub salt: Vec<u8>,
    pub digest: Vec<u8>,
}

impl Account {
    pub fn new(id: i32, email: String, salt: Vec<u8>, digest: Vec<u8>) -> (a: Account)
        ensures
            a.id == id,
            a.email == email,
            a.salt == salt,
            a.digest == digest,
    {
        Account { id, email, salt, digest }
    }

    /// Whether `password` is the account's password: its digest under
    /// the stored salt must match the stored digest.  A salt whose
    /// length no digest can be computed for never authenticates.
    pub fn verify_authentication(&self, password: &[u8]) -> (r: bool)
        requires
            password@.len() <= 0xffff_ffff,
        ensures
            r == (8 <= self.salt@.len() <= 0xffff_ffff && self.digest@ == argon2_digest_of(
                password@,
                self.salt@,
            )),
    {
        if self.salt.len() < 8 || self.salt.len() > 0xffff_ffff {
            return false;
        }
        let digest = argon2_hash(password, &self.salt);
        eq_byte_slices(digest.as_slice(), self.digest.as_slice())
    }

    /// Hash a password under a fresh 16-byte random salt.
    pub fn hash_password(password: &[u8]) -> (h: HashedPass)
        requires
            password@.len() <= 0xffff_ffff,
        ensures
            h.salt@.len() == 16,
            h.digest@ == argon2_digest_of(password@, h.salt@),
            h.digest@.len() == 32,
    {
        let salt = random_bytes(16);
        let digest = argon2_hash(password, &salt);
        HashedPass { salt, digest }
    }

    pub fn id(&self) -> (r: i32)
        ensures
            r == self.id,
    {
        self.id
    }

    pub fn email(&self) -> (r: &str)
        ensures
            r@ == self.email@,
    {
        self.email.as_str()
    }

    pub fn salt(&self) -> (r: &[u8])
        ensures
            r@ == self.salt@,
    {
        self.salt.as_slice()
    }

    pub fn digest(&self) -> (r: &[u8])
        ensures
            r@ == self.digest@,
    {
        self.digest.as_slice()
    }
}

/// A not-yet-confirmed registration: the account data parked under a
/// confirmation code until the code is presented.
#[derive(Debug, PartialEq)]
pub struct TempCustomer {
    pub code: Vec<u8>,
    pub email: String,
    pub salt: Vec<u8>,
    pub digest: Vec<u8>,
}

/// A customer login request as the transport layer hands it over.
#[derive(Debug, PartialEq)]
pub struct RequestLogin {
    pub email: String,
    pub password: String,
    pub remember: Option<bool>,
}

/// A registration request.
#[derive(Debug, PartialEq)]
pub struct RequestRegistration {
    pub email: String,
    pub password: String,
}

/// The confirmation code query of the registration flow.
#[derive(Debug, PartialEq)]
pub struct ConfirmQuery {
    pub code: String,
}

/// A customer's session data.
#[derive(Debug, PartialEq)]
pub struct CustomerSession {
    pub id: i32,
    pub email: String,
}

} // verus!
