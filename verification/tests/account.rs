use clup::account::Account;
use clup::customer::CustomerDirectory;
use clup::encoding::encode_serial;
use clup::staff::{check_staff_auth, StaffDirectory, StaffSession};

#[test]
fn authentication_test() {
    let pass = "Please use a long password!".as_bytes();
    let p = Account::hash_password(&pass);

    let cust = Account {
        id: 123,
        email: "123@mail.com".to_owned(),
        salt: p.salt,
        digest: p.digest,
    };

    assert!(cust.verify_authentication(&pass));
    assert!(!cust.verify_authentication(&"Another password!".as_bytes()));
    assert!(!cust.verify_authentication(&"please use a long password!".as_bytes()));
    assert!(!cust.verify_authentication(&"Please use a long password".as_bytes()));
}

#[test]
fn distinct_salt_test() {
    let pass = "Please use a long password!".as_bytes();
    let p1 = Account::hash_password(&pass);
    let p2 = Account::hash_password(&pass);

    if p1.salt == p2.salt {
        println!("Got the same salt!");
        assert_eq!(p1.digest, p2.digest);
        distinct_salt_test(); // Since we got the same salt we want to test again
    } else {
        assert_ne!(p1.digest, p2.digest);
    }
}

#[test]
fn hashed_pass_shape() {
    let p = Account::hash_password(b"some password");
    assert_eq!(p.salt.len(), 16);
    assert_eq!(p.digest.len(), 32);
    // the digest really went through the hash, it is not the password
    assert_ne!(&p.digest[..], b"some password".as_slice());
}

#[test]
fn short_salt_never_authenticates() {
    let acc = Account {
        id: 1,
        email: "a@b.c".to_owned(),
        salt: vec![1, 2, 3],
        digest: vec![0; 32],
    };
    assert!(!acc.verify_authentication(b"anything"));
}

#[test]
fn create_customer_test() {
    let mut dir = CustomerDirectory::new();
    let (email, password) = ("test-email123@mail.com", "securepassword");

    let token = dir
        .create(email, password)
        .expect("No temporary account was created");

    let account = dir
        .finalize(&token)
        .expect("No customer was created");

    assert_eq!(email, account.email());

    let loaded = dir
        .get(account.id())
        .expect("Could not find the recently created account!");

    assert_eq!(&account, loaded);
}

#[test]
fn duplicate_email_registration_refused() {
    let mut dir = CustomerDirectory::new();
    let code = dir.create("x@mail.com", "first password").unwrap();
    let first = dir.finalize(&code).unwrap();
    assert!(first.verify_authentication(b"first password"));

    // once the address is registered, a new registration is refused
    assert!(dir.create("x@mail.com", "second password").is_none());

    // a pending registration parked before the first confirmation
    // cannot be confirmed once the address is taken
    let code2 = dir.create("y@mail.com", "pw").unwrap();
    let code3 = dir.create("y@mail.com", "pw2").unwrap();
    assert!(dir.finalize(&code2).is_some());
    assert!(dir.finalize(&code3).is_none());
}

#[test]
fn finalize_unknown_code() {
    let mut dir = CustomerDirectory::new();
    assert!(dir.finalize(&[0u8; 32]).is_none());
}

#[test]
fn find_by_email() {
    let mut dir = CustomerDirectory::new();
    let code = dir.create("who@where.com", "a strong password").unwrap();
    let account = dir.finalize(&code).unwrap();
    let found = dir.find("who@where.com").expect("account should be found");
    assert_eq!(&account, found);
    assert!(dir.find("nobody@where.com").is_none());
}

#[test]
fn update_password_test() {
    let mut dir = CustomerDirectory::new();
    let code = dir.create("u@mail.com", "old password").unwrap();
    let account = dir.finalize(&code).unwrap();

    assert!(dir.update_password(account.id(), "new password"));
    let updated = dir.get(account.id()).unwrap();
    assert!(updated.verify_authentication(b"new password"));
    assert!(!updated.verify_authentication(b"old password"));

    // an unknown customer cannot have a password updated
    assert!(!dir.update_password(9999, "whatever"));
}

#[test]
fn staff_directory_test() {
    let mut dir = StaffDirectory::new();
    assert!(dir.create("staff@shop.com", "a staff password", 5));
    // the address is now taken
    assert!(!dir.create("staff@shop.com", "other password", 6));

    let found = dir.find("staff@shop.com").expect("staff should be found");
    assert_eq!(found.shop_id(), 5);
    assert!(found.account().verify_authentication(b"a staff password"));
    assert!(!found.account().verify_authentication(b"wrong"));

    let id = found.account().id();
    let by_id = dir.get(id).expect("staff by id");
    assert_eq!(by_id.account().email(), "staff@shop.com");
    assert!(dir.get(id + 1).is_none());
    assert!(dir.find("other@shop.com").is_none());
}

#[test]
fn check_staff_auth_test() {
    let session = StaffSession {
        id: 1,
        email: "staff@shop.com".to_owned(),
        shop_id: 42,
    };
    let uid = encode_serial(42);
    assert!(check_staff_auth(&session, &uid));
    assert!(!check_staff_auth(&session, &encode_serial(43)));
    assert!(!check_staff_auth(&session, "not hex at all"));
}
