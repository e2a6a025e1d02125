use zitadel_actions_manager::{
    auth::{service_account_assertion, JwtError},
    orgs::{next_org_offset, ORG_PAGE_SIZE},
};

/// An RSA public key: it reads as an RSA key in PEM form, but nothing can be
/// signed with it.
const PUBLIC_KEY: &str = "-----BEGIN PUBLIC KEY-----\nMIIBIjANBgkqhkiG9w0BAQEFAAOCAQ8AMIIBCgKCAQEAmB4Y7DFj6cUvLt1AQW+q\ndUVHym20TYzjoKnA5HtK89+JPE+T0K7KX4oZrRwMS4ZImlfyUvZRmgJc2xSJr8u/\nkm2VJBvWLse8swAbzTTzg/lo1QND1gE1OoIBGIf/Rz/Uu04MhyNnLju3HJU4pmwQ\nIGdsmoaQEncdSTcN7B7pCDNBBOOG/R6/JmsX9qzhtUIJJOcbfZsbjPLrvWAwblUX\nNkJRFi1NQkFBCNuqgWCTtBA3Y5mj1QNAxjAmjYVxsEFGNhqcGsLjOS7b2m3GkEU/\noqEunHo5xWCgBJXbtjGP6jCoMrJZJYjUqwQXn0USHPGFhB9JeKvIxfnWKr84XCRM\npwIDAQAB\n-----END PUBLIC KEY-----\n";

#[test]
fn service_account_assertion_refuses_a_bad_key() {
    assert_eq!(
        service_account_assertion("not a key", "k", "u", "aud", 0),
        Err(JwtError::Key)
    );
}

#[test]
fn service_account_assertion_reads_the_key_before_signing() {
    assert_eq!(
        service_account_assertion(PUBLIC_KEY, "key-1", "user-7", "http://localhost:9310", 1_000_000),
        Err(JwtError::Sign)
    );
}

#[test]
fn service_account_assertion_refuses_an_expiry_out_of_range() {
    assert_eq!(
        service_account_assertion("not a key", "k", "u", "aud", i64::MAX - 59),
        Err(JwtError::Overflow)
    );
    assert_eq!(
        service_account_assertion(PUBLIC_KEY, "k", "u", "aud", i64::MAX - 59),
        Err(JwtError::Overflow)
    );
    assert_eq!(
        service_account_assertion("not a key", "k", "u", "aud", i64::MAX - 60),
        Err(JwtError::Key)
    );
    assert_eq!(
        service_account_assertion(PUBLIC_KEY, "k", "u", "aud", i64::MAX - 60),
        Err(JwtError::Sign)
    );
}

#[test]
fn org_pages_advance_until_none_comes_back() {
    assert_eq!(ORG_PAGE_SIZE, 100);
    assert_eq!(next_org_offset(0, true), Some(100));
    assert_eq!(next_org_offset(300, true), Some(400));
    assert_eq!(next_org_offset(300, false), None);
    assert_eq!(next_org_offset(u64::MAX - 99, true), None);
    assert_eq!(next_org_offset(u64::MAX - 100, true), Some(u64::MAX));
}
