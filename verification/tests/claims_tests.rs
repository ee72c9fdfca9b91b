use braid::claims::{Claim, DEFAULT_LEASE_SECONDS};

#[test]
fn test_claim_expiry() {
    let mut claim = Claim::new(
        "test-123".to_string(),
        "agent".to_string(),
        "/path".to_string(),
        "main".to_string(),
        4242,
    );
    assert!(claim.is_active());
    claim.lease_until = 0;
    assert!(claim.is_expired());
}

#[test]
fn a_claim_lasts_its_lease() {
    let c = Claim::new_at("x".to_string(), "a".to_string(), "/w".to_string(), "b".to_string(), 1, 1000);
    assert_eq!(c.claimed_at, 1000);
    assert_eq!(c.lease_until, 1000 + DEFAULT_LEASE_SECONDS);
    assert!(c.is_active_at(1000 + DEFAULT_LEASE_SECONDS));
    assert!(!c.is_expired_at(1000 + DEFAULT_LEASE_SECONDS));
    assert!(c.is_expired_at(1000 + DEFAULT_LEASE_SECONDS + 1));
}

#[test]
fn renewing_extends_the_lease() {
    let mut c = Claim::new_at("x".to_string(), "a".to_string(), "/w".to_string(), "b".to_string(), 1, 1000);
    c.renew_at(5000);
    assert_eq!(c.lease_until, 5000 + DEFAULT_LEASE_SECONDS);
    assert_eq!(c.claimed_at, 1000);
}
