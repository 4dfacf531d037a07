use ec::auth::{digest_passes, AdminGuard};

#[test]
fn a_guard_lets_the_token_pass_and_nothing_else() {
    let guard = AdminGuard::new(Some("admin-secret"));
    assert!(!guard.is_open());
    assert!(guard.authorize(Some("Bearer admin-secret")));
    for header in ["", "admin-secret", "bearer admin-secret", "Bearer admin-secret ", "Bearer "] {
        assert!(!guard.authorize(Some(header)), "{header}");
    }
    assert!(!guard.authorize(None));
}

#[test]
fn without_a_token_every_caller_passes() {
    let guard = AdminGuard::new(None);
    assert!(guard.is_open());
    assert!(guard.authorize(None));
    assert!(guard.authorize(Some("Bearer whatever")));
}

#[test]
fn a_guard_holds_the_sha256_digest_of_the_header() {
    let guard = AdminGuard::new(Some("admin-secret"));
    let digest = guard.expected.unwrap();
    assert_eq!(
        hex::encode(&digest),
        "817fd8f4244c028880438fabb4f6494ca9520a1b64f0ee855b7361cf425dbe92"
    );
}

#[test]
fn digests_pass_when_they_are_the_same() {
    let expected = vec![1, 2, 3];
    assert!(digest_passes(Some(&expected), &[1, 2, 3]));
    assert!(!digest_passes(Some(&expected), &[1, 2, 4]));
    assert!(!digest_passes(Some(&expected), &[1, 2]));
    assert!(digest_passes(None, &[9]));
}
