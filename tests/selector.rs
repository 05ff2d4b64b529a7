use aleph_xtf::{calculate_selector, selector_from_digest};

#[test]
fn selector_is_blake2b_prefix() {
    let digest = blake2_rfc::blake2b::blake2b(32, &[], b"transfer");
    let expected = [digest.as_bytes()[0], digest.as_bytes()[1], digest.as_bytes()[2], digest.as_bytes()[3]];
    assert_eq!(calculate_selector("transfer"), expected);
    assert_ne!(calculate_selector("transfer"), *b"tran");
    assert_ne!(calculate_selector("transfer"), calculate_selector("transfer_from"));
}

#[test]
fn selector_from_digest_takes_first_four_bytes() {
    assert_eq!(selector_from_digest(&[9, 8, 7, 6, 5, 4]), [9, 8, 7, 6]);
}
