use netfyr_state::Match;

fn mk(
    name: Option<&str>,
    device_type: Option<&str>,
    driver: Option<&str>,
    pci_path: Option<&str>,
    mac: Option<&str>,
) -> Match {
    Match {
        name: name.map(str::to_string),
        device_type: device_type.map(str::to_string),
        driver: driver.map(str::to_string),
        pci_path: pci_path.map(str::to_string),
        mac: mac.map(str::to_string),
    }
}

/// A fully populated match, modeling the live device the scenarios compare against.
fn full() -> Match {
    mk(
        Some("eth0"),
        Some("ethernet"),
        Some("ixgbe"),
        Some("0000:00:02.0"),
        Some("aa:bb:cc:dd:ee:ff"),
    )
}

#[test]
fn name_only_matches() {
    assert!(mk(Some("eth0"), None, None, None, None).matches(&full()));
}

#[test]
fn name_only_mismatch() {
    let other = mk(Some("eth1"), Some("ethernet"), Some("ixgbe"), None, None);
    assert!(!mk(Some("eth0"), None, None, None, None).matches(&other));
}

#[test]
fn name_type_matches() {
    assert!(mk(Some("eth0"), Some("ethernet"), None, None, None).matches(&full()));
}

#[test]
fn name_type_mismatch() {
    let other = mk(Some("eth1"), Some("ethernet"), None, None, None);
    assert!(!mk(Some("eth0"), Some("ethernet"), None, None, None).matches(&other));
}

#[test]
fn and_logic_all_set_fields_must_match() {
    let a = mk(None, None, Some("ixgbe"), Some("0000:00:02.0"), None);
    let b = mk(None, None, Some("ixgbe"), Some("0000:00:02.0"), None);
    assert!(a.matches(&b));
    // One differing set field is enough to break the AND.
    let c = mk(None, None, Some("ixgbe"), Some("0000:00:03.0"), None);
    assert!(!a.matches(&c));
}

#[test]
fn asymmetry_partial_matches_full_but_not_reverse() {
    let partial = mk(Some("eth0"), None, None, None, None);
    let full = full();
    assert!(partial.matches(&full));
    assert!(!full.matches(&partial));
}

#[test]
fn mac_case_insensitive_both_orders() {
    let upper = mk(None, None, None, None, Some("AA:BB:CC:DD:EE:FF"));
    let lower = mk(None, None, None, None, Some("aa:bb:cc:dd:ee:ff"));
    assert!(upper.matches(&lower));
    assert!(lower.matches(&upper));
}

#[test]
fn mac_matching_does_not_normalize_storage() {
    let upper = mk(None, None, None, None, Some("AA:BB:CC:DD:EE:FF"));
    let lower = mk(None, None, None, None, Some("aa:bb:cc:dd:ee:ff"));
    let _ = upper.matches(&lower);
    assert_eq!(upper.mac.as_deref(), Some("AA:BB:CC:DD:EE:FF"));
    assert_eq!(lower.mac.as_deref(), Some("aa:bb:cc:dd:ee:ff"));
}

#[test]
fn set_in_self_unset_in_other_is_mismatch() {
    let empty = Match::default();
    assert!(!mk(Some("eth0"), None, None, None, None).matches(&empty));
    assert!(!mk(None, Some("ethernet"), None, None, None).matches(&empty));
    assert!(!mk(None, None, Some("ixgbe"), None, None).matches(&empty));
    assert!(!mk(None, None, None, Some("0000:00:02.0"), None).matches(&empty));
    assert!(!mk(None, None, None, None, Some("aa:bb:cc:dd:ee:ff")).matches(&empty));
}

#[test]
fn empty_match_matches_anything() {
    assert!(Match::default().matches(&full()));
    assert!(Match::default().is_empty());
    assert!(!mk(Some("eth0"), None, None, None, None).is_empty());
}

// Further cases.

#[test]
fn every_selector_matches_itself() {
    assert!(full().matches(&full()));
    assert!(Match::default().matches(&Match::default()));
}

#[test]
fn matching_is_transitive_on_a_chain() {
    let a = mk(Some("eth0"), None, None, None, Some("AA:bb:CC:dd:EE:ff"));
    let b = mk(Some("eth0"), Some("ethernet"), None, None, Some("aa:BB:cc:DD:ee:FF"));
    let c = full();
    assert!(a.matches(&b));
    assert!(b.matches(&c));
    assert!(a.matches(&c));
}

#[test]
fn mac_differing_in_non_letter_does_not_match() {
    let a = mk(None, None, None, None, Some("aa:bb:cc:dd:ee:ff"));
    let b = mk(None, None, None, None, Some("aa-bb-cc-dd-ee-ff"));
    assert!(!a.matches(&b));
    let c = mk(None, None, None, None, Some("aa:bb:cc:dd:ee:f"));
    assert!(!a.matches(&c));
}

#[test]
fn name_comparison_is_case_sensitive() {
    assert!(!mk(Some("ETH0"), None, None, None, None).matches(&full()));
}

#[test]
fn match_equality_compares_every_field() {
    assert_eq!(full(), full());
    assert_ne!(full(), mk(Some("eth0"), None, None, None, None));
    assert_eq!(Match::default(), Match::empty());
}
