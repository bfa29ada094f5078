use mps_emulator::chain::{bond_after_truncation, tensor_slot, BondProfile};

#[test]
fn truncation_keeps_at_least_one() {
    assert_eq!(bond_after_truncation(0, 8), 1);
}

#[test]
fn truncation_below_cap_keeps_all() {
    assert_eq!(bond_after_truncation(3, 8), 3);
    assert_eq!(bond_after_truncation(5, 5), 5);
}

#[test]
fn truncation_caps_at_max_bond() {
    assert_eq!(bond_after_truncation(12, 8), 8);
    assert_eq!(bond_after_truncation(2, 1), 1);
}

#[test]
fn tensor_slot_is_row_major() {
    // r varies fastest, then p, then l.
    assert_eq!(tensor_slot(2, 4, 0, 0, 0), 0);
    assert_eq!(tensor_slot(2, 4, 0, 0, 3), 3);
    assert_eq!(tensor_slot(2, 4, 0, 1, 0), 4);
    assert_eq!(tensor_slot(2, 4, 1, 0, 0), 8);
    assert_eq!(tensor_slot(2, 4, 1, 1, 2), 14);
}

#[test]
fn product_state_has_unit_bonds() {
    let s = BondProfile::product_state(3);
    assert_eq!(s.chi_max(), 1);
    for k in 0..3 {
        assert_eq!(s.left_dim(k), 1);
        assert_eq!(s.right_dim(k), 1);
    }
}

#[test]
fn shared_bond_updates_both_neighbours() {
    let mut s = BondProfile::product_state(2);
    s.set_shared_bond(0, 5);
    assert_eq!(s.right_dim(0), 5);
    assert_eq!(s.left_dim(1), 5);
    assert_eq!(s.left_dim(0), 1);
    assert_eq!(s.right_dim(1), 1);
    assert_eq!(s.chi_max(), 5);
}

#[test]
fn chi_max_stays_within_cap() {
    let max_bond = 4;
    let mut s = BondProfile::product_state(4);
    for (k, above_cutoff) in [(0, 2), (1, 9), (2, 2)] {
        let kept = bond_after_truncation(above_cutoff, max_bond);
        assert!(kept >= 1 && kept <= max_bond);
        s.set_shared_bond(k, kept);
    }
    assert_eq!(s.chi_max(), 4);
    assert!(s.chi_max() <= max_bond);
}
