use ch_dump::passband::{Passband, N_PASSBANDS};

#[test]
fn codes_map_to_passbands() {
    assert_eq!(Passband::from_code(1), Some(Passband::G));
    assert_eq!(Passband::from_code(2), Some(Passband::R));
    assert_eq!(Passband::from_code(3), Some(Passband::I));
    assert_eq!(Passband::from_code(0), None);
    assert_eq!(Passband::from_code(4), None);
}

#[test]
fn each_passband_has_its_own_slot() {
    let slots: Vec<usize> = [Passband::G, Passband::R, Passband::I]
        .iter()
        .map(|p| p.lcs_index())
        .collect();
    assert_eq!(slots, vec![0, 1, 2]);
    assert!(slots.iter().all(|&s| s < N_PASSBANDS));
}

#[test]
fn passband_names() {
    assert_eq!(Passband::G.name(), "g");
    assert_eq!(Passband::R.name(), "r");
    assert_eq!(Passband::I.name(), "i");
}
