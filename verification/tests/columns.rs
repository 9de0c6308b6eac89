use ch_dump::columns::feature_column_names;
use ch_dump::passband::Passband;

#[test]
fn columns_are_grouped_by_passband_then_brightness() {
    let names = feature_column_names(
        &[Passband::G, Passband::R],
        &["amplitude", "mean"],
        &["amplitude"],
    );
    assert_eq!(
        names,
        vec![
            "amplitude_magn_g",
            "mean_magn_g",
            "amplitude_flux_g",
            "amplitude_magn_r",
            "mean_magn_r",
            "amplitude_flux_r",
        ]
    );
}

#[test]
fn no_passband_no_column() {
    assert!(feature_column_names(&[], &["a"], &["b"]).is_empty());
}

#[test]
fn column_count_is_bands_times_features() {
    let names = feature_column_names(
        &[Passband::G, Passband::R, Passband::I],
        &["a", "b", "c"],
        &["d", "e"],
    );
    assert_eq!(names.len(), 3 * 5);
    assert_eq!(names[2 * 5 + 3 + 1], "e_flux_i");
    assert_eq!(names[1 * 5 + 2], "c_magn_r");
}
