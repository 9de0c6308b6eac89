use ch_dump::dumps::SIDDump;
use ch_dump::columns::feature_column_names;
use ch_dump::encoding::{extend_with_native_words, feature_record, u64_record};
use ch_dump::passband::Passband;

#[test]
fn sid_record_is_native_bytes() {
    let d = SIDDump::new("sid.bin".to_string());
    let sid = 0x0102_0304_0506_0708u64;
    assert_eq!(d.eval(sid), sid.to_ne_bytes().to_vec());
    assert_eq!(u64_record(42), 42u64.to_ne_bytes().to_vec());
    assert_ne!(u64_record(1), vec![0u8; 8]);
}

#[test]
fn words_are_appended_in_order() {
    let mut out = vec![0xAAu8];
    let words = [1.5f32.to_bits(), (-2.0f32).to_bits(), 7u32];
    extend_with_native_words(&mut out, &words);
    let mut expected = vec![0xAAu8];
    for w in words {
        expected.extend_from_slice(&w.to_ne_bytes());
    }
    assert_eq!(out, expected);
    assert_eq!(out.len(), 1 + 4 * 3);
}

#[test]
fn no_words_no_bytes() {
    let mut out = vec![1u8, 2];
    extend_with_native_words(&mut out, &[]);
    assert_eq!(out, vec![1, 2]);
}

#[test]
fn feature_record_is_bands_then_magn_then_flux() {
    let per_band = vec![(vec![1u32, 2], vec![3u32]), (vec![4u32, 5], vec![6u32])];
    let rec = feature_record(&per_band);
    let mut expected = Vec::new();
    for w in [1u32, 2, 3, 4, 5, 6] {
        expected.extend_from_slice(&w.to_ne_bytes());
    }
    assert_eq!(rec, expected);
    assert_eq!(rec.len(), 4 * 6);
}

#[test]
fn feature_record_values_follow_column_names() {
    let names = feature_column_names(&[Passband::G, Passband::I], &["mean"], &["amp", "std"]);
    let per_band = vec![(vec![10u32], vec![11u32, 12]), (vec![20u32], vec![21u32, 22])];
    let rec = feature_record(&per_band);
    assert_eq!(rec.len(), 4 * names.len());
    let value = |k: usize| u32::from_ne_bytes([rec[4 * k], rec[4 * k + 1], rec[4 * k + 2], rec[4 * k + 3]]);
    assert_eq!(names[4], "amp_flux_i");
    assert_eq!(value(4), 21);
    assert_eq!(names[0], "mean_magn_g");
    assert_eq!(value(0), 10);
    assert_eq!(names[2], "std_flux_g");
    assert_eq!(value(2), 12);
}

#[test]
fn feature_record_of_no_band_is_empty() {
    assert!(feature_record(&[]).is_empty());
}
