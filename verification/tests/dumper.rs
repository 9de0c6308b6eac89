use ch_dump::dumper::{Dumper, OutputFile};
use ch_dump::dumps::Dump;
use ch_dump::passband::Passband;

fn dumper() -> Dumper<u32> {
    let mut d: Dumper<u32> = Dumper::new(&[Passband::G, Passband::R], 4);
    d.set_sid_writer("sid.bin".to_string())
        .set_interpolator("flux.bin".to_string())
        .set_feature_extractor(
            "features.bin".to_string(),
            "names.txt".to_string(),
            "features.json".to_string(),
            &["mean"],
            &["amplitude", "std"],
            "{\"magn\":[]}".to_string(),
        )
        .set_write_cache(7);
    d
}

#[test]
fn new_dumper_is_empty() {
    let d: Dumper<u32> = Dumper::new(&[Passband::I], 2);
    assert!(d.dumps().is_empty());
    assert!(d.write_caches().is_empty());
    assert_eq!(d.n_threads(), 2);
    assert_eq!(d.passbands(), &vec![Passband::I]);
}

#[test]
fn dumps_keep_their_order_and_paths() {
    let d = dumper();
    let paths: Vec<&str> = d.dumps().iter().map(|x| x.get_value_path()).collect();
    assert_eq!(paths, vec!["sid.bin", "flux.bin", "features.bin"]);
    assert!(matches!(d.dumps()[0], Dump::Sid(_)));
    assert!(matches!(d.dumps()[1], Dump::Flux(_)));
    assert!(matches!(d.dumps()[2], Dump::Feature(_)));
    assert_eq!(d.write_caches(), &vec![7]);
    assert_eq!(d.dumps()[0].get_name_path(), None);
    assert_eq!(d.dumps()[1].get_json_path(), None);
    assert_eq!(d.dumps()[1].get_json(), "");
    assert!(d.dumps()[1].get_names().is_empty());
    assert_eq!(d.dumps()[2].get_name_path(), Some("names.txt"));
    assert_eq!(d.dumps()[2].get_json_path(), Some("features.json"));
    match &d.dumps()[1] {
        Dump::Flux(f) => assert_eq!(f.passbands(), &vec![Passband::G, Passband::R]),
        _ => unreachable!(),
    }
}

#[test]
fn feature_dump_names_its_columns() {
    let d = dumper();
    assert_eq!(
        d.dumps()[2].get_names(),
        vec![
            "mean_magn_g",
            "amplitude_flux_g",
            "std_flux_g",
            "mean_magn_r",
            "amplitude_flux_r",
            "std_flux_r",
        ]
    );
}

#[test]
fn write_names_writes_one_name_per_line() {
    let d = dumper();
    let mut out: Vec<OutputFile> = Vec::new();
    let n = d.write_names(&mut out);
    assert_eq!(out.len(), 1);
    assert_eq!(out[0].path, "names.txt");
    let expected = "mean_magn_g\namplitude_flux_g\nstd_flux_g\nmean_magn_r\namplitude_flux_r\nstd_flux_r\n";
    assert_eq!(out[0].contents, expected.as_bytes().to_vec());
    assert_eq!(n, expected.len());
}

#[test]
fn write_json_writes_the_description() {
    let d = dumper();
    let mut out: Vec<OutputFile> = Vec::new();
    let n = d.write_json(&mut out);
    assert_eq!(out.len(), 1);
    assert_eq!(out[0].path, "features.json");
    assert_eq!(out[0].contents, b"{\"magn\":[]}".to_vec());
    assert_eq!(n, 11);
}

#[test]
fn nothing_to_write_without_feature_dump() {
    let mut d: Dumper<()> = Dumper::new(&[Passband::G], 1);
    d.set_sid_writer("sid".to_string());
    let mut out = Vec::new();
    assert_eq!(d.write_names(&mut out), 0);
    assert_eq!(d.write_json(&mut out), 0);
    assert!(out.is_empty());
}

#[test]
fn writing_names_and_json_twice_gives_the_same_files() {
    let d = dumper();
    let mut first = Vec::new();
    let mut second = Vec::new();
    let n1 = d.write_names(&mut first);
    let n2 = d.write_names(&mut second);
    assert_eq!(n1, n2);
    assert_eq!(first.len(), second.len());
    for (a, b) in first.iter().zip(second.iter()) {
        assert_eq!(a.path, b.path);
        assert_eq!(a.contents, b.contents);
    }
    let mut j1 = Vec::new();
    let mut j2 = Vec::new();
    assert_eq!(d.write_json(&mut j1), d.write_json(&mut j2));
    assert_eq!(j1[0].contents, j2[0].contents);
}
