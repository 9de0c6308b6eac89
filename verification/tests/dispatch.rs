use ch_dump::dispatch::{Dispatcher, Flush, FLUSH_THRESHOLD};

fn as_pairs(flushes: Vec<Flush>) -> Vec<(usize, Vec<u8>)> {
    flushes.into_iter().map(|f| (f.dump, f.bytes)).collect()
}

#[test]
fn flush_threshold_is_64_kib() {
    assert_eq!(FLUSH_THRESHOLD, 64 * 1024);
}

#[test]
fn small_records_stay_buffered_until_finish() {
    let mut d = Dispatcher::new(2, 10);
    assert!(d.dispatch(vec![vec![1, 2], vec![3]]).is_empty());
    assert!(d.dispatch(vec![vec![4], vec![5, 6]]).is_empty());
    assert_eq!(
        as_pairs(d.finish()),
        vec![(0, vec![1, 2, 4]), (1, vec![3, 5, 6])]
    );
}

#[test]
fn buffer_reaching_threshold_is_flushed_whole() {
    let mut d = Dispatcher::new(2, 4);
    assert!(d.dispatch(vec![vec![1, 2, 3], vec![9]]).is_empty());
    let f = as_pairs(d.dispatch(vec![vec![4], vec![8]]));
    assert_eq!(f, vec![(0, vec![1, 2, 3, 4])]);
    let f = as_pairs(d.dispatch(vec![vec![5, 6, 7, 8, 9], vec![7, 6]]));
    assert_eq!(f, vec![(0, vec![5, 6, 7, 8, 9]), (1, vec![9, 8, 7, 6])]);
    assert!(d.finish().is_empty());
}

#[test]
fn empty_buffers_are_not_flushed_at_finish() {
    let mut d = Dispatcher::new(3, 100);
    assert!(d.dispatch(vec![vec![], vec![1], vec![]]).is_empty());
    assert_eq!(as_pairs(d.finish()), vec![(1, vec![1])]);
}

#[test]
fn zero_threshold_flushes_every_record() {
    let mut d = Dispatcher::new(2, 0);
    let f = as_pairs(d.dispatch(vec![vec![1], vec![]]));
    assert_eq!(f, vec![(0, vec![1]), (1, vec![])]);
    assert!(d.finish().is_empty());
}

#[test]
fn each_file_receives_its_column_in_order() {
    let batches: Vec<Vec<Vec<u8>>> = (0u8..50)
        .map(|s| vec![vec![s; 3], vec![s, s.wrapping_mul(7)], vec![]])
        .collect();
    let mut d = Dispatcher::new(3, 16);
    let mut files: Vec<Vec<u8>> = vec![Vec::new(); 3];
    for batch in batches.iter().cloned() {
        for f in d.dispatch(batch) {
            assert!(f.bytes.len() >= 16);
            files[f.dump].extend_from_slice(&f.bytes);
        }
    }
    for f in d.finish() {
        assert!(!f.bytes.is_empty());
        files[f.dump].extend_from_slice(&f.bytes);
    }
    for i in 0..3 {
        let column: Vec<u8> = batches.iter().flat_map(|b| b[i].clone()).collect();
        assert_eq!(files[i], column);
    }
}
