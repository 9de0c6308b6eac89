use ch_dump::cursor::{RowCursor, Step};

fn drain(cursor: &mut RowCursor) -> Vec<usize> {
    let mut rows = Vec::new();
    while let Step::Row(i) = cursor.next_step() {
        rows.push(i);
    }
    rows
}

#[test]
fn fresh_cursor_asks_for_a_block() {
    let mut cursor = RowCursor::new();
    assert_eq!(cursor.next_step(), Step::NeedBlock);
    assert_eq!(cursor.next_step(), Step::NeedBlock);
}

#[test]
fn block_rows_come_in_order_then_a_new_block_is_asked_for() {
    let mut cursor = RowCursor::new();
    cursor.block_arrived(3);
    assert_eq!(cursor.next_step(), Step::Row(0));
    assert_eq!(cursor.next_step(), Step::Row(1));
    assert_eq!(cursor.next_step(), Step::Row(2));
    assert_eq!(cursor.next_step(), Step::NeedBlock);
    assert_eq!(cursor.next_step(), Step::NeedBlock);
}

#[test]
fn empty_block_is_skipped() {
    let mut cursor = RowCursor::new();
    cursor.block_arrived(0);
    assert_eq!(cursor.next_step(), Step::NeedBlock);
    cursor.block_arrived(2);
    assert_eq!(drain(&mut cursor), vec![0, 1]);
}

#[test]
fn every_row_of_every_block_once() {
    let sizes = [2usize, 0, 4, 1];
    let mut cursor = RowCursor::new();
    let mut seen = Vec::new();
    for (b, &size) in sizes.iter().enumerate() {
        assert_eq!(cursor.next_step(), Step::NeedBlock);
        cursor.block_arrived(size);
        for i in drain(&mut cursor) {
            seen.push((b, i));
        }
    }
    assert_eq!(
        seen,
        vec![(0, 0), (0, 1), (2, 0), (2, 1), (2, 2), (2, 3), (3, 0)]
    );
}
