use py_spy::linetable::decode_line;

#[test]
fn offset_zero_is_first_line() {
    assert_eq!(decode_line(&vec![0, 5, 6, 1], 10, 0), 10);
    assert_eq!(decode_line(&vec![], -3, 0), -3);
}

#[test]
fn pairs_taken_until_target_reached() {
    let table = vec![6u8, 1, 8, 2, 4, 1];
    assert_eq!(decode_line(&table, 100, 1), 101);
    assert_eq!(decode_line(&table, 100, 6), 101);
    assert_eq!(decode_line(&table, 100, 7), 103);
    assert_eq!(decode_line(&table, 100, 14), 103);
    assert_eq!(decode_line(&table, 100, 15), 104);
    assert_eq!(decode_line(&table, 100, 1000), 104);
}

#[test]
fn backward_jump_is_reflected() {
    // +5 then a loop header three lines back
    let table = vec![4u8, 5, 4, 0xfd];
    assert_eq!(decode_line(&table, 20, 8), 22);
    // every pair steps back: the lowest line is first minus all steps
    let table = vec![2u8, 0xff, 2, 0xfe];
    assert_eq!(decode_line(&table, 20, 100), 17);
}

#[test]
fn truncated_table_gives_best_estimate() {
    let table = vec![2u8, 3, 9];
    assert_eq!(decode_line(&table, 1, 50), 4);
}

#[test]
fn forward_then_backward_step() {
    let table = vec![2u8, 5, 2, 0xfd];
    assert_eq!(decode_line(&table, 10, 2), 15);
    assert_eq!(decode_line(&table, 10, 4), 12);
}
