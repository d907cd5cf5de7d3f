use above_me::time::get_current_timestamp;

#[test]
/// Ensures that the function does not fail and returns some value
fn timestamp_not_empty() {
    assert!(get_current_timestamp() > 0);
}

#[test]
fn timestamp_does_not_run_backwards_by_much() {
    let first = get_current_timestamp();
    let second = get_current_timestamp();
    assert!(second + 1 >= first);
    // after the year 2020
    assert!(first > 1_577_836_800);
}
