use clipedit::clock::{epoch_millis, now_millis};

#[test]
fn epoch_millis_keeps_small_values() {
    assert_eq!(epoch_millis(Some(1_700_000_000_123)), 1_700_000_000_123);
}

#[test]
fn epoch_millis_cuts_to_low_bits() {
    let big: u128 = (1u128 << 64) + 5;
    assert_eq!(epoch_millis(Some(big)), 5);
}

#[test]
fn epoch_millis_before_epoch_is_zero() {
    assert_eq!(epoch_millis(None), 0);
}

#[test]
fn now_millis_reads_the_clock() {
    let a = now_millis();
    assert!(a > 1_600_000_000_000);
}
