use hyper_sse::clock::{from_unix_nanos, to_unix_nanos, MAX_UNIX_NANOS};

#[test]
fn time_since_the_epoch_is_positive() {
    assert_eq!(to_unix_nanos(Ok((2, 500))), 2_000_000_500);
    assert_eq!(to_unix_nanos(Ok((0, 0))), 0);
}

#[test]
fn time_before_the_epoch_is_negative() {
    assert_eq!(to_unix_nanos(Err((2, 500))), -2_000_000_500);
}

#[test]
fn largest_readings_fit() {
    let largest = 18_446_744_073_709_551_615_999_999_999;
    assert_eq!(to_unix_nanos(Ok((u64::MAX, 999_999_999))), largest);
    assert_eq!(to_unix_nanos(Err((u64::MAX, 999_999_999))), -largest);
}

#[test]
fn readings_are_recovered_from_numbers() {
    assert_eq!(from_unix_nanos(2_000_000_500), Ok((2, 500)));
    assert_eq!(from_unix_nanos(-2_000_000_500), Err((2, 500)));
    assert_eq!(from_unix_nanos(0), Ok((0, 0)));
    assert_eq!(from_unix_nanos(MAX_UNIX_NANOS), Ok((u64::MAX, 999_999_999)));
    assert_eq!(from_unix_nanos(-MAX_UNIX_NANOS), Err((u64::MAX, 999_999_999)));
    for nanos in [-1, 0, 1, 999_999_999, 1_000_000_000, 1_530_000_000_000_000_001] {
        assert_eq!(to_unix_nanos(from_unix_nanos(nanos)), nanos);
    }
}
