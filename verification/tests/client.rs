use hyper_sse::client::note_attempt;

#[test]
fn first_failure_is_noted() {
    assert_eq!(note_attempt(None, false, 7), Some(7));
}

#[test]
fn later_failures_keep_the_first_time() {
    let first = note_attempt(None, false, 7);
    let second = note_attempt(first, false, 9);
    assert_eq!(note_attempt(second, false, 11), Some(7));
}

#[test]
fn success_clears_the_failure() {
    assert_eq!(note_attempt(Some(7), true, 9), None);
    assert_eq!(note_attempt(None, true, 9), None);
}

#[test]
fn failure_after_success_is_a_new_first_failure() {
    let cleared = note_attempt(Some(7), true, 9);
    assert_eq!(note_attempt(cleared, false, 11), Some(11));
}

#[test]
fn failures_from_the_start_keep_the_very_first_time() {
    let mut first_error = None;
    for now in [4, 5, 6, 7] {
        first_error = note_attempt(first_error, false, now);
        assert_eq!(first_error, Some(4));
    }
}
