use hyper_sse::token::{
    authorize, correct_channel, fresh_token, AuthToken, Verdict, TOKEN_LIFETIME,
};

fn token(created: i128, allowed_channel: Option<&'static str>) -> Option<AuthToken<&'static str>> {
    Some(AuthToken { created, allowed_channel })
}

#[test]
fn lifetime_is_24_hours() {
    assert_eq!(TOKEN_LIFETIME, 24 * 60 * 60 * 1_000_000_000);
}

#[test]
fn token_is_fresh_for_24_hours() {
    let created = 1_530_000_000_000_000_000;
    assert!(fresh_token(created, created));
    assert!(fresh_token(created, created + TOKEN_LIFETIME - 1));
    assert!(!fresh_token(created, created + TOKEN_LIFETIME));
    assert!(!fresh_token(created, created + 2 * TOKEN_LIFETIME));
}

#[test]
fn token_from_the_future_is_fresh() {
    assert!(fresh_token(1_000, 0));
    assert!(fresh_token(i128::MAX, i128::MIN));
}

#[test]
fn token_whose_age_does_not_fit_is_expired() {
    assert!(!fresh_token(i128::MIN, i128::MAX));
    assert!(!fresh_token(i128::MIN, 0));
}

#[test]
fn channel_has_to_match_if_there_is_one() {
    assert!(correct_channel(&3, &Some(3)));
    assert!(!correct_channel(&3, &Some(4)));
    assert!(correct_channel(&3, &None));
}

#[test]
fn request_without_channel_or_token_is_bad() {
    assert_eq!(authorize(&None, &token(5, None), 6), Verdict::BadRequest);
    assert_eq!(authorize(&Some("a"), &None, 6), Verdict::BadRequest);
    assert_eq!(authorize::<u8>(&None, &None, 6), Verdict::BadRequest);
}

#[test]
fn fresh_token_for_the_channel_is_granted() {
    assert_eq!(authorize(&Some("a"), &token(5, Some("a")), 6), Verdict::Granted);
}

#[test]
fn token_for_another_channel_is_unauthorized() {
    assert_eq!(authorize(&Some("b"), &token(5, Some("a")), 6), Verdict::Unauthorized);
}

#[test]
fn token_for_all_channels_is_granted_on_each() {
    assert_eq!(authorize(&Some("a"), &token(5, None), 6), Verdict::Granted);
    assert_eq!(authorize(&Some("b"), &token(5, None), 6), Verdict::Granted);
}

#[test]
fn expired_token_is_unauthorized_and_stays_so() {
    for later in [0, 1, TOKEN_LIFETIME] {
        let now = 5 + TOKEN_LIFETIME + later;
        assert_eq!(authorize(&Some("a"), &token(5, Some("a")), now), Verdict::Unauthorized);
        assert_eq!(authorize(&Some("a"), &token(5, None), now), Verdict::Unauthorized);
    }
}
