use hotline::login::PostLoginAction::{ArmFallback, FetchNow, Nothing};
use hotline::login::{hx_post_login_route, post_login_route};

#[test]
fn versionless_server_fetches_immediately() {
    assert_eq!(post_login_route(0, false), FetchNow);
}

#[test]
fn versioned_server_arms_the_fallback() {
    assert_eq!(post_login_route(150, false), ArmFallback);
    assert_eq!(post_login_route(190, false), ArmFallback);
    assert_eq!(post_login_route(1, false), ArmFallback);
}

#[test]
fn already_fetched_does_nothing() {
    assert_eq!(post_login_route(0, true), Nothing);
    assert_eq!(post_login_route(150, true), Nothing);
}

#[test]
fn actions_as_numbers() {
    assert_eq!(hx_post_login_route(0, 0), 1);
    assert_eq!(hx_post_login_route(150, 0), 2);
    assert_eq!(hx_post_login_route(150, 7), 0);
}
