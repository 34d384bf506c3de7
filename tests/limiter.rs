use ratelimit::limiter::{Action, Event, LimitError, Limiter};
use ratelimit::window::Decision;

const ENDPOINT: &str = "memcache://127.0.0.1:11211";

fn connected_limiter() -> Limiter {
    let mut l = Limiter::new(ENDPOINT).unwrap();
    assert!(matches!(l.begin_check("w", 1, 1, 0, 1), Action::Connect(_)));
    l.step(Event::Connected);
    l.step(Event::Inserted(Ok(true)));
    l.step(Event::Fetched(Ok(vec![])));
    assert_eq!(l.step(Event::TokenRead(Ok(None))), Action::Done(Ok(Decision::Admitted)));
    assert!(l.is_connected());
    l
}

fn bytes(s: &str) -> Vec<u8> {
    s.as_bytes().to_vec()
}

#[test]
fn window_total_at_quota_is_admitted() {
    let mut l = Limiter::new(ENDPOINT).unwrap();
    assert_eq!(l.begin_check("p", 2, 10, 3, 2), Action::Connect(ENDPOINT.to_string()));
    assert_eq!(
        l.step(Event::Connected),
        Action::Insert { key: "p2".to_string(), value: 0, ttl: 4 }
    );
    assert_eq!(
        l.step(Event::Inserted(Ok(false))),
        Action::BatchGet(vec!["p1".to_string(), "p0".to_string()])
    );
    assert_eq!(
        l.step(Event::Fetched(Ok(vec![None, Some(bytes("5"))]))),
        Action::GetWithToken("p2".to_string())
    );
    assert_eq!(
        l.step(Event::TokenRead(Ok(Some((bytes("3"), Some(42)))))),
        Action::CompareAndSwap { key: "p2".to_string(), value: 5, ttl: 4, token: 42 }
    );
    assert_eq!(l.step(Event::Swapped(Ok(true))), Action::Done(Ok(Decision::Admitted)));
    assert!(l.is_idle());
    assert!(l.last_error().is_none());
}

#[test]
fn window_total_over_quota_is_rejected_without_write() {
    let mut l = Limiter::new(ENDPOINT).unwrap();
    l.begin_check("p", 2, 9, 3, 2);
    l.step(Event::Connected);
    l.step(Event::Inserted(Ok(true)));
    l.step(Event::Fetched(Ok(vec![None, Some(bytes("5"))])));
    assert_eq!(
        l.step(Event::TokenRead(Ok(Some((bytes("3"), Some(42)))))),
        Action::Done(Ok(Decision::Rejected))
    );
    assert!(l.is_idle());
    assert!(l.is_connected());
    // nothing is waiting for a write any more
    assert_eq!(l.step(Event::Swapped(Ok(true))), Action::Done(Err(LimitError::OutOfOrder)));
}

#[test]
fn zero_window_uses_only_current_bucket() {
    let mut l = connected_limiter();
    assert_eq!(
        l.begin_check("q", 1, 5, 0, 77),
        Action::Insert { key: "q77".to_string(), value: 0, ttl: 1 }
    );
    assert_eq!(l.step(Event::Inserted(Ok(true))), Action::BatchGet(vec![]));
    l.step(Event::Fetched(Ok(vec![])));
    assert_eq!(
        l.step(Event::TokenRead(Ok(Some((bytes("4"), Some(1)))))),
        Action::CompareAndSwap { key: "q77".to_string(), value: 5, ttl: 1, token: 1 }
    );
}

#[test]
fn window_stops_at_the_epoch() {
    let mut l = connected_limiter();
    l.begin_check("e", 1, 5, 10, 2);
    assert_eq!(
        l.step(Event::Inserted(Ok(true))),
        Action::BatchGet(vec!["e1".to_string(), "e0".to_string()])
    );
}

#[test]
fn stale_token_still_admits() {
    let mut l = connected_limiter();
    l.begin_check("s", 1, 3, 2, 50);
    l.step(Event::Inserted(Ok(false)));
    l.step(Event::Fetched(Ok(vec![Some(bytes("1"))])));
    assert_eq!(
        l.step(Event::TokenRead(Ok(Some((bytes("1"), Some(9)))))),
        Action::CompareAndSwap { key: "s50".to_string(), value: 2, ttl: 3, token: 9 }
    );
    assert_eq!(l.step(Event::Swapped(Ok(false))), Action::Done(Ok(Decision::Admitted)));
    assert!(l.is_connected());
}

#[test]
fn absent_bucket_counts_zero_and_is_not_written() {
    let mut l = connected_limiter();
    l.begin_check("a", 3, 3, 1, 10);
    l.step(Event::Inserted(Ok(true)));
    l.step(Event::Fetched(Ok(vec![])));
    assert_eq!(l.step(Event::TokenRead(Ok(None))), Action::Done(Ok(Decision::Admitted)));
}

#[test]
fn missing_token_admits_without_write() {
    let mut l = connected_limiter();
    l.begin_check("a", 1, 3, 1, 10);
    l.step(Event::Inserted(Ok(true)));
    l.step(Event::Fetched(Ok(vec![])));
    assert_eq!(
        l.step(Event::TokenRead(Ok(Some((bytes("2"), None))))),
        Action::Done(Ok(Decision::Admitted))
    );
}

#[test]
fn malformed_counts_read_as_zero() {
    let mut l = connected_limiter();
    l.begin_check("m", 1, 1, 3, 10);
    l.step(Event::Inserted(Ok(true)));
    l.step(Event::Fetched(Ok(vec![Some(bytes("x1")), Some(bytes("99999999999"))])));
    assert_eq!(
        l.step(Event::TokenRead(Ok(Some((vec![0xff, 0xfe], Some(3)))))),
        Action::CompareAndSwap { key: "m10".to_string(), value: 1, ttl: 4, token: 3 }
    );
}

#[test]
fn connection_failure_is_recorded_and_retried() {
    let mut l = Limiter::new(ENDPOINT).unwrap();
    assert!(matches!(l.begin_check("c", 1, 1, 1, 5), Action::Connect(_)));
    assert_eq!(
        l.step(Event::ConnectFailed("refused".to_string())),
        Action::Done(Err(LimitError::Connection("refused".to_string())))
    );
    assert_eq!(l.last_error(), Some(LimitError::Connection("refused".to_string())));
    assert_eq!(l.begin_check("c", 1, 1, 1, 5), Action::Connect(ENDPOINT.to_string()));
}

#[test]
fn cache_error_drops_connection() {
    let mut l = connected_limiter();
    l.begin_check("c", 1, 1, 1, 5);
    l.step(Event::Inserted(Ok(true)));
    assert_eq!(
        l.step(Event::Fetched(Err("timed out".to_string()))),
        Action::Done(Err(LimitError::Protocol("timed out".to_string())))
    );
    assert!(!l.is_connected());
    assert_eq!(l.last_error(), Some(LimitError::Protocol("timed out".to_string())));
    assert_eq!(l.begin_check("c", 1, 1, 1, 5), Action::Connect(ENDPOINT.to_string()));
}

#[test]
fn insert_and_swap_errors_fail_the_check() {
    let mut l = connected_limiter();
    l.begin_check("c", 1, 1, 1, 5);
    assert_eq!(
        l.step(Event::Inserted(Err("server error".to_string()))),
        Action::Done(Err(LimitError::Protocol("server error".to_string())))
    );
    let mut l = connected_limiter();
    l.begin_check("c", 1, 1, 1, 5);
    l.step(Event::Inserted(Ok(true)));
    l.step(Event::Fetched(Ok(vec![])));
    assert_eq!(
        l.step(Event::TokenRead(Err("broken pipe".to_string()))),
        Action::Done(Err(LimitError::Protocol("broken pipe".to_string())))
    );
    let mut l = connected_limiter();
    l.begin_check("c", 1, 1, 1, 5);
    l.step(Event::Inserted(Ok(true)));
    l.step(Event::Fetched(Ok(vec![])));
    l.step(Event::TokenRead(Ok(Some((bytes("0"), Some(1))))));
    assert_eq!(
        l.step(Event::Swapped(Err("gone".to_string()))),
        Action::Done(Err(LimitError::Protocol("gone".to_string())))
    );
    assert!(!l.is_connected());
}

#[test]
fn success_clears_last_error() {
    let mut l = Limiter::new(ENDPOINT).unwrap();
    l.begin_check("c", 1, 1, 1, 5);
    l.step(Event::ConnectFailed("refused".to_string()));
    assert!(l.last_error().is_some());
    l.begin_check("c", 1, 1, 1, 5);
    l.step(Event::Connected);
    l.step(Event::Inserted(Ok(true)));
    l.step(Event::Fetched(Ok(vec![])));
    assert_eq!(l.step(Event::TokenRead(Ok(None))), Action::Done(Ok(Decision::Admitted)));
    assert!(l.last_error().is_none());
}

#[test]
fn out_of_order_event_fails() {
    let mut l = connected_limiter();
    assert_eq!(l.step(Event::Connected), Action::Done(Err(LimitError::OutOfOrder)));
    assert!(!l.is_connected());
}

#[test]
fn invalid_endpoint_is_refused() {
    assert_eq!(Limiter::new("not a url").err(), Some(LimitError::InvalidEndpoint));
    assert_eq!(Limiter::new("").err(), Some(LimitError::InvalidEndpoint));
}

#[test]
fn endpoint_is_normalised() {
    let l = Limiter::new("MEMCACHE://127.0.0.1:11211").unwrap();
    assert_eq!(l.endpoint(), "memcache://127.0.0.1:11211");
    assert!(!l.is_connected());
    assert!(l.is_idle());
}
