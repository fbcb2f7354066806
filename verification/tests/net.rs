use gatefold::net::{
    backoff_ms, public_api_step, reconnect_delay, retry, retry_after, retry_after_error, web_api_step,
    Recoverable, ReplyStep,
};

struct Failure(bool);

impl Recoverable for Failure {
    fn recoverable(&self) -> bool {
        self.0
    }
}

#[test]
fn backoff_grows_fourfold() {
    assert_eq!(backoff_ms(1), 500);
    assert_eq!(backoff_ms(2), 2_000);
    assert_eq!(backoff_ms(3), 8_000);
}

#[test]
fn only_recoverable_failures_are_retried_three_times() {
    assert_eq!(retry(0, true), Some((1, 500)));
    assert_eq!(retry(2, true), Some((3, 8_000)));
    assert_eq!(retry(3, true), None);
    assert_eq!(retry(0, false), None);
    assert_eq!(retry_after_error(1, &Failure(true)), Some((2, 2_000)));
    assert_eq!(retry_after_error(1, &Failure(false)), None);
}

#[test]
fn retry_after_headers() {
    assert_eq!(retry_after(Some("7"), 30), 7);
    assert_eq!(retry_after(Some("0"), 30), 1);
    assert_eq!(retry_after(Some("soon"), 30), 30);
    assert_eq!(retry_after(None, 2), 2);
    assert_eq!(retry_after(Some("18446744073709551616"), 30), 30);
}

#[test]
fn replies_of_the_web_api_and_public_apis() {
    assert_eq!(web_api_step(0, 429, Some("4")), ReplyStep::Retry(4));
    assert_eq!(web_api_step(0, 429, None), ReplyStep::Retry(30));
    assert_eq!(web_api_step(3, 429, None), ReplyStep::Finish);
    assert_eq!(web_api_step(0, 200, None), ReplyStep::Finish);
    assert_eq!(web_api_step(0, 404, None), ReplyStep::Finish);
    assert_eq!(public_api_step(0, 404, None), ReplyStep::Missing);
    assert_eq!(public_api_step(1, 429, None), ReplyStep::Retry(2));
    assert_eq!(public_api_step(3, 429, None), ReplyStep::Finish);
}

#[test]
fn reconnect_waits_double_up_to_half_a_minute() {
    let mut delays = Vec::new();
    let mut delay = 1;
    for _ in 0..7 {
        delay = reconnect_delay(delay);
        delays.push(delay);
    }
    assert_eq!(delays, vec![2, 4, 8, 16, 30, 30, 30]);
}
