use spider_middleware::delay::Delay;
use spider_middleware::error::{ReqwestErrorDetails, SpiderError};
use spider_middleware::meta::Meta;
use spider_middleware::middleware::MiddlewareAction;
use spider_middleware::request::{Request, Response};
use spider_middleware::retry::RetryMiddleware;
use spider_middleware::weburl::WebUrl;

fn response(status: u16, attempts: u32) -> Response {
    Response {
        url: WebUrl::parse("http://a.example/end").unwrap(),
        status,
        headers: http::HeaderMap::new(),
        body: Vec::new(),
        request_url: WebUrl::parse("http://a.example/start").unwrap(),
        meta: Meta::new().with_retry_attempts(attempts),
        cached: false,
    }
}

fn request(attempts: u32) -> Request {
    let mut request = Request::new(WebUrl::parse("http://a.example/start").unwrap());
    request.method = "PUT".to_string();
    request.meta = Meta::new().with_retry_attempts(attempts);
    request
}

fn failure(is_connect: bool, is_timeout: bool) -> SpiderError {
    SpiderError::ReqwestError(ReqwestErrorDetails { message: "m".to_string(), is_connect, is_timeout })
}

#[test]
fn retries_have_usual_settings() {
    let retry = RetryMiddleware::new();
    assert_eq!(retry.name(), "RetryMiddleware");
    assert_eq!(retry.max_retries, 3);
    assert_eq!(retry.retry_http_codes, vec![500, 502, 503, 504, 408, 429]);
    assert_eq!(retry.max_delay, Delay::from_secs(180));
    assert!(matches!(retry.process_request(request(0)), Ok(MiddlewareAction::Continue(_))));
}

#[test]
fn failed_responses_are_asked_for_again() {
    let retry = RetryMiddleware::default();
    assert_eq!(retry.attempts_before_response(&response(503, 2)), Some(2));
    match retry.process_response(response(503, 2), Delay::from_secs(4)).unwrap() {
        MiddlewareAction::Retry(again, pause) => {
            assert_eq!(again.url.as_str(), "http://a.example/start");
            assert_eq!(again.method, "GET");
            assert_eq!(again.get_retry_attempts(), 3);
            assert_eq!(pause, Delay::from_secs(4));
        }
        _ => panic!("the request must be sent again"),
    }
}

#[test]
fn responses_that_failed_often_are_dropped() {
    let retry = RetryMiddleware::new();
    assert_eq!(retry.attempts_before_response(&response(503, 3)), None);
    assert!(matches!(
        retry.process_response(response(503, 3), Delay::from_secs(1)).unwrap(),
        MiddlewareAction::Drop
    ));
    let never = RetryMiddleware::new().max_retries(0);
    assert!(matches!(
        never.process_response(response(503, 0), Delay::from_secs(1)).unwrap(),
        MiddlewareAction::Drop
    ));
}

#[test]
fn other_responses_go_on() {
    let retry = RetryMiddleware::new();
    assert_eq!(retry.attempts_before_response(&response(404, 0)), None);
    match retry.process_response(response(404, 0), Delay::from_secs(1)).unwrap() {
        MiddlewareAction::Continue(p) => assert_eq!(p.status, 404),
        _ => panic!("the response must go on"),
    }
    let retry = retry.retry_http_codes(vec![404]);
    assert!(matches!(
        retry.process_response(response(404, 0), Delay::from_secs(1)).unwrap(),
        MiddlewareAction::Retry(_, _)
    ));
}

#[test]
fn pauses_are_cut() {
    let retry = RetryMiddleware::new().max_delay(Delay::from_millis(1500));
    match retry.process_response(response(500, 0), Delay::from_secs(2)).unwrap() {
        MiddlewareAction::Retry(_, pause) => assert_eq!(pause, Delay::from_millis(1500)),
        _ => panic!("the request must be sent again"),
    }
}

#[test]
fn connections_are_tried_again() {
    let retry = RetryMiddleware::new();
    for error in [failure(true, false), failure(false, true), failure(true, true)] {
        assert_eq!(retry.attempts_before_error(&request(1), &error), Some(1));
        match retry.handle_error(&request(1), &error, Delay::from_secs(2)).unwrap() {
            MiddlewareAction::Retry(again, pause) => {
                assert_eq!(again.method, "PUT");
                assert_eq!(again.get_retry_attempts(), 2);
                assert_eq!(pause, Delay::from_secs(2));
            }
            _ => panic!("the request must be sent again"),
        }
        assert!(matches!(
            retry.handle_error(&request(3), &error, Delay::from_secs(2)).unwrap(),
            MiddlewareAction::Drop
        ));
        assert_eq!(retry.attempts_before_error(&request(3), &error), None);
    }
}

#[test]
fn other_errors_stand() {
    let retry = RetryMiddleware::new();
    assert!(matches!(
        retry.handle_error(&request(0), &failure(false, false), Delay::from_secs(1)),
        Err(SpiderError::ReqwestError(_))
    ));
    assert!(matches!(
        retry.handle_error(&request(0), &SpiderError::BlockedByRobotsTxt, Delay::from_secs(1)),
        Err(SpiderError::BlockedByRobotsTxt)
    ));
    assert_eq!(retry.attempts_before_error(&request(0), &SpiderError::BlockedByRobotsTxt), None);
}

#[test]
fn a_request_is_sent_again_three_times() {
    let retry = RetryMiddleware::new();
    let mut attempts = 0;
    let mut sent = 0;
    while let MiddlewareAction::Retry(again, _) =
        retry.process_response(response(500, attempts), Delay::from_secs(1)).unwrap()
    {
        sent += 1;
        attempts = again.get_retry_attempts();
    }
    assert_eq!(sent, 3);
}
