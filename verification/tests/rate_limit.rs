use spider_middleware::delay::Delay;
use spider_middleware::rate_limit::{
    percent_of, AdaptiveLimiter, LimiterPlan, Pace, RateLimitMiddleware, RateLimitMiddlewareBuilder, Scope,
    TokenBucketLimiter,
};
use spider_middleware::meta::Meta;
use spider_middleware::request::{Request, Response};
use spider_middleware::weburl::WebUrl;

fn secs(n: u64) -> Delay {
    Delay::from_secs(n)
}

fn request(url: &str) -> Request {
    Request::new(WebUrl::parse(url).unwrap())
}

#[test]
fn requests_are_sent_a_pause_apart() {
    let mut limiter = AdaptiveLimiter::new(secs(2), false, secs(10));
    assert_eq!(limiter.acquire(secs(10)), secs(0));
    assert_eq!(limiter.acquire(secs(10)), secs(2));
    assert_eq!(limiter.acquire(secs(11)), secs(3));
    assert_eq!(limiter.acquire(secs(100)), secs(0));
    assert_eq!(limiter.acquire(secs(101)), secs(1));
    assert!(limiter.in_time(&secs(101)));
    assert!(!limiter.in_time(&secs(u64::MAX)));
}

#[test]
fn responses_ask_for_other_pauses() {
    assert_eq!(percent_of(200), 95);
    assert_eq!(percent_of(399), 95);
    assert_eq!(percent_of(403), 120);
    assert_eq!(percent_of(429), 150);
    assert_eq!(percent_of(500), 150);
    assert_eq!(percent_of(599), 150);
    assert_eq!(percent_of(404), 100);
    assert_eq!(percent_of(199), 100);
    assert_eq!(percent_of(600), 100);
}

#[test]
fn percentages_are_the_factors() {
    assert_eq!(95u32 as f64 / 100.0, 0.95);
    assert_eq!(120u32 as f64 / 100.0, 1.2);
    assert_eq!(150u32 as f64 / 100.0, 1.5);
    assert_eq!(25u32 as f64 / 100.0, 0.25);
}

#[test]
fn pauses_follow_responses() {
    let mut limiter = AdaptiveLimiter::new(secs(1), false, secs(0));
    limiter.adjust(500, Delay::from_millis(1500));
    assert_eq!(limiter.current_delay(), Delay::from_millis(1500));
    limiter.adjust(404, secs(7));
    assert_eq!(limiter.current_delay(), Delay::from_millis(1500));
    limiter.adjust(200, Delay::from_millis(1425));
    assert_eq!(limiter.current_delay(), Delay::from_millis(1425));
    limiter.adjust(429, secs(61));
    assert_eq!(limiter.current_delay(), secs(60));
    limiter.adjust(200, Delay::from_millis(49));
    assert_eq!(limiter.current_delay(), Delay::from_millis(50));
    let mut long = AdaptiveLimiter::new(secs(100), false, secs(0));
    long.adjust(404, secs(100));
    assert_eq!(long.current_delay(), secs(60));
}

#[test]
fn chance_moves_waits_within_bounds() {
    let limiter = AdaptiveLimiter::new(secs(1), true, secs(0));
    assert!(limiter.jitter());
    assert_eq!(limiter.jitter_bounds(secs(1), Delay::from_millis(250)), (Delay::from_millis(750), Delay::from_millis(1250)));
    assert_eq!(limiter.jitter_bounds(secs(8), secs(2)), (Delay::from_millis(7500), Delay::from_millis(8500)));
    assert_eq!(limiter.jitter_bounds(secs(0), secs(0)), (secs(0), secs(0)));
    let mut moved = false;
    for _ in 0..100 {
        let wait = limiter.apply_jitter(secs(1), Delay::from_millis(250));
        assert!(!wait.shorter_than(&Delay::from_millis(750)));
        assert!(!Delay::from_millis(1250).shorter_than(&wait));
        moved = moved || wait != secs(1);
    }
    assert!(moved);
    let still = AdaptiveLimiter::new(secs(1), false, secs(0));
    assert_eq!(still.apply_jitter(secs(1), Delay::from_millis(250)), secs(1));
    assert_eq!(limiter.apply_jitter(secs(0), secs(0)), secs(0));
    let longest = Delay::new(u64::MAX, 999_999_999);
    assert!(still.can_jitter(&longest, &secs(1)));
    assert_eq!(still.apply_jitter(longest, secs(1)), longest);
    assert!(!limiter.can_jitter(&longest, &secs(1)));
    assert!(limiter.can_jitter(&secs(u64::MAX), &secs(u64::MAX)));
    assert!(!limiter.can_jitter(&Delay::new(u64::MAX, 500_000_000), &secs(1)));
}

#[test]
fn buckets_fill_evenly() {
    let bucket = TokenBucketLimiter::new(3);
    assert_eq!(bucket.burst(), 3);
    assert_eq!(bucket.interval(), Delay::new(0, 333_333_333));
    assert_eq!(bucket.current_delay(), secs(0));
    assert_eq!(TokenBucketLimiter::new(1).interval(), secs(1));
}

#[test]
fn scopes_name_their_limiters() {
    let middleware = RateLimitMiddleware::default();
    assert_eq!(middleware.name(), "RateLimitMiddleware");
    assert_eq!(middleware.scope_key(&request("https://a.example/x")), "https://a.example:443");
    let middleware = RateLimitMiddleware::builder().scope(Scope::Global).build();
    assert_eq!(middleware.scope_key(&request("https://a.example/x")), "global");
}

#[test]
fn names_have_limiters_of_their_own() {
    let mut middleware = RateLimitMiddleware::builder().build();
    let now = secs(100);
    assert!(middleware.cached_limiter("a").is_none());
    let limiter = middleware.limiter_for(None, now).unwrap();
    assert_eq!(limiter.current_delay(), Delay::from_millis(500));
    assert!(limiter.jitter());
    assert_eq!(middleware.take_slot("a", limiter, now), secs(0));
    let found = middleware.cached_limiter("a");
    assert!(found.is_some());
    let limiter = middleware.limiter_for(found, now).unwrap();
    assert_eq!(middleware.take_slot("a", limiter, now), Delay::from_millis(500));
    assert!(middleware.cached_limiter("b").is_none());
    let limiter = middleware.limiter_for(None, now).unwrap();
    assert_eq!(middleware.take_slot("b", limiter, now), secs(0));
}

#[test]
fn responses_change_their_limiter() {
    let mut middleware = RateLimitMiddlewareBuilder::default().build();
    assert!(middleware.limiter_to_adjust(middleware.cached_limiter("a")).is_none());
    let limiter = middleware.limiter_for(None, secs(0)).unwrap();
    middleware.take_slot("a", limiter, secs(0));
    let limiter = middleware.limiter_to_adjust(middleware.cached_limiter("a")).unwrap();
    middleware.adjust("a", limiter, 500, Delay::from_millis(750));
    let limiter = middleware.cached_limiter("a").unwrap();
    assert_eq!(limiter.current_delay(), Delay::from_millis(750));
}

#[test]
fn shared_limiters_know_all_names() {
    let shared = AdaptiveLimiter::new(secs(3), false, secs(0));
    let mut middleware = RateLimitMiddleware::builder().limiter(shared).build();
    let limiter = middleware.limiter_for(middleware.cached_limiter("a"), secs(1)).unwrap();
    assert_eq!(middleware.take_slot("a", limiter, secs(1)), secs(0));
    let limiter = middleware.limiter_for(middleware.cached_limiter("b"), secs(1)).unwrap();
    assert_eq!(middleware.take_slot("b", limiter, secs(1)), secs(3));
    let limiter = middleware.limiter_to_adjust(middleware.cached_limiter("b")).unwrap();
    middleware.adjust("b", limiter, 500, secs(4));
    let limiter = middleware.limiter_for(None, secs(1)).unwrap();
    assert_eq!(limiter.current_delay(), secs(4));
}

#[test]
fn other_limiters_are_made_elsewhere() {
    let middleware = RateLimitMiddleware::builder().use_token_bucket_limiter(2).build();
    assert!(matches!(middleware.plan(), LimiterPlan::TokenBucket(2)));
    assert!(middleware.limiter_for(None, secs(0)).is_none());
    let middleware = RateLimitMiddleware::builder().limiter_factory().build();
    assert!(matches!(middleware.plan(), LimiterPlan::Elsewhere));
}

fn response(url: &str) -> Response {
    Response {
        url: WebUrl::parse("http://end.example/").unwrap(),
        status: 500,
        headers: http::HeaderMap::new(),
        body: Vec::new(),
        request_url: WebUrl::parse(url).unwrap(),
        meta: Meta::new(),
        cached: false,
    }
}

#[test]
fn requests_wait_for_their_slot() {
    let mut middleware = RateLimitMiddleware::default();
    let waits: Vec<Delay> = ["http://a.example/1", "http://a.example/2", "http://b.example/"]
        .iter()
        .map(|url| match middleware.process_request(&request(url), secs(50)) {
            Pace::Wait(limiter, wait) => {
                assert_eq!(limiter.current_delay(), Delay::from_millis(500));
                wait
            }
            pace => panic!("{:?}", pace),
        })
        .collect();
    assert_eq!(waits, vec![secs(0), Delay::from_millis(500), secs(0)]);
    let (key, limiter) = middleware.limiter_of(&response("http://a.example/3"));
    assert_eq!(key, "http://a.example:80");
    middleware.adjust(&key, limiter.unwrap(), 500, Delay::from_millis(750));
    match middleware.process_request(&request("http://a.example/4"), secs(60)) {
        Pace::Wait(limiter, _) => assert_eq!(limiter.current_delay(), Delay::from_millis(750)),
        pace => panic!("{:?}", pace),
    }
    let (key, limiter) = middleware.limiter_of(&response("http://c.example/"));
    assert_eq!(key, "http://c.example:80");
    assert!(limiter.is_none());
}

#[test]
fn time_can_run_out() {
    let mut middleware = RateLimitMiddleware::default();
    assert!(matches!(
        middleware.process_request(&request("http://a.example/"), Delay::new(u64::MAX, 999_999_999)),
        Pace::OutOfTime
    ));
    let mut middleware = RateLimitMiddleware::builder().use_token_bucket_limiter(2).build();
    match middleware.process_request(&request("http://a.example/"), secs(0)) {
        Pace::Elsewhere(key) => assert_eq!(key, "http://a.example:80"),
        pace => panic!("{:?}", pace),
    }
}
