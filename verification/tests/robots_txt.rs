use spider_middleware::delay::Delay;
use spider_middleware::error::SpiderError;
use spider_middleware::middleware::MiddlewareAction;
use spider_middleware::request::Request;
use spider_middleware::robots_txt::{readable, RobotsOutcome, RobotsStep, RobotsTxtMiddleware};
use spider_middleware::weburl::WebUrl;

fn request(url: &str, agent: &[u8]) -> Request {
    let mut request = Request::new(WebUrl::parse(url).unwrap());
    request.headers.insert("user-agent", http::HeaderValue::from_bytes(agent).unwrap());
    request
}

const RULES: &str = "User-agent: *\nDisallow: /secret\n";

#[test]
fn rules_are_fetched_first() {
    let middleware = RobotsTxtMiddleware::new().request_timeout(Delay::from_secs(7));
    assert_eq!(middleware.name(), "RobotsTxtMiddleware");
    match middleware.next_step(&request("https://a.example:444/x", b"bot")) {
        RobotsStep::Fetch { origin, url, timeout } => {
            assert_eq!(origin, "https://a.example:444");
            assert_eq!(url, "https://a.example:444/robots.txt");
            assert_eq!(timeout, Delay::from_secs(7));
        }
        step => panic!("{:?}", step),
    }
}

#[test]
fn rules_are_waited_for_five_seconds() {
    let middleware = RobotsTxtMiddleware::default();
    match middleware.step_for(&request("http://a.example/x", b"bot"), None) {
        RobotsStep::Fetch { timeout, .. } => assert_eq!(timeout, Delay::from_secs(5)),
        step => panic!("{:?}", step),
    }
}

#[test]
fn urls_without_a_site_have_no_rules() {
    let middleware = RobotsTxtMiddleware::new();
    assert!(matches!(middleware.next_step(&request("data:,x", b"bot")), RobotsStep::Pass));
}

#[test]
fn rules_are_remembered() {
    let middleware = RobotsTxtMiddleware::new().remember("http://a.example", RULES);
    match middleware.next_step(&request("http://a.example/x", b"bot")) {
        RobotsStep::Known(body) => assert_eq!(body, RULES),
        step => panic!("{:?}", step),
    }
    assert!(matches!(middleware.next_step(&request("http://b.example/x", b"bot")), RobotsStep::Fetch { .. }));
    let middleware = middleware.cache_capacity(5);
    assert!(matches!(middleware.next_step(&request("http://a.example/x", b"bot")), RobotsStep::Fetch { .. }));
    let middleware = middleware.remember("http://a.example", RULES).cache_ttl(Delay::from_secs(9));
    assert!(matches!(middleware.next_step(&request("http://a.example/x", b"bot")), RobotsStep::Fetch { .. }));
    let middleware = middleware.remember("http://a.example", RULES).request_timeout(Delay::from_secs(1));
    assert!(matches!(middleware.next_step(&request("http://a.example/x", b"bot")), RobotsStep::Known(_)));
}

#[test]
fn rules_forbid_requests() {
    assert!(matches!(
        RobotsTxtMiddleware::judge(request("http://a.example/open", b"bot"), RULES),
        Ok(MiddlewareAction::Continue(_))
    ));
    assert!(matches!(
        RobotsTxtMiddleware::judge(request("http://a.example/secret/x", b"bot"), RULES),
        Err(SpiderError::BlockedByRobotsTxt)
    ));
    let other = "User-agent: other\nDisallow: /\n";
    assert!(RobotsTxtMiddleware::judge(request("http://a.example/", b"bot"), other).is_ok());
    assert!(RobotsTxtMiddleware::judge(request("http://a.example/", b"other"), other).is_err());
}

#[test]
fn requests_say_who_asks() {
    let nobody = Request::new(WebUrl::parse("http://a.example/").unwrap());
    assert!(matches!(RobotsTxtMiddleware::judge(nobody, ""), Err(SpiderError::BlockedByRobotsTxt)));
    match RobotsTxtMiddleware::judge(request("http://a.example/", &[0xff]), "") {
        Err(SpiderError::HeaderValueError(m)) => assert_eq!(m, "failed to convert header to a str"),
        _ => panic!("the request must be refused"),
    }
    let value = http::HeaderValue::from_bytes(&[0xff]).unwrap();
    assert_eq!(value.to_str().unwrap_err().to_string(), "failed to convert header to a str");
}

#[test]
fn sites_without_rules_allow_everything() {
    let none = |reply| RobotsTxtMiddleware::fetch_robots_content(reply);
    assert_eq!(none(None), "");
    assert_eq!(none(Some((404, b"User-agent: *".to_vec()))), "");
    assert_eq!(none(Some((200, vec![0xff]))), "");
    assert_eq!(none(Some((204, RULES.as_bytes().to_vec()))), RULES);
    assert_eq!(none(Some((200, "\u{e4}".as_bytes().to_vec()))), "\u{e4}");
    assert!(RobotsTxtMiddleware::judge(request("http://a.example/secret", b"bot"), "").is_ok());
}

#[test]
fn lines_begin_and_end_between_characters() {
    assert!(readable(RULES));
    assert!(readable("\u{e4}\u{fc}\n\u{20ac}"));
    let long = "a".repeat(16_663);
    assert!(readable(&format!("{}bcd", long)));
    assert!(readable(&format!("{}\u{e4}", long)));
    assert!(readable(&format!("{}\u{e4}\nb", long)));
    assert!(readable(&format!("{}\n\u{e4}", long)));
    assert!(!readable(&format!("{}\u{e4}\n\u{e4}", long)));
    assert!(readable(&format!("{}\u{e4}\n\u{e4}b\nc", long)));
    assert!(!readable(&format!("{}\u{e4}\nb\u{e4}", long)));
    assert!(readable(&format!("\u{ef}\u{bb}\u{bf}{}\u{e4}\n", long)));
}

#[test]
fn long_last_lines_are_read() {
    let long = "a".repeat(16_663);
    for rest in ["\u{e4}", "\u{e4}\nb", "\u{e4}\r\n\nb", "\u{e4}\n\u{e4}b\nc"] {
        let body = format!("{}{}", long, rest);
        assert!(readable(&body));
        assert!(RobotsTxtMiddleware::judge(request("http://a.example/", b"bot"), &body).is_ok());
    }
    let body = format!("{}#{}\u{e4}", RULES, "a".repeat(16_663));
    assert!(RobotsTxtMiddleware::judge(request("http://a.example/open", b"bot"), &body).is_ok());
    assert!(RobotsTxtMiddleware::judge(request("http://a.example/secret", b"bot"), &body).is_err());
}

#[test]
fn requests_wait_for_rules() {
    let middleware = RobotsTxtMiddleware::new();
    let open = || request("http://a.example/open", b"bot");
    let secret = || request("http://a.example/secret", b"bot");
    let (request, origin) = match middleware.process_request(secret()) {
        RobotsOutcome::Fetch { request, origin, url, timeout } => {
            assert_eq!(url, "http://a.example/robots.txt");
            assert_eq!(timeout, Delay::from_secs(5));
            (request, origin)
        }
        other => panic!("{:?}", other),
    };
    let (middleware, outcome) =
        middleware.process_reply(request, &origin, Some((200, RULES.as_bytes().to_vec())));
    assert!(matches!(outcome, RobotsOutcome::Decided(Err(SpiderError::BlockedByRobotsTxt))));
    assert!(matches!(
        middleware.process_request(open()),
        RobotsOutcome::Decided(Ok(MiddlewareAction::Continue(_)))
    ));
    assert!(matches!(middleware.process_request(secret()), RobotsOutcome::Decided(Err(_))));
    let (middleware, outcome) = middleware.process_reply(secret(), &origin, None);
    assert!(matches!(outcome, RobotsOutcome::Decided(Ok(_))));
    assert!(matches!(middleware.process_request(secret()), RobotsOutcome::Decided(Ok(_))));
}

#[test]
fn urls_without_a_site_go_on() {
    let middleware = RobotsTxtMiddleware::new();
    assert!(matches!(
        middleware.process_request(request("data:,x", b"bot")),
        RobotsOutcome::Decided(Ok(MiddlewareAction::Continue(_)))
    ));
}

#[test]
fn rules_that_cannot_be_read_decide_nothing() {
    let body = format!("{}\u{e4}\n\u{e4}", "a".repeat(16_663));
    let (_, outcome) = RobotsTxtMiddleware::new().process_reply(
        request("http://a.example/", b"bot"),
        "http://a.example",
        Some((200, body.into_bytes())),
    );
    assert!(matches!(outcome, RobotsOutcome::Unreadable(_)));
}

#[test]
fn rules_that_cannot_be_read_are_not_asked_by_nobody() {
    let body = format!("{}\u{e4}\n\u{e4}", "a".repeat(16_663));
    assert!(!readable(&body));
    let nobody = || Request::new(WebUrl::parse("http://a.example/").unwrap());
    let no_text = || request("http://a.example/", &[0xff]);
    assert!(matches!(
        RobotsTxtMiddleware::judge(nobody(), &body),
        Err(SpiderError::BlockedByRobotsTxt)
    ));
    assert!(matches!(
        RobotsTxtMiddleware::judge(no_text(), &body),
        Err(SpiderError::HeaderValueError(_))
    ));
    let reply = Some((200, body.into_bytes()));
    let (middleware, outcome) =
        RobotsTxtMiddleware::new().process_reply(nobody(), "http://a.example", reply);
    assert!(matches!(outcome, RobotsOutcome::Decided(Err(SpiderError::BlockedByRobotsTxt))));
    assert!(matches!(
        middleware.process_request(nobody()),
        RobotsOutcome::Decided(Err(SpiderError::BlockedByRobotsTxt))
    ));
    match middleware.process_request(no_text()) {
        RobotsOutcome::Decided(Err(SpiderError::HeaderValueError(m))) => {
            assert_eq!(m, "failed to convert header to a str")
        }
        other => panic!("{:?}", other),
    }
    assert!(matches!(
        middleware.process_request(request("http://a.example/", b"bot")),
        RobotsOutcome::Unreadable(_)
    ));
}

#[test]
fn rules_are_kept_for_a_thousand_years() {
    let middleware = RobotsTxtMiddleware::new()
        .cache_ttl(Delay::from_secs(31_536_000_000))
        .remember("http://a.example", RULES);
    assert!(matches!(
        middleware.next_step(&request("http://a.example/x", b"bot")),
        RobotsStep::Known(_)
    ));
}
