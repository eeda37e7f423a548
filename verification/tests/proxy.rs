use spider_middleware::error::SpiderError;
use spider_middleware::files::FileRead;
use spider_middleware::meta::Meta;
use spider_middleware::middleware::MiddlewareAction;
use spider_middleware::proxy::{ProxyMiddleware, ProxyMiddlewareBuilder, ProxyRotationStrategy, ProxySource};
use spider_middleware::request::{Request, Response};
use spider_middleware::weburl::WebUrl;

fn texts(list: &[&str]) -> Vec<String> {
    list.iter().map(|s| s.to_string()).collect()
}

fn build(strategy: ProxyRotationStrategy, list: &[&str], blocked: &[&str]) -> ProxyMiddleware {
    ProxyMiddleware::builder()
        .source(ProxySource::List(texts(list)))
        .strategy(strategy)
        .with_block_detection_texts(texts(blocked))
        .build(FileRead::Missing)
        .unwrap()
}

fn proxy(middleware: &mut ProxyMiddleware) -> Option<String> {
    let request = Request::new(WebUrl::parse("http://a.example/").unwrap());
    match middleware.process_request(request).unwrap() {
        MiddlewareAction::Continue(request) => request.meta.get_text("proxy"),
        _ => panic!("the request must go on"),
    }
}

fn respond(middleware: &mut ProxyMiddleware, status: u16, body: &[u8]) {
    let response = Response {
        url: WebUrl::parse("http://a.example/").unwrap(),
        status,
        headers: http::HeaderMap::new(),
        body: body.to_vec(),
        request_url: WebUrl::parse("http://a.example/").unwrap(),
        meta: Meta::new(),
        cached: false,
    };
    match middleware.process_response(response).unwrap() {
        MiddlewareAction::Continue(p) => assert_eq!(p.status, status),
        _ => panic!("the response must go on"),
    }
}

fn some(s: &str) -> Option<String> {
    Some(s.to_string())
}

#[test]
fn proxies_take_turns() {
    let mut middleware = build(ProxyRotationStrategy::Sequential, &["p", "q", "r"], &[]);
    assert_eq!(middleware.name(), "ProxyMiddleware");
    assert_eq!(middleware.pool_size(), 3);
    assert_eq!(middleware.strategy(), ProxyRotationStrategy::Sequential);
    assert_eq!(middleware.current_index(), 0);
    assert!(middleware.block_detection_texts().is_empty());
    let taken: Vec<Option<String>> = (0..7).map(|_| proxy(&mut middleware)).collect();
    assert_eq!(taken, vec![some("p"), some("q"), some("r"), some("p"), some("q"), some("r"), some("p")]);
}

#[test]
fn proxies_are_taken_by_chance() {
    let mut middleware = build(ProxyRotationStrategy::Random, &["p", "q"], &[]);
    let mut seen = [false, false];
    for _ in 0..200 {
        match proxy(&mut middleware).as_deref() {
            Some("p") => seen[0] = true,
            Some("q") => seen[1] = true,
            other => panic!("{:?}", other),
        }
    }
    assert_eq!(seen, [true, true]);
}

#[test]
fn no_proxies_change_nothing() {
    for strategy in [
        ProxyRotationStrategy::Sequential,
        ProxyRotationStrategy::Random,
        ProxyRotationStrategy::StickyFailover,
    ] {
        let mut middleware = build(strategy, &[], &["x"]);
        assert_eq!(proxy(&mut middleware), None);
        middleware.rotate_proxy();
        respond(&mut middleware, 500, b"x");
        assert_eq!(proxy(&mut middleware), None);
    }
}

#[test]
fn proxies_are_kept_until_they_fail() {
    let mut middleware = build(ProxyRotationStrategy::StickyFailover, &["p", "q"], &["Access Denied"]);
    assert_eq!(proxy(&mut middleware), some("p"));
    assert_eq!(proxy(&mut middleware), some("p"));
    respond(&mut middleware, 200, b"fine");
    respond(&mut middleware, 301, b"Access Denied");
    assert_eq!(proxy(&mut middleware), some("p"));
    respond(&mut middleware, 403, b"");
    assert_eq!(proxy(&mut middleware), some("q"));
    respond(&mut middleware, 599, b"");
    assert_eq!(proxy(&mut middleware), some("p"));
    respond(&mut middleware, 200, b"<h1>Access Denied</h1>");
    assert_eq!(proxy(&mut middleware), some("q"));
    respond(&mut middleware, 200, b"\xffAccess Denied\xff");
    assert_eq!(proxy(&mut middleware), some("p"));
    let answer = middleware.handle_error(&SpiderError::GeneralError("e".to_string()));
    assert!(matches!(answer, Err(SpiderError::GeneralError(_))));
    assert_eq!(proxy(&mut middleware), some("q"));
    middleware.rotate_proxy();
    assert_eq!(proxy(&mut middleware), some("p"));
}

#[test]
fn bytes_that_are_no_text_are_marked() {
    let mut middleware = build(ProxyRotationStrategy::StickyFailover, &["p", "q"], &["\u{fffd}"]);
    respond(&mut middleware, 200, b"plain");
    assert_eq!(proxy(&mut middleware), some("p"));
    respond(&mut middleware, 200, b"\xff");
    assert_eq!(proxy(&mut middleware), some("q"));
}

#[test]
fn other_strategies_do_not_mind_failures() {
    let mut middleware = build(ProxyRotationStrategy::Sequential, &["p", "q", "r"], &["x"]);
    assert_eq!(proxy(&mut middleware), some("p"));
    respond(&mut middleware, 500, b"");
    respond(&mut middleware, 200, b"x");
    assert!(middleware.handle_error(&SpiderError::BlockedByRobotsTxt).is_err());
    assert_eq!(proxy(&mut middleware), some("q"));
}

#[test]
fn proxy_files_are_read() {
    let builder = || {
        ProxyMiddlewareBuilder::default()
            .source(ProxySource::File("some/path".to_string()))
            .strategy(ProxyRotationStrategy::Sequential)
    };
    assert_eq!(builder().source_path(), some("some/path"));
    assert_eq!(ProxyMiddleware::builder().source_path(), None);
    let mut middleware = builder().build(FileRead::Lines(texts(&["p", "", "  ", "q"]))).unwrap();
    assert_eq!(proxy(&mut middleware), some("p"));
    assert_eq!(proxy(&mut middleware), some("q"));
    assert_eq!(proxy(&mut middleware), some("p"));
    match builder().build(FileRead::Missing) {
        Err(SpiderError::IoError(m)) => assert_eq!(m, "Proxy file not found: some/path"),
        _ => panic!("the file must be missed"),
    }
    match builder().build(FileRead::Unreadable("locked".to_string())) {
        Err(SpiderError::IoError(m)) => assert_eq!(m, "locked"),
        _ => panic!("the file must be missed"),
    }
    let list = ProxyMiddleware::load_proxies(&ProxySource::List(texts(&["p", ""])), &FileRead::Missing);
    assert_eq!(list.unwrap(), texts(&["p", ""]));
}

#[test]
fn proxies_have_usual_settings() {
    assert_eq!(ProxyRotationStrategy::default(), ProxyRotationStrategy::Sequential);
    assert!(matches!(ProxySource::default(), ProxySource::List(list) if list.is_empty()));
    let mut middleware = ProxyMiddleware::builder().build(FileRead::Missing).unwrap();
    assert_eq!(proxy(&mut middleware), None);
}

#[test]
fn whole_rounds_come_back() {
    let mut middleware = build(ProxyRotationStrategy::StickyFailover, &["p", "q", "r"], &[]);
    for expected in ["p", "q", "r", "p"] {
        assert_eq!(proxy(&mut middleware), some(expected));
        assert_eq!(proxy(&mut middleware), some(expected));
        respond(&mut middleware, 200, b"fine");
        assert_eq!(proxy(&mut middleware), some(expected));
        middleware.rotate_proxy();
    }
    let mut none = build(ProxyRotationStrategy::StickyFailover, &[], &[]);
    none.rotate_proxy();
    assert_eq!(none.current_index(), 0);
    assert_eq!(proxy(&mut none), None);
}

#[test]
fn sources_can_be_compared() {
    let source = ProxySource::List(texts(&["p"]));
    assert_eq!(source.clone(), source);
    assert_ne!(source, ProxySource::File("p".to_string()));
    let builder = ProxyMiddleware::builder().source(source);
    let mut middleware = builder.clone().build(FileRead::Missing).unwrap();
    assert_eq!(proxy(&mut middleware), some("p"));
    assert_eq!(builder.source_path(), None);
}
