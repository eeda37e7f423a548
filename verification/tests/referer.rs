use spider_middleware::error::SpiderError;
use spider_middleware::meta::{Meta, MetaValue};
use spider_middleware::middleware::MiddlewareAction;
use spider_middleware::referer::RefererMiddleware;
use spider_middleware::request::{Request, Response};
use spider_middleware::weburl::WebUrl;

fn request(url: &str) -> Request {
    Request::new(WebUrl::parse(url).unwrap())
}

fn with_meta(url: &str, name: &str, value: MetaValue) -> Request {
    let mut request = request(url);
    request.meta = Meta::new().with(name, value);
    request
}

fn response(asked: &str, came: &str) -> Response {
    Response {
        url: WebUrl::parse(came).unwrap(),
        status: 200,
        headers: http::HeaderMap::new(),
        body: Vec::new(),
        request_url: WebUrl::parse(asked).unwrap(),
        meta: Meta::new(),
        cached: false,
    }
}

fn referer(middleware: &RefererMiddleware, request: Request) -> Option<String> {
    match middleware.process_request(request).unwrap() {
        MiddlewareAction::Continue(request) => {
            request.headers.get("referer").map(|v| v.to_str().unwrap().to_string())
        }
        _ => panic!("the request must go on"),
    }
}

fn text(value: &str) -> MetaValue {
    MetaValue::Text(value.to_string())
}

#[test]
fn referers_of_new_requests_are_unknown() {
    let middleware = RefererMiddleware::new();
    assert_eq!(middleware.name(), "RefererMiddleware");
    assert!(middleware.same_origin_only);
    assert_eq!(middleware.max_chain_length, 1000);
    assert!(!middleware.include_fragment);
    assert_eq!(referer(&middleware, request("http://a.b/")), None);
}

#[test]
fn metadata_names_the_referer() {
    let middleware = RefererMiddleware::new();
    let r = with_meta("http://a.b/x", "referer", text("http://a.b/y#z"));
    assert_eq!(referer(&middleware, r), Some("http://a.b/y".to_string()));
    let r = with_meta("http://a.b/x", "referer", text("http://c.d/y"));
    assert_eq!(referer(&middleware, r), None);
    let r = with_meta("http://a.b/x", "referer", text("https://a.b/y"));
    assert_eq!(referer(&middleware, r), None);
    let r = with_meta("http://a.b/x", "referer", text("no url"));
    assert_eq!(referer(&middleware, r), None);
    let r = with_meta("http://a.b/x", "referer", MetaValue::Json("\"http://a.b/y\"".to_string()));
    assert_eq!(referer(&middleware, r), None);
}

#[test]
fn ports_part_origins() {
    let middleware = RefererMiddleware::new();
    let r = with_meta("https://a.example:8443/x", "referer", text("https://a.example/y"));
    assert_eq!(referer(&middleware, r), None);
    let r = with_meta("https://a.example:443/x", "referer", text("https://a.example/y"));
    assert_eq!(referer(&middleware, r), Some("https://a.example/y".to_string()));
}

#[test]
fn any_origin_can_be_allowed() {
    let middleware = RefererMiddleware::new().same_origin_only(false).include_fragment(true);
    let r = with_meta("http://a.b/x", "referer", text("http://c.d/y#z"));
    assert_eq!(referer(&middleware, r), Some("http://c.d/y#z".to_string()));
}

#[test]
fn pages_lead_to_the_same_request_again() {
    let mut middleware = RefererMiddleware::new();
    let answer = middleware.process_response(response("http://a.b/x", "http://a.b/end#top")).unwrap();
    assert!(matches!(answer, MiddlewareAction::Continue(_)));
    assert_eq!(referer(&middleware, request("http://a.b/x")), Some("http://a.b/end".to_string()));
    assert_eq!(referer(&middleware, request("http://a.b/y")), None);
    let mut post = request("http://a.b/x");
    post.method = "POST".to_string();
    assert_eq!(referer(&middleware, post), None);
}

#[test]
fn pages_lead_to_children() {
    let mut middleware = RefererMiddleware::new();
    middleware.process_response(response("http://a.b/x", "http://a.b/end")).unwrap();
    let id = format!("req_{:x}", seahash::hash(b"http://a.b/x"));
    let child = with_meta("http://a.b/child", "parent_request_id", text(&id));
    assert_eq!(referer(&middleware, child), Some("http://a.b/end".to_string()));
    let child = with_meta("http://a.b/child", "parent_request_id", text("req_0"));
    assert_eq!(referer(&middleware, child), None);
}

#[test]
fn kept_pages_stay_within_their_origin() {
    let mut middleware = RefererMiddleware::new();
    middleware.process_response(response("http://a.b/x", "http://c.d/end")).unwrap();
    assert_eq!(referer(&middleware, request("http://a.b/x")), None);
    let id = format!("req_{:x}", seahash::hash(b"http://a.b/x"));
    let child = with_meta("http://a.b/child", "parent_request_id", text(&id));
    assert_eq!(referer(&middleware, child), None);
    let child = with_meta("http://c.d/child", "parent_request_id", text(&id));
    assert_eq!(referer(&middleware, child), Some("http://c.d/end".to_string()));
    let middleware = middleware.same_origin_only(false);
    assert_eq!(referer(&middleware, request("http://a.b/x")), Some("http://c.d/end".to_string()));
}

#[test]
fn no_more_pages_are_kept_than_allowed() {
    let mut none = RefererMiddleware::default().max_chain_length(0);
    none.process_response(response("http://a.b/1", "http://a.b/one")).unwrap();
    assert_eq!(referer(&none, request("http://a.b/1")), None);
    let one = Some("http://a.b/one".to_string());
    let two = Some("http://a.b/two".to_string());
    for (limit, second) in [(1, &None), (2, &None), (3, &two), (4, &two)] {
        let mut middleware = RefererMiddleware::new().max_chain_length(limit);
        middleware.process_response(response("http://a.b/1", "http://a.b/one")).unwrap();
        middleware.process_response(response("http://a.b/2", "http://a.b/two")).unwrap();
        assert_eq!(referer(&middleware, request("http://a.b/1")), one);
        assert_eq!(referer(&middleware, request("http://a.b/2")), *second);
    }
}

#[test]
fn the_last_place_is_for_the_same_request() {
    for (limit, led) in [(1, None), (2, Some("http://a.b/end".to_string()))] {
        let mut middleware = RefererMiddleware::new().max_chain_length(limit);
        middleware.process_response(response("http://a.b/x", "http://a.b/end")).unwrap();
        assert_eq!(referer(&middleware, request("http://a.b/x")), Some("http://a.b/end".to_string()));
        let id = format!("req_{:x}", seahash::hash(b"http://a.b/x"));
        let child = with_meta("http://a.b/child", "parent_request_id", text(&id));
        assert_eq!(referer(&middleware, child), led);
    }
}

#[test]
fn pages_are_kept_anew_where_there_is_room() {
    let mut middleware = RefererMiddleware::new().max_chain_length(3);
    middleware.process_response(response("http://a.b/1", "http://a.b/one")).unwrap();
    middleware.process_response(response("http://a.b/1", "http://a.b/two")).unwrap();
    assert_eq!(referer(&middleware, request("http://a.b/1")), Some("http://a.b/two".to_string()));
}

#[test]
fn old_referers_are_replaced() {
    let middleware = RefererMiddleware::new();
    let mut r = with_meta("http://a.b/x", "referer", text("http://a.b/y"));
    r.headers.append("referer", http::HeaderValue::from_static("http://old/"));
    r.headers.append("referer", http::HeaderValue::from_static("http://older/"));
    match middleware.process_request(r).unwrap() {
        MiddlewareAction::Continue(r) => {
            let all: Vec<_> = r.headers.get_all("referer").iter().collect();
            assert_eq!(all, vec!["http://a.b/y"]);
        }
        _ => panic!("the request must go on"),
    }
}

#[test]
fn requests_with_many_fields_are_led_too() {
    let mut r = with_meta("http://a.b/x", "referer", text("http://a.b/y"));
    for n in 0..20_000 {
        let name = http::HeaderName::from_bytes(format!("x{}", n).as_bytes()).unwrap();
        r.headers.insert(name, http::HeaderValue::from_static("v"));
    }
    let sent = referer(&RefererMiddleware::new(), r);
    assert_eq!(sent, Some("http://a.b/y".to_string()));
}

#[test]
fn requests_with_too_many_fields_are_an_error() {
    let mut r = with_meta("http://a.b/x", "referer", text("http://a.b/y"));
    for n in 0..24_576 {
        let name = http::HeaderName::from_bytes(format!("x{}", n).as_bytes()).unwrap();
        r.headers.insert(name, http::HeaderValue::from_static("v"));
    }
    match RefererMiddleware::new().process_request(r) {
        Err(SpiderError::GeneralError(m)) => assert_eq!(m, "size overflows MAX_SIZE"),
        _ => panic!("the request must be refused"),
    }
}
