use spider_middleware::error::SpiderError;
use spider_middleware::headers::low_name;
use spider_middleware::http_cache::{
    CachedResponse, Found, HttpCacheMiddleware, HttpCacheMiddlewareBuilder,
};
use spider_middleware::meta::{Meta, MetaValue};
use spider_middleware::middleware::MiddlewareAction;
use spider_middleware::request::{Request, Response};
use spider_middleware::weburl::WebUrl;

fn response(status: u16) -> Response {
    let mut headers = http::HeaderMap::new();
    headers.append("X-Two", http::HeaderValue::from_static("one"));
    headers.append("x-two", http::HeaderValue::from_static("two"));
    headers.insert("x-bytes", http::HeaderValue::from_bytes(&[0xff]).unwrap());
    headers.insert("content-type", http::HeaderValue::from_static("text/html"));
    Response {
        url: WebUrl::parse("http://a.example/end").unwrap(),
        status,
        headers,
        body: b"body".to_vec(),
        request_url: WebUrl::parse("http://a.example/start").unwrap(),
        meta: Meta::new(),
        cached: false,
    }
}

fn request() -> Request {
    let mut request = Request::new(WebUrl::parse("http://a.example/start").unwrap());
    request.meta = Meta::new().with("k", MetaValue::Text("v".to_string()));
    request
}

fn middleware() -> HttpCacheMiddleware {
    HttpCacheMiddleware::builder().cache_dir("dir".to_string()).build(None).unwrap()
}

type Fields = Vec<(String, Vec<u8>)>;

type Parts = (String, u16, Fields, Vec<u8>, String);

fn kept(url: &str, status: u16, request_url: &str) -> Found {
    let parts: Parts =
        (url.to_string(), status, Vec::new(), Vec::new(), request_url.to_string());
    Found::Bytes(bincode::serialize(&parts).unwrap())
}

#[test]
fn directories_are_set_or_found() {
    let own = middleware();
    assert_eq!(own.name(), "HttpCacheMiddleware");
    assert_eq!(own.directory().base, "dir");
    assert!(own.directory().parts.is_empty());
    let system = HttpCacheMiddlewareBuilder::default().build(Some("cache".to_string())).unwrap();
    assert_eq!(system.directory().base, "cache");
    assert_eq!(system.directory().parts, vec!["spider-lib", "http_cache"]);
    match HttpCacheMiddleware::builder().build(None) {
        Err(SpiderError::ConfigurationError(m)) => assert_eq!(m, "Could not determine cache directory"),
        _ => panic!("there is no directory"),
    }
}

#[test]
fn files_are_named_by_fingerprints() {
    let path = middleware().get_cache_file_path("abc");
    assert_eq!(path.base, "dir");
    assert_eq!(path.parts, vec!["abc.bin"]);
    let system = HttpCacheMiddleware::builder().build(Some("cache".to_string())).unwrap();
    assert_eq!(system.get_cache_file_path("f").parts, vec!["spider-lib", "http_cache", "f.bin"]);
}

#[test]
fn only_successes_are_kept() {
    assert!(middleware().to_keep(&response(200), "f").is_some());
    assert!(middleware().to_keep(&response(299), "f").is_some());
    for status in [100, 199, 300, 404, 500] {
        assert!(middleware().to_keep(&response(status), "f").is_none());
    }
}

#[test]
fn fields_are_kept_with_all_values() {
    let (path, bytes) = middleware().to_keep(&response(200), "f").unwrap();
    assert_eq!(path.parts, vec!["f.bin"]);
    let (url, status, headers, body, request_url): Parts = bincode::deserialize(&bytes).unwrap();
    assert_eq!(url, "http://a.example/end");
    assert_eq!(request_url, "http://a.example/start");
    assert_eq!(status, 200);
    assert_eq!(body, b"body");
    let mut headers = headers;
    headers.sort();
    let pair = |a: &str, b: &[u8]| (a.to_string(), b.to_vec());
    assert_eq!(
        headers,
        vec![
            pair("content-type", b"text/html"),
            pair("x-bytes", &[0xff]),
            pair("x-two", b"one"),
            pair("x-two", b"two"),
        ]
    );
}

#[test]
fn kept_responses_come_back() {
    let (_, bytes) = middleware().to_keep(&response(200), "f").unwrap();
    match HttpCacheMiddleware::process_request(request(), Found::Bytes(bytes)).unwrap() {
        (MiddlewareAction::ReturnResponse(p), false) => {
            assert!(p.cached);
            assert_eq!(p.status, 200);
            assert_eq!(p.body, b"body");
            assert_eq!(p.url.as_str(), "http://a.example/end");
            assert_eq!(p.request_url.as_str(), "http://a.example/start");
            assert_eq!(p.meta.get_text("k"), Some("v".to_string()));
            assert_eq!(p.headers, response(200).headers);
            let all: Vec<_> = p.headers.get_all("x-two").iter().collect();
            assert_eq!(all, vec!["one", "two"]);
            assert_eq!(p.headers["x-bytes"].as_bytes(), &[0xff]);
        }
        other => panic!("{:?}", other),
    }
}

#[test]
fn wrong_fields_are_left_out() {
    let pair = |a: &str, b: &[u8]| (a.to_string(), b.to_vec());
    let cached = CachedResponse {
        url: "http://a.example/".to_string(),
        status: 200,
        headers: vec![pair("a b", b"v"), pair("x-a", b"\n"), pair("X-B", b"w")],
        body: Vec::new(),
        request_url: "http://a.example/".to_string(),
    };
    match HttpCacheMiddleware::serve(request(), cached).unwrap() {
        (MiddlewareAction::ReturnResponse(p), false) => {
            assert_eq!(p.headers.len(), 1);
            assert_eq!(p.headers["x-b"], "w");
        }
        other => panic!("{:?}", other),
    }
}

#[test]
fn files_without_a_response_are_deleted() {
    assert!(matches!(
        HttpCacheMiddleware::process_request(request(), Found::Nothing),
        Some((MiddlewareAction::Continue(_), false))
    ));
    for found in [
        Found::Unreadable,
        Found::Bytes(vec![1, 2, 3]),
        kept("no url", 200, "http://a.example/"),
        kept("http://a.example/", 200, "no url"),
        kept("http://a.example/", 99, "http://a.example/"),
        kept("http://a.example/", 1000, "http://a.example/"),
    ] {
        match HttpCacheMiddleware::process_request(request(), found).unwrap() {
            (MiddlewareAction::Continue(q), true) => {
                assert_eq!(q.meta.get_text("k"), Some("v".to_string()))
            }
            other => panic!("{:?}", other),
        }
    }
    assert!(matches!(
        HttpCacheMiddleware::process_request(request(), kept("http://a.example/", 999, "http://a.example/")),
        Some((MiddlewareAction::ReturnResponse(_), false))
    ));
    assert!(http::StatusCode::from_u16(99).is_err() && http::StatusCode::from_u16(1000).is_err());
    assert!(http::StatusCode::from_u16(100).is_ok() && http::StatusCode::from_u16(999).is_ok());
}

#[test]
fn responses_go_on_unless_writing_fails() {
    assert!(matches!(
        HttpCacheMiddleware::process_response(response(200), None),
        Ok(MiddlewareAction::Continue(_))
    ));
    match HttpCacheMiddleware::process_response(response(200), Some("full".to_string())) {
        Err(SpiderError::IoError(m)) => assert_eq!(m, "full"),
        _ => panic!("the error must stand"),
    }
}

#[test]
fn too_many_fields_have_no_answer() {
    let fields = |n: usize| {
        let headers: Fields = (0..n).map(|i| (format!("x{}", i), b"v".to_vec())).collect();
        let url = "http://a.example/".to_string();
        let parts: Parts = (url.clone(), 200, headers, Vec::new(), url);
        Found::Bytes(bincode::serialize(&parts).unwrap())
    };
    for n in [6553, 20_000] {
        match HttpCacheMiddleware::process_request(request(), fields(n)) {
            Some((MiddlewareAction::ReturnResponse(p), false)) => assert_eq!(p.headers.len(), n),
            other => panic!("{:?}", other),
        }
    }
    assert!(HttpCacheMiddleware::process_request(request(), fields(24_577)).is_none());
}

#[test]
fn urls_come_back_as_they_were_read() {
    let mut kept = response(200);
    kept.url = WebUrl::parse("HTTP://A.example:80/x/../end").unwrap();
    let (_, bytes) = middleware().to_keep(&kept, "f").unwrap();
    match HttpCacheMiddleware::process_request(request(), Found::Bytes(bytes)) {
        Some((MiddlewareAction::ReturnResponse(p), false)) => {
            assert_eq!(p.url.as_str(), "http://a.example/end");
            assert_eq!(p.url.source(), kept.url.source());
        }
        other => panic!("{:?}", other),
    }
}

#[test]
fn names_with_quotation_marks_come_back() {
    let mut kept = response(200);
    let name = http::HeaderName::from_lowercase(b"x\"y").unwrap();
    kept.headers.append(name.clone(), http::HeaderValue::from_static("one"));
    kept.headers.append(name, http::HeaderValue::from_static("two"));
    let (_, bytes) = middleware().to_keep(&kept, "f").unwrap();
    match HttpCacheMiddleware::process_request(request(), Found::Bytes(bytes)) {
        Some((MiddlewareAction::ReturnResponse(p), false)) => assert_eq!(p.headers, kept.headers),
        other => panic!("{:?}", other),
    }
}

#[test]
fn names_are_read_in_lower_case() {
    assert_eq!(low_name("X-B"), Some(b"x-b".to_vec()));
    assert_eq!(low_name("x\"b"), Some(b"x\"b".to_vec()));
    assert_eq!(low_name("X\"b"), None);
    assert_eq!(low_name("x\"B"), None);
    assert_eq!(low_name("a b"), None);
    assert_eq!(low_name(""), None);
    assert!(low_name(&"a".repeat(65_535)).is_some());
    assert_eq!(low_name(&"a".repeat(65_536)), None);
    assert!(http::HeaderName::from_lowercase("a".repeat(65_535).as_bytes()).is_ok());
}
