use spider_middleware::cookies::{add_cookies, CookieMiddleware};
use spider_middleware::error::SpiderError;
use spider_middleware::meta::Meta;
use spider_middleware::middleware::MiddlewareAction;
use spider_middleware::request::{Request, Response};
use spider_middleware::weburl::WebUrl;

fn request(url: &str) -> Request {
    Request::new(WebUrl::parse(url).unwrap())
}

fn response(url: &str, cookies: Vec<&str>) -> Response {
    let mut headers = http::HeaderMap::new();
    for cookie in cookies {
        let value = http::HeaderValue::from_bytes(cookie.as_bytes()).unwrap();
        headers.append("set-cookie", value);
    }
    Response {
        url: WebUrl::parse(url).unwrap(),
        status: 200,
        headers,
        body: Vec::new(),
        request_url: WebUrl::parse(url).unwrap(),
        meta: Meta::new(),
        cached: false,
    }
}

fn sent(middleware: &CookieMiddleware, url: &str) -> Vec<String> {
    match middleware.process_request(request(url)).unwrap() {
        MiddlewareAction::Continue(request) => match request.headers.get("cookie") {
            Some(value) => {
                let text = value.to_str().unwrap();
                let mut all: Vec<String> = text.split("; ").map(|s| s.to_string()).collect();
                all.sort();
                all
            }
            None => Vec::new(),
        },
        _ => panic!("the request must go on"),
    }
}

fn lines(text: &str) -> Vec<Result<String, String>> {
    text.lines().map(|l| Ok(l.to_string())).collect()
}

fn words(r: Result<CookieMiddleware, SpiderError>) -> String {
    match r {
        Ok(_) => panic!("the file must be refused"),
        Err(SpiderError::GeneralError(m)) => m,
        Err(SpiderError::UrlParseError(m)) => format!("url: {}", m),
        Err(SpiderError::IoError(m)) => format!("io: {}", m),
        Err(e) => panic!("{:?}", e),
    }
}

#[test]
fn cookies_come_back_to_their_url() {
    let mut middleware = CookieMiddleware::new();
    assert_eq!(middleware.name(), "CookieMiddleware");
    assert!(sent(&middleware, "http://a.example/x/y").is_empty());
    let answer = middleware.process_response(response("http://a.example/x/y", vec!["n=v"])).unwrap();
    assert!(matches!(answer, MiddlewareAction::Continue(_)));
    assert_eq!(sent(&middleware, "http://a.example/x/y"), vec!["n=v"]);
    assert_eq!(sent(&middleware, "http://a.example/x/z"), vec!["n=v"]);
    assert!(sent(&middleware, "http://a.example/").is_empty());
    assert!(sent(&middleware, "http://b.example/x/y").is_empty());
}

#[test]
fn cookies_for_every_path_come_back_everywhere() {
    let mut middleware = CookieMiddleware::default();
    middleware.process_response(response("https://a.example/x/y", vec!["n=v; Path=/", "s=t; Path=/; Secure"])).unwrap();
    assert_eq!(sent(&middleware, "https://a.example/"), vec!["n=v", "s=t"]);
    assert_eq!(sent(&middleware, "http://a.example/q"), vec!["n=v"]);
    assert!(sent(&middleware, "http://b.a.example/q").is_empty());
}

#[test]
fn later_cookies_take_the_place_of_earlier_ones() {
    let mut middleware = CookieMiddleware::new();
    middleware.process_response(response("http://a.example/", vec!["n=1", "m=2", "n=3"])).unwrap();
    assert_eq!(sent(&middleware, "http://a.example/"), vec!["m=2", "n=3"]);
    middleware.process_response(response("http://a.example/", vec!["m=4"])).unwrap();
    assert_eq!(sent(&middleware, "http://a.example/"), vec!["m=4", "n=3"]);
}

#[test]
fn values_that_hold_no_cookie_are_passed_over() {
    let mut middleware = CookieMiddleware::new();
    middleware.process_response(response("http://a.example/", vec!["nothing", "=x", "\u{e4}=1", "n=v"])).unwrap();
    assert_eq!(sent(&middleware, "http://a.example/"), vec!["n=v"]);
}

#[test]
fn cookies_whose_time_has_ended_are_not_sent() {
    let mut middleware = CookieMiddleware::new();
    middleware.process_response(response("http://a.example/", vec!["n=v; Max-Age=0", "k=l; Max-Age=1000"])).unwrap();
    assert_eq!(sent(&middleware, "http://a.example/"), vec!["k=l"]);
}

#[test]
fn cookies_of_other_domains_are_refused() {
    let mut middleware = CookieMiddleware::new();
    middleware.process_response(response("http://a.example/", vec!["n=v; Domain=b.example"])).unwrap();
    assert!(sent(&middleware, "http://b.example/").is_empty());
    middleware.process_response(response("http://c.a.example/", vec!["n=v; Domain=a.example"])).unwrap();
    assert_eq!(sent(&middleware, "http://d.a.example/"), vec!["n=v"]);
}

#[test]
fn cookies_are_joined() {
    let pairs = vec![("a".to_string(), "1".to_string()), ("b".to_string(), "2".to_string())];
    match add_cookies(request("http://a.example/"), &pairs).unwrap() {
        MiddlewareAction::Continue(r) => assert_eq!(r.headers["cookie"], "a=1; b=2"),
        _ => panic!("the request must go on"),
    }
    match add_cookies(request("http://a.example/"), &Vec::new()).unwrap() {
        MiddlewareAction::Continue(r) => assert!(r.headers.is_empty()),
        _ => panic!("the request must go on"),
    }
}

#[test]
fn cookies_that_no_field_can_hold_are_an_error() {
    let pairs = vec![("a".to_string(), "\n".to_string())];
    match add_cookies(request("http://a.example/"), &pairs) {
        Err(SpiderError::InvalidHeaderValueError(m)) => assert_eq!(m, "failed to parse header value"),
        _ => panic!("the request must be refused"),
    }
    assert_eq!(http::HeaderValue::from_str("\n").unwrap_err().to_string(), "failed to parse header value");
}

#[test]
fn netscape_files_are_read() {
    let text = "# Netscape HTTP Cookie File\n\n  \n.a.example\tTRUE\t/\tFALSE\t0\tn\tv\na.example\tFALSE\t/p\ttrue\t253402300799\tm\tw";
    let middleware = CookieMiddleware::from_netscape_file(&lines(text)).unwrap();
    assert_eq!(sent(&middleware, "http://a.example/"), vec!["n=v"]);
    assert_eq!(sent(&middleware, "http://b.a.example/"), vec!["n=v"]);
    assert_eq!(sent(&middleware, "https://a.example/p"), vec!["m=w", "n=v"]);
    assert_eq!(sent(&middleware, "http://a.example/p"), vec!["n=v"]);
    assert_eq!(middleware.store.get("a.example", "/", "n").unwrap().value(), "v");
    assert_eq!(middleware.store.get("a.example", "/p", "m").unwrap().secure(), Some(true));
    assert_eq!(middleware.store.iter_any().count(), 2);
}

#[test]
fn netscape_cookies_end() {
    let text = "a.example\tFALSE\t/\tFALSE\t1\tn\tv";
    let middleware = CookieMiddleware::from_netscape_file(&lines(text)).unwrap();
    assert!(sent(&middleware, "http://a.example/").is_empty());
}

#[test]
fn netscape_lines_have_seven_fields() {
    assert_eq!(
        words(CookieMiddleware::from_netscape_file(&lines("a\tb"))),
        "Malformed Netscape cookie line: Expected 7 parts, got 2"
    );
    assert_eq!(
        words(CookieMiddleware::from_netscape_file(&lines("1\t2\t3\t4\t5\t6\t7\t8"))),
        "Malformed Netscape cookie line: Expected 7 parts, got 8"
    );
}

#[test]
fn netscape_times_are_numbers() {
    let line = |t: &str| lines(&format!("a.example\tFALSE\t/\tFALSE\t{}\tn\tv", t));
    assert_eq!(
        words(CookieMiddleware::from_netscape_file(&line("x"))),
        "Invalid timestamp format: invalid digit found in string"
    );
    assert_eq!(
        words(CookieMiddleware::from_netscape_file(&line(""))),
        "Invalid timestamp format: cannot parse integer from empty string"
    );
    assert_eq!(
        words(CookieMiddleware::from_netscape_file(&line("9223372036854775808"))),
        "Invalid timestamp format: number too large to fit in target type"
    );
    let expected = time::OffsetDateTime::from_unix_timestamp(253402300800).unwrap_err().to_string();
    assert_eq!(
        words(CookieMiddleware::from_netscape_file(&line("253402300800"))),
        format!("Invalid timestamp value: {}", expected)
    );
    let expected = time::OffsetDateTime::from_unix_timestamp(-377705116801).unwrap_err().to_string();
    assert_eq!(
        words(CookieMiddleware::from_netscape_file(&line("-377705116801"))),
        format!("Invalid timestamp value: {}", expected)
    );
    assert!(CookieMiddleware::from_netscape_file(&line("+0")).is_ok());
    assert!(CookieMiddleware::from_netscape_file(&line("-377705116800")).is_ok());
}

#[test]
fn netscape_domains_are_hosts() {
    let text = "\tFALSE\t/\tFALSE\t0\tn\tv";
    assert_eq!(words(CookieMiddleware::from_netscape_file(&lines(text))), "url: empty host");
}

#[test]
fn first_wrong_lines_are_the_error() {
    let mut all = lines("a.example\tFALSE\t/\tFALSE\t0\tn\tv");
    all.push(Err("disk".to_string()));
    all.push(Ok("a\tb".to_string()));
    assert_eq!(words(CookieMiddleware::from_netscape_file(&all)), "io: disk");
    assert_eq!(words(CookieMiddleware::from_rfc6265(&vec![Err("disk".to_string())])), "io: disk");
}

#[test]
fn files_of_fields_are_read() {
    let text = "n=v; Domain=a.example; Path=/\n   \nm=w; Domain=.b.example; Path=/; Secure";
    let middleware = CookieMiddleware::from_rfc6265(&lines(text)).unwrap();
    assert_eq!(sent(&middleware, "http://a.example/"), vec!["n=v"]);
    assert_eq!(sent(&middleware, "https://b.example/"), vec!["m=w"]);
    assert!(sent(&middleware, "http://b.example/").is_empty());
}

#[test]
fn fields_in_files_have_a_domain() {
    assert_eq!(
        words(CookieMiddleware::from_rfc6265(&lines("n=v"))),
        "Cookie in file must have an explicit Domain attribute"
    );
    assert_eq!(
        words(CookieMiddleware::from_rfc6265(&lines("n"))),
        "Failed to parse cookie: the cookie is missing a name/value pair"
    );
    assert_eq!(
        words(CookieMiddleware::from_rfc6265(&lines("n=v; Domain=a b"))),
        "url: invalid international domain name"
    );
}

#[test]
fn json_files_are_read() {
    let mut store = cookie_store::CookieStore::default();
    let url = url::Url::parse("http://a.example/").unwrap();
    store.parse("n=v; Max-Age=100000; Path=/", &url).unwrap();
    let mut bytes = Vec::new();
    store.save_json(&mut bytes).unwrap();
    let middleware = CookieMiddleware::from_json(&bytes).unwrap();
    assert_eq!(sent(&middleware, "http://a.example/"), vec!["n=v"]);
    assert!(sent(&CookieMiddleware::from_json(&Vec::new()).unwrap(), "http://a.example/").is_empty());
    assert!(!words(CookieMiddleware::from_json(&b"{".to_vec())).is_empty());
}

#[test]
fn stores_are_taken_over() {
    let mut store = cookie_store::CookieStore::default();
    let url = url::Url::parse("http://a.example/").unwrap();
    store.parse("n=v", &url).unwrap();
    let middleware = CookieMiddleware::with_store(store);
    assert_eq!(sent(&middleware, "http://a.example/"), vec!["n=v"]);
}

#[test]
fn hosts_with_a_dot_at_their_end_keep_their_cookies() {
    let mut middleware = CookieMiddleware::new();
    middleware.process_response(response("http://a.example./", vec!["n=v"])).unwrap();
    assert_eq!(sent(&middleware, "http://a.example./"), vec!["n=v"]);
}

#[test]
fn netscape_cookies_last_until_their_time() {
    let line = |ends: &str| format!("a.example\tFALSE\t/\tFALSE\t{}\tn{}\tv", ends, ends.len());
    let text = format!("{}\n{}", line("32503680000"), line("1"));
    let middleware = CookieMiddleware::from_netscape_file(&lines(&text)).unwrap();
    assert_eq!(sent(&middleware, "http://a.example/"), vec!["n11=v"]);
    let cookie = middleware.store.get("a.example", "/", "n11").unwrap();
    assert_eq!(cookie.expires_datetime().unwrap().unix_timestamp(), 32503680000);
}

#[test]
fn cookies_come_back_below_their_path() {
    let mut middleware = CookieMiddleware::new();
    let set = vec!["n=v; Path=/x", "m=w; Path=y", "l=u; Path=/x/"];
    middleware.process_response(response("http://a.example/p/q/r", set)).unwrap();
    assert_eq!(sent(&middleware, "http://a.example/x"), vec!["n=v"]);
    assert_eq!(sent(&middleware, "http://a.example/x/y?z"), vec!["l=u", "n=v"]);
    assert!(sent(&middleware, "http://a.example/xy").is_empty());
    assert_eq!(sent(&middleware, "http://a.example/p/q"), vec!["m=w"]);
    assert_eq!(sent(&middleware, "http://a.example/p/q/s/t"), vec!["m=w"]);
    assert!(sent(&middleware, "http://a.example/p/").is_empty());
    assert!(middleware.store.get("a.example", "/p/q", "m").is_some());
}

#[test]
fn cookies_come_back_below_their_domain() {
    let mut middleware = CookieMiddleware::new();
    let set = vec!["n=v; Domain=a.example; Path=/", "m=w; Path=/"];
    middleware.process_response(response("http://b.a.example/", set)).unwrap();
    assert_eq!(sent(&middleware, "http://a.example/"), vec!["n=v"]);
    assert_eq!(sent(&middleware, "http://b.a.example/"), vec!["m=w", "n=v"]);
    assert_eq!(sent(&middleware, "https://d.c.a.example/x"), vec!["n=v"]);
    assert!(sent(&middleware, "http://ba.example/").is_empty());
    assert!(middleware.store.get("a.example", "/", "n").is_some());
    assert!(middleware.store.get("b.a.example", "/", "m").is_some());
}

#[test]
fn cookies_of_a_top_path_come_back_everywhere() {
    let mut middleware = CookieMiddleware::new();
    middleware.process_response(response("http://a.example/x", vec!["n=v"])).unwrap();
    assert!(middleware.store.get("a.example", "/", "n").is_some());
    assert_eq!(sent(&middleware, "http://a.example/y/z"), vec!["n=v"]);
}
