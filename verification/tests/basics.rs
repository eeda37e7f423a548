use spider_middleware::cache::can_live;
use spider_middleware::delay::Delay;
use spider_middleware::error::{ReqwestErrorDetails, SpiderError};
use spider_middleware::headers::{field_name, field_value, header_text, plain_text};
use spider_middleware::meta::{Meta, MetaValue};
use spider_middleware::request::{normalize_origin, Request, Response};
use spider_middleware::slots::SlotTable;
use spider_middleware::text;
use spider_middleware::weburl::{site_of, WebUrl};

#[test]
fn texts_are_cut_at_a_separator() {
    assert_eq!(text::split("a\tb\t\tc", '\t'), vec!["a", "b", "", "c"]);
    assert_eq!(text::split("", '\t'), vec![""]);
    assert_eq!(text::split("\t", '\t'), vec!["", ""]);
}

#[test]
fn blank_texts_hold_only_white_space() {
    assert!(text::blank(""));
    assert!(text::blank(" \t\u{a0}\u{3000}\n"));
    assert!(!text::blank(" x "));
}

#[test]
fn parts_are_found() {
    assert!(text::contains("Access Denied", "Denied"));
    assert!(text::contains("abc", ""));
    assert!(!text::contains("ab", "abc"));
    assert!(text::contains("aab", "ab"));
}

#[test]
fn numbers_are_written_in_any_base() {
    assert_eq!(text::write_number(0, 10), "0");
    assert_eq!(text::write_number(65535, 10), "65535");
    assert_eq!(text::write_number(u64::MAX, 16), "ffffffffffffffff");
    assert_eq!(text::write_number(3054, 16), "bee");
}

#[test]
fn case_is_ignored_in_ascii_only() {
    assert!(text::same_ignoring_case("TrUe", "TRUE"));
    assert!(!text::same_ignoring_case("\u{c4}", "\u{e4}"));
    assert!(!text::same_ignoring_case("a", "ab"));
}

#[test]
fn delays_add_up() {
    let a = Delay::new(1, 999_999_999);
    let b = Delay::new(0, 1);
    assert_eq!(a.plus(b), Delay::from_secs(2));
    assert_eq!(Delay::from_millis(1500).saturating_sub(Delay::from_secs(1)), Delay::from_millis(500));
    assert_eq!(b.saturating_sub(a), Delay::from_secs(0));
    assert!(a.can_grow_by(&b));
    assert!(!Delay::new(u64::MAX, 999_999_999).can_grow_by(&b));
    assert!(Delay::new(u64::MAX, 999_999_998).can_grow_by(&b));
    assert_eq!(a.min(b), b);
    assert_eq!(Delay::from_secs(100).clamp(b, a), a);
}

#[test]
fn caches_live_up_to_a_thousand_years() {
    assert!(can_live(&Delay::from_secs(31_536_000_000)));
    assert!(!can_live(&Delay::new(31_536_000_000, 1)));
}

#[test]
fn names_of_fields_are_tokens() {
    assert!(field_name("User-Agent"));
    assert!(field_name("x!#$%&'*+-.^_`|~9"));
    assert!(!field_name(""));
    assert!(!field_name("a b"));
    assert!(!field_name("a:b"));
    for n in 0u8..=255 {
        let text = (n as char).to_string();
        assert_eq!(field_name(&text), http::HeaderName::from_bytes(text.as_bytes()).is_ok());
    }
    assert!(field_name(&"a".repeat(65535)));
    assert!(!field_name(&"a".repeat(65536)));
}

#[test]
fn values_of_fields_hold_no_control_characters() {
    for n in 0u32..=300 {
        let text = char::from_u32(n).unwrap().to_string();
        assert_eq!(field_value(&text), http::HeaderValue::from_str(&text).is_ok());
    }
    assert!(field_value(""));
}

#[test]
fn values_are_text_where_they_are_plain() {
    assert_eq!(plain_text(&b"a b\tc".to_vec()), Some("a b\tc".to_string()));
    assert_eq!(plain_text(&vec![0xe4]), None);
    assert_eq!(plain_text(&vec![127]), None);
    assert_eq!(plain_text(&Vec::new()), Some(String::new()));
}

#[test]
fn first_values_are_read() {
    let mut headers = http::HeaderMap::new();
    headers.append("X-A", http::HeaderValue::from_static("one"));
    headers.append("x-a", http::HeaderValue::from_static("two"));
    headers.insert("x-b", http::HeaderValue::from_bytes(&[0xff]).unwrap());
    assert_eq!(header_text(&headers, "x-A"), Some(Some("one".to_string())));
    assert_eq!(header_text(&headers, "x-b"), Some(None));
    assert_eq!(header_text(&headers, "x-c"), None);
}

#[test]
fn urls_are_read_into_parts() {
    let url = WebUrl::parse("HTTPS://Example.com:443/a/../b?q#f").unwrap();
    assert_eq!(url.as_str(), "https://example.com/b?q#f");
    assert_eq!(url.source(), "HTTPS://Example.com:443/a/../b?q#f");
    assert_eq!(url.scheme(), "https");
    assert_eq!(url.host_or_empty(), "example.com");
    assert_eq!(url.domain(), Some("example.com".to_string()));
    assert_eq!(url.port(), Some(443));
    assert_eq!(url.origin(), "https://example.com");
    assert!(url.has_fragment());
    assert_eq!(url.text_without_fragment(), "https://example.com/b?q");
    assert_eq!(site_of(&url), "https://example.com");
    assert_eq!(url.copy().as_str(), url.as_str());
}

#[test]
fn texts_that_are_no_urls_bring_the_reason() {
    assert_eq!(WebUrl::parse("a").unwrap_err(), "relative URL without a base");
    assert_eq!(WebUrl::parse("http://").unwrap_err(), "empty host");
}

#[test]
fn opaque_paths_lose_their_last_spaces_with_the_fragment() {
    let url = WebUrl::parse("data:text/plain,hi  #x").unwrap();
    let mut expected = url::Url::parse("data:text/plain,hi  #x").unwrap();
    expected.set_fragment(None);
    assert_eq!(url.text_without_fragment(), expected.as_str());
    assert_eq!(url.text_without_fragment(), "data:text/plain,hi");
    assert_eq!(url.origin(), "null");
    assert_eq!(url.host_or_empty(), "");
    let query = WebUrl::parse("data:text/plain,hi?a  #x").unwrap();
    let mut expected = url::Url::parse("data:text/plain,hi?a  #x").unwrap();
    expected.set_fragment(None);
    assert_eq!(query.text_without_fragment(), expected.as_str());
}

#[test]
fn addresses_are_no_domains() {
    let url = WebUrl::parse("http://127.0.0.1:8080/").unwrap();
    assert_eq!(url.domain(), None);
    assert_eq!(url.host_or_empty(), "127.0.0.1");
    assert_eq!(normalize_origin(&Request::new(url)), "http://127.0.0.1:8080");
}

#[test]
fn origins_have_the_port_of_the_scheme() {
    let request = Request::new(WebUrl::parse("http://example.com/x").unwrap());
    assert_eq!(normalize_origin(&request), "http://example.com:80");
    let request = Request::new(WebUrl::parse("mailto:a@b").unwrap());
    assert_eq!(normalize_origin(&request), "mailto://:0");
}

#[test]
fn metadata_keeps_the_last_value_of_a_name() {
    let meta = Meta::new()
        .with("a", MetaValue::Text("1".to_string()))
        .with("b", MetaValue::Json("{}".to_string()))
        .with("a", MetaValue::Text("2".to_string()))
        .with_retry_attempts(4);
    let copy = meta.copy();
    assert_eq!(copy.get_text("a"), Some("2".to_string()));
    assert_eq!(copy.get_text("b"), None);
    assert!(matches!(copy.get("b"), Some(MetaValue::Json(_))));
    assert!(copy.get("c").is_none());
    assert_eq!(copy.retry_attempts(), 4);
}

#[test]
fn tables_keep_the_order_of_names() {
    let table = SlotTable::new().with("b", 1u8).with("a", 2).with("b", 3);
    assert_eq!(table.len(), 2);
    assert_eq!(table.get("b"), Some(&3));
    assert_eq!(table.get("c"), None);
    assert_eq!(table.into_entries(), vec![("b".to_string(), 3), ("a".to_string(), 2)]);
}

#[test]
fn responses_tell_what_they_answered() {
    let response = Response {
        url: WebUrl::parse("http://a.b/end").unwrap(),
        status: 200,
        headers: http::HeaderMap::new(),
        body: vec![1, 2],
        request_url: WebUrl::parse("http://a.b/start").unwrap(),
        meta: Meta::new().with("k", MetaValue::Text("v".to_string())).with_retry_attempts(2),
        cached: false,
    };
    let request = response.request_from_response();
    assert_eq!(request.url.as_str(), "http://a.b/start");
    assert_eq!(request.method, "GET");
    assert!(request.headers.is_empty());
    assert!(request.body.is_none());
    assert_eq!(request.meta.get_text("k"), Some("v".to_string()));
    assert_eq!(request.get_retry_attempts(), 2);
    assert_eq!(request.with_one_more_attempt().get_retry_attempts(), 3);
}

#[test]
fn requests_are_copied_whole() {
    let mut request = Request::new(WebUrl::parse("http://a.b/").unwrap());
    request.method = "POST".to_string();
    request.body = Some(vec![7]);
    request.headers.insert("x-a", http::HeaderValue::from_static("v"));
    let copy = request.copy();
    assert_eq!(copy.method, "POST");
    assert_eq!(copy.body, Some(vec![7]));
    assert_eq!(copy.headers, request.headers);
}

#[test]
fn errors_are_copied_whole() {
    let error = SpiderError::ReqwestError(ReqwestErrorDetails {
        message: "m".to_string(),
        is_connect: true,
        is_timeout: false,
    });
    assert_eq!(format!("{:?}", error.copy()), format!("{:?}", error));
    let error = SpiderError::BlockedByRobotsTxt;
    assert!(matches!(error.copy(), SpiderError::BlockedByRobotsTxt));
}
