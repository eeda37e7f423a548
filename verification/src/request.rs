//! Requests and responses.
use vstd::prelude::*;

use crate::headers::{copy_headers, header_fields, no_headers};
use crate::meta::{Meta, MetaView};
use crate::text::{joined, numeral, numerals_are_digits, numerals_differ, write_number};
use crate::weburl::{site, site_of, UrlView, WebUrl};

verus! {

/// A request to be sent.
#[derive(Debug)]
pub struct Request {
    /// What is asked for.
    pub url: WebUrl,
    /// The method.
    pub method: String,
    /// The header fields.
    pub headers: http::HeaderMap,
    /// The body, if it has one.
    pub body: Option<Vec<u8>>,
    /// What the crawler keeps with it.
    pub meta: Meta,
}

/// A request, taken by the views of its parts.
#[verifier::ext_equal]
pub struct RequestView {
    /// What is asked for.
    pub url: UrlView,
    /// The method.
    pub method: Seq<char>,
    /// The header fields.
    pub headers: Map<Seq<char>, Seq<Seq<u8>>>,
    /// The body, if it has one.
    pub body: Option<Seq<u8>>,
    /// What the crawler keeps with it.
    pub meta: MetaView,
}

/// A response that came.
#[derive(Debug)]
pub struct Response {
    /// Where the response came from in the end.
    pub url: WebUrl,
    /// The status code.
    pub status: u16,
    /// The header fields.
    pub headers: http::HeaderMap,
    /// The body.
    pub body: Vec<u8>,
    /// What was asked for.
    pub request_url: WebUrl,
    /// What the crawler kept with the request.
    pub meta: Meta,
    /// Whether the response was kept from an earlier time.
    pub cached: bool,
}

/// A response, taken by the views of its parts.
#[verifier::ext_equal]
pub struct ResponseView {
    /// Where the response came from in the end.
    pub url: UrlView,
    /// The status code.
    pub status: u16,
    /// The header fields.
    pub headers: Map<Seq<char>, Seq<Seq<u8>>>,
    /// The body.
    pub body: Seq<u8>,
    /// What was asked for.
    pub request_url: UrlView,
    /// What the crawler kept with the request.
    pub meta: MetaView,
    /// Whether the response was kept from an earlier time.
    pub cached: bool,
}

/// Bytes that may be missing.
pub open spec fn maybe_bytes(b: Option<Vec<u8>>) -> Option<Seq<u8>> {
    match b {
        Some(v) => Some(v@),
        None => None,
    }
}

impl View for Request {
    type V = RequestView;

    open spec fn view(&self) -> RequestView {
        RequestView {
            url: self.url@,
            method: self.method@,
            headers: header_fields(self.headers),
            body: maybe_bytes(self.body),
            meta: self.meta@,
        }
    }
}

impl View for Response {
    type V = ResponseView;

    open spec fn view(&self) -> ResponseView {
        ResponseView {
            url: self.url@,
            status: self.status,
            headers: header_fields(self.headers),
            body: self.body@,
            request_url: self.request_url@,
            meta: self.meta@,
            cached: self.cached,
        }
    }
}

/// A request for a URL with nothing else set: it gets, with no header fields, no body
/// and the given metadata.
pub open spec fn plain_request(url: UrlView, meta: MetaView) -> RequestView {
    RequestView { url, method: "GET"@, headers: Map::empty(), body: None, meta }
}

/// The request that a response answered, as far as the response tells.
pub open spec fn answered(response: ResponseView) -> RequestView {
    plain_request(response.request_url, response.meta)
}

/// A copy of bytes.
pub fn copy_bytes(bytes: &Vec<u8>) -> (r: Vec<u8>)
    ensures
        r@ == bytes@,
{
    let mut r: Vec<u8> = Vec::new();
    let mut i: usize = 0;
    while i < bytes.len()
        invariant
            i <= bytes.len(),
            r@ == bytes@.take(i as int),
        decreases bytes.len() - i,
    {
        r.push(bytes[i]);
        i += 1;
    }
    assert(r@ == bytes@);
    r
}

impl Request {
    /// A request for a URL with nothing else set.
    pub fn new(url: WebUrl) -> (r: Request)
        ensures
            r@ == plain_request(url@, MetaView { values: Map::empty(), retry_attempts: 0 }),
    {
        let headers = no_headers();
        assert(header_fields(headers) == Map::<Seq<char>, Seq<Seq<u8>>>::empty());
        Request { url, method: "GET".to_owned(), headers, body: None, meta: Meta::new() }
    }

    /// The same request again.
    pub fn copy(&self) -> (r: Request)
        ensures
            r@ == self@,
    {
        let body = match &self.body {
            Some(b) => Some(copy_bytes(b)),
            None => None,
        };
        Request {
            url: self.url.copy(),
            method: self.method.clone(),
            headers: copy_headers(&self.headers),
            body,
            meta: self.meta.copy(),
        }
    }

    /// How often the request was tried again.
    pub fn get_retry_attempts(&self) -> (r: u32)
        ensures
            r == self@.meta.retry_attempts,
    {
        self.meta.retry_attempts()
    }

    /// The request, tried one more time.
    pub fn with_one_more_attempt(self) -> (r: Request)
        requires
            self@.meta.retry_attempts < u32::MAX,
        ensures
            r@ == one_more_attempt(self@),
    {
        let attempts: u32 = self.meta.retry_attempts() + 1;
        Request {
            url: self.url,
            method: self.method,
            headers: self.headers,
            body: self.body,
            meta: self.meta.with_retry_attempts(attempts),
        }
    }
}

/// A request, tried one more time.
pub open spec fn one_more_attempt(request: RequestView) -> RequestView {
    RequestView {
        meta: MetaView {
            retry_attempts: (request.meta.retry_attempts + 1) as u32,
            ..request.meta
        },
        ..request
    }
}

impl Response {
    /// The request that the response answered, as far as the response tells.
    pub fn request_from_response(&self) -> (r: Request)
        ensures
            r@ == answered(self@),
    {
        let mut request = Request::new(self.request_url.copy());
        request.meta = self.meta.copy();
        request
    }
}

/// Whether a status code says that the request succeeded.
pub open spec fn is_success(status: u16) -> bool {
    200 <= status < 300
}

/// Whether a status code says that the client or the server failed.
pub open spec fn is_failure(status: u16) -> bool {
    400 <= status < 600
}

/// A URL's scheme, host and port, as `scheme://host:port`; the port is the scheme's
/// own where none is written, and 0 where it has none.
pub open spec fn origin_key(url: UrlView) -> Seq<char> {
    site(url) + ":"@ + numeral(
        match url.port {
            Some(p) => p as nat,
            None => 0,
        },
        10,
    )
}

/// A URL's scheme, host and port.
pub fn origin_of(url: &WebUrl) -> (r: String)
    ensures
        r@ == origin_key(url@),
{
    let port: u64 = match url.port() {
        Some(p) => p as u64,
        None => 0,
    };
    let head = site_of(url);
    let head = joined(head.as_str(), ":");
    let port = write_number(port, 10);
    joined(head.as_str(), port.as_str())
}

/// The scheme, host and port that a request goes to.
pub fn normalize_origin(request: &Request) -> (r: String)
    ensures
        r@ == origin_key(request@.url),
{
    origin_of(&request.url)
}

/// A request that is tried one more time is the same request, but for the count of its
/// attempts.
pub proof fn attempts_change_the_count_only(request: Request, again: Request)
    requires
        call_ensures(Request::with_one_more_attempt, (request,), again),
        request@.meta.retry_attempts < u32::MAX,
    ensures
        again@.url == request@.url,
        again@.method == request@.method,
        again@.headers == request@.headers,
        again@.body == request@.body,
        again@.meta.values == request@.meta.values,
        again@.meta.retry_attempts == request@.meta.retry_attempts + 1,
{
}

/// A copy of a request has all that the request has.
pub proof fn copies_lose_nothing(request: Request, copy: Request)
    requires
        call_ensures(Request::copy, (&request,), copy),
    ensures
        copy@.url == request@.url,
        copy@.method == request@.method,
        copy@.headers == request@.headers,
        copy@.body == request@.body,
        copy@.meta.values == request@.meta.values,
        copy@.meta.retry_attempts == request@.meta.retry_attempts,
{
}

/// A new request gets its URL, and has no header field, no body, no metadata and no attempt
/// behind it.
pub proof fn new_requests_hold_the_url_only(url: WebUrl, request: Request)
    requires
        call_ensures(Request::new, (url,), request),
    ensures
        request@.url == url@,
        request@.method == "GET"@,
        forall|name: Seq<char>| !#[trigger] request@.headers.contains_key(name),
        request@.body is None,
        forall|name: Seq<char>| !#[trigger] request@.meta.values.contains_key(name),
        request@.meta.retry_attempts == 0,
{
}

/// The request of a response asks for what was asked for, not for where the response came
/// from in the end, and carries the metadata and the attempts that the response carries.
pub proof fn responses_lead_back_to_requests(response: Response, request: Request)
    requires
        call_ensures(Response::request_from_response, (&response,), request),
    ensures
        request@.url == response@.request_url,
        request@.method == "GET"@,
        forall|name: Seq<char>| !#[trigger] request@.headers.contains_key(name),
        request@.body is None,
        request@.meta.values == response@.meta.values,
        request@.meta.retry_attempts == response@.meta.retry_attempts,
{
}

/// How often a request was tried again is what its metadata says, and what it was given.
pub proof fn attempts_are_told(request: Request, attempts: u32)
    requires
        call_ensures(Request::get_retry_attempts, (&request,), attempts),
    ensures
        attempts == request.meta@.retry_attempts,
{
}

proof fn equal_heads(a: Seq<char>, b: Seq<char>, x: Seq<char>, y: Seq<char>, c: char)
    requires
        a + seq![c] + x == b + seq![c] + y,
        !a.contains(c),
        !b.contains(c),
    ensures
        a == b,
        x == y,
{
    let left = a + seq![c] + x;
    let right = b + seq![c] + y;
    assert(left[a.len() as int] == c);
    assert(right[b.len() as int] == c);
    if a.len() < b.len() {
        assert(right[a.len() as int] == b[a.len() as int]);
        assert(b.contains(b[a.len() as int]));
    } else if b.len() < a.len() {
        assert(left[b.len() as int] == a[b.len() as int]);
        assert(a.contains(a[b.len() as int]));
    }
    assert(a =~= b) by {
        assert forall|i: int| 0 <= i < a.len() implies a[i] == b[i] by {
            assert(left[i] == a[i] && right[i] == b[i]);
        }
    }
    assert(x =~= y) by {
        assert(left.len() == right.len());
        assert forall|i: int| 0 <= i < x.len() implies x[i] == y[i] by {
            assert(left[a.len() + 1 + i] == x[i]);
            assert(right[b.len() + 1 + i] == y[i]);
        }
    }
}

proof fn equal_tails(a: Seq<char>, b: Seq<char>, x: Seq<char>, y: Seq<char>, c: char)
    requires
        a + seq![c] + x == b + seq![c] + y,
        !x.contains(c),
        !y.contains(c),
    ensures
        a == b,
        x == y,
{
    let left = a + seq![c] + x;
    let right = b + seq![c] + y;
    assert(left.len() == right.len());
    assert(left[a.len() as int] == c);
    assert(right[b.len() as int] == c);
    if a.len() < b.len() {
        let i = b.len() - a.len() - 1;
        assert(left[b.len() as int] == x[i]);
        assert(x.contains(x[i]));
    } else if b.len() < a.len() {
        let i = a.len() - b.len() - 1;
        assert(right[a.len() as int] == y[i]);
        assert(y.contains(y[i]));
    }
    assert(a =~= b) by {
        assert forall|i: int| 0 <= i < a.len() implies a[i] == b[i] by {
            assert(left[i] == a[i] && right[i] == b[i]);
        }
    }
    assert(x =~= y) by {
        assert forall|i: int| 0 <= i < x.len() implies x[i] == y[i] by {
            assert(left[a.len() + 1 + i] == x[i]);
            assert(right[b.len() + 1 + i] == y[i]);
        }
    }
}

/// Two URLs have the same origin where their schemes, their hosts and their ports are the
/// same, and nowhere else. A scheme holds no colon.
pub proof fn origins_tell_apart(a: UrlView, b: UrlView)
    requires
        !a.scheme.contains(':'),
        !b.scheme.contains(':'),
        a.host is Some,
        b.host is Some,
        a.port is Some,
        b.port is Some,
    ensures
        (origin_key(a) == origin_key(b)) == (a.scheme == b.scheme && a.host == b.host && a.port
            == b.port),
{
    reveal_strlit(":");
    reveal_strlit("://");
    if origin_key(a) == origin_key(b) {
        let pa = numeral(a.port->0 as nat, 10);
        let pb = numeral(b.port->0 as nat, 10);
        numerals_are_digits(a.port->0 as nat, 10);
        numerals_are_digits(b.port->0 as nat, 10);
        let ha = a.scheme + "://"@ + a.host->0;
        let hb = b.scheme + "://"@ + b.host->0;
        assert(":"@ =~= seq![':']);
        equal_tails(ha, hb, pa, pb, ':');
        let slashes = seq!['/', '/'];
        assert(ha =~= a.scheme + seq![':'] + (slashes + a.host->0));
        assert(hb =~= b.scheme + seq![':'] + (slashes + b.host->0));
        equal_heads(
            a.scheme,
            b.scheme,
            slashes + a.host->0,
            slashes + b.host->0,
            ':',
        );
        assert(a.host->0 =~= (slashes + a.host->0).skip(2));
        assert(b.host->0 =~= (slashes + b.host->0).skip(2));
        numerals_differ(a.port->0 as nat, b.port->0 as nat, 10);
    }
}

/// Two requests go to the same origin where their schemes, their hosts and their ports are
/// the same, and nowhere else. A scheme holds no colon.
pub proof fn origins_are_scheme_host_and_port(
    a: Request,
    b: Request,
    first: String,
    second: String,
)
    requires
        call_ensures(normalize_origin, (&a,), first),
        call_ensures(normalize_origin, (&b,), second),
        !a@.url.scheme.contains(':'),
        !b@.url.scheme.contains(':'),
        a@.url.host is Some,
        b@.url.host is Some,
        a@.url.port is Some,
        b@.url.port is Some,
    ensures
        (first@ == second@) == (a@.url.scheme == b@.url.scheme && a@.url.host == b@.url.host
            && a@.url.port == b@.url.port),
{
    origins_tell_apart(a@.url, b@.url);
}

/// An origin is written out as the scheme, `://`, the host or nothing, a colon and the port in
/// decimal digits, or 0 where there is none.
pub proof fn origins_are_written_out(request: Request, r: String)
    requires
        call_ensures(normalize_origin, (&request,), r),
    ensures
        request@.url.host is Some && request@.url.port is Some ==> r@ == request@.url.scheme
            + "://"@ + request@.url.host->0 + ":"@ + numeral(request@.url.port->0 as nat, 10),
        request@.url.host is Some && request@.url.port is None ==> r@ == request@.url.scheme
            + "://"@ + request@.url.host->0 + ":"@ + seq!['0'],
        request@.url.host is None && request@.url.port is None ==> r@ == request@.url.scheme
            + "://"@ + ":"@ + seq!['0'],
{
    assert(numeral(0, 10) =~= seq!['0']);
    let head = request@.url.scheme + "://"@;
    assert(head + Seq::<char>::empty() =~= head);
}

/// What is told of a request and of a response is all that they hold.
pub proof fn views_show_all(request: Request, response: Response)
    ensures
        request@.url == request.url@,
        request@.method == request.method@,
        request@.headers == header_fields(request.headers),
        request@.body is Some == request.body is Some,
        request.body matches Some(bytes) ==> request@.body == Some(bytes@),
        request@.meta == request.meta@,
        response@.url == response.url@,
        response@.status == response.status,
        response@.headers == header_fields(response.headers),
        response@.body == response.body@,
        response@.request_url == response.request_url@,
        response@.meta == response.meta@,
        response@.cached == response.cached,
{
}

} // verus!
