//! Cookies: kept from responses and sent with requests.
use vstd::prelude::*;
use vstd::utf8::encode_utf8;

use crate::encoding::ascii_text;
use crate::error::{SpiderError, SpiderErrorView};
use crate::headers::{all_headers, bytes_of, field_value, is_field_name, is_field_value, is_plain,
    is_refused, plain_text, refused, roomy, set_field, values_for};
use crate::jar::{before_last_slash, belongs, built_cookie, check_timestamp, cookie_goes_to,
    cookie_spot, cookies_for, default_path, empty_jar, entry_at, has_suffix_list,
    hold_what_belongs, is_homely, is_lasting, is_own, is_placed, is_plain_host, is_timestamp,
    is_web, jar, jar_from_json, json_cookies, keep_built_cookie, keep_cookie, key_at, laid, loaded, own_spot,
    parsed_cookie, path_matches, read_cookie, sent, sent_from, timestamp_error, without_dot,
    CookieEntry, CookieKey, CookieView};
use crate::middleware::{answer_unless_crowded, crowded, MiddlewareAction};
use crate::number::{int_value, int_error, parse_int};
use crate::request::{Request, RequestView, Response, ResponseView};
use crate::text::{blank, fields, first_is, is_blank, is_white, joined, joined_texts_are_the_fields,
    lowered, numeral, pair_texts, rejoined, same_ignoring_case, split, tail, texts, write_number};
use crate::weburl::{parsed_url, UrlView, WebUrl};

verus! {

/// The cookies of a jar.
pub type Jar = Map<CookieKey, CookieEntry>;

/// Keeps cookies from responses and sends them with requests.
#[derive(Debug)]
pub struct CookieMiddleware {
    /// The jar that the cookies are kept in.
    pub store: cookie_store::CookieStore,
}

/// What a line of a cookie file comes to.
pub enum LineView {
    /// The line holds no cookie.
    Nothing,
    /// The line cannot be read.
    Wrong(SpiderErrorView),
    /// The line holds a cookie that a URL sets.
    Holds(CookieView, Seq<char>),
}

/// The scheme that a cookie file's cookies are set by.
pub open spec fn scheme_for(secure: bool) -> Seq<char> {
    if secure {
        "https"@
    } else {
        "http"@
    }
}

/// What a line of a Netscape cookie file comes to. It has seven fields between tabs:
/// the domain, whether it is for the hosts below, the path, whether it is for secure
/// connections only, when it ends in seconds since 1970 or 0, the name and the value.
pub open spec fn netscape_line(line: Seq<char>) -> LineView {
    let parts = fields(line, '\t');
    if (line.len() > 0 && line[0] == '#') || is_blank(line) {
        LineView::Nothing
    } else if parts.len() != 7 {
        LineView::Wrong(
            SpiderErrorView::GeneralError(
                "Malformed Netscape cookie line: Expected 7 parts, got "@ + numeral(
                    parts.len(),
                    10,
                ),
            ),
        )
    } else {
        let secure = lowered(parts[3]) == lowered("TRUE"@);
        let url = scheme_for(secure) + "://"@ + without_dot(parts[0]);
        match int_value(parts[4]) {
            None => LineView::Wrong(
                SpiderErrorView::GeneralError(
                    "Invalid timestamp format: "@ + int_error(parts[4]),
                ),
            ),
            Some(ends) => if ends != 0 && !is_timestamp(ends as int) {
                LineView::Wrong(
                    SpiderErrorView::GeneralError(
                        "Invalid timestamp value: "@ + timestamp_error(ends),
                    ),
                )
            } else {
                match parsed_url(url) {
                    Err(e) => LineView::Wrong(SpiderErrorView::UrlParseError(e)),
                    Ok(_) => LineView::Holds(
                        built_cookie(
                            parts[5],
                            parts[6],
                            parts[0],
                            parts[2],
                            secure,
                            if ends == 0 {
                                None
                            } else {
                                Some(ends)
                            },
                        ),
                        url,
                    ),
                }
            },
        }
    }
}

/// What a line of a file of `Set-Cookie` fields comes to.
pub open spec fn set_cookie_line(line: Seq<char>) -> LineView {
    if is_blank(line) {
        LineView::Nothing
    } else {
        match parsed_cookie(line) {
            Err(e) => LineView::Wrong(
                SpiderErrorView::GeneralError("Failed to parse cookie: "@ + e),
            ),
            Ok(cookie) => match cookie.domain {
                None => LineView::Wrong(
                    SpiderErrorView::GeneralError(
                        "Cookie in file must have an explicit Domain attribute"@,
                    ),
                ),
                Some(domain) => {
                    let url = scheme_for(cookie.secure) + "://"@ + domain;
                    match parsed_url(url) {
                        Err(e) => LineView::Wrong(SpiderErrorView::UrlParseError(e)),
                        Ok(_) => LineView::Holds(cookie, url),
                    }
                },
            },
        }
    }
}

/// What the lines of a file come to; a line that could not be read brings the words of
/// the error.
pub open spec fn file_lines(
    lines: Seq<Result<String, String>>,
    line: spec_fn(Seq<char>) -> LineView,
) -> Seq<LineView> {
    lines.map_values(
        |l: Result<String, String>|
            match l {
                Ok(text) => line(text@),
                Err(e) => LineView::Wrong(SpiderErrorView::IoError(e@)),
            },
    )
}

/// The first error among lines.
pub open spec fn first_wrong(lines: Seq<LineView>) -> Option<SpiderErrorView>
    decreases lines.len(),
{
    if lines.len() == 0 {
        None
    } else if first_wrong(lines.drop_last()) is Some {
        first_wrong(lines.drop_last())
    } else {
        match lines.last() {
            LineView::Wrong(e) => Some(e),
            _ => None,
        }
    }
}

/// Whether a jar can come out of another when a URL sets a cookie: it is laid at its
/// place; and where it is the URL's own, this is the one that it should have, and one for the
/// session lies there for sure.
pub open spec fn set_by(
    before: Jar,
    after: Jar,
    cookie: CookieView,
    url: Seq<char>,
    listed: bool,
) -> bool {
    let u = parsed_url(url)->Ok_0;
    let spot = cookie_spot(cookie, url);
    &&& laid(before, after, cookie, u, spot, listed)
    &&& is_own(cookie, u, listed) ==> is_placed(after, cookie, spot, own_spot(cookie, u))
}

/// Whether a jar can come out of another when the cookies of lines are set in turn.
pub open spec fn set_by_lines(before: Jar, after: Jar, lines: Seq<LineView>) -> bool {
    exists|jars: Seq<Jar>| #[trigger] jars_along_lines(jars, before, after, lines)
}

/// As `set_by_lines`, with the jars between the lines.
pub open spec fn jars_along_lines(
    jars: Seq<Jar>,
    before: Jar,
    after: Jar,
    lines: Seq<LineView>,
) -> bool {
    &&& jars.len() == lines.len() + 1
    &&& jars[0] == before
    &&& jars.last() == after
    &&& forall|i: int|
        0 <= i < lines.len() ==> match #[trigger] lines[i] {
            LineView::Holds(cookie, url) => set_by(jars[i], jars[i + 1], cookie, url, false),
            _ => jars[i + 1] == jars[i],
        }
}

/// The cookies that the values of `Set-Cookie` fields hold; a value that is not text or
/// holds no cookie is passed over.
pub open spec fn cookies_in(values: Seq<Seq<u8>>) -> Seq<CookieView>
    decreases values.len(),
{
    if values.len() == 0 {
        Seq::empty()
    } else {
        let before = cookies_in(values.drop_last());
        let text = ascii_text(values.last());
        if is_plain(values.last()) && parsed_cookie(text) is Ok {
            before.push(parsed_cookie(text)->Ok_0)
        } else {
            before
        }
    }
}

/// The cookies that a response sets.
pub open spec fn cookies_of(response: ResponseView) -> Seq<CookieView> {
    cookies_in(values_for(response.headers, "set-cookie"@))
}

/// Whether a jar can come out of another when a URL sets cookies in turn.
pub open spec fn set_in_turn(
    before: Jar,
    after: Jar,
    cookies: Seq<CookieView>,
    url: Seq<char>,
    listed: bool,
) -> bool {
    exists|jars: Seq<Jar>| #[trigger]
        jars_along_cookies(jars, before, after, cookies, url, listed)
}

/// As `set_in_turn`, with the jars between the cookies.
pub open spec fn jars_along_cookies(
    jars: Seq<Jar>,
    before: Jar,
    after: Jar,
    cookies: Seq<CookieView>,
    url: Seq<char>,
    listed: bool,
) -> bool {
    &&& jars.len() == cookies.len() + 1
    &&& jars[0] == before
    &&& jars.last() == after
    &&& forall|i: int|
        0 <= i < cookies.len() ==> set_by(
            jars[i],
            jars[i + 1],
            #[trigger] cookies[i],
            url,
            listed,
        )
}

/// Whether pairs of names and values can be what a jar sends to a URL.
pub open spec fn sent_to(cookies: Jar, url: Seq<char>, pairs: Seq<(Seq<char>, Seq<char>)>) -> bool {
    &&& sent(
        cookies,
        |key: CookieKey, entry: CookieEntry| cookie_goes_to(key, entry, url),
        pairs,
    )
    &&& hold_what_belongs(cookies, parsed_url(url)->Ok_0, pairs)
}

/// The value of a `Cookie` field: each name and value as `name=value`, with `; ` between.
pub open spec fn cookie_text(pairs: Seq<(Seq<char>, Seq<char>)>) -> Seq<char>
    decreases pairs.len(),
{
    if pairs.len() == 0 {
        Seq::empty()
    } else {
        let pair = pairs.last().0 + "="@ + pairs.last().1;
        if pairs.len() == 1 {
            pair
        } else {
            cookie_text(pairs.drop_last()) + "; "@ + pair
        }
    }
}

/// A request with cookies to be sent: the `Cookie` field is set where there are any; an
/// error where the field cannot hold them.
pub open spec fn with_cookies(
    request: RequestView,
    pairs: Seq<(Seq<char>, Seq<char>)>,
) -> Result<RequestView, SpiderErrorView> {
    if pairs.len() == 0 {
        Ok(request)
    } else if is_field_value(cookie_text(pairs)) {
        Ok(
            RequestView {
                headers: request.headers.insert(
                    "cookie"@,
                    seq![encode_utf8(cookie_text(pairs))],
                ),
                ..request
            },
        )
    } else {
        Err(SpiderErrorView::InvalidHeaderValueError("failed to parse header value"@))
    }
}

/// Whether a request's header fields can be too many for its cookies to be sent.
pub open spec fn can_be_crowded(
    request: RequestView,
    pairs: Seq<(Seq<char>, Seq<char>)>,
) -> bool {
    &&& pairs.len() > 0
    &&& is_field_value(cookie_text(pairs))
    &&& !roomy(request.headers)
    &&& is_refused(request.headers, "cookie"@, cookie_text(pairs))
}

proof fn names_of_fields()
    ensures
        is_field_name("cookie"@),
        lowered("cookie"@) == "cookie"@,
        is_field_name("set-cookie"@),
        lowered("set-cookie"@) == "set-cookie"@,
{
    reveal_strlit("cookie");
    reveal_strlit("set-cookie");
    assert(lowered("cookie"@) =~= "cookie"@);
    assert(lowered("set-cookie"@) =~= "set-cookie"@);
}

/// The value of a `Cookie` field for names and values.
fn write_cookies(pairs: &Vec<(String, String)>) -> (r: String)
    ensures
        r@ == cookie_text(pair_texts(pairs@)),
{
    let mut r = String::new();
    let mut i: usize = 0;
    while i < pairs.len()
        invariant
            i <= pairs.len(),
            r@ == cookie_text(pair_texts(pairs@.take(i as int))),
        decreases pairs.len() - i,
    {
        let ghost front = pair_texts(pairs@.take(i as int));
        let pair = joined(pairs[i].0.as_str(), "=");
        let pair = joined(pair.as_str(), pairs[i].1.as_str());
        let ghost next = pair_texts(pairs@.take(i + 1));
        assert(next.drop_last() =~= front);
        if i == 0 {
            r = pair;
        } else {
            let head = joined(r.as_str(), "; ");
            r = joined(head.as_str(), pair.as_str());
        }
        i += 1;
    }
    assert(pairs@.take(pairs.len() as int) =~= pairs@);
    r
}

/// A request with the given cookies to be sent.
pub fn add_cookies(request: Request, pairs: &Vec<(String, String)>) -> (r: Result<
    MiddlewareAction<Request>,
    SpiderError,
>)
    ensures
        answer_unless_crowded(
            r,
            with_cookies(request@, pair_texts(pairs@)),
            can_be_crowded(request@, pair_texts(pairs@)),
        ),
{
    if pairs.len() == 0 {
        return Ok(MiddlewareAction::Continue(request));
    }
    let mut request = request;
    let text = write_cookies(pairs);
    if !field_value(text.as_str()) {
        return Err(
            SpiderError::InvalidHeaderValueError("failed to parse header value".to_owned()),
        );
    }
    proof {
        names_of_fields();
    }
    let ghost before = request.headers;
    let written = text.as_str();
    let set = set_field(request.headers, "cookie", written);
    request.headers = set.0;
    if !set.1 {
        proof {
            refused(before, "cookie", written, set.0);
        }
        return Err(crowded());
    }
    Ok(MiddlewareAction::Continue(request))
}

/// A cookie that a line of a Netscape cookie file holds.
struct NetscapeCookie {
    name: String,
    value: String,
    domain: String,
    path: String,
    secure: bool,
    expires: Option<i64>,
    url: String,
}

/// The scheme and host that a cookie file's cookies are set by.
fn setting_url(secure: bool, domain: &str) -> (r: String)
    ensures
        r@ == scheme_for(secure) + "://"@ + domain@,
{
    let scheme = if secure {
        "https"
    } else {
        "http"
    };
    let head = joined(scheme, "://");
    joined(head.as_str(), domain)
}

/// Reads a line of a Netscape cookie file.
fn read_netscape_line(line: &str) -> (r: Result<Option<NetscapeCookie>, SpiderError>)
    ensures
        match netscape_line(line@) {
            LineView::Nothing => r matches Ok(None),
            LineView::Wrong(e) => r matches Err(f) && f@ == e,
            LineView::Holds(cookie, url) => {
                &&& r matches Ok(Some(c)) && c.url@ == url && cookie == built_cookie(
                    c.name@,
                    c.value@,
                    c.domain@,
                    c.path@,
                    c.secure,
                    c.expires,
                ) && (c.expires is Some ==> is_timestamp(c.expires->0 as int)) && parsed_url(
                    url,
                ) is Ok
            },
        },
{
    if first_is(line, '#') || blank(line) {
        return Ok(None);
    }
    let parts = split(line, '\t');
    let ghost views = fields(line@, '\t');
    assert(texts(parts@) == views);
    if parts.len() != 7 {
        let number = write_number(parts.len() as u64, 10);
        return Err(
            SpiderError::GeneralError(
                joined(
                    "Malformed Netscape cookie line: Expected 7 parts, got ",
                    number.as_str(),
                ),
            ),
        );
    }
    assert(forall|i: int| 0 <= i < 7 ==> (#[trigger] parts@[i])@ == views[i]);
    let secure = same_ignoring_case(parts[3].as_str(), "TRUE");
    let ends: i64 = match parse_int(parts[4].as_str()) {
        Ok(ends) => ends,
        Err(e) => {
            return Err(
                SpiderError::GeneralError(joined("Invalid timestamp format: ", e.as_str())),
            );
        },
    };
    let expires: Option<i64> = if ends == 0 {
        None
    } else {
        match check_timestamp(ends) {
            Ok(_) => Some(ends),
            Err(e) => {
                return Err(
                    SpiderError::GeneralError(joined("Invalid timestamp value: ", e.as_str())),
                );
            },
        }
    };
    let host = if first_is(parts[0].as_str(), '.') {
        tail(parts[0].as_str())
    } else {
        parts[0].clone()
    };
    let url = setting_url(secure, host.as_str());
    if let Err(e) = WebUrl::parse(url.as_str()) {
        return Err(SpiderError::UrlParseError(e));
    }
    Ok(
        Some(
            NetscapeCookie {
                name: parts[5].clone(),
                value: parts[6].clone(),
                domain: parts[0].clone(),
                path: parts[2].clone(),
                secure,
                expires,
                url,
            },
        ),
    )
}

proof fn no_line_is_wrong_so_far(lines: Seq<LineView>, i: int)
    requires
        0 <= i < lines.len(),
    ensures
        lines.take(i + 1).drop_last() == lines.take(i),
        lines.take(i + 1).last() == lines[i],
        first_wrong(lines.take(i)) is Some ==> first_wrong(lines.take(i + 1)) == first_wrong(
            lines.take(i),
        ),
{
    assert(lines.take(i + 1).drop_last() =~= lines.take(i));
}

proof fn first_wrong_stays(lines: Seq<LineView>, i: int)
    requires
        0 <= i <= lines.len(),
        first_wrong(lines.take(i)) is Some,
    ensures
        first_wrong(lines) == first_wrong(lines.take(i)),
    decreases lines.len() - i,
{
    if i < lines.len() {
        no_line_is_wrong_so_far(lines, i);
        first_wrong_stays(lines, i + 1);
    } else {
        assert(lines.take(i) =~= lines);
    }
}

proof fn set_by_one_more_line(before: Jar, mid: Jar, after: Jar, lines: Seq<LineView>, i: int)
    requires
        0 <= i < lines.len(),
        set_by_lines(before, mid, lines.take(i)),
        match lines[i] {
            LineView::Holds(cookie, url) => set_by(mid, after, cookie, url, false),
            _ => after == mid,
        },
    ensures
        set_by_lines(before, after, lines.take(i + 1)),
{
    let jars = choose|jars: Seq<Jar>| #[trigger]
        jars_along_lines(jars, before, mid, lines.take(i));
    let next = jars.push(after);
    assert forall|j: int| 0 <= j < i + 1 implies match #[trigger] lines.take(i + 1)[j] {
        LineView::Holds(cookie, url) => set_by(next[j], next[j + 1], cookie, url, false),
        _ => next[j + 1] == next[j],
    } by {
        if j < i {
            assert(lines.take(i)[j] == lines.take(i + 1)[j]);
        }
    }
    assert(jars_along_lines(next, before, after, lines.take(i + 1)));
}

proof fn set_by_one_more_cookie(
    before: Jar,
    mid: Jar,
    after: Jar,
    cookies: Seq<CookieView>,
    cookie: CookieView,
    url: Seq<char>,
    listed: bool,
)
    requires
        set_in_turn(before, mid, cookies, url, listed),
        set_by(mid, after, cookie, url, listed),
    ensures
        set_in_turn(before, after, cookies.push(cookie), url, listed),
{
    let jars = choose|jars: Seq<Jar>| #[trigger]
        jars_along_cookies(jars, before, mid, cookies, url, listed);
    let next = jars.push(after);
    let more = cookies.push(cookie);
    assert forall|j: int| 0 <= j < more.len() implies set_by(
        next[j],
        next[j + 1],
        #[trigger] more[j],
        url,
        listed,
    ) by {
        if j < cookies.len() {
            assert(more[j] == cookies[j]);
        }
    }
    assert(jars_along_cookies(next, before, after, more, url, listed));
}

/// Sets the cookie of a Netscape line in a jar.
fn set_netscape_cookie(store: cookie_store::CookieStore, c: &NetscapeCookie) -> (r:
    cookie_store::CookieStore)
    requires
        parsed_url(c.url@) is Ok,
        c.expires is Some ==> is_timestamp(c.expires->0 as int),
    ensures
        set_by(
            jar(store),
            jar(r),
            built_cookie(c.name@, c.value@, c.domain@, c.path@, c.secure, c.expires),
            c.url@,
            has_suffix_list(store),
        ),
        has_suffix_list(r) == has_suffix_list(store),
        exists|
            m: &mut cookie_store::CookieStore,
            name: &str,
            value: &str,
            domain: &str,
            path: &str,
            url: &str,
        | #[trigger]
            call_ensures(
                keep_built_cookie,
                (m, (name, value), domain, path, c.secure, c.expires, url),
                (),
            ) && *m == store && *final(m) == r && name@ == c.name@ && value@ == c.value@ && domain@
                == c.domain@ && path@ == c.path@ && url@ == c.url@,
{
    let mut store = store;
    keep_built_cookie(
        &mut store,
        (c.name.as_str(), c.value.as_str()),
        c.domain.as_str(),
        c.path.as_str(),
        c.secure,
        c.expires,
        c.url.as_str(),
    );
    store
}

/// Whether a jar came out of another when the cookie of a Netscape line was set in it.
spec fn is_line_set(
    before: cookie_store::CookieStore,
    after: cookie_store::CookieStore,
    cookie: CookieView,
    url: Seq<char>,
) -> bool {
    exists|c: &NetscapeCookie| #[trigger]
        call_ensures(set_netscape_cookie, (before, c), after) && c.url@ == url && cookie
            == built_cookie(c.name@, c.value@, c.domain@, c.path@, c.secure, c.expires)
}

/// Whether jars came out of each other when the cookies of Netscape lines were set in turn.
spec fn are_lines_set(stores: Seq<cookie_store::CookieStore>, lines: Seq<LineView>) -> bool {
    &&& stores.len() == lines.len() + 1
    &&& forall|i: int|
        0 <= i < lines.len() ==> match #[trigger] lines[i] {
            LineView::Holds(cookie, url) => is_line_set(stores[i], stores[i + 1], cookie, url),
            _ => stores[i + 1] == stores[i],
        }
}

proof fn one_more_line_is_set(
    stores: Seq<cookie_store::CookieStore>,
    lines: Seq<LineView>,
    i: int,
    after: cookie_store::CookieStore,
)
    requires
        0 <= i < lines.len(),
        are_lines_set(stores, lines.take(i)),
        match lines[i] {
            LineView::Holds(cookie, url) => is_line_set(stores.last(), after, cookie, url),
            _ => after == stores.last(),
        },
    ensures
        are_lines_set(stores.push(after), lines.take(i + 1)),
{
    let next = stores.push(after);
    let more = lines.take(i + 1);
    assert forall|j: int| 0 <= j < more.len() implies match #[trigger] more[j] {
        LineView::Holds(cookie, url) => is_line_set(next[j], next[j + 1], cookie, url),
        _ => next[j + 1] == next[j],
    } by {
        if j < i {
            assert(lines.take(i)[j] == more[j]);
        }
    }
}

impl CookieMiddleware {
    /// Whether the jar came of setting the cookies of a Netscape file's lines in turn, each of
    /// them and also those that have an end, in an empty one.
    pub closed spec fn is_read_from(&self, lines: Seq<LineView>) -> bool {
        exists|stores: Seq<cookie_store::CookieStore>| #[trigger]
            are_lines_set(stores, lines) && call_ensures(empty_jar, (), stores[0])
                && stores.last() == self.store
    }

    /// Whether the jar came of reading a JSON file.
    pub closed spec fn is_loaded_from(&self, bytes: Seq<u8>) -> bool {
        exists|b: &Vec<u8>| #[trigger]
            call_ensures(jar_from_json, (b,), Ok(self.store)) && b@ == bytes
    }

    /// Whether names and values came of asking the jar for the cookies that go to a URL.
    pub closed spec fn is_sent(&self, url: Seq<char>, pairs: Seq<(Seq<char>, Seq<char>)>) -> bool {
        exists|u: &str, r: Vec<(String, String)>| #[trigger]
            call_ensures(cookies_for, (&self.store, u), r) && u@ == url && pair_texts(r@) == pairs
    }

    /// A middleware with an empty jar.
    pub fn new() -> (r: Self)
        ensures
            jar(r.store) == Jar::empty(),
            !has_suffix_list(r.store),
    {
        let store = empty_jar();
        assert(jar(store) =~= Jar::empty());
        Self::with_store(store)
    }

    /// A middleware with a jar that may hold cookies already.
    pub fn with_store(store: cookie_store::CookieStore) -> (r: Self)
        ensures
            r.store == store,
    {
        CookieMiddleware { store }
    }

    /// A middleware with the cookies of a JSON file.
    pub fn from_json(bytes: &Vec<u8>) -> (r: Result<Self, SpiderError>)
        ensures
            match json_cookies(bytes@) {
                Ok(list) => r matches Ok(m) && loaded(list, jar(m.store)) && !has_suffix_list(
                    m.store,
                ) && m.is_loaded_from(bytes@),
                Err(e) => r matches Err(f) && f@ == SpiderErrorView::GeneralError(e),
            },
    {
        match jar_from_json(bytes) {
            Ok(store) => {
                let r = Self::with_store(store);
                assert(r.is_loaded_from(bytes@));
                Ok(r)
            },
            Err(e) => Err(SpiderError::GeneralError(e)),
        }
    }

    /// A middleware with the cookies of a Netscape cookie file, given line by line; the
    /// first line that is wrong is the error.
    pub fn from_netscape_file(lines: &Vec<Result<String, String>>) -> (r: Result<
        Self,
        SpiderError,
    >)
        ensures
            match first_wrong(file_lines(lines@, |l: Seq<char>| netscape_line(l))) {
                Some(e) => r matches Err(f) && f@ == e,
                None => r matches Ok(m) && !has_suffix_list(m.store) && set_by_lines(
                    Jar::empty(),
                    jar(m.store),
                    file_lines(lines@, |l: Seq<char>| netscape_line(l)),
                ) && m.is_read_from(file_lines(lines@, |l: Seq<char>| netscape_line(l))),
            },
    {
        let ghost views = file_lines(lines@, |l: Seq<char>| netscape_line(l));
        let mut store = empty_jar();
        let mut i: usize = 0;
        let ghost first = store;
        let ghost mut stores: Seq<cookie_store::CookieStore> = seq![store];
        proof {
            assert(jar(store) =~= Jar::empty());
            assert(jars_along_lines(seq![jar(store)], jar(store), jar(store), views.take(0)));
        }
        while i < lines.len()
            invariant
                i <= lines.len(),
                call_ensures(empty_jar, (), first),
                stores.len() > 0,
                stores[0] == first,
                stores.last() == store,
                are_lines_set(stores, views.take(i as int)),
                views == file_lines(lines@, |l: Seq<char>| netscape_line(l)),
                first_wrong(views.take(i as int)) is None,
                set_by_lines(Jar::empty(), jar(store), views.take(i as int)),
                !has_suffix_list(store),
            decreases lines.len() - i,
        {
            proof {
                no_line_is_wrong_so_far(views, i as int);
                if views[i as int] is Wrong {
                    first_wrong_stays(views, i + 1);
                }
            }
            let ghost mid = jar(store);
            match &lines[i] {
                Err(e) => {
                    return Err(SpiderError::IoError(e.clone()));
                },
                Ok(line) => match read_netscape_line(line.as_str()) {
                    Err(e) => {
                        return Err(e);
                    },
                    Ok(None) => {},
                    Ok(Some(c)) => {
                        let ghost before = store;
                        store = set_netscape_cookie(store, &c);
                        assert(is_line_set(
                            before,
                            store,
                            views[i as int]->Holds_0,
                            views[i as int]->Holds_1,
                        ));
                    },
                },
            }
            proof {
                set_by_one_more_line(Jar::empty(), mid, jar(store), views, i as int);
                one_more_line_is_set(stores, views, i as int, store);
                stores = stores.push(store);
            }
            i += 1;
        }
        assert(views.take(i as int) =~= views);
        let r = Self::with_store(store);
        assert(are_lines_set(stores, views));
        assert(r.is_read_from(views));
        Ok(r)
    }

    /// A middleware with the cookies of a file of `Set-Cookie` fields, given line by line.
    /// Each must have a `Domain` attribute. The first line that is wrong is the error.
    pub fn from_rfc6265(lines: &Vec<Result<String, String>>) -> (r: Result<Self, SpiderError>)
        ensures
            match first_wrong(file_lines(lines@, |l: Seq<char>| set_cookie_line(l))) {
                Some(e) => r matches Err(f) && f@ == e,
                None => r matches Ok(m) && !has_suffix_list(m.store) && set_by_lines(
                    Jar::empty(),
                    jar(m.store),
                    file_lines(lines@, |l: Seq<char>| set_cookie_line(l)),
                ),
            },
    {
        let ghost views = file_lines(lines@, |l: Seq<char>| set_cookie_line(l));
        let mut store = empty_jar();
        let mut i: usize = 0;
        proof {
            assert(jar(store) =~= Jar::empty());
            assert(jars_along_lines(seq![jar(store)], jar(store), jar(store), views.take(0)));
        }
        while i < lines.len()
            invariant
                i <= lines.len(),
                views == file_lines(lines@, |l: Seq<char>| set_cookie_line(l)),
                first_wrong(views.take(i as int)) is None,
                set_by_lines(Jar::empty(), jar(store), views.take(i as int)),
                !has_suffix_list(store),
            decreases lines.len() - i,
        {
            proof {
                no_line_is_wrong_so_far(views, i as int);
                if views[i as int] is Wrong {
                    first_wrong_stays(views, i + 1);
                }
            }
            let ghost mid = jar(store);
            match &lines[i] {
                Err(e) => {
                    return Err(SpiderError::IoError(e.clone()));
                },
                Ok(line) => {
                    if !blank(line.as_str()) {
                        match read_set_cookie_line(line.as_str()) {
                            Err(e) => {
                                return Err(e);
                            },
                            Ok(url) => {
                                keep_cookie(&mut store, line.as_str(), url.as_str());
                            },
                        }
                    }
                },
            }
            proof {
                set_by_one_more_line(Jar::empty(), mid, jar(store), views, i as int);
            }
            i += 1;
        }
        assert(views.take(i as int) =~= views);
        Ok(Self::with_store(store))
    }

    /// The middleware's name.
    pub fn name(&self) -> (r: &str)
        ensures
            r@ == "CookieMiddleware"@,
    {
        "CookieMiddleware"
    }

    /// Sends with a request the cookies that belong to it.
    pub fn process_request(&self, request: Request) -> (r: Result<
        MiddlewareAction<Request>,
        SpiderError,
    >)
        ensures
            exists|pairs: Seq<(Seq<char>, Seq<char>)>| #[trigger]
                sent_to(jar(self.store), request@.url.source, pairs) && self.is_sent(
                    request@.url.source,
                    pairs,
                ) && answer_unless_crowded(
                    r,
                    with_cookies(request@, pairs),
                    can_be_crowded(request@, pairs),
                ),
    {
        let pairs = cookies_for(&self.store, request.url.source());
        assert(sent_to(jar(self.store), request@.url.source, pair_texts(pairs@)));
        assert(self.is_sent(request@.url.source, pair_texts(pairs@)));
        add_cookies(request, &pairs)
    }

    /// Keeps the cookies that a response sets.
    pub fn process_response(&mut self, response: Response) -> (r: Result<
        MiddlewareAction<Response>,
        SpiderError,
    >)
        ensures
            r matches Ok(MiddlewareAction::Continue(p)) && p == response,
            set_in_turn(
                jar(old(self).store),
                jar(final(self).store),
                cookies_of(response@),
                response@.url.source,
                has_suffix_list(old(self).store),
            ),
            has_suffix_list(final(self).store) == has_suffix_list(old(self).store),
    {
        proof {
            names_of_fields();
        }
        let values = all_headers(&response.headers, "set-cookie");
        let ghost all = values_for(response@.headers, "set-cookie"@);
        let ghost before = jar(self.store);
        let ghost listed = has_suffix_list(self.store);
        let mut i: usize = 0;
        proof {
            assert(all.take(0) =~= Seq::empty());
            assert(jars_along_cookies(
                seq![before],
                before,
                before,
                cookies_in(all.take(0)),
                response@.url.source,
                listed,
            ));
        }
        while i < values.len()
            invariant
                i <= values.len(),
                all == bytes_of(values@),
                has_suffix_list(self.store) == listed,
                set_in_turn(
                    before,
                    jar(self.store),
                    cookies_in(all.take(i as int)),
                    response@.url.source,
                    listed,
                ),
            decreases values.len() - i,
        {
            let ghost so_far = cookies_in(all.take(i as int));
            proof {
                assert(all.take(i + 1).drop_last() =~= all.take(i as int));
                assert(all[i as int] == values@[i as int]@);
            }
            if let Some(text) = plain_text(&values[i]) {
                if let Ok(_) = read_cookie(text.as_str()) {
                    let ghost mid = jar(self.store);
                    keep_cookie(&mut self.store, text.as_str(), response.url.source());
                    proof {
                        let cookie = parsed_cookie(text@)->Ok_0;
                        set_by_one_more_cookie(
                            before,
                            mid,
                            jar(self.store),
                            so_far,
                            cookie,
                            response@.url.source,
                            listed,
                        );
                    }
                }
            }
            i += 1;
        }
        assert(all.take(i as int) =~= all);
        Ok(MiddlewareAction::Continue(response))
    }
}

/// Reads a line of a file of `Set-Cookie` fields for the URL that sets its cookie.
fn read_set_cookie_line(line: &str) -> (r: Result<String, SpiderError>)
    requires
        !is_blank(line@),
    ensures
        match set_cookie_line(line@) {
            LineView::Nothing => false,
            LineView::Wrong(e) => r matches Err(f) && f@ == e,
            LineView::Holds(cookie, url) => r matches Ok(u) && u@ == url && parsed_cookie(
                line@,
            ) is Ok && cookie == parsed_cookie(line@)->Ok_0 && parsed_url(url) is Ok,
        },
{
    let cookie = match read_cookie(line) {
        Ok(cookie) => cookie,
        Err(e) => {
            return Err(SpiderError::GeneralError(joined("Failed to parse cookie: ", e.as_str())));
        },
    };
    match &cookie.domain {
        None => Err(
            SpiderError::GeneralError(
                "Cookie in file must have an explicit Domain attribute".to_owned(),
            ),
        ),
        Some(domain) => {
            let url = setting_url(cookie.secure, domain.as_str());
            match WebUrl::parse(url.as_str()) {
                Err(e) => Err(SpiderError::UrlParseError(e)),
                Ok(_) => Ok(url),
            }
        },
    }
}

impl Default for CookieMiddleware {
    fn default() -> (r: Self)
        ensures
            jar(r.store) == Jar::empty(),
            !has_suffix_list(r.store),
    {
        Self::new()
    }
}

/// Whether no cookie of a list has its place at a key.
pub open spec fn none_at(cookies: Seq<CookieView>, url: Seq<char>, key: CookieKey) -> bool {
    forall|i: int|
        0 <= i < cookies.len() ==> match cookie_spot(#[trigger] cookies[i], url) {
            Some(spot) => key_at(cookies[i], spot) != key,
            None => true,
        }
}

/// A cookie stays in the jar as it is while a URL sets others.
pub proof fn cookies_stay(
    before: Jar,
    after: Jar,
    cookies: Seq<CookieView>,
    url: Seq<char>,
    listed: bool,
    key: CookieKey,
)
    requires
        set_in_turn(before, after, cookies, url, listed),
        none_at(cookies, url, key),
    ensures
        after.contains_key(key) == before.contains_key(key),
        after.contains_key(key) ==> after[key] == before[key],
{
    let jars = choose|jars: Seq<Jar>| #[trigger]
        jars_along_cookies(jars, before, after, cookies, url, listed);
    unchanged_along(jars, cookies, url, listed, key, 0);
}

proof fn unchanged_along(
    jars: Seq<Jar>,
    cookies: Seq<CookieView>,
    url: Seq<char>,
    listed: bool,
    key: CookieKey,
    from: int,
)
    requires
        0 <= from <= cookies.len(),
        jars_along_cookies(jars, jars[0], jars.last(), cookies, url, listed),
        none_at(cookies.skip(from), url, key),
    ensures
        jars.last().contains_key(key) == jars[from].contains_key(key),
        jars.last().contains_key(key) ==> jars.last()[key] == jars[from][key],
    decreases cookies.len() - from,
{
    if from < cookies.len() {
        let cookie = cookies[from];
        assert(cookies.skip(from)[0] == cookie);
        assert(set_by(jars[from], jars[from + 1], cookie, url, listed));
        assert(none_at(cookies.skip(from + 1), url, key)) by {
            let rest = cookies.skip(from + 1);
            assert forall|i: int| 0 <= i < rest.len() implies match cookie_spot(
                #[trigger] rest[i],
                url,
            ) {
                Some(spot) => key_at(rest[i], spot) != key,
                None => true,
            } by {
                assert(rest[i] == cookies.skip(from)[i + 1]);
            }
        }
        unchanged_along(jars, cookies, url, listed, key, from + 1);
        match cookie_spot(cookie, url) {
            Some(spot) => {
                let own = key_at(cookie, spot);
                assert(own != key);
                let b = jars[from];
                let a = jars[from + 1];
                assert(b.remove(own).contains_key(key) == b.contains_key(key));
                assert(a.remove(own).contains_key(key) == a.contains_key(key));
                assert(a.contains_key(key) ==> a.remove(own)[key] == a[key]);
                assert(b.contains_key(key) ==> b.remove(own)[key] == b[key]);
            },
            None => {},
        }
    }
}

/// Whether a cookie that is a URL's own belongs to the requests for another: the other's
/// host is the same, or one that the cookie's domain takes in, and its path lies at the
/// cookie's or below it.
pub open spec fn comes_back_to(cookie: CookieView, url: Seq<char>, other: Seq<char>) -> bool {
    let spot = own_spot(cookie, parsed_url(url)->Ok_0);
    belongs(key_at(cookie, spot), entry_at(cookie, spot), parsed_url(other)->Ok_0)
}

/// A cookie of a URL's own for the session that a response sets is sent with every later
/// request that it belongs to. The response must not set another in its place.
pub proof fn cookies_come_back(
    before: Jar,
    after: Jar,
    cookies: Seq<CookieView>,
    url: Seq<char>,
    listed: bool,
    i: int,
    other: Seq<char>,
    pairs: Seq<(Seq<char>, Seq<char>)>,
)
    requires
        set_in_turn(before, after, cookies, url, listed),
        0 <= i < cookies.len(),
        is_own(cookies[i], parsed_url(url)->Ok_0, listed),
        !is_lasting(cookies[i]),
        comes_back_to(cookies[i], url, other),
        none_at(
            cookies.skip(i + 1),
            url,
            key_at(cookies[i], own_spot(cookies[i], parsed_url(url)->Ok_0)),
        ),
        sent_to(after, other, pairs),
    ensures
        pairs.contains((cookies[i].name, cookies[i].value)),
{
    let jars = choose|jars: Seq<Jar>| #[trigger]
        jars_along_cookies(jars, before, after, cookies, url, listed);
    let cookie = cookies[i];
    assert(set_by(jars[i], jars[i + 1], cookie, url, listed));
    let key = key_at(cookie, own_spot(cookie, parsed_url(url)->Ok_0));
    unchanged_along(jars, cookies, url, listed, key, i + 1);
    assert(after.contains_key(key));
}

/// A cookie of a URL's own that names no path comes back to the URL itself, and one for every
/// path to every URL of the same host. Where the cookie is for secure connections only, it
/// must be one.
pub proof fn cookies_come_back_to_their_host(
    cookie: CookieView,
    url: Seq<char>,
    other: Seq<char>,
)
    requires
        is_own(cookie, parsed_url(url)->Ok_0, false),
        is_homely(parsed_url(other)->Ok_0),
        parsed_url(other)->Ok_0.host == parsed_url(url)->Ok_0.host,
        parsed_url(other)->Ok_0.domain == parsed_url(url)->Ok_0.domain,
        parsed_url(other)->Ok_0.path.len() > 0,
        parsed_url(other)->Ok_0.path[0] == '/',
        cookie.path == Some(seq!['/']) || (cookie.path is None && parsed_url(other)->Ok_0.path
            == parsed_url(url)->Ok_0.path),
        cookie.secure ==> parsed_url(other)->Ok_0.scheme == "https"@,
    ensures
        comes_back_to(cookie, url, other),
{
    default_path_matches(parsed_url(other)->Ok_0.path);
}

proof fn default_path_matches(path: Seq<char>)
    requires
        path.len() > 0,
        path[0] == '/',
    ensures
        path_matches(path, default_path(path)),
        path_matches(path, seq!['/']),
{
    before_last_slash_ends(path);
}

proof fn before_last_slash_ends(path: Seq<char>)
    requires
        path.contains('/'),
    ensures
        before_last_slash(path).is_prefix_of(path),
        before_last_slash(path).len() < path.len(),
        path[before_last_slash(path).len() as int] == '/',
    decreases path.len(),
{
    let i = path.index_of('/');
    if path.last() != '/' {
        let front = path.drop_last();
        assert(front[i] == '/');
        before_last_slash_ends(front);
    }
}

/// Whether no cookie of lines has its place at a key.
pub open spec fn none_at_in_lines(lines: Seq<LineView>, key: CookieKey) -> bool {
    forall|i: int|
        0 <= i < lines.len() ==> match #[trigger] lines[i] {
            LineView::Holds(cookie, url) => match cookie_spot(cookie, url) {
                Some(spot) => key_at(cookie, spot) != key,
                None => true,
            },
            _ => true,
        }
}

proof fn unchanged_along_lines(jars: Seq<Jar>, lines: Seq<LineView>, key: CookieKey, from: int)
    requires
        0 <= from <= lines.len(),
        jars_along_lines(jars, jars[0], jars.last(), lines),
        none_at_in_lines(lines.skip(from), key),
    ensures
        jars.last().contains_key(key) == jars[from].contains_key(key),
        jars.last().contains_key(key) ==> jars.last()[key] == jars[from][key],
    decreases lines.len() - from,
{
    if from < lines.len() {
        let line = lines[from];
        assert(lines.skip(from)[0] == line);
        let rest = lines.skip(from + 1);
        assert forall|i: int| 0 <= i < rest.len() implies match #[trigger] rest[i] {
            LineView::Holds(cookie, url) => match cookie_spot(cookie, url) {
                Some(spot) => key_at(cookie, spot) != key,
                None => true,
            },
            _ => true,
        } by {
            assert(rest[i] == lines.skip(from)[i + 1]);
        }
        unchanged_along_lines(jars, lines, key, from + 1);
        if let LineView::Holds(cookie, url) = line {
            assert(set_by(jars[from], jars[from + 1], cookie, url, false));
            if let Some(spot) = cookie_spot(cookie, url) {
                let own = key_at(cookie, spot);
                let b = jars[from];
                let a = jars[from + 1];
                assert(b.remove(own).contains_key(key) == b.contains_key(key));
                assert(a.remove(own).contains_key(key) == a.contains_key(key));
                assert(a.contains_key(key) ==> a.remove(own)[key] == a[key]);
                assert(b.contains_key(key) ==> b.remove(own)[key] == b[key]);
            }
        }
    }
}

/// A cookie for the session that a line of a cookie file holds is sent with every request
/// that it belongs to. No later line must hold another in its place.
pub proof fn cookies_of_files_are_sent(
    after: Jar,
    lines: Seq<LineView>,
    i: int,
    other: Seq<char>,
    pairs: Seq<(Seq<char>, Seq<char>)>,
)
    requires
        set_by_lines(Jar::empty(), after, lines),
        0 <= i < lines.len(),
        lines[i] is Holds,
        is_own(lines[i]->Holds_0, parsed_url(lines[i]->Holds_1)->Ok_0, false),
        !is_lasting(lines[i]->Holds_0),
        comes_back_to(lines[i]->Holds_0, lines[i]->Holds_1, other),
        none_at_in_lines(
            lines.skip(i + 1),
            key_at(
                lines[i]->Holds_0,
                own_spot(lines[i]->Holds_0, parsed_url(lines[i]->Holds_1)->Ok_0),
            ),
        ),
        sent_to(after, other, pairs),
    ensures
        pairs.contains((lines[i]->Holds_0.name, lines[i]->Holds_0.value)),
{
    let jars = choose|jars: Seq<Jar>| #[trigger]
        jars_along_lines(jars, Jar::empty(), after, lines);
    let cookie = lines[i]->Holds_0;
    let url = lines[i]->Holds_1;
    assert(set_by(jars[i], jars[i + 1], cookie, url, false));
    let key = key_at(cookie, own_spot(cookie, parsed_url(url)->Ok_0));
    unchanged_along_lines(jars, lines, key, i + 1);
    assert(after.contains_key(key));
}

/// Whether no other cookie of lines has its place at a key than the one of a line.
pub open spec fn only_at(lines: Seq<LineView>, key: CookieKey, i: int) -> bool {
    none_at_in_lines(lines.take(i), key) && none_at_in_lines(lines.skip(i + 1), key)
}

proof fn absent_before(jars: Seq<Jar>, lines: Seq<LineView>, key: CookieKey, i: int)
    requires
        0 <= i <= lines.len(),
        jars_along_lines(jars, jars[0], jars.last(), lines),
        none_at_in_lines(lines.take(i), key),
        !jars[0].contains_key(key),
    ensures
        !jars[i].contains_key(key),
    decreases i,
{
    if i > 0 {
        assert(none_at_in_lines(lines.take(i - 1), key)) by {
            let front = lines.take(i - 1);
            assert forall|k: int| 0 <= k < front.len() implies match #[trigger] front[k] {
                LineView::Holds(cookie, url) => match cookie_spot(cookie, url) {
                    Some(spot) => key_at(cookie, spot) != key,
                    None => true,
                },
                _ => true,
            } by {
                assert(front[k] == lines.take(i)[k]);
            }
        }
        absent_before(jars, lines, key, i - 1);
        let line = lines[i - 1];
        assert(lines.take(i)[i - 1] == line);
        if let LineView::Holds(cookie, url) = line {
            assert(set_by(jars[i - 1], jars[i], cookie, url, false));
            if let Some(spot) = cookie_spot(cookie, url) {
                let own = key_at(cookie, spot);
                assert(jars[i - 1].remove(own).contains_key(key) == jars[i - 1].contains_key(key));
                assert(jars[i].remove(own).contains_key(key) == jars[i].contains_key(key));
            }
        }
    }
}

/// The lines of a cookie file add up: where no other line holds a cookie for the same place,
/// what lies there in the end is the line's cookie, with the time at which it ends. One for
/// the session lies there for sure; of another it depends on the time. The place of a cookie
/// that is its URL's own is that of its domain and its path.
pub proof fn lines_add_their_cookies(after: Jar, lines: Seq<LineView>, i: int)
    requires
        set_by_lines(Jar::empty(), after, lines),
        0 <= i < lines.len(),
        lines[i] is Holds,
        cookie_spot(lines[i]->Holds_0, lines[i]->Holds_1) is Some,
        !lines[i]->Holds_0.has_max_age,
        only_at(
            lines,
            key_at(
                lines[i]->Holds_0,
                cookie_spot(lines[i]->Holds_0, lines[i]->Holds_1)->0,
            ),
            i,
        ),
    ensures
        ({
            let cookie = lines[i]->Holds_0;
            let url = lines[i]->Holds_1;
            let spot = cookie_spot(cookie, url)->0;
            let key = key_at(cookie, spot);
            &&& after.contains_key(key) ==> after[key] == entry_at(cookie, spot)
            &&& !is_lasting(cookie) && is_web(parsed_url(url)->Ok_0) ==> after.contains_key(key)
            &&& is_own(cookie, parsed_url(url)->Ok_0, false) ==> spot == own_spot(
                cookie,
                parsed_url(url)->Ok_0,
            )
        }),
{
    let jars = choose|jars: Seq<Jar>| #[trigger]
        jars_along_lines(jars, Jar::empty(), after, lines);
    let cookie = lines[i]->Holds_0;
    let url = lines[i]->Holds_1;
    let key = key_at(cookie, cookie_spot(cookie, url)->0);
    assert(set_by(jars[i], jars[i + 1], cookie, url, false));
    absent_before(jars, lines, key, i);
    unchanged_along_lines(jars, lines, key, i + 1);
}

/// Nothing comes out of a cookie file but the cookies of its lines: what lies in the jar lies
/// at the place of one of them.
pub proof fn only_lines_add_cookies(after: Jar, lines: Seq<LineView>, key: CookieKey)
    requires
        set_by_lines(Jar::empty(), after, lines),
        after.contains_key(key),
    ensures
        !none_at_in_lines(lines, key),
{
    let jars = choose|jars: Seq<Jar>| #[trigger]
        jars_along_lines(jars, Jar::empty(), after, lines);
    if none_at_in_lines(lines, key) {
        assert(lines.take(lines.len() as int) =~= lines);
        absent_before(jars, lines, key, lines.len() as int);
    }
}

/// The place of a Netscape line's cookie is that of the line: its domain, without a dot at
/// the front, its path and its name, where the domain is the host of the URL that it comes to
/// and the path begins with a slash.
pub proof fn netscape_cookies_lie_at_their_place(line: Seq<char>)
    requires
        netscape_line(line) is Holds,
        is_homely(parsed_url(netscape_line(line)->Holds_1)->Ok_0),
        parsed_url(netscape_line(line)->Holds_1)->Ok_0.host == Some(
            without_dot(fields(line, '\t')[0]),
        ),
        fields(line, '\t')[2].len() > 0,
        fields(line, '\t')[2][0] == '/',
    ensures
        ({
            let parts = fields(line, '\t');
            let cookie = netscape_line(line)->Holds_0;
            let u = parsed_url(netscape_line(line)->Holds_1)->Ok_0;
            let spot = own_spot(cookie, u);
            &&& is_own(cookie, u, false)
            &&& key_at(cookie, spot) == (CookieKey {
                domain: without_dot(parts[0]),
                path: parts[2],
                name: parts[5],
            })
            &&& entry_at(cookie, spot).value == parts[6]
            &&& entry_at(cookie, spot).secure == (lowered(parts[3]) == lowered("TRUE"@))
        }),
{
}

/// A cookie that names the time at which it ends comes to lie with that time where it comes
/// to lie anew.
pub proof fn cookies_keep_their_end(
    before: Jar,
    after: Jar,
    cookie: CookieView,
    url: Seq<char>,
    listed: bool,
)
    requires
        set_by(before, after, cookie, url, listed),
        !cookie.has_max_age,
        cookie_spot(cookie, url) is Some,
        !before.contains_key(key_at(cookie, cookie_spot(cookie, url)->0)),
        after.contains_key(key_at(cookie, cookie_spot(cookie, url)->0)),
    ensures
        after[key_at(cookie, cookie_spot(cookie, url)->0)].ends == cookie.expires,
        after[key_at(cookie, cookie_spot(cookie, url)->0)].value == cookie.value,
        after[key_at(cookie, cookie_spot(cookie, url)->0)].secure == cookie.secure,
{
}

/// A cookie for the session that lies in the jar is sent with every request that it
/// belongs to.
pub proof fn lying_cookies_are_sent(
    cookies: Jar,
    key: CookieKey,
    url: Seq<char>,
    pairs: Seq<(Seq<char>, Seq<char>)>,
)
    requires
        cookies.contains_key(key),
        cookies[key].ends is None,
        cookie_goes_to(key, cookies[key], url),
        sent_to(cookies, url, pairs),
    ensures
        pairs.contains((key.name, cookies[key].value)),
{
    let goes = |k: CookieKey, entry: CookieEntry| cookie_goes_to(k, entry, url);
    let keys = choose|keys: Seq<CookieKey>| #[trigger] sent_from(cookies, goes, pairs, keys);
    assert(sent_from(cookies, goes, pairs, keys));
    assert(cookies.contains_key(key) && goes(key, cookies[key]));
    let j = keys.index_of(key);
    assert(keys[j] == key);
    assert(pairs[j] == (key.name, cookies[key].value));
}

/// Nothing is sent that does not lie in the jar and belong to the request.
pub proof fn only_lying_cookies_are_sent(
    cookies: Jar,
    url: Seq<char>,
    pairs: Seq<(Seq<char>, Seq<char>)>,
    i: int,
)
    requires
        sent_to(cookies, url, pairs),
        0 <= i < pairs.len(),
    ensures
        exists|key: CookieKey| #[trigger]
            cookies.contains_key(key) && cookie_goes_to(key, cookies[key], url) && pairs[i] == (
                key.name,
                cookies[key].value,
            ),
{
    let goes = |k: CookieKey, entry: CookieEntry| cookie_goes_to(k, entry, url);
    let keys = choose|keys: Seq<CookieKey>| #[trigger] sent_from(cookies, goes, pairs, keys);
    assert(sent_from(cookies, goes, pairs, keys));
    assert(cookies.contains_key(keys[i]));
}

/// Whether the value of a `Set-Cookie` field holds a cookie: all its bytes are printable ASCII
/// or tabs, and the text can be read as one.
pub open spec fn holds_cookie(value: Seq<u8>) -> bool {
    &&& forall|i: int| 0 <= i < value.len() ==> 32 <= #[trigger] value[i] <= 126 || value[i] == 9
    &&& parsed_cookie(ascii_text(value)) is Ok
}

/// A response sets, whatever its status, its body and its URL are, the cookie of each value of
/// its `Set-Cookie` fields that holds one, in the order of the fields, and no other.
pub proof fn every_response_sets_its_cookies(response: ResponseView)
    ensures
        cookies_of(response) == values_for(response.headers, "set-cookie"@).filter(
            |value: Seq<u8>| holds_cookie(value),
        ).map_values(|value: Seq<u8>| parsed_cookie(ascii_text(value))->Ok_0),
{
    values_hold_their_cookies(values_for(response.headers, "set-cookie"@));
}

proof fn values_hold_their_cookies(values: Seq<Seq<u8>>)
    ensures
        cookies_in(values) == values.filter(|value: Seq<u8>| holds_cookie(value)).map_values(
            |value: Seq<u8>| parsed_cookie(ascii_text(value))->Ok_0,
        ),
    decreases values.len(),
{
    reveal(Seq::filter);
    let holds = |value: Seq<u8>| holds_cookie(value);
    let read = |value: Seq<u8>| parsed_cookie(ascii_text(value))->Ok_0;
    if values.len() > 0 {
        let last = values.last();
        values_hold_their_cookies(values.drop_last());
        assert(holds(last) == (is_plain(last) && parsed_cookie(ascii_text(last)) is Ok)) by {
            let plain = forall|i: int|
                0 <= i < last.len() ==> 32 <= #[trigger] last[i] <= 126 || last[i] == 9;
            assert(plain == is_plain(last));
        }
        let front = values.drop_last().filter(holds);
        assert(front.push(last).map_values(read) =~= front.map_values(read).push(read(last)));
    } else {
        assert(values.filter(holds) =~= Seq::empty());
        assert(cookies_in(values) =~= values.filter(holds).map_values(read));
    }
}

/// Two responses with the same header fields set the same cookies, whatever else they differ
/// in; one without `Set-Cookie` fields sets none.
pub proof fn cookies_come_from_the_fields(a: ResponseView, b: ResponseView)
    ensures
        a.headers == b.headers ==> cookies_of(a) == cookies_of(b),
        !a.headers.contains_key("set-cookie"@) ==> cookies_of(a).len() == 0,
{
}

/// Whether a cookie comes of a value behind another.
spec fn comes_later(values: Seq<Seq<u8>>, i: int, cookie: CookieView) -> bool {
    exists|j: int|
        i < j < values.len() && holds_cookie(#[trigger] values[j]) && cookie == parsed_cookie(
            ascii_text(values[j]),
        )->Ok_0
}

/// Where the cookie of a value stands among those that are set: all behind it come of later
/// values.
proof fn where_cookies_stand(values: Seq<Seq<u8>>, i: int) -> (k: int)
    requires
        0 <= i < values.len(),
        holds_cookie(values[i]),
    ensures
        0 <= k < cookies_in(values).len(),
        cookies_in(values)[k] == parsed_cookie(ascii_text(values[i]))->Ok_0,
        forall|after: int|
            k < after < cookies_in(values).len() ==> comes_later(
                values,
                i,
                #[trigger] cookies_in(values)[after],
            ),
    decreases values.len(),
{
    let front = values.drop_last();
    let last = values.last();
    assert(holds_cookie(last) == (is_plain(last) && parsed_cookie(ascii_text(last)) is Ok)) by {
        let plain = forall|n: int|
            0 <= n < last.len() ==> 32 <= #[trigger] last[n] <= 126 || last[n] == 9;
        assert(plain == is_plain(last));
    }
    let all = cookies_in(values);
    if i == values.len() - 1 {
        all.len() - 1
    } else {
        assert(front[i] == values[i]);
        let k = where_cookies_stand(front, i);
        assert forall|after: int| k < after < all.len() implies comes_later(
            values,
            i,
            #[trigger] all[after],
        ) by {
            if after < cookies_in(front).len() {
                assert(all[after] == cookies_in(front)[after]);
                assert(comes_later(front, i, cookies_in(front)[after]));
                let j = choose|j: int|
                    i < j < front.len() && holds_cookie(#[trigger] front[j]) && cookies_in(
                        front,
                    )[after] == parsed_cookie(ascii_text(front[j]))->Ok_0;
                assert(values[j] == front[j]);
            } else {
                assert(values[values.len() - 1] == last);
            }
        }
        k
    }
}

/// A cookie for the session that a response sets is sent back, whatever the status of the
/// response is: its name and its value stand in the one `Cookie` field of a later request that
/// it belongs to. No later value of the response must set another of that name.
pub proof fn set_cookies_are_sent_back(
    middleware: &mut CookieMiddleware,
    response: Response,
    done: Result<MiddlewareAction<Response>, SpiderError>,
    i: int,
    later: CookieMiddleware,
    request: Request,
    r: Result<MiddlewareAction<Request>, SpiderError>,
)
    requires
        call_ensures(CookieMiddleware::process_response, (middleware, response), done),
        later == *final(middleware),
        call_ensures(CookieMiddleware::process_request, (&later, request), r),
        parsed_url(response@.url.source) == Ok::<UrlView, Seq<char>>(response@.url),
        parsed_url(request@.url.source) == Ok::<UrlView, Seq<char>>(request@.url),
        ({
            let values = values_for(response@.headers, "set-cookie"@);
            let cookie = parsed_cookie(ascii_text(values[i]))->Ok_0;
            let spot = own_spot(cookie, response@.url);
            &&& 0 <= i < values.len()
            &&& holds_cookie(values[i])
            &&& is_own(cookie, response@.url, has_suffix_list(old(middleware).store))
            &&& cookie.expires is None
            &&& !cookie.has_max_age
            &&& belongs(key_at(cookie, spot), entry_at(cookie, spot), request@.url)
            &&& forall|j: int|
                i < j < values.len() && holds_cookie(#[trigger] values[j]) ==> parsed_cookie(
                    ascii_text(values[j]),
                )->Ok_0.name != cookie.name
        }),
    ensures
        done == Ok::<MiddlewareAction<Response>, SpiderError>(
            MiddlewareAction::Continue(response),
        ),
        exists|pairs: Seq<(Seq<char>, Seq<char>)>|
            {
                let cookie = parsed_cookie(
                    ascii_text(values_for(response@.headers, "set-cookie"@)[i]),
                )->Ok_0;
                &&& #[trigger] sent_to(jar(later.store), request@.url.source, pairs)
                &&& pairs.contains((cookie.name, cookie.value))
                &&& r matches Ok(action) ==> action is Continue
                    && action->Continue_0@.headers.contains_key("cookie"@)
                    && action->Continue_0@.headers["cookie"@] == seq![
                    encode_utf8(cookie_text(pairs)),
                ]
                &&& is_field_value(cookie_text(pairs)) && request@.headers.dom().finite()
                    && request@.headers.dom().len() <= 6553 ==> r is Ok
            },
{
    let values = values_for(response@.headers, "set-cookie"@);
    let cookie = parsed_cookie(ascii_text(values[i]))->Ok_0;
    let listed = has_suffix_list(old(middleware).store);
    let source = response@.url.source;
    let cookies = cookies_of(response@);
    let k = where_cookies_stand(values, i);
    let key = key_at(cookie, own_spot(cookie, response@.url));
    assert(none_at(cookies.skip(k + 1), source, key)) by {
        let rest = cookies.skip(k + 1);
        assert forall|n: int| 0 <= n < rest.len() implies match cookie_spot(
            #[trigger] rest[n],
            source,
        ) {
            Some(spot) => key_at(rest[n], spot) != key,
            None => true,
        } by {
            let after = k + 1 + n;
            assert(rest[n] == cookies_in(values)[after]);
            assert(comes_later(values, i, cookies_in(values)[after]));
            let j = choose|j: int|
                i < j < values.len() && holds_cookie(#[trigger] values[j]) && cookies_in(
                    values,
                )[after] == parsed_cookie(ascii_text(values[j]))->Ok_0;
            assert(rest[n].name != cookie.name);
        }
    }
    let pairs = choose|pairs: Seq<(Seq<char>, Seq<char>)>| #[trigger]
        sent_to(jar(later.store), request@.url.source, pairs) && answer_unless_crowded(
            r,
            with_cookies(request@, pairs),
            can_be_crowded(request@, pairs),
        );
    cookies_come_back(
        jar(old(middleware).store),
        jar(final(middleware).store),
        cookies,
        source,
        listed,
        k,
        request@.url.source,
        pairs,
    );
    assert(pairs.contains((cookie.name, cookie.value)));
}

/// A cookie for the session and for every path of the host, as a login sets it, is sent with every
/// later request to that host, whatever the status of the response was.
pub proof fn session_cookies_reach_their_host(
    middleware: &mut CookieMiddleware,
    response: Response,
    done: Result<MiddlewareAction<Response>, SpiderError>,
    i: int,
    later: CookieMiddleware,
    request: Request,
    r: Result<MiddlewareAction<Request>, SpiderError>,
)
    requires
        call_ensures(CookieMiddleware::process_response, (middleware, response), done),
        later == *final(middleware),
        call_ensures(CookieMiddleware::process_request, (&later, request), r),
        parsed_url(response@.url.source) == Ok::<UrlView, Seq<char>>(response@.url),
        parsed_url(request@.url.source) == Ok::<UrlView, Seq<char>>(request@.url),
        response@.url.scheme == "http"@ || response@.url.scheme == "https"@,
        request@.url.scheme == "http"@ || request@.url.scheme == "https"@,
        response@.url.host is Some,
        is_plain_host(response@.url.host->0),
        request@.url.host == response@.url.host,
        request@.url.path.len() > 0,
        request@.url.path[0] == '/',
        ({
            let values = values_for(response@.headers, "set-cookie"@);
            let cookie = parsed_cookie(ascii_text(values[i]))->Ok_0;
            &&& 0 <= i < values.len()
            &&& holds_cookie(values[i])
            &&& cookie.domain is None
            &&& cookie.path == Some(seq!['/'])
            &&& cookie.expires is None
            &&& !cookie.has_max_age
            &&& cookie.secure ==> request@.url.scheme == "https"@
            &&& forall|j: int|
                i < j < values.len() && holds_cookie(#[trigger] values[j]) ==> parsed_cookie(
                    ascii_text(values[j]),
                )->Ok_0.name != cookie.name
        }),
    ensures
        exists|pairs: Seq<(Seq<char>, Seq<char>)>|
            {
                let cookie = parsed_cookie(
                    ascii_text(values_for(response@.headers, "set-cookie"@)[i]),
                )->Ok_0;
                &&& #[trigger] sent_to(jar(later.store), request@.url.source, pairs)
                &&& pairs.contains((cookie.name, cookie.value))
                &&& r matches Ok(action) ==> action is Continue
                    && action->Continue_0@.headers.contains_key("cookie"@)
                    && action->Continue_0@.headers["cookie"@] == seq![
                    encode_utf8(cookie_text(pairs)),
                ]
                &&& is_field_value(cookie_text(pairs)) && request@.headers.dom().finite()
                    && request@.headers.dom().len() <= 6553 ==> r is Ok
            },
{
    default_path_matches(request@.url.path);
    set_cookies_are_sent_back(middleware, response, done, i, later, request, r);
}

/// A response whose fields hold no cookie leaves the jar as it is.
pub proof fn responses_without_cookies_set_none(
    middleware: &mut CookieMiddleware,
    response: Response,
    done: Result<MiddlewareAction<Response>, SpiderError>,
)
    requires
        call_ensures(CookieMiddleware::process_response, (middleware, response), done),
        forall|i: int|
            0 <= i < values_for(response@.headers, "set-cookie"@).len() ==> !holds_cookie(
                #[trigger] values_for(response@.headers, "set-cookie"@)[i],
            ),
    ensures
        jar(final(middleware).store) == jar(old(middleware).store),
        has_suffix_list(final(middleware).store) == has_suffix_list(old(middleware).store),
{
    let values = values_for(response@.headers, "set-cookie"@);
    no_value_holds_a_cookie(values);
    let jars = choose|jars: Seq<Jar>| #[trigger]
        jars_along_cookies(
            jars,
            jar(old(middleware).store),
            jar(final(middleware).store),
            cookies_of(response@),
            response@.url.source,
            has_suffix_list(old(middleware).store),
        );
    assert(jars.last() == jars[0]);
}

proof fn no_value_holds_a_cookie(values: Seq<Seq<u8>>)
    requires
        forall|i: int| 0 <= i < values.len() ==> !holds_cookie(#[trigger] values[i]),
    ensures
        cookies_in(values).len() == 0,
    decreases values.len(),
{
    if values.len() > 0 {
        let front = values.drop_last();
        let last = values.last();
        assert(!holds_cookie(values[values.len() - 1]));
        assert forall|i: int| 0 <= i < front.len() implies !holds_cookie(#[trigger] front[i]) by {
            assert(front[i] == values[i]);
        }
        no_value_holds_a_cookie(front);
        let plain = forall|n: int|
            0 <= n < last.len() ==> 32 <= #[trigger] last[n] <= 126 || last[n] == 9;
        assert(plain == is_plain(last));
    }
}

/// A request is sent with the cookies of the jar that go to its URL, in one `Cookie` field and
/// otherwise as it was; with none it is just as it was. Cookies that the field cannot hold are
/// an error.
pub proof fn cookies_are_sent(
    middleware: CookieMiddleware,
    request: Request,
    r: Result<MiddlewareAction<Request>, SpiderError>,
)
    requires
        call_ensures(CookieMiddleware::process_request, (&middleware, request), r),
    ensures
        exists|pairs: Seq<(Seq<char>, Seq<char>)>|
            {
                &&& #[trigger] sent_to(jar(middleware.store), request@.url.source, pairs)
                &&& middleware.is_sent(request@.url.source, pairs)
                &&& pairs.len() == 0 ==> r is Ok && r->Ok_0 is Continue && r->Ok_0->Continue_0@
                    == request@
                &&& pairs.len() > 0 && !is_field_value(cookie_text(pairs)) ==> (r matches Err(
                    SpiderError::InvalidHeaderValueError(e),
                ) && e@ == "failed to parse header value"@)
                &&& pairs.len() > 0 && is_field_value(cookie_text(pairs))
                    && request@.headers.dom().finite() && request@.headers.dom().len() <= 6553
                    ==> r is Ok
                &&& pairs.len() > 0 && is_field_value(cookie_text(pairs)) && r is Err
                    ==> is_refused(request@.headers, "cookie"@, cookie_text(pairs))
                &&& pairs.len() > 0 && r is Ok ==> {
                    let sent = r->Ok_0->Continue_0@;
                    &&& r->Ok_0 is Continue
                    &&& sent.url == request@.url
                    &&& sent.method == request@.method
                    &&& sent.body == request@.body
                    &&& sent.meta == request@.meta
                    &&& sent.headers.contains_key("cookie"@)
                    &&& sent.headers["cookie"@] == seq![encode_utf8(cookie_text(pairs))]
                    &&& forall|name: Seq<char>|
                        name != "cookie"@ ==> (#[trigger] sent.headers.contains_key(name))
                            == request@.headers.contains_key(name)
                    &&& forall|name: Seq<char>|
                        name != "cookie"@ && sent.headers.contains_key(name)
                            ==> #[trigger] sent.headers[name] == request@.headers[name]
                }
            },
{
    let pairs = choose|pairs: Seq<(Seq<char>, Seq<char>)>| #[trigger]
        sent_to(jar(middleware.store), request@.url.source, pairs) && middleware.is_sent(
            request@.url.source,
            pairs,
        ) && answer_unless_crowded(
            r,
            with_cookies(request@, pairs),
            can_be_crowded(request@, pairs),
        );
    assert(sent_to(jar(middleware.store), request@.url.source, pairs));
}

/// The cookies that are handed in are sent as they stand, in their order, in one `Cookie` field
/// that takes the place of any other; the request is otherwise as it was, and just as it was
/// where there are none.
pub proof fn given_cookies_are_sent(
    request: Request,
    pairs: Vec<(String, String)>,
    r: Result<MiddlewareAction<Request>, SpiderError>,
)
    requires
        call_ensures(add_cookies, (request, &pairs), r),
    ensures
        pairs@.len() == 0 ==> r is Ok && r->Ok_0 is Continue && r->Ok_0->Continue_0@ == request@,
        pairs@.len() > 0 && !is_field_value(cookie_text(pair_texts(pairs@))) ==> (r matches Err(
            SpiderError::InvalidHeaderValueError(e),
        ) && e@ == "failed to parse header value"@),
        pairs@.len() > 0 && is_field_value(cookie_text(pair_texts(pairs@))) && r is Err
            ==> is_refused(request@.headers, "cookie"@, cookie_text(pair_texts(pairs@))),
        pairs@.len() > 0 && r is Ok ==> {
            let sent = r->Ok_0->Continue_0@;
            &&& r->Ok_0 is Continue
            &&& sent.url == request@.url
            &&& sent.method == request@.method
            &&& sent.body == request@.body
            &&& sent.meta == request@.meta
            &&& sent.headers.contains_key("cookie"@)
            &&& sent.headers["cookie"@] == seq![encode_utf8(cookie_text(pair_texts(pairs@)))]
            &&& forall|name: Seq<char>|
                name != "cookie"@ ==> (#[trigger] sent.headers.contains_key(name))
                    == request@.headers.contains_key(name)
            &&& forall|name: Seq<char>|
                name != "cookie"@ && sent.headers.contains_key(name)
                    ==> #[trigger] sent.headers[name] == request@.headers[name]
        },
{
}

/// A `Cookie` field is written one cookie behind the other, each as its name, an equals sign
/// and its value, with a semicolon and a space between.
pub proof fn cookies_are_written_in_order(
    pairs: Seq<(Seq<char>, Seq<char>)>,
    name: Seq<char>,
    value: Seq<char>,
)
    ensures
        cookie_text(seq![(name, value)]) == name + "="@ + value,
        pairs.len() > 0 ==> cookie_text(pairs.push((name, value))) == cookie_text(pairs) + "; "@
            + (name + "="@ + value),
{
    let more = pairs.push((name, value));
    assert(more.drop_last() =~= pairs);
    let one = seq![(name, value)];
    assert(one.last() == (name, value));
}

/// A line of a Netscape cookie file is read by its seven fields. The second field does not
/// matter. Blank lines and those that begin with `#` hold nothing; any other must have seven
/// fields, the fifth a number of seconds since 1970 that is a point in time, or 0 for a cookie
/// for the session. The cookie has the domain without a dot at its front, the path, the name and
/// the value of the line, and is for secure connections only where the fourth field is `TRUE` in
/// any case; it is set by the domain's own URL, secure then and only then.
pub proof fn netscape_lines_are_read(parts: Seq<Seq<char>>)
    requires
        parts.len() > 0,
        forall|i: int| 0 <= i < parts.len() ==> !(#[trigger] parts[i]).contains('\t'),
    ensures
        ({
            let line = rejoined(parts, '\t');
            let comment = line.len() > 0 && line[0] == '#';
            let empty = forall|i: int| 0 <= i < line.len() ==> is_white(#[trigger] line[i]);
            let secure = lowered(parts[3]) == "true"@;
            let host = if parts[0].len() > 0 && parts[0][0] == '.' {
                parts[0].skip(1)
            } else {
                parts[0]
            };
            let url = (if secure {
                "https"@
            } else {
                "http"@
            }) + "://"@ + host;
            let ends = int_value(parts[4]);
            let in_time = ends is Some && (ends->0 == 0 || -377_705_116_800 <= ends->0
                <= 253_402_300_799);
            &&& comment || empty ==> netscape_line(line) is Nothing
            &&& !comment && !empty && parts.len() != 7 ==> netscape_line(line) == LineView::Wrong(
                SpiderErrorView::GeneralError(
                    "Malformed Netscape cookie line: Expected 7 parts, got "@ + numeral(
                        parts.len(),
                        10,
                    ),
                ),
            )
            &&& !comment && !empty && parts.len() == 7 && ends is None ==> netscape_line(line)
                == LineView::Wrong(
                SpiderErrorView::GeneralError(
                    "Invalid timestamp format: "@ + int_error(parts[4]),
                ),
            )
            &&& !comment && !empty && parts.len() == 7 && ends is Some && !in_time
                ==> netscape_line(line) == LineView::Wrong(
                SpiderErrorView::GeneralError(
                    "Invalid timestamp value: "@ + timestamp_error(ends->0),
                ),
            )
            &&& !comment && !empty && parts.len() == 7 && in_time && parsed_url(url) is Err
                ==> netscape_line(line) == LineView::Wrong(
                SpiderErrorView::UrlParseError(parsed_url(url)->Err_0),
            )
            &&& !comment && !empty && parts.len() == 7 && in_time && parsed_url(url) is Ok ==> {
                let cookie = netscape_line(line)->Holds_0;
                &&& netscape_line(line) is Holds
                &&& netscape_line(line)->Holds_1 == url
                &&& cookie.domain == Some(host)
                &&& cookie.path == Some(parts[2])
                &&& cookie.name == parts[5]
                &&& cookie.value == parts[6]
                &&& cookie.secure == secure
                &&& !cookie.http_only
                &&& !cookie.has_max_age
                &&& ends->0 == 0 ==> cookie.expires is None
                &&& ends->0 != 0 ==> cookie.expires == ends
            }
        }),
{
    let line = rejoined(parts, '\t');
    joined_texts_are_the_fields(parts, '\t');
    reveal_strlit("TRUE");
    reveal_strlit("true");
    assert(lowered("TRUE"@) =~= "true"@);
    if parts[0].len() > 0 && parts[0][0] == '.' {
        assert(parts[0].skip(1) =~= parts[0].drop_first());
    }
    let empty = forall|i: int| 0 <= i < line.len() ==> is_white(#[trigger] line[i]);
    assert(empty == is_blank(line));
}

/// A line of a file of `Set-Cookie` fields is read as such a field. Blank lines hold nothing;
/// any other must hold a cookie that names a domain, and the cookie is set by the domain's own
/// URL, secure where the cookie is.
pub proof fn set_cookie_lines_are_read(line: Seq<char>)
    ensures
        ({
            let empty = forall|i: int| 0 <= i < line.len() ==> is_white(#[trigger] line[i]);
            let cookie = parsed_cookie(line)->Ok_0;
            let url = (if cookie.secure {
                "https"@
            } else {
                "http"@
            }) + "://"@ + cookie.domain->0;
            &&& empty ==> set_cookie_line(line) is Nothing
            &&& !empty && parsed_cookie(line) is Err ==> set_cookie_line(line) == LineView::Wrong(
                SpiderErrorView::GeneralError(
                    "Failed to parse cookie: "@ + parsed_cookie(line)->Err_0,
                ),
            )
            &&& !empty && parsed_cookie(line) is Ok && cookie.domain is None ==> set_cookie_line(
                line,
            ) == LineView::Wrong(
                SpiderErrorView::GeneralError(
                    "Cookie in file must have an explicit Domain attribute"@,
                ),
            )
            &&& !empty && parsed_cookie(line) is Ok && cookie.domain is Some && parsed_url(
                url,
            ) is Err ==> set_cookie_line(line) == LineView::Wrong(
                SpiderErrorView::UrlParseError(parsed_url(url)->Err_0),
            )
            &&& !empty && parsed_cookie(line) is Ok && cookie.domain is Some && parsed_url(
                url,
            ) is Ok ==> set_cookie_line(line) == LineView::Holds(cookie, url)
        }),
{
    let empty = forall|i: int| 0 <= i < line.len() ==> is_white(#[trigger] line[i]);
    assert(empty == is_blank(line));
}

proof fn first_wrong_is_the_first(lines: Seq<LineView>)
    ensures
        first_wrong(lines) is None ==> forall|i: int|
            0 <= i < lines.len() ==> !(#[trigger] lines[i] is Wrong),
        first_wrong(lines) matches Some(e) ==> exists|i: int|
            0 <= i < lines.len() && #[trigger] lines[i] == LineView::Wrong(e) && forall|j: int|
                0 <= j < i ==> !(#[trigger] lines[j] is Wrong),
    decreases lines.len(),
{
    if lines.len() > 0 {
        let front = lines.drop_last();
        first_wrong_is_the_first(front);
        if first_wrong(front) is Some {
            let e = first_wrong(front)->0;
            let i = choose|i: int|
                0 <= i < front.len() && #[trigger] front[i] == LineView::Wrong(e) && forall|j: int|
                    0 <= j < i ==> !(#[trigger] front[j] is Wrong);
            assert(lines[i] == LineView::Wrong(e));
            assert forall|j: int| 0 <= j < i implies !(#[trigger] lines[j] is Wrong) by {
                assert(front[j] == lines[j]);
            }
        } else {
            assert forall|j: int| 0 <= j < front.len() implies !(#[trigger] lines[j] is Wrong) by {
                assert(!(front[j] is Wrong));
            }
            assert(lines[lines.len() - 1] == lines.last());
        }
    }
}

/// A Netscape cookie file is read where each of its lines can be; else the first that cannot be
/// read, or is wrong, is the error. The cookies of the lines are set in turn in an empty jar.
pub proof fn netscape_files_are_read_line_by_line(
    lines: Vec<Result<String, String>>,
    r: Result<CookieMiddleware, SpiderError>,
)
    requires
        call_ensures(CookieMiddleware::from_netscape_file, (&lines,), r),
    ensures
        r matches Ok(m) ==> !has_suffix_list(m.store) && (forall|i: int|
            0 <= i < lines@.len() ==> (#[trigger] lines@[i]) is Ok && !(netscape_line(
                lines@[i]->Ok_0@,
            ) is Wrong)) && exists|jars: Seq<Jar>|
            {
                &&& #[trigger] jars.len() == lines@.len() + 1
                &&& jars[0] == Jar::empty()
                &&& jars.last() == jar(m.store)
                &&& forall|i: int|
                    0 <= i < lines@.len() ==> match netscape_line((#[trigger] lines@[i])->Ok_0@) {
                        LineView::Holds(cookie, url) => set_by(
                            jars[i],
                            jars[i + 1],
                            cookie,
                            url,
                            false,
                        ),
                        _ => jars[i + 1] == jars[i],
                    }
            },
        r matches Err(e) ==> exists|i: int|
            {
                &&& 0 <= i < lines@.len()
                &&& match #[trigger] lines@[i] {
                    Err(words) => e@ == SpiderErrorView::IoError(words@),
                    Ok(text) => netscape_line(text@) == LineView::Wrong(e@),
                }
                &&& forall|j: int|
                    0 <= j < i ==> (#[trigger] lines@[j]) is Ok && !(netscape_line(
                        lines@[j]->Ok_0@,
                    ) is Wrong)
            },
{
    let views = file_lines(lines@, |l: Seq<char>| netscape_line(l));
    first_wrong_is_the_first(views);
    assert forall|i: int| 0 <= i < lines@.len() implies #[trigger] views[i] == (match lines@[i] {
        Ok(text) => netscape_line(text@),
        Err(e) => LineView::Wrong(SpiderErrorView::IoError(e@)),
    }) by {}
    match r {
        Ok(m) => {
            let jars = choose|jars: Seq<Jar>| #[trigger]
                jars_along_lines(jars, Jar::empty(), jar(m.store), views);
            assert forall|i: int| 0 <= i < lines@.len() implies (#[trigger] lines@[i]) is Ok && !(
            netscape_line(lines@[i]->Ok_0@) is Wrong) by {
                assert(!(views[i] is Wrong));
            }
            assert(jars.len() == lines@.len() + 1);
            assert forall|i: int| 0 <= i < lines@.len() implies match netscape_line(
                (#[trigger] lines@[i])->Ok_0@,
            ) {
                LineView::Holds(cookie, url) => set_by(jars[i], jars[i + 1], cookie, url, false),
                _ => jars[i + 1] == jars[i],
            } by {
                assert(views[i] == netscape_line(lines@[i]->Ok_0@));
            }
        },
        Err(e) => {
            let i = choose|i: int|
                0 <= i < views.len() && #[trigger] views[i] == LineView::Wrong(e@) && forall|j: int|
                    0 <= j < i ==> !(#[trigger] views[j] is Wrong);
            assert(views[i] == LineView::Wrong(e@));
            assert forall|j: int| 0 <= j < i implies (#[trigger] lines@[j]) is Ok && !(
            netscape_line(lines@[j]->Ok_0@) is Wrong) by {
                assert(!(views[j] is Wrong));
            }
        },
    }
}

/// A file of `Set-Cookie` fields is read where each of its lines can be; else the first that
/// cannot be read, or is wrong, is the error. The cookies of the lines are set in turn in an
/// empty jar.
pub proof fn set_cookie_files_are_read_line_by_line(
    lines: Vec<Result<String, String>>,
    r: Result<CookieMiddleware, SpiderError>,
)
    requires
        call_ensures(CookieMiddleware::from_rfc6265, (&lines,), r),
    ensures
        r matches Ok(m) ==> !has_suffix_list(m.store) && (forall|i: int|
            0 <= i < lines@.len() ==> (#[trigger] lines@[i]) is Ok && !(set_cookie_line(
                lines@[i]->Ok_0@,
            ) is Wrong)) && exists|jars: Seq<Jar>|
            {
                &&& #[trigger] jars.len() == lines@.len() + 1
                &&& jars[0] == Jar::empty()
                &&& jars.last() == jar(m.store)
                &&& forall|i: int|
                    0 <= i < lines@.len() ==> match set_cookie_line(
                        (#[trigger] lines@[i])->Ok_0@,
                    ) {
                        LineView::Holds(cookie, url) => set_by(
                            jars[i],
                            jars[i + 1],
                            cookie,
                            url,
                            false,
                        ),
                        _ => jars[i + 1] == jars[i],
                    }
            },
        r matches Err(e) ==> exists|i: int|
            {
                &&& 0 <= i < lines@.len()
                &&& match #[trigger] lines@[i] {
                    Err(words) => e@ == SpiderErrorView::IoError(words@),
                    Ok(text) => set_cookie_line(text@) == LineView::Wrong(e@),
                }
                &&& forall|j: int|
                    0 <= j < i ==> (#[trigger] lines@[j]) is Ok && !(set_cookie_line(
                        lines@[j]->Ok_0@,
                    ) is Wrong)
            },
{
    let views = file_lines(lines@, |l: Seq<char>| set_cookie_line(l));
    first_wrong_is_the_first(views);
    assert forall|i: int| 0 <= i < lines@.len() implies #[trigger] views[i] == (match lines@[i] {
        Ok(text) => set_cookie_line(text@),
        Err(e) => LineView::Wrong(SpiderErrorView::IoError(e@)),
    }) by {}
    match r {
        Ok(m) => {
            let jars = choose|jars: Seq<Jar>| #[trigger]
                jars_along_lines(jars, Jar::empty(), jar(m.store), views);
            assert forall|i: int| 0 <= i < lines@.len() implies (#[trigger] lines@[i]) is Ok && !(
            set_cookie_line(lines@[i]->Ok_0@) is Wrong) by {
                assert(!(views[i] is Wrong));
            }
            assert(jars.len() == lines@.len() + 1);
            assert forall|i: int| 0 <= i < lines@.len() implies match set_cookie_line(
                (#[trigger] lines@[i])->Ok_0@,
            ) {
                LineView::Holds(cookie, url) => set_by(jars[i], jars[i + 1], cookie, url, false),
                _ => jars[i + 1] == jars[i],
            } by {
                assert(views[i] == set_cookie_line(lines@[i]->Ok_0@));
            }
        },
        Err(e) => {
            let i = choose|i: int|
                0 <= i < views.len() && #[trigger] views[i] == LineView::Wrong(e@) && forall|j: int|
                    0 <= j < i ==> !(#[trigger] views[j] is Wrong);
            assert(views[i] == LineView::Wrong(e@));
            assert forall|j: int| 0 <= j < i implies (#[trigger] lines@[j]) is Ok && !(
            set_cookie_line(lines@[j]->Ok_0@) is Wrong) by {
                assert(!(views[j] is Wrong));
            }
        },
    }
}

/// A JSON file is read into the cookies that it holds: of each place the last for the session
/// is there, and nothing that the file does not hold. What is no such file is an error, in the
/// words that came.
pub proof fn json_files_are_read(bytes: Vec<u8>, r: Result<CookieMiddleware, SpiderError>)
    requires
        call_ensures(CookieMiddleware::from_json, (&bytes,), r),
    ensures
        json_cookies(bytes@) matches Err(words) ==> (r matches Err(SpiderError::GeneralError(e))
            && e@ == words),
        json_cookies(bytes@) matches Ok(list) ==> {
            let held = jar(r->Ok_0.store);
            &&& r is Ok
            &&& r->Ok_0.is_loaded_from(bytes@)
            &&& forall|key: CookieKey| #[trigger]
                held.contains_key(key) ==> exists|i: int|
                    0 <= i < list.len() && #[trigger] list[i] == (key, held[key])
            &&& forall|i: int|
                0 <= i < list.len() && (#[trigger] list[i]).1.ends is None && (forall|j: int|
                    i < j < list.len() ==> (#[trigger] list[j]).0 != list[i].0)
                    ==> held.contains_key(list[i].0) && held[list[i].0] == list[i].1
        },
{
    if let Ok(list) = json_cookies(bytes@) {
        let held = jar(r->Ok_0.store);
        assert forall|key: CookieKey| #[trigger] held.contains_key(key) implies exists|i: int|
            0 <= i < list.len() && #[trigger] list[i] == (key, held[key]) by {
            assert(list.contains((key, held[key])));
            let i = list.index_of((key, held[key]));
            assert(list[i] == (key, held[key]));
        }
    }
}

/// A new middleware has an empty jar, and one that is given a jar has that.
pub proof fn jars_are_taken_over(
    fresh: CookieMiddleware,
    store: cookie_store::CookieStore,
    given: CookieMiddleware,
)
    requires
        call_ensures(CookieMiddleware::new, (), fresh),
        call_ensures(CookieMiddleware::with_store, (store,), given),
    ensures
        forall|key: CookieKey| !#[trigger] jar(fresh.store).contains_key(key),
        given.store == store,
{
}

/// Each cookie of a Netscape file is set by asking the jar for it, also one that has an end: the
/// jar decides by the time whether it keeps it.
proof fn every_line_is_set(
    middleware: CookieMiddleware,
    lines: Seq<LineView>,
    i: int,
)
    requires
        middleware.is_read_from(lines),
        0 <= i < lines.len(),
        lines[i] is Holds,
    ensures
        exists|
            before: cookie_store::CookieStore,
            after: cookie_store::CookieStore,
            c: &NetscapeCookie,
        | #[trigger]
            call_ensures(set_netscape_cookie, (before, c), after) && c.url@ == lines[i]->Holds_1
                && lines[i]->Holds_0 == built_cookie(
                c.name@,
                c.value@,
                c.domain@,
                c.path@,
                c.secure,
                c.expires,
            ),
{
    let stores = choose|stores: Seq<cookie_store::CookieStore>| #[trigger]
        are_lines_set(stores, lines) && call_ensures(empty_jar, (), stores[0]) && stores.last()
            == middleware.store;
    assert(is_line_set(stores[i], stores[i + 1], lines[i]->Holds_0, lines[i]->Holds_1));
}

/// A Netscape file's cookies are set line by line, none left out.
pub proof fn every_line_of_a_file_is_set(
    lines: Vec<Result<String, String>>,
    r: Result<CookieMiddleware, SpiderError>,
)
    requires
        call_ensures(CookieMiddleware::from_netscape_file, (&lines,), r),
    ensures
        r matches Ok(m) ==> m.is_read_from(
            lines@.map_values(|l: Result<String, String>| netscape_line(l->Ok_0@)),
        ),
{
    if let Ok(m) = r {
        let views = file_lines(lines@, |l: Seq<char>| netscape_line(l));
        first_wrong_is_the_first(views);
        let plain = lines@.map_values(|l: Result<String, String>| netscape_line(l->Ok_0@));
        assert forall|i: int| 0 <= i < lines@.len() implies views[i] == plain[i] by {
            assert(!(views[i] is Wrong));
        }
        assert(views =~= plain);
    }
}

/// What is sent is what the jar gave for the URL of the request when it was asked.
proof fn pairs_come_from_the_jar(
    middleware: CookieMiddleware,
    url: Seq<char>,
    pairs: Seq<(Seq<char>, Seq<char>)>,
)
    requires
        middleware.is_sent(url, pairs),
    ensures
        exists|u: &str, r: Vec<(String, String)>| #[trigger]
            call_ensures(cookies_for, (&middleware.store, u), r) && u@ == url && pair_texts(r@)
                == pairs,
{
}

/// What is read out of a JSON file is what the jar makes of it.
proof fn json_comes_from_the_jar(middleware: CookieMiddleware, bytes: Seq<u8>)
    requires
        middleware.is_loaded_from(bytes),
    ensures
        exists|b: &Vec<u8>| #[trigger]
            call_ensures(jar_from_json, (b,), Ok(middleware.store)) && b@ == bytes,
{
}

/// Setting the cookie of a Netscape line asks the jar to keep it, with the line's name, value,
/// domain, path and end.
proof fn lines_ask_the_jar(
    before: cookie_store::CookieStore,
    c: NetscapeCookie,
    after: cookie_store::CookieStore,
)
    requires
        call_ensures(set_netscape_cookie, (before, &c), after),
    ensures
        exists|
            m: &mut cookie_store::CookieStore,
            name: &str,
            value: &str,
            domain: &str,
            path: &str,
            url: &str,
        | #[trigger]
            call_ensures(
                keep_built_cookie,
                (m, (name, value), domain, path, c.secure, c.expires, url),
                (),
            ) && *m == before && *final(m) == after && name@ == c.name@ && value@ == c.value@
                && domain@ == c.domain@ && path@ == c.path@ && url@ == c.url@,
{
}

} // verus!
