//! The jar that cookies are kept in.
use vstd::prelude::*;

use crate::text::{has_part, pair_texts};
use crate::weburl::{parsed_url, UrlView};

verus! {

#[verifier::external_type_specification]
#[verifier::external_body]
pub struct ExCookieStore(cookie_store::CookieStore);

/// A cookie as a site hands it out.
#[verifier::ext_equal]
pub struct CookieView {
    /// Its name.
    pub name: Seq<char>,
    /// Its value.
    pub value: Seq<char>,
    /// The `Domain` attribute, without a dot at its front.
    pub domain: Option<Seq<char>>,
    /// The `Path` attribute.
    pub path: Option<Seq<char>>,
    /// Whether it is for secure connections only.
    pub secure: bool,
    /// Whether it is for HTTP only.
    pub http_only: bool,
    /// The time at which it ends, in seconds since 1970, where it names one.
    pub expires: Option<i64>,
    /// Whether it names a span of time after which it ends. This goes before the other.
    pub has_max_age: bool,
}

/// Whether a cookie has a time to end at, and is not just for the session.
pub open spec fn is_lasting(cookie: CookieView) -> bool {
    cookie.expires is Some || cookie.has_max_age
}

/// Where a cookie lies in the jar.
#[verifier::ext_equal]
pub struct CookieKey {
    /// The domain that it is kept for.
    pub domain: Seq<char>,
    /// The path that it is kept for.
    pub path: Seq<char>,
    /// Its name.
    pub name: Seq<char>,
}

/// A cookie that lies in the jar.
#[verifier::ext_equal]
pub struct CookieEntry {
    /// Its value.
    pub value: Seq<char>,
    /// Whether it is for the one host only, not for those below it.
    pub host_only: bool,
    /// Whether it is for secure connections only.
    pub secure: bool,
    /// Whether it is for HTTP only.
    pub http_only: bool,
    /// The time at which it ends, in seconds since 1970; nothing where it is just for the
    /// session.
    pub ends: Option<i64>,
}

/// What `Cookie::parse` reads out of the text of a `Set-Cookie` field: a cookie, or the
/// words of the error.
pub uninterp spec fn parsed_cookie(text: Seq<char>) -> Result<CookieView, Seq<char>>;

/// The domain and the path that `Cookie::try_from_raw_cookie` gives a cookie from a URL,
/// and whether it is for the one host only; nothing where it or `CookieStore::insert` then
/// finds that the URL may not set it.
pub uninterp spec fn cookie_spot(cookie: CookieView, url: Seq<char>) -> Option<
    (Seq<char>, Seq<char>, bool),
>;

/// Whether `CookieStore::matches` takes a cookie to belong to a request for a URL, its
/// time to end left aside.
pub uninterp spec fn cookie_goes_to(key: CookieKey, entry: CookieEntry, url: Seq<char>) -> bool;

/// The cookies that a store holds, also those whose time has ended.
pub uninterp spec fn jar(store: cookie_store::CookieStore) -> Map<CookieKey, CookieEntry>;

/// Whether a store has a list of public suffixes, for which it takes no cookies.
pub uninterp spec fn has_suffix_list(store: cookie_store::CookieStore) -> bool;

/// The cookies that `CookieStore::load_json` reads out of bytes, in their order and also
/// those whose time has ended, or the words of the error.
pub uninterp spec fn json_cookies(bytes: Seq<u8>) -> Result<
    Seq<(CookieKey, CookieEntry)>,
    Seq<char>,
>;

/// Where a cookie comes to lie.
pub open spec fn key_at(cookie: CookieView, spot: (Seq<char>, Seq<char>, bool)) -> CookieKey {
    CookieKey { domain: spot.0, path: spot.1, name: cookie.name }
}

/// How a cookie comes to lie there.
pub open spec fn entry_at(cookie: CookieView, spot: (Seq<char>, Seq<char>, bool)) -> CookieEntry {
    CookieEntry {
        value: cookie.value,
        host_only: spot.2,
        secure: cookie.secure,
        http_only: cookie.http_only,
        ends: cookie.expires,
    }
}

/// Whether a URL is one of the web.
pub open spec fn is_web(url: UrlView) -> bool {
    url.scheme == "http"@ || url.scheme == "https"@
}

/// Whether a host is written in lower-case letters, digits, hyphens and dots, with
/// nothing in it that stands for other letters and no two dots in a row.
pub open spec fn is_plain_host(host: Seq<char>) -> bool {
    &&& host.len() > 0
    &&& host[0] != '.'
    &&& !has_part(host, "xn--"@)
    &&& !has_part(host, ".."@)
    &&& forall|i: int|
        0 <= i < host.len() ==> 'a' <= #[trigger] host[i] <= 'z' || '0' <= host[i] <= '9'
            || host[i] == '-' || host[i] == '.'
}

/// Whether a URL is one of the web with a plain host.
pub open spec fn is_homely(url: UrlView) -> bool {
    is_web(url) && url.host is Some && is_plain_host(url.host->0)
}

/// What happens to the jar when a URL sets a cookie that may lie at a spot.
///
/// Only what lies at that spot under that name can change. A cookie for the session
/// comes to lie there, where a URL of the web sets it and no list of public suffixes
/// can stand against it. Of any other cookie it depends on the time whether it does, with
/// the time at which it ends, or ends the one before it, or nothing happens.
pub open spec fn laid(
    before: Map<CookieKey, CookieEntry>,
    after: Map<CookieKey, CookieEntry>,
    cookie: CookieView,
    url: UrlView,
    spot: Option<(Seq<char>, Seq<char>, bool)>,
    listed: bool,
) -> bool {
    match spot {
        None => after == before,
        Some(s) => {
            let key = key_at(cookie, s);
            let entry = entry_at(cookie, s);
            &&& after.remove(key) == before.remove(key)
            &&& !is_lasting(cookie) && is_web(url) && (cookie.domain is None || !listed)
                ==> after.contains_key(key) && after[key] == entry
            &&& before.contains_key(key) ==> after.contains_key(key)
            &&& after.contains_key(key) ==> {
                ||| before.contains_key(key) && after[key] == before[key]
                ||| before.contains_key(key) && is_lasting(cookie) && after[key] == (CookieEntry {
                    ends: Some(0),
                    ..before[key]
                })
                ||| after[key] == (CookieEntry {
                    host_only: after[key].host_only,
                    ends: after[key].ends,
                    ..entry
                }) && (!listed ==> after[key].host_only == entry.host_only) && (if cookie.has_max_age {
                    after[key].ends is Some
                } else {
                    after[key].ends == cookie.expires
                })
            }
        },
    }
}

/// Whether a host lies below a domain.
pub open spec fn is_below(host: Seq<char>, domain: Seq<char>) -> bool {
    &&& host.len() > domain.len()
    &&& host.skip(host.len() - domain.len()) == domain
    &&& host[host.len() - domain.len() - 1] == '.'
}

/// Whether a domain takes in the host of a URL.
pub open spec fn takes_in(domain: Seq<char>, url: UrlView) -> bool {
    ||| url.host == Some(domain)
    ||| url.domain is Some && is_below(url.host->0, domain)
}

/// Whether a path lies at another or below it.
pub open spec fn path_matches(path: Seq<char>, of_cookie: Seq<char>) -> bool {
    &&& of_cookie.len() > 0
    &&& of_cookie[0] == '/'
    &&& of_cookie.is_prefix_of(path)
    &&& path.len() == of_cookie.len() || of_cookie.last() == '/' || path[of_cookie.len() as int]
        == '/'
}

/// A path without its last slash and what follows it.
pub open spec fn before_last_slash(path: Seq<char>) -> Seq<char>
    decreases path.len(),
{
    if path.len() == 0 {
        path
    } else if path.last() == '/' {
        path.drop_last()
    } else {
        before_last_slash(path.drop_last())
    }
}

/// The path that a cookie is for that names none.
pub open spec fn default_path(path: Seq<char>) -> Seq<char> {
    if before_last_slash(path).len() == 0 {
        seq!['/']
    } else {
        before_last_slash(path)
    }
}

/// Whether a cookie that lies in the jar belongs to the requests for a homely URL: the
/// cookie's domain is plain, and the URL's host or, where the cookie is not for the one host
/// only, a domain above it; the URL's path lies at the cookie's or below it; and the cookie
/// is not for secure connections only unless the URL has one.
pub open spec fn belongs(key: CookieKey, entry: CookieEntry, url: UrlView) -> bool {
    &&& is_homely(url)
    &&& is_plain_host(key.domain)
    &&& url.host == Some(key.domain) || (!entry.host_only && takes_in(key.domain, url))
    &&& path_matches(url.path, key.path)
    &&& entry.secure ==> url.scheme == "https"@
}

/// Whether pairs of names and values hold every cookie for the session that belongs to a URL.
pub open spec fn hold_what_belongs(
    cookies: Map<CookieKey, CookieEntry>,
    url: UrlView,
    pairs: Seq<(Seq<char>, Seq<char>)>,
) -> bool {
    forall|key: CookieKey| #[trigger]
        cookies.contains_key(key) && cookies[key].ends is None && belongs(key, cookies[key], url)
            ==> pairs.contains((key.name, cookies[key].value))
}

/// Whether pairs of names and values are the cookies of a jar that are sent to a URL:
/// each lies in the jar, belongs to the URL and is sent once, and every cookie for the
/// session that belongs to the URL is sent.
pub open spec fn sent(
    cookies: Map<CookieKey, CookieEntry>,
    belongs_to: spec_fn(CookieKey, CookieEntry) -> bool,
    pairs: Seq<(Seq<char>, Seq<char>)>,
) -> bool {
    exists|keys: Seq<CookieKey>| #[trigger] sent_from(cookies, belongs_to, pairs, keys)
}

/// As `sent`, with the places that the cookies are taken from.
pub open spec fn sent_from(
    cookies: Map<CookieKey, CookieEntry>,
    belongs_to: spec_fn(CookieKey, CookieEntry) -> bool,
    pairs: Seq<(Seq<char>, Seq<char>)>,
    keys: Seq<CookieKey>,
) -> bool {
    &&& keys.no_duplicates()
    &&& keys.len() == pairs.len()
    &&& forall|i: int|
        0 <= i < keys.len() ==> {
            let key = #[trigger] keys[i];
            &&& cookies.contains_key(key)
            &&& belongs_to(key, cookies[key])
            &&& pairs[i] == (key.name, cookies[key].value)
        }
    &&& forall|key: CookieKey| #[trigger]
        cookies.contains_key(key) && belongs_to(key, cookies[key]) && cookies[key].ends is None
            ==> keys.contains(key)
}

/// Whether a jar holds what is left of a list of cookies once some whose time has ended
/// are passed over: nothing else, and the last of each place where it is for the session.
pub open spec fn loaded(
    list: Seq<(CookieKey, CookieEntry)>,
    cookies: Map<CookieKey, CookieEntry>,
) -> bool {
    &&& forall|key: CookieKey| #[trigger]
        cookies.contains_key(key) ==> list.contains((key, cookies[key]))
    &&& forall|i: int|
        0 <= i < list.len() && (#[trigger] list[i]).1.ends is None && (forall|j: int|
            i < j < list.len() ==> (#[trigger] list[j]).0 != list[i].0) ==> cookies.contains_key(
            list[i].0,
        ) && cookies[list[i].0] == list[i].1
}

/// A text without a dot at its front.
pub open spec fn without_dot(s: Seq<char>) -> Seq<char> {
    if s.len() > 0 && s[0] == '.' {
        s.drop_first()
    } else {
        s
    }
}

/// A cookie as it is put together from its parts.
pub open spec fn built_cookie(
    name: Seq<char>,
    value: Seq<char>,
    domain: Seq<char>,
    path: Seq<char>,
    secure: bool,
    expires: Option<i64>,
) -> CookieView {
    CookieView {
        name,
        value,
        domain: Some(without_dot(domain)),
        path: Some(path),
        secure,
        http_only: false,
        expires,
        has_max_age: false,
    }
}

/// Whether a number of seconds since 1970 is a point in time of the years -9999 to 9999.
pub open spec fn is_timestamp(t: int) -> bool {
    -377_705_116_800 <= t <= 253_402_300_799
}

/// What `OffsetDateTime::from_unix_timestamp` says of a number that is no point in time.
pub uninterp spec fn timestamp_error(t: i64) -> Seq<char>;

/// `CookieStore::default`: an empty jar, and no list of public suffixes.
#[verifier::external_body]
pub(crate) fn empty_jar() -> (r: cookie_store::CookieStore)
    ensures
        jar(r).dom() == Set::<CookieKey>::empty(),
        !has_suffix_list(r),
{
    cookie_store::CookieStore::default()
}

/// `CookieStore::load_json`: a jar with the cookies that the bytes hold line by line,
/// but for those whose time has ended, and no list of public suffixes.
#[verifier::external_body]
pub(crate) fn jar_from_json(bytes: &Vec<u8>) -> (r: Result<cookie_store::CookieStore, String>)
    ensures
        r is Ok == json_cookies(bytes@) is Ok,
        r is Err ==> json_cookies(bytes@)->Err_0 == r->Err_0@,
        r is Ok ==> loaded(json_cookies(bytes@)->Ok_0, jar(r->Ok_0)),
        r is Ok ==> !has_suffix_list(r->Ok_0),
{
    match cookie_store::CookieStore::load_json(bytes.as_slice()) {
        Ok(store) => Ok(store),
        Err(e) => Err(e.to_string()),
    }
}

/// What is read out of the text of a `Set-Cookie` field, as far as a caller needs it.
pub(crate) struct ReadCookie {
    pub(crate) domain: Option<String>,
    pub(crate) secure: bool,
}

/// `Cookie::parse`, with `Cookie::domain` and `Cookie::secure`: what the text says, or
/// the words of the error.
#[verifier::external_body]
pub(crate) fn read_cookie(text: &str) -> (r: Result<ReadCookie, String>)
    ensures
        r is Ok == parsed_cookie(text@) is Ok,
        r is Ok ==> (r->Ok_0.domain is Some) == (parsed_cookie(text@)->Ok_0.domain is Some),
        r is Ok && r->Ok_0.domain is Some ==> r->Ok_0.domain->0@ == parsed_cookie(
            text@,
        )->Ok_0.domain->0,
        r is Ok ==> r->Ok_0.secure == parsed_cookie(text@)->Ok_0.secure,
        r is Err ==> parsed_cookie(text@)->Err_0 == r->Err_0@,
{
    match cookie::Cookie::parse(text) {
        Ok(c) => Ok(ReadCookie {
            domain: c.domain().map(str::to_string),
            secure: c.secure().unwrap_or(false),
        }),
        Err(e) => Err(e.to_string()),
    }
}

/// `CookieStore::store_response_cookies` with the one cookie that `Cookie::parse` reads
/// out of the text. The place of a cookie that is a URL's own is the one that
/// `own_spot` tells, and where it is for the session it comes to lie there.
#[verifier::external_body]
pub(crate) fn keep_cookie(store: &mut cookie_store::CookieStore, text: &str, url: &str)
    requires
        parsed_cookie(text@) is Ok,
        parsed_url(url@) is Ok,
    ensures
        laid(
            jar(*old(store)),
            jar(*final(store)),
            parsed_cookie(text@)->Ok_0,
            parsed_url(url@)->Ok_0,
            cookie_spot(parsed_cookie(text@)->Ok_0, url@),
            has_suffix_list(*final(store)),
        ),
        has_suffix_list(*final(store)) == has_suffix_list(*old(store)),
        is_own(
            parsed_cookie(text@)->Ok_0,
            parsed_url(url@)->Ok_0,
            has_suffix_list(*final(store)),
        ) ==> is_placed(
            jar(*final(store)),
            parsed_cookie(text@)->Ok_0,
            cookie_spot(parsed_cookie(text@)->Ok_0, url@),
            own_spot(parsed_cookie(text@)->Ok_0, parsed_url(url@)->Ok_0),
        ),
{
    let url = url::Url::parse(url).unwrap();
    let cookie = cookie::Cookie::parse(text).unwrap().into_owned();
    store.store_response_cookies(std::iter::once(cookie), &url);
}

/// Whether a cookie is a URL's own: the URL is homely, and the cookie names
/// no domain, or a plain one that takes in the URL's host where no list of public suffixes
/// can stand against it.
pub open spec fn is_own(cookie: CookieView, url: UrlView, listed: bool) -> bool {
    &&& is_homely(url)
    &&& cookie.domain is None || (!listed && is_plain_host(cookie.domain->0) && takes_in(
        cookie.domain->0,
        url,
    ))
}

/// The place of a cookie that is a URL's own: the domain that it names, else the host and
/// only that; and the path that it names, else that of the URL up to its last slash.
pub open spec fn own_spot(cookie: CookieView, url: UrlView) -> (Seq<char>, Seq<char>, bool) {
    (
        match cookie.domain {
            Some(domain) => domain,
            None => url.host->0,
        },
        match cookie.path {
            Some(path) => if path.len() > 0 && path[0] == '/' {
                path
            } else {
                default_path(url.path)
            },
            None => default_path(url.path),
        },
        cookie.domain is None,
    )
}

/// Whether a cookie has a place and lies there.
pub open spec fn lies(
    after: Map<CookieKey, CookieEntry>,
    cookie: CookieView,
    spot: Option<(Seq<char>, Seq<char>, bool)>,
) -> bool {
    &&& spot is Some
    &&& after.contains_key(key_at(cookie, spot->0))
    &&& after[key_at(cookie, spot->0)] == entry_at(cookie, spot->0)
}

/// Whether a cookie's place is the one that it should have, and it lies there where it is
/// for the session.
pub open spec fn is_placed(
    after: Map<CookieKey, CookieEntry>,
    cookie: CookieView,
    spot: Option<(Seq<char>, Seq<char>, bool)>,
    own: (Seq<char>, Seq<char>, bool),
) -> bool {
    spot == Some(own) && (!is_lasting(cookie) ==> lies(after, cookie, spot))
}

/// `CookieStore::store_response_cookies` with the one cookie that `Cookie::build` puts
/// together, with `OffsetDateTime::from_unix_timestamp` for the time at which it ends. The
/// place of a cookie that is a URL's own is the one that `own_spot` tells, and where it is for
/// the session it comes to lie there.
#[verifier::external_body]
pub(crate) fn keep_built_cookie(
    store: &mut cookie_store::CookieStore,
    pair: (&str, &str),
    domain: &str,
    path: &str,
    secure: bool,
    expires: Option<i64>,
    url: &str,
)
    requires
        expires is Some ==> is_timestamp(expires->0 as int),
        parsed_url(url@) is Ok,
    ensures
        laid(
            jar(*old(store)),
            jar(*final(store)),
            built_cookie(pair.0@, pair.1@, domain@, path@, secure, expires),
            parsed_url(url@)->Ok_0,
            cookie_spot(
                built_cookie(pair.0@, pair.1@, domain@, path@, secure, expires),
                url@,
            ),
            has_suffix_list(*final(store)),
        ),
        has_suffix_list(*final(store)) == has_suffix_list(*old(store)),
        is_own(
            built_cookie(pair.0@, pair.1@, domain@, path@, secure, expires),
            parsed_url(url@)->Ok_0,
            has_suffix_list(*final(store)),
        ) ==> is_placed(
            jar(*final(store)),
            built_cookie(pair.0@, pair.1@, domain@, path@, secure, expires),
            cookie_spot(
                built_cookie(pair.0@, pair.1@, domain@, path@, secure, expires),
                url@,
            ),
            own_spot(
                built_cookie(pair.0@, pair.1@, domain@, path@, secure, expires),
                parsed_url(url@)->Ok_0,
            ),
        ),
{
    let url = url::Url::parse(url).unwrap();
    let when = expires.map(|t| time::OffsetDateTime::from_unix_timestamp(t).unwrap());
    let cookie = cookie::Cookie::build(pair.0.to_string(), pair.1.to_string())
        .path(path.to_string())
        .secure(secure)
        .expires(when)
        .domain(domain.to_string())
        .finish();
    store.store_response_cookies(std::iter::once(cookie), &url);
}

/// `CookieStore::get_request_values`: the names and values of the cookies that belong to
/// the URL, in no order. Cookies whose time has ended are left out. Those for the session
/// that `belongs` tells are there.
#[verifier::external_body]
pub(crate) fn cookies_for(store: &cookie_store::CookieStore, url: &str) -> (r: Vec<
    (String, String),
>)
    requires
        parsed_url(url@) is Ok,
    ensures
        sent(
            jar(*store),
            |key: CookieKey, entry: CookieEntry| cookie_goes_to(key, entry, url@),
            pair_texts(r@),
        ),
        hold_what_belongs(jar(*store), parsed_url(url@)->Ok_0, pair_texts(r@)),
{
    let url = url::Url::parse(url).unwrap();
    store.get_request_values(&url).map(|(n, v)| (n.to_string(), v.to_string())).collect()
}

/// `OffsetDateTime::from_unix_timestamp`: whether a number of seconds since 1970 is a
/// point in time, and the words of the error where it is none.
#[verifier::external_body]
pub(crate) fn check_timestamp(t: i64) -> (r: Result<(), String>)
    ensures
        r is Ok == is_timestamp(t as int),
        r is Err ==> r->Err_0@ == timestamp_error(t),
{
    match time::OffsetDateTime::from_unix_timestamp(t) {
        Ok(_) => Ok(()),
        Err(e) => Err(e.to_string()),
    }
}

} // verus!
