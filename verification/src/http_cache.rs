//! Responses that are kept on disk and given out again.
use vstd::prelude::*;

use crate::error::{SpiderError, SpiderErrorView};
use crate::files::copy_texts;
use crate::headers::{add_field, field_bytes, field_views, header_fields, is_field,
    is_field_bytes, is_field_name, is_low_name, is_value_refused, list_headers, lists, low_name,
    no_headers, value_refused, values_for, values_of, with_value, HEADER_ROOM};
use crate::meta::MetaView;
use crate::middleware::MiddlewareAction;
use crate::request::{copy_bytes, is_success, Request, Response, ResponseView};
use crate::text::{joined, lowered, texts};
use crate::weburl::{parsed_url, WebUrl};

verus! {

/// A response as it is kept on disk.
#[derive(Debug)]
pub struct CachedResponse {
    /// Where the response came from in the end, as it was read.
    pub url: String,
    /// The status code.
    pub status: u16,
    /// The header fields, one for each value of a name.
    pub headers: Vec<(String, Vec<u8>)>,
    /// The body.
    pub body: Vec<u8>,
    /// What was asked for, as it was read.
    pub request_url: String,
}

/// A response as it is kept on disk, taken by its texts and bytes.
#[verifier::ext_equal]
pub struct CachedView {
    /// Where the response came from in the end, as it was read.
    pub url: Seq<char>,
    /// The status code.
    pub status: u16,
    /// The header fields, one for each value of a name.
    pub headers: Seq<(Seq<char>, Seq<u8>)>,
    /// The body.
    pub body: Seq<u8>,
    /// What was asked for, as it was read.
    pub request_url: Seq<char>,
}

impl View for CachedResponse {
    type V = CachedView;

    open spec fn view(&self) -> CachedView {
        CachedView {
            url: self.url@,
            status: self.status,
            headers: field_views(self.headers@),
            body: self.body@,
            request_url: self.request_url@,
        }
    }
}

/// What `bincode::deserialize` reads out of bytes: a text, a 16-bit number, a list of texts
/// with bytes, bytes and a text; nothing where the bytes do not hold these.
pub uninterp spec fn decoded(bytes: Seq<u8>) -> Option<CachedView>;

/// `bincode::serialize`: bytes that are read back into what was written.
#[verifier::external_body]
fn encode(cached: &CachedResponse) -> (r: Vec<u8>)
    ensures
        decoded(r@) == Some(cached@),
{
    let parts = (
        &cached.url,
        cached.status,
        &cached.headers,
        &cached.body,
        &cached.request_url,
    );
    bincode::serialize(&parts).unwrap()
}

/// `bincode::deserialize`: what the bytes say, or nothing.
#[verifier::external_body]
fn decode(bytes: &Vec<u8>) -> (r: Option<CachedResponse>)
    ensures
        r is Some == decoded(bytes@) is Some,
        r is Some ==> decoded(bytes@) == Some(r->0@),
{
    let (url, status, headers, body, request_url) = bincode::deserialize(bytes).ok()?;
    Some(CachedResponse { url, status, headers, body, request_url })
}

/// The header fields that a list is read back into: a name or bytes that cannot be those of
/// a field are left out.
pub open spec fn restored(list: Seq<(Seq<char>, Seq<u8>)>) -> Map<Seq<char>, Seq<Seq<u8>>>
    decreases list.len(),
{
    if list.len() == 0 {
        Map::empty()
    } else {
        let before = restored(list.drop_last());
        let (name, value) = list.last();
        if (is_field_name(name) || is_low_name(name)) && is_field_bytes(value) {
            with_value(before, lowered(name), value)
        } else {
            before
        }
    }
}

/// The response that a kept one is read back into; nothing where its URLs are none or its
/// status code is none.
pub open spec fn revived(cached: CachedView, meta: MetaView) -> Option<ResponseView> {
    if parsed_url(cached.url) is Ok && parsed_url(cached.request_url) is Ok && 100 <= cached.status
        <= 999 {
        Some(
            ResponseView {
                url: parsed_url(cached.url)->Ok_0,
                status: cached.status,
                headers: restored(cached.headers),
                body: cached.body,
                request_url: parsed_url(cached.request_url)->Ok_0,
                meta,
                cached: true,
            },
        )
    } else {
        None
    }
}

/// Whether a kept response is what a response is kept as, with all values of its header
/// fields.
pub open spec fn is_kept_as(response: ResponseView, cached: CachedView) -> bool {
    &&& cached.url == response.url.source
    &&& parsed_url(cached.url) is Ok
    &&& parsed_url(cached.url)->Ok_0 == response.url
    &&& cached.status == response.status
    &&& lists(cached.headers, response.headers)
    &&& cached.body == response.body
    &&& cached.request_url == response.request_url.source
    &&& parsed_url(cached.request_url) is Ok
    &&& parsed_url(cached.request_url)->Ok_0 == response.request_url
}

/// A place on disk: a directory, and the names to go down from it.
#[derive(Debug)]
pub struct CachePath {
    /// The directory.
    pub base: String,
    /// The names.
    pub parts: Vec<String>,
}

/// A place on disk, taken by the texts.
#[verifier::ext_equal]
pub struct CachePathView {
    /// The directory.
    pub base: Seq<char>,
    /// The names.
    pub parts: Seq<Seq<char>>,
}

impl View for CachePath {
    type V = CachePathView;

    open spec fn view(&self) -> CachePathView {
        CachePathView { base: self.base@, parts: texts(self.parts@) }
    }
}

/// Builds an `HttpCacheMiddleware`.
#[derive(Debug)]
pub struct HttpCacheMiddlewareBuilder {
    cache_dir: Option<String>,
}

impl View for HttpCacheMiddlewareBuilder {
    type V = Option<Seq<char>>;

    closed spec fn view(&self) -> Option<Seq<char>> {
        match self.cache_dir {
            Some(dir) => Some(dir@),
            None => None,
        }
    }
}

/// Where responses are kept: in the directory that was set, else in one of the system's
/// directory for caches; an error where the system has none.
pub open spec fn cache_place(dir: Option<Seq<char>>, system_dir: Option<Seq<char>>) -> Result<
    CachePathView,
    SpiderErrorView,
> {
    match dir {
        Some(base) => Ok(CachePathView { base, parts: Seq::empty() }),
        None => match system_dir {
            Some(base) => Ok(
                CachePathView { base, parts: seq!["spider-lib"@, "http_cache"@] },
            ),
            None => Err(
                SpiderErrorView::ConfigurationError("Could not determine cache directory"@),
            ),
        },
    }
}

impl Default for HttpCacheMiddlewareBuilder {
    fn default() -> (r: Self)
        ensures
            r@ is None,
    {
        HttpCacheMiddlewareBuilder { cache_dir: None }
    }
}

impl HttpCacheMiddlewareBuilder {
    /// Sets the directory that responses are kept in.
    pub fn cache_dir(self, path: String) -> (r: Self)
        ensures
            r@ == Some(path@),
    {
        HttpCacheMiddlewareBuilder { cache_dir: Some(path) }
    }

    /// Builds the middleware; `system_dir` is the system's directory for caches.
    pub fn build(self, system_dir: Option<String>) -> (r: Result<HttpCacheMiddleware, SpiderError>)
        ensures
            match cache_place(
                self@,
                match system_dir {
                    Some(dir) => Some(dir@),
                    None => None,
                },
            ) {
                Ok(place) => r matches Ok(m) && m@ == place,
                Err(e) => r matches Err(f) && f@ == e,
            },
    {
        let cache_dir = match self.cache_dir {
            Some(base) => {
                let path = CachePath { base, parts: Vec::new() };
                assert(path@.parts =~= Seq::empty());
                path
            },
            None => match system_dir {
                Some(base) => {
                    let mut parts: Vec<String> = Vec::new();
                    parts.push("spider-lib".to_owned());
                    parts.push("http_cache".to_owned());
                    assert(texts(parts@) =~= seq!["spider-lib"@, "http_cache"@]);
                    CachePath { base, parts }
                },
                None => {
                    return Err(
                        SpiderError::ConfigurationError(
                            "Could not determine cache directory".to_owned(),
                        ),
                    );
                },
            },
        };
        Ok(HttpCacheMiddleware { cache_dir })
    }
}

/// Keeps responses on disk and gives them out again.
#[derive(Debug)]
pub struct HttpCacheMiddleware {
    cache_dir: CachePath,
}

impl View for HttpCacheMiddleware {
    type V = CachePathView;

    closed spec fn view(&self) -> CachePathView {
        self.cache_dir@
    }
}

/// The file that the response to a request is kept in.
pub open spec fn file_of(dir: CachePathView, fingerprint: Seq<char>) -> CachePathView {
    CachePathView { parts: dir.parts.push(fingerprint + ".bin"@), ..dir }
}

/// What was found in the file of a request.
#[derive(Debug)]
pub enum Found {
    /// There is no file.
    Nothing,
    /// The file cannot be read.
    Unreadable,
    /// What the file holds.
    Bytes(Vec<u8>),
}

/// Whether an answer to a request, and whether to delete the file, is right for a kept
/// response: where it can be read back it is the answer; else the file is deleted and the
/// request goes on.
pub open spec fn is_right_answer(
    request: Request,
    cached: CachedView,
    answer: (MiddlewareAction<Request>, bool),
) -> bool {
    match revived(cached, request@.meta) {
        Some(response) => answer.0 matches MiddlewareAction::ReturnResponse(p) && p@ == response
            && !answer.1,
        None => answer == (MiddlewareAction::Continue(request), true),
    }
}

impl HttpCacheMiddleware {
    /// A builder with nothing set.
    pub fn builder() -> (r: HttpCacheMiddlewareBuilder)
        ensures
            r@ is None,
    {
        HttpCacheMiddlewareBuilder::default()
    }

    /// The middleware's name.
    pub fn name(&self) -> (r: &str)
        ensures
            r@ == "HttpCacheMiddleware"@,
    {
        "HttpCacheMiddleware"
    }

    /// Where responses are kept.
    pub fn directory(&self) -> (r: &CachePath)
        ensures
            r@ == self@,
    {
        &self.cache_dir
    }

    /// The file that the response to a request is kept in.
    pub fn get_cache_file_path(&self, fingerprint: &str) -> (r: CachePath)
        ensures
            r@ == file_of(self@, fingerprint@),
    {
        let mut parts = copy_texts(&self.cache_dir.parts);
        let name = joined(fingerprint, ".bin");
        parts.push(name);
        assert(texts(parts@) =~= self@.parts.push(fingerprint@ + ".bin"@));
        CachePath { base: self.cache_dir.base.clone(), parts }
    }

    /// Answers a request by a kept response, and says whether to delete its file. There is
    /// no answer where the response has more header fields than a header map takes, which
    /// can be where they are more than it always takes.
    pub fn serve(request: Request, cached: CachedResponse) -> (r: Option<
        (MiddlewareAction<Request>, bool),
    >)
        ensures
            r matches Some(answer) ==> is_right_answer(request, cached@, answer),
            r is None ==> can_be_crowded(cached@) && revived(cached@, request@.meta) is Some,
    {
        let url = match WebUrl::parse(cached.url.as_str()) {
            Ok(url) => url,
            Err(_) => {
                return Some((MiddlewareAction::Continue(request), true));
            },
        };
        let request_url = match WebUrl::parse(cached.request_url.as_str()) {
            Ok(url) => url,
            Err(_) => {
                return Some((MiddlewareAction::Continue(request), true));
            },
        };
        if cached.status < 100 || cached.status > 999 {
            return Some((MiddlewareAction::Continue(request), true));
        }
        match restore_headers(&cached.headers) {
            Some(headers) => {
                let response = Response {
                    url,
                    status: cached.status,
                    headers,
                    body: cached.body,
                    request_url,
                    meta: request.meta,
                    cached: true,
                };
                Some((MiddlewareAction::ReturnResponse(response), false))
            },
            None => None,
        }
    }

    /// Answers a request by what was found in its file, and says whether to delete the
    /// file. There is no answer where `serve` has none.
    pub fn process_request(request: Request, found: Found) -> (r: Option<
        (MiddlewareAction<Request>, bool),
    >)
        ensures
            match found {
                Found::Nothing => r == Some((MiddlewareAction::Continue(request), false)),
                Found::Unreadable => r == Some((MiddlewareAction::Continue(request), true)),
                Found::Bytes(bytes) => match decoded(bytes@) {
                    None => r == Some((MiddlewareAction::Continue(request), true)),
                    Some(cached) => {
                        &&& r matches Some(answer) ==> is_right_answer(request, cached, answer)
                        &&& r is None ==> can_be_crowded(cached) && revived(
                            cached,
                            request@.meta,
                        ) is Some
                    },
                },
            },
    {
        match found {
            Found::Nothing => Some((MiddlewareAction::Continue(request), false)),
            Found::Unreadable => Some((MiddlewareAction::Continue(request), true)),
            Found::Bytes(bytes) => match decode(&bytes) {
                None => Some((MiddlewareAction::Continue(request), true)),
                Some(cached) => Self::serve(request, cached),
            },
        }
    }

    /// The bytes that a response is kept as, and where: only those are kept that
    /// succeeded.
    pub fn to_keep(&self, response: &Response, fingerprint: &str) -> (r: Option<
        (CachePath, Vec<u8>),
    >)
        ensures
            r is Some == is_success(response@.status),
            r matches Some((path, bytes)) ==> path@ == file_of(self@, fingerprint@) && decoded(
                bytes@,
            ) is Some && is_kept_as(response@, decoded(bytes@)->0),
    {
        if !(200 <= response.status && response.status < 300) {
            return None;
        }
        let cached = CachedResponse {
            url: response.url.source().to_owned(),
            status: response.status,
            headers: list_headers(&response.headers),
            body: copy_bytes(&response.body),
            request_url: response.request_url.source().to_owned(),
        };
        Some((self.get_cache_file_path(fingerprint), encode(&cached)))
    }

    /// Lets a response go on once it was kept; `failed` are the words of the error where
    /// it could not be written.
    pub fn process_response(response: Response, failed: Option<String>) -> (r: Result<
        MiddlewareAction<Response>,
        SpiderError,
    >)
        ensures
            match failed {
                Some(e) => r matches Err(SpiderError::IoError(f)) && f == e,
                None => r matches Ok(MiddlewareAction::Continue(p)) && p == response,
            },
    {
        match failed {
            Some(e) => Err(SpiderError::IoError(e)),
            None => Ok(MiddlewareAction::Continue(response)),
        }
    }
}

/// Whether the header fields of a kept response can be too many for a header map.
pub open spec fn can_be_crowded(cached: CachedView) -> bool {
    cached.headers.len() > HEADER_ROOM && are_fields_refused(cached.headers)
}

/// Whether a header map could not take one of a list of fields behind those before it when it
/// was asked to.
pub open spec fn are_fields_refused(list: Seq<(Seq<char>, Seq<u8>)>) -> bool {
    exists|i: int|
        0 <= i < list.len() && is_value_refused(
            restored(list.take(i)),
            lowered((#[trigger] list[i]).0),
            list[i].1,
        )
}

proof fn restored_has_room(list: Seq<(Seq<char>, Seq<u8>)>)
    ensures
        restored(list).dom().finite(),
        restored(list).dom().len() <= list.len(),
    decreases list.len(),
{
    if list.len() > 0 {
        restored_has_room(list.drop_last());
    }
}

/// The header fields that a list is read back into, where a header map takes them.
fn restore_headers(list: &Vec<(String, Vec<u8>)>) -> (r: Option<http::HeaderMap>)
    ensures
        r matches Some(headers) ==> header_fields(headers) == restored(field_views(list@)),
        r is None ==> list@.len() > HEADER_ROOM && are_fields_refused(field_views(list@)),
{
    let mut headers = no_headers();
    let mut i: usize = 0;
    assert(field_views(list@).take(0) =~= Seq::empty());
    assert(header_fields(headers) =~= Map::empty());
    while i < list.len()
        invariant
            i <= list.len(),
            header_fields(headers) == restored(field_views(list@).take(i as int)),
        decreases list.len() - i,
    {
        let ghost all = field_views(list@);
        proof {
            assert(all.take(i + 1).drop_last() =~= all.take(i as int));
            assert(all.take(i + 1).last() == (list@[i as int].0@, list@[i as int].1@));
            restored_has_room(all.take(i as int));
        }
        if let Some(name) = low_name(list[i].0.as_str()) {
            if field_bytes(&list[i].1) {
                let ghost before = headers;
                let added = add_field(headers, &name, &list[i].1);
                headers = added.0;
                if !added.1 {
                    proof {
                        value_refused(before, &name, &list@[i as int].1, added.0);
                        assert(is_value_refused(
                            restored(all.take(i as int)),
                            lowered(all[i as int].0),
                            all[i as int].1,
                        ));
                    }
                    return None;
                }
            }
        }
        i += 1;
    }
    assert(field_views(list@).take(i as int) =~= field_views(list@));
    Some(headers)
}

proof fn low_names_stay(name: Seq<char>)
    requires
        is_low_name(name),
    ensures
        lowered(name) == name,
{
    assert(lowered(name) =~= name);
}

proof fn restored_values(list: Seq<(Seq<char>, Seq<u8>)>, name: Seq<char>)
    requires
        forall|i: int| 0 <= i < list.len() ==> is_field(#[trigger] list[i]),
    ensures
        values_for(restored(list), name) == values_of(list, name),
        restored(list).contains_key(name) == (values_of(list, name).len() > 0),
    decreases list.len(),
{
    if list.len() > 0 {
        let front = list.drop_last();
        assert forall|i: int| 0 <= i < front.len() implies is_field(#[trigger] front[i]) by {
            assert(front[i] == list[i]);
        }
        restored_values(front, name);
        assert(is_field(list[list.len() - 1]));
        low_names_stay(list.last().0);
    }
}

/// A response that was kept comes back as it was, with all values of its header fields, but
/// for what the crawler keeps with the request that asks for it.
pub proof fn kept_responses_come_back(
    response: ResponseView,
    cached: CachedView,
    meta: MetaView,
)
    requires
        is_success(response.status),
        is_kept_as(response, cached),
    ensures
        revived(cached, meta) == Some(ResponseView { meta, cached: true, ..response }),
{
    let back = restored(cached.headers);
    let fields = response.headers;
    assert forall|n: Seq<char>|
        #![trigger back.dom().contains(n)]
        #![trigger fields.dom().contains(n)]
        #![trigger back[n]]
        back.dom().contains(n) == fields.dom().contains(n) && (fields.dom().contains(n) ==> back[n]
            == fields[n]) by {
        restored_values(cached.headers, n);
        assert(values_of(cached.headers, n) == values_for(fields, n));
        if fields.contains_key(n) {
            assert(values_of(cached.headers, n).len() > 0);
        }
    }
    assert(back =~= fields);
}

/// Responses are kept in the directory that was set; else in `spider-lib/http_cache` below the
/// system's directory for caches; and where the system has none the middleware is not built.
pub proof fn directories_are_as_set(
    builder: HttpCacheMiddlewareBuilder,
    system_dir: Option<String>,
    r: Result<HttpCacheMiddleware, SpiderError>,
)
    requires
        call_ensures(HttpCacheMiddlewareBuilder::build, (builder, system_dir), r),
    ensures
        builder@ matches Some(dir) ==> r is Ok && r->Ok_0@.base == dir && r->Ok_0@.parts.len()
            == 0,
        builder@ is None && system_dir is Some ==> r is Ok && r->Ok_0@.base == system_dir->0@
            && r->Ok_0@.parts.len() == 2 && r->Ok_0@.parts[0] == "spider-lib"@
            && r->Ok_0@.parts[1] == "http_cache"@,
        builder@ is None && system_dir is None ==> (r matches Err(
            SpiderError::ConfigurationError(e),
        ) && e@ == "Could not determine cache directory"@),
{
}

/// A builder has no directory until one is set, and then has that.
pub proof fn directories_are_set(
    usual: HttpCacheMiddlewareBuilder,
    builder: HttpCacheMiddlewareBuilder,
    dir: String,
    set: HttpCacheMiddlewareBuilder,
)
    requires
        call_ensures(HttpCacheMiddleware::builder, (), usual),
        call_ensures(HttpCacheMiddlewareBuilder::cache_dir, (builder, dir), set),
    ensures
        usual@ is None,
        set@ == Some(dir@),
{
}

/// The response to a request is kept in a file of its own in the directory, named by the
/// request's fingerprint and `.bin`: those of two requests are the same where their
/// fingerprints are, and nowhere else.
pub proof fn files_are_told_apart(
    middleware: HttpCacheMiddleware,
    first: &str,
    second: &str,
    a: CachePath,
    b: CachePath,
)
    requires
        call_ensures(HttpCacheMiddleware::get_cache_file_path, (&middleware, first), a),
        call_ensures(HttpCacheMiddleware::get_cache_file_path, (&middleware, second), b),
    ensures
        a@.base == middleware@.base,
        a@.parts.len() == middleware@.parts.len() + 1,
        a@.parts.drop_last() == middleware@.parts,
        a@.parts.last() == first@ + ".bin"@,
        (a@ == b@) == (first@ == second@),
{
    let dir = middleware@;
    assert(a@.parts.drop_last() =~= dir.parts);
    if a@ == b@ {
        assert(a@.parts.last() == b@.parts.last());
        let x = first@ + ".bin"@;
        let y = second@ + ".bin"@;
        assert(x.len() == y.len());
        assert(first@ =~= x.take(first@.len() as int));
        assert(second@ =~= y.take(second@.len() as int));
    }
}

/// A response is kept where its status is from 200 to 299, and comes back to a request whose
/// file holds what was kept: with its URLs, its status, all values of its header fields and its
/// body, marked as kept, and with the metadata of the request that asks, not its own; the file
/// stays. Only where it has more header fields than a header map always takes can there be no
/// answer.
pub proof fn kept_responses_are_given_out(
    middleware: HttpCacheMiddleware,
    response: Response,
    fingerprint: &str,
    path: CachePath,
    bytes: Vec<u8>,
    request: Request,
    answer: Option<(MiddlewareAction<Request>, bool)>,
)
    requires
        call_ensures(
            HttpCacheMiddleware::to_keep,
            (&middleware, &response, fingerprint),
            Some((path, bytes)),
        ),
        call_ensures(
            HttpCacheMiddleware::process_request,
            (request, Found::Bytes(bytes)),
            answer,
        ),
    ensures
        200 <= response.status <= 299,
        path@.base == middleware@.base,
        path@.parts == middleware@.parts.push(fingerprint@ + ".bin"@),
        answer matches Some((action, delete)) ==> {
            let back = action->ReturnResponse_0@;
            &&& action is ReturnResponse
            &&& !delete
            &&& back.url == response@.url
            &&& back.request_url == response@.request_url
            &&& back.status == response@.status
            &&& back.headers == response@.headers
            &&& back.body == response@.body
            &&& back.cached
            &&& back.meta == request@.meta
        },
        answer is None ==> decoded(bytes@) is Some && decoded(bytes@)->0.headers.len() > 6553
            && are_fields_refused(decoded(bytes@)->0.headers),
{
    kept_responses_come_back(response@, decoded(bytes@)->0, request@.meta);
}

/// A response whose status is not from 200 to 299 is not kept.
pub proof fn only_successes_are_kept(
    middleware: HttpCacheMiddleware,
    response: Response,
    fingerprint: &str,
    kept: Option<(CachePath, Vec<u8>)>,
)
    requires
        call_ensures(HttpCacheMiddleware::to_keep, (&middleware, &response, fingerprint), kept),
    ensures
        kept is Some == (200 <= response.status <= 299),
{
}

/// Without a file a request goes on as it is; and so it does where the file cannot be read or
/// holds no response, and then the file is deleted.
pub proof fn requests_without_a_kept_response_go_on(
    request: Request,
    found: Found,
    answer: Option<(MiddlewareAction<Request>, bool)>,
)
    requires
        call_ensures(HttpCacheMiddleware::process_request, (request, found), answer),
    ensures
        found is Nothing ==> answer == Some((MiddlewareAction::Continue(request), false)),
        found is Unreadable ==> answer == Some((MiddlewareAction::Continue(request), true)),
        found matches Found::Bytes(bytes) ==> (decoded(bytes@) is None ==> answer == Some(
            (MiddlewareAction::Continue(request), true),
        )),
{
}

/// A kept response is given out where both its URLs are URLs and its status is one of three
/// digits: with those, its body and the request's metadata, marked as kept. Else the request
/// goes on and the file is deleted.
pub proof fn kept_responses_are_read_back(
    request: Request,
    cached: CachedResponse,
    answer: Option<(MiddlewareAction<Request>, bool)>,
)
    requires
        call_ensures(HttpCacheMiddleware::serve, (request, cached), answer),
    ensures
        ({
            let valid = parsed_url(cached.url@) is Ok && parsed_url(cached.request_url@) is Ok
                && 100 <= cached.status <= 999;
            &&& !valid ==> answer == Some((MiddlewareAction::Continue(request), true))
            &&& valid && cached.headers@.len() <= 6553 ==> answer is Some
            &&& answer is None ==> are_fields_refused(field_views(cached.headers@))
            &&& valid ==> (answer matches Some((action, delete)) ==> {
                let back = action->ReturnResponse_0@;
                &&& action is ReturnResponse
                &&& !delete
                &&& back.url == parsed_url(cached.url@)->Ok_0
                &&& back.request_url == parsed_url(cached.request_url@)->Ok_0
                &&& back.status == cached.status
                &&& back.body == cached.body@
                &&& back.cached
                &&& back.meta == request@.meta
                &&& back.headers == restored(field_views(cached.headers@))
            })
        }),
{
}

/// Of two lists of kept header fields that are the same but for one more at the end of the
/// second, the second is read back into the same fields and one more value, the last of its
/// name in lower case, where the name and the bytes can be those of a field; and just into the
/// same where they cannot.
pub proof fn kept_fields_are_read_in_order(
    list: Seq<(Seq<char>, Seq<u8>)>,
    name: Seq<char>,
    value: Seq<u8>,
)
    ensures
        restored(Seq::empty()) == Map::<Seq<char>, Seq<Seq<u8>>>::empty(),
        ({
            let before = restored(list);
            let after = restored(list.push((name, value)));
            if (is_field_name(name) || is_low_name(name)) && is_field_bytes(value) {
                let low = lowered(name);
                &&& after.contains_key(low)
                &&& before.contains_key(low) ==> after[low] == before[low].push(value)
                &&& !before.contains_key(low) ==> after[low] == seq![value]
                &&& forall|other: Seq<char>|
                    other != low ==> (#[trigger] after.contains_key(other)) == before.contains_key(
                        other,
                    )
                &&& forall|other: Seq<char>|
                    other != low && before.contains_key(other) ==> #[trigger] after[other]
                        == before[other]
            } else {
                after == before
            }
        }),
{
    let more = list.push((name, value));
    assert(more.drop_last() =~= list);
    assert(Seq::<Seq<u8>>::empty().push(value) =~= seq![value]);
}

/// A response goes on as it is once it was kept; where it could not be written that is an error,
/// in the words that came.
pub proof fn responses_go_on_once_kept(
    response: Response,
    failed: Option<String>,
    r: Result<MiddlewareAction<Response>, SpiderError>,
)
    requires
        call_ensures(HttpCacheMiddleware::process_response, (response, failed), r),
    ensures
        failed is None ==> r == Ok::<MiddlewareAction<Response>, SpiderError>(
            MiddlewareAction::Continue(response),
        ),
        failed matches Some(words) ==> (r matches Err(SpiderError::IoError(e)) && e@ == words@),
{
}

/// What is told of a kept response is all that it holds, each field of its header as it stands.
pub proof fn kept_views_show_all(cached: CachedResponse)
    ensures
        cached@.url == cached.url@,
        cached@.request_url == cached.request_url@,
        cached@.status == cached.status,
        cached@.body == cached.body@,
        cached@.headers.len() == cached.headers@.len(),
        forall|i: int|
            0 <= i < cached.headers@.len() ==> (#[trigger] cached@.headers[i]).0
                == cached.headers@[i].0@ && cached@.headers[i].1 == cached.headers@[i].1@,
{
}

} // verus!
