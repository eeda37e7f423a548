//! The `Referer` field: where a request was led from.
use vstd::prelude::*;
use vstd::utf8::encode_utf8;

use crate::error::SpiderError;
use crate::headers::{field_value, is_field_name, is_field_value, is_refused, refused, roomy,
    set_field};
use crate::meta::{is_text, MetaValueView};
use crate::middleware::{answer_unless_crowded, crowded, MiddlewareAction};
use crate::request::{answered, origin_key, origin_of, Request, RequestView, Response, ResponseView};
use crate::slots::SlotTable;
use crate::text::{joined, lowered, numeral, same, write_number};
use crate::weburl::{parsed_url, without_fragment, without_fragment_has_none, UrlView, WebUrl};

verus! {

/// What `seahash::hash` makes of bytes.
pub uninterp spec fn seahash_of(bytes: Seq<u8>) -> u64;

/// `seahash::hash` of a text's UTF-8: a number that is a function of the bytes.
#[verifier::external_body]
fn seahash(text: &str) -> (r: u64)
    ensures
        r == seahash_of(encode_utf8(text@)),
{
    seahash::hash(text.as_bytes())
}

/// A page that requests are led from.
#[derive(Debug)]
struct Referer {
    text: String,
    origin: String,
}

/// A page that requests are led from.
#[verifier::ext_equal]
pub struct RefererView {
    /// How its URL is written in the header field.
    pub text: Seq<char>,
    /// Its scheme, host and port.
    pub origin: Seq<char>,
}

impl View for Referer {
    type V = RefererView;

    closed spec fn view(&self) -> RefererView {
        RefererView { text: self.text@, origin: self.origin@ }
    }
}

impl Referer {
    fn copy(&self) -> (r: Referer)
        ensures
            r@ == self@,
    {
        Referer { text: self.text.clone(), origin: self.origin.clone() }
    }
}

/// Sets the `Referer` field of requests by the pages that led to them.
#[derive(Debug)]
pub struct RefererMiddleware {
    /// Whether a page only leads to requests of its own scheme, host and port.
    pub same_origin_only: bool,
    /// How many pages are kept, each counted once for every name that it is kept under.
    pub max_chain_length: usize,
    /// Whether a page's fragment is told.
    pub include_fragment: bool,
    referer_map: SlotTable<Referer>,
}

/// What the middleware is set to and the pages that it keeps.
#[verifier::ext_equal]
pub struct RefererState {
    /// Whether a page only leads to requests of its own scheme, host and port.
    pub same_origin_only: bool,
    /// How many pages are kept, each counted once for every name that it is kept under.
    pub max_chain_length: usize,
    /// Whether a page's fragment is told.
    pub include_fragment: bool,
    /// The pages by the requests that they answered.
    pub pages: Map<Seq<char>, RefererView>,
}

impl View for RefererMiddleware {
    type V = RefererState;

    closed spec fn view(&self) -> RefererState {
        RefererState {
            same_origin_only: self.same_origin_only,
            max_chain_length: self.max_chain_length,
            include_fragment: self.include_fragment,
            pages: self.referer_map@.map_values(|r: Referer| r@),
        }
    }
}

/// A URL as it is told to others.
pub open spec fn told(url: UrlView, include_fragment: bool) -> RefererView {
    RefererView {
        text: if !include_fragment && url.fragment is Some {
            without_fragment(url)
        } else {
            url.text
        },
        origin: origin_key(url),
    }
}

/// The name under which a request is kept: its method and its URL.
pub open spec fn key_of(request: RequestView) -> Seq<char> {
    request.method + ":"@ + request.url.text
}

/// The name by which a request's children know it.
pub open spec fn id_of(url: UrlView) -> Seq<char> {
    "req_"@ + numeral(seahash_of(encode_utf8(url.text)) as nat, 16)
}

/// Whether a page may be told to a request.
pub open spec fn may_tell(state: RefererState, request: RequestView, page: RefererView) -> bool {
    state.same_origin_only ==> page.origin == origin_key(request.url)
}

/// The page that the request's own metadata names.
pub open spec fn page_from_meta(state: RefererState, request: RequestView) -> Option<RefererView> {
    if is_text(request.meta, "referer"@) {
        match parsed_url(request.meta.values["referer"@]->Text_0) {
            Ok(url) => {
                let page = told(url, state.include_fragment);
                if may_tell(state, request, page) {
                    Some(page)
                } else {
                    None
                }
            },
            Err(_) => None,
        }
    } else {
        None
    }
}

/// The page that is kept under a name, where it may be told to the request.
pub open spec fn kept_page(state: RefererState, request: RequestView, name: Seq<char>) -> Option<
    RefererView,
> {
    if state.pages.contains_key(name) && may_tell(state, request, state.pages[name]) {
        Some(state.pages[name])
    } else {
        None
    }
}

/// The page that led to a request: the one that its metadata names, else the one kept
/// for the same request, else the one kept for its parent.
pub open spec fn page_for(state: RefererState, request: RequestView) -> Option<RefererView> {
    if page_from_meta(state, request) is Some {
        page_from_meta(state, request)
    } else if kept_page(state, request, key_of(request)) is Some {
        kept_page(state, request, key_of(request))
    } else if is_text(request.meta, "parent_request_id"@) {
        kept_page(state, request, request.meta.values["parent_request_id"@]->Text_0)
    } else {
        None
    }
}

/// A request with its `Referer` field set, where a page led to it that the field can
/// hold.
pub open spec fn with_referer(state: RefererState, request: RequestView) -> RequestView {
    match page_for(state, request) {
        Some(page) => if is_field_value(page.text) {
            RequestView {
                headers: request.headers.insert("referer"@, seq![encode_utf8(page.text)]),
                ..request
            }
        } else {
            request
        },
        None => request,
    }
}

/// Whether there is room for one more name.
pub open spec fn has_room(state: RefererState) -> bool {
    state.pages.dom().len() < state.max_chain_length
}

/// The state once a response's page is kept under the key of the request that it answered.
pub open spec fn with_key(state: RefererState, response: ResponseView) -> RefererState {
    let page = told(response.url, state.include_fragment);
    RefererState { pages: state.pages.insert(key_of(answered(response)), page), ..state }
}

/// Whether a response's page is then also kept under the name by which the children of that
/// request know it: the name is there already, or there is room for it.
pub open spec fn is_for_children(state: RefererState, response: ResponseView) -> bool {
    let once = with_key(state, response);
    once.pages.contains_key(id_of(response.request_url)) || has_room(once)
}

/// The state after a response: where there is room, the response's page is kept under the
/// key of the request that it answered and, where there still is, under the name by which
/// the request's children know it.
pub open spec fn after_response(state: RefererState, response: ResponseView) -> RefererState {
    let page = told(response.url, state.include_fragment);
    let once = with_key(state, response);
    if !has_room(state) {
        state
    } else if is_for_children(state, response) {
        RefererState { pages: once.pages.insert(id_of(response.request_url), page), ..once }
    } else {
        once
    }
}

/// Whether no page is kept with a fragment.
pub open spec fn fragment_free(state: RefererState) -> bool {
    forall|name: Seq<char>| #[trigger]
        state.pages.contains_key(name) ==> !state.pages[name].text.contains('#')
}

impl Default for RefererMiddleware {
    fn default() -> (r: Self)
        ensures
            r@ == (RefererState {
                same_origin_only: true,
                max_chain_length: 1000,
                include_fragment: false,
                pages: Map::empty(),
            }),
    {
        let r = RefererMiddleware {
            same_origin_only: true,
            max_chain_length: 1000,
            include_fragment: false,
            referer_map: SlotTable::new(),
        };
        assert(r@.pages =~= Map::empty());
        r
    }
}

impl RefererMiddleware {
    /// A middleware that tells pages within their scheme, host and port, without fragments,
    /// and keeps a thousand.
    pub fn new() -> (r: Self)
        ensures
            r@ == (RefererState {
                same_origin_only: true,
                max_chain_length: 1000,
                include_fragment: false,
                pages: Map::empty(),
            }),
    {
        Self::default()
    }

    /// Sets whether a page only leads to requests of its own scheme, host and port.
    pub fn same_origin_only(self, same_origin_only: bool) -> (r: Self)
        ensures
            r@ == (RefererState { same_origin_only, ..self@ }),
    {
        RefererMiddleware { same_origin_only, ..self }
    }

    /// Sets how many pages are kept.
    pub fn max_chain_length(self, max_chain_length: usize) -> (r: Self)
        ensures
            r@ == (RefererState { max_chain_length, ..self@ }),
    {
        RefererMiddleware { max_chain_length, ..self }
    }

    /// Sets whether a page's fragment is told.
    pub fn include_fragment(self, include_fragment: bool) -> (r: Self)
        ensures
            r@ == (RefererState { include_fragment, ..self@ }),
    {
        RefererMiddleware { include_fragment, ..self }
    }

    /// The middleware's name.
    pub fn name(&self) -> (r: &str)
        ensures
            r@ == "RefererMiddleware"@,
    {
        "RefererMiddleware"
    }

    /// The page that the request's own metadata names.
    fn get_referer_for_request(&self, request: &Request) -> (r: Option<Referer>)
        ensures
            r is Some == page_from_meta(self@, request@) is Some,
            r matches Some(p) ==> page_from_meta(self@, request@) == Some(p@),
            r matches Some(p) ==> (!self@.include_fragment ==> !p@.text.contains('#')),
    {
        match request.meta.get_text("referer") {
            Some(text) => match WebUrl::parse(text.as_str()) {
                Ok(url) => {
                    let page = self.clean_url(&url);
                    if self.allows(request, &page) {
                        Some(page)
                    } else {
                        None
                    }
                },
                Err(_) => None,
            },
            None => None,
        }
    }

    /// A URL as it is told to others.
    fn clean_url(&self, url: &WebUrl) -> (r: Referer)
        ensures
            r@ == told(url@, self@.include_fragment),
            !self@.include_fragment ==> !r@.text.contains('#'),
    {
        let has_fragment = url.has_fragment();
        let text = if !self.include_fragment && has_fragment {
            proof {
                without_fragment_has_none(url@);
            }
            url.text_without_fragment()
        } else {
            url.as_str().to_owned()
        };
        Referer { text, origin: origin_of(url) }
    }

    /// Whether a page may be told to a request.
    fn allows(&self, request: &Request, page: &Referer) -> (r: bool)
        ensures
            r == may_tell(self@, request@, page@),
    {
        if self.same_origin_only {
            let own = origin_of(&request.url);
            same(page.origin.as_str(), own.as_str())
        } else {
            true
        }
    }

    /// The page that is kept under a name, where it may be told to the request.
    fn kept(&self, request: &Request, name: &str) -> (r: Option<Referer>)
        ensures
            r is Some == kept_page(self@, request@, name@) is Some,
            r matches Some(p) ==> kept_page(self@, request@, name@) == Some(p@),
    {
        match self.referer_map.get(name) {
            Some(page) => if self.allows(request, page) {
                Some(page.copy())
            } else {
                None
            },
            None => None,
        }
    }

    /// The name under which a request is kept.
    fn request_key(&self, request: &Request) -> (r: String)
        ensures
            r@ == key_of(request@),
    {
        let head = joined(request.method.as_str(), ":");
        joined(head.as_str(), request.url.as_str())
    }

    /// Sets the `Referer` field of a request that a page led to.
    ///
    /// Where fragments are not told and none is kept, none is sent.
    pub fn process_request(&self, request: Request) -> (r: Result<
        MiddlewareAction<Request>,
        SpiderError,
    >)
        ensures
            answer_unless_crowded(
                r,
                Ok(with_referer(self@, request@)),
                page_for(self@, request@) is Some && is_field_value(
                    page_for(self@, request@)->0.text,
                ) && !roomy(request@.headers) && is_refused(
                    request@.headers,
                    "referer"@,
                    page_for(self@, request@)->0.text,
                ),
            ),
            !self@.include_fragment && fragment_free(self@) ==> (page_for(
                self@,
                request@,
            ) matches Some(page) ==> !page.text.contains('#')),
    {
        let mut request = request;
        let page = match self.get_referer_for_request(&request) {
            Some(page) => Some(page),
            None => {
                let key = self.request_key(&request);
                match self.kept(&request, key.as_str()) {
                    Some(page) => Some(page),
                    None => match request.meta.get_text("parent_request_id") {
                        Some(parent) => self.kept(&request, parent.as_str()),
                        None => None,
                    },
                }
            },
        };
        if let Some(page) = page {
            if field_value(page.text.as_str()) {
                proof {
                    referer_is_a_name();
                }
                let ghost before = request.headers;
                let text = page.text.as_str();
                let set = set_field(request.headers, "referer", text);
                request.headers = set.0;
                if !set.1 {
                    proof {
                        refused(before, "referer", text, set.0);
                    }
                    return Err(crowded());
                }
            }
        }
        Ok(MiddlewareAction::Continue(request))
    }

    /// Keeps the page that a response brought.
    pub fn process_response(&mut self, response: Response) -> (r: Result<
        MiddlewareAction<Response>,
        SpiderError,
    >)
        ensures
            r matches Ok(MiddlewareAction::Continue(p)) && p == response,
            final(self)@ == after_response(old(self)@, response@),
            old(self)@.pages.dom().finite(),
    {
        let request = response.request_from_response();
        let hash: u64 = seahash(request.url.as_str());
        let hex = write_number(hash, 16);
        let id = joined("req_", hex.as_str());
        let key = self.request_key(&request);
        let page = self.clean_url(&response.url);
        assert(self@.pages.dom() =~= self.referer_map@.dom());
        if self.referer_map.len() < self.max_chain_length {
            let ghost before = self@;
            let ghost once = with_key(before, response@);
            let mut table = SlotTable::new();
            std::mem::swap(&mut self.referer_map, &mut table);
            let mut table = table.with(key.as_str(), page.copy());
            assert(table@.map_values(|r: Referer| r@) =~= once.pages);
            assert(table@.dom() =~= once.pages.dom());
            if table.get(id.as_str()).is_some() || table.len() < self.max_chain_length {
                table = table.with(id.as_str(), page);
            }
            self.referer_map = table;
            assert(self@.pages =~= after_response(before, response@).pages);
        }
        Ok(MiddlewareAction::Continue(response))
    }
}

proof fn referer_is_a_name()
    ensures
        is_field_name("referer"@),
        lowered("referer"@) == "referer"@,
{
    reveal_strlit("referer");
    assert(lowered("referer"@) =~= "referer"@);
}

/// A page that is told to a request while pages stay within their origin has the
/// request's scheme, host and port.
pub proof fn pages_stay_within_their_origin(state: RefererState, request: RequestView)
    requires
        state.same_origin_only,
    ensures
        page_for(state, request) matches Some(page) ==> page.origin == origin_key(request.url),
{
}

/// Whether no more pages are kept than the limit says.
pub open spec fn is_within_limit(state: RefererState) -> bool {
    state.pages.dom().finite() && state.pages.dom().len() <= state.max_chain_length
}

/// The number of pages that are kept, each counted once for every name that it is kept
/// under, stays within the limit; where the limit is 0 none is kept.
pub proof fn pages_stay_within_the_limit(state: RefererState, response: ResponseView)
    requires
        is_within_limit(state),
    ensures
        is_within_limit(after_response(state, response)),
        state.max_chain_length == 0 ==> after_response(state, response).pages =~= Map::<
            Seq<char>,
            RefererView,
        >::empty(),
{
    if has_room(state) {
        let once = with_key(state, response).pages;
        assert(once.dom() =~= state.pages.dom().insert(key_of(answered(response))));
        if is_for_children(state, response) {
            assert(after_response(state, response).pages.dom() =~= once.dom().insert(
                id_of(response.request_url),
            ));
        }
    }
}

/// The state after responses one after the other.
pub open spec fn after_responses(state: RefererState, responses: Seq<ResponseView>) -> RefererState
    decreases responses.len(),
{
    if responses.len() == 0 {
        state
    } else {
        after_response(after_responses(state, responses.drop_last()), responses.last())
    }
}

/// However many responses come, the pages that are kept stay within the limit.
pub proof fn pages_always_stay_within_the_limit(
    state: RefererState,
    responses: Seq<ResponseView>,
)
    requires
        is_within_limit(state),
    ensures
        is_within_limit(after_responses(state, responses)),
        after_responses(state, responses).max_chain_length == state.max_chain_length,
    decreases responses.len(),
{
    if responses.len() > 0 {
        pages_always_stay_within_the_limit(state, responses.drop_last());
        pages_stay_within_the_limit(
            after_responses(state, responses.drop_last()),
            responses.last(),
        );
    }
}

/// While fragments are not told, none is ever kept.
pub proof fn no_fragment_is_kept(state: RefererState, response: ResponseView)
    requires
        !state.include_fragment,
        fragment_free(state),
        response.url.text.contains('#') == (response.url.fragment is Some),
    ensures
        fragment_free(after_response(state, response)),
{
    without_fragment_has_none(response.url);
}

/// The page that a response brought leads to the same request when it is sent again, as long
/// as there is room, where its metadata names no other.
pub proof fn kept_pages_lead_to_the_same_request(
    state: RefererState,
    response: ResponseView,
    again: RequestView,
)
    requires
        has_room(state),
        key_of(again) == key_of(answered(response)),
        page_from_meta(state, again) is None,
        may_tell(state, again, told(response.url, state.include_fragment)),
    ensures
        page_for(after_response(state, response), again) == Some(
            told(response.url, state.include_fragment),
        ),
{
}

/// The page that a response brought, once kept under the name by which the children of the
/// answered request know it, leads to the requests that name it as their parent, where they have no page of their own.
pub proof fn kept_pages_lead_to_children(
    state: RefererState,
    response: ResponseView,
    child: RequestView,
)
    requires
        has_room(state),
        is_for_children(state, response),
        is_text(child.meta, "parent_request_id"@),
        child.meta.values["parent_request_id"@] == MetaValueView::Text(
            id_of(response.request_url),
        ),
        page_from_meta(state, child) is None,
        kept_page(after_response(state, response), child, key_of(child)) is None,
        may_tell(state, child, told(response.url, state.include_fragment)),
    ensures
        page_for(after_response(state, response), child) == Some(
            told(response.url, state.include_fragment),
        ),
{
}

/// What page a request is told to come from. The page that its metadata names comes first, then
/// the one kept for the same method and URL, then the one kept for the parent that its metadata
/// names; each counts only where it has the request's scheme, host and port, unless any may be
/// told. A fragment is left off a page that is named, unless fragments are told. The page is the
/// one value of the `Referer` field, and nothing else of the request changes; a page that the
/// field cannot hold is left out.
pub proof fn pages_are_told(
    middleware: RefererMiddleware,
    request: Request,
    r: Result<MiddlewareAction<Request>, SpiderError>,
)
    requires
        call_ensures(RefererMiddleware::process_request, (&middleware, request), r),
    ensures
        ({
            let state = middleware@;
            let values = request@.meta.values;
            let here = origin_key(request@.url);
            let key = request@.method + ":"@ + request@.url.text;
            let named = values.contains_key("referer"@) && values["referer"@] is Text
                && parsed_url(values["referer"@]->Text_0) is Ok && (!state.same_origin_only
                || origin_key(parsed_url(values["referer"@]->Text_0)->Ok_0) == here);
            let url = parsed_url(values["referer"@]->Text_0)->Ok_0;
            let by_key = state.pages.contains_key(key) && (!state.same_origin_only
                || state.pages[key].origin == here);
            let parent = values["parent_request_id"@]->Text_0;
            let by_parent = values.contains_key("parent_request_id"@)
                && values["parent_request_id"@] is Text && state.pages.contains_key(parent) && (
            !state.same_origin_only || state.pages[parent].origin == here);
            let page = if named {
                if !state.include_fragment && url.fragment is Some {
                    without_fragment(url)
                } else {
                    url.text
                }
            } else if by_key {
                state.pages[key].text
            } else {
                state.pages[parent].text
            };
            let told = (named || by_key || by_parent) && is_field_value(page);
            &&& !told ==> r is Ok && r->Ok_0 is Continue && r->Ok_0->Continue_0@ == request@
            &&& told && request@.headers.dom().finite() && request@.headers.dom().len() <= 6553
                ==> r is Ok
            &&& told && r is Err ==> is_refused(request@.headers, "referer"@, page)
            &&& told && r is Ok ==> {
                let sent = r->Ok_0->Continue_0@;
                &&& r->Ok_0 is Continue
                &&& sent.url == request@.url
                &&& sent.method == request@.method
                &&& sent.body == request@.body
                &&& sent.meta == request@.meta
                &&& sent.headers.contains_key("referer"@)
                &&& sent.headers["referer"@] == seq![encode_utf8(page)]
                &&& forall|name: Seq<char>|
                    name != "referer"@ ==> (#[trigger] sent.headers.contains_key(name))
                        == request@.headers.contains_key(name)
                &&& forall|name: Seq<char>|
                    name != "referer"@ && sent.headers.contains_key(name)
                        ==> #[trigger] sent.headers[name] == request@.headers[name]
            }
        }),
{
}

/// What is kept of a response. While fewer pages are kept than the limit says, where the
/// response came from in the end is kept for the request that it answered, under its method and
/// URL, in the place of what was there; and, while there is room or the name is there already,
/// also under the name by which children of that request know it. A fragment is left off unless
/// fragments are told. Nothing else that is kept changes, and nothing at all once the limit is
/// reached. The response goes on as it is.
pub proof fn pages_of_responses_are_kept(
    middleware: &mut RefererMiddleware,
    response: Response,
    r: Result<MiddlewareAction<Response>, SpiderError>,
)
    requires
        call_ensures(RefererMiddleware::process_response, (middleware, response), r),
    ensures
        r == Ok::<MiddlewareAction<Response>, SpiderError>(MiddlewareAction::Continue(response)),
        final(middleware)@.same_origin_only == old(middleware)@.same_origin_only,
        final(middleware)@.max_chain_length == old(middleware)@.max_chain_length,
        final(middleware)@.include_fragment == old(middleware)@.include_fragment,
        ({
            let before = old(middleware)@.pages;
            let after = final(middleware)@.pages;
            let limit = old(middleware)@.max_chain_length;
            let url = response@.url;
            let key = "GET"@ + ":"@ + response@.request_url.text;
            let child = "req_"@ + numeral(
                seahash_of(encode_utf8(response@.request_url.text)) as nat,
                16,
            );
            let text = if !old(middleware)@.include_fragment && url.fragment is Some {
                without_fragment(url)
            } else {
                url.text
            };
            let page = RefererView { text, origin: origin_key(url) };
            &&& before.dom().len() >= limit ==> after == before
            &&& before.dom().len() < limit ==> after.contains_key(key) && after[key] == page
            &&& before.dom().len() < limit && (before.dom().len() + 2 <= limit
                || before.contains_key(child)) ==> after.contains_key(child) && after[child]
                == page
            &&& forall|name: Seq<char>|
                name != key && name != child ==> (#[trigger] after.contains_key(name))
                    == before.contains_key(name)
            &&& forall|name: Seq<char>|
                name != key && name != child && before.contains_key(name)
                    ==> #[trigger] after[name] == before[name]
        }),
{
    let before = old(middleware)@;
    let key = key_of(answered(response@));
    assert(key == "GET"@ + ":"@ + response@.request_url.text);
    let once = with_key(before, response@);
    assert(once.pages.dom() =~= before.pages.dom().insert(key));
    assert(once.pages.dom().len() <= before.pages.dom().len() + 1);
}

/// A new middleware tells pages within their origin only, without fragments, and keeps a
/// thousand, of which there are none yet; each setting is kept until it is set again, and leaves
/// the others and the pages.
pub proof fn usual_referers(
    usual: RefererMiddleware,
    middleware: RefererMiddleware,
    flag: bool,
    limit: usize,
    with_origin: RefererMiddleware,
    with_limit: RefererMiddleware,
    with_fragment: RefererMiddleware,
)
    requires
        call_ensures(RefererMiddleware::new, (), usual),
        call_ensures(RefererMiddleware::same_origin_only, (middleware, flag), with_origin),
        call_ensures(RefererMiddleware::max_chain_length, (middleware, limit), with_limit),
        call_ensures(RefererMiddleware::include_fragment, (middleware, flag), with_fragment),
    ensures
        usual@.same_origin_only,
        usual@.max_chain_length == 1000,
        !usual@.include_fragment,
        forall|name: Seq<char>| !#[trigger] usual@.pages.contains_key(name),
        with_origin@.same_origin_only == flag,
        with_origin@.max_chain_length == middleware@.max_chain_length,
        with_origin@.include_fragment == middleware@.include_fragment,
        with_origin@.pages == middleware@.pages,
        with_limit@.same_origin_only == middleware@.same_origin_only,
        with_limit@.max_chain_length == limit,
        with_limit@.include_fragment == middleware@.include_fragment,
        with_limit@.pages == middleware@.pages,
        with_fragment@.same_origin_only == middleware@.same_origin_only,
        with_fragment@.max_chain_length == middleware@.max_chain_length,
        with_fragment@.include_fragment == flag,
        with_fragment@.pages == middleware@.pages,
{
}

} // verus!
