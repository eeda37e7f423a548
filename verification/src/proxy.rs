//! Proxies that requests are sent through in turn.
use vstd::prelude::*;

use crate::chance::chosen;
use crate::encoding::{lossy_text, utf8_text_lossy};
use crate::error::{SpiderError, SpiderErrorView};
use crate::files::{copy_texts, items_are_what_lines_say, items_or_error, load_items, says_something,
    FileRead, FileReadView};
use crate::meta::{MetaValue, MetaValueView, MetaView};
use crate::middleware::MiddlewareAction;
use crate::request::{is_failure, is_success, Request, RequestView, Response, ResponseView};
use crate::text::{contains, has_part, part_at, texts};

verus! {

/// How proxies take turns.
#[derive(Debug, Clone, Copy, PartialEq, Eq, Structural)]
pub enum ProxyRotationStrategy {
    /// One after the other.
    Sequential,
    /// By chance.
    Random,
    /// The same one until it fails, by an error, a status code or a text in a body.
    StickyFailover,
}

impl Default for ProxyRotationStrategy {
    fn default() -> (r: Self)
        ensures
            r == ProxyRotationStrategy::Sequential,
    {
        ProxyRotationStrategy::Sequential
    }
}

/// Where proxies come from.
#[derive(Debug, Clone, PartialEq, Eq)]
pub enum ProxySource {
    /// A list of their URLs.
    List(Vec<String>),
    /// The path of a file with their URLs, one to a line.
    File(String),
}

/// Where proxies come from, taken by the text.
pub enum ProxySourceView {
    /// A list of their URLs.
    List(Seq<Seq<char>>),
    /// The path of a file with their URLs, one to a line.
    File(Seq<char>),
}

impl View for ProxySource {
    type V = ProxySourceView;

    open spec fn view(&self) -> ProxySourceView {
        match self {
            ProxySource::List(list) => ProxySourceView::List(texts(list@)),
            ProxySource::File(path) => ProxySourceView::File(path@),
        }
    }
}

impl Default for ProxySource {
    fn default() -> (r: Self)
        ensures
            r@ == ProxySourceView::List(Seq::empty()),
    {
        let r = ProxySource::List(Vec::new());
        assert(texts(Seq::<String>::empty()) =~= Seq::empty());
        r
    }
}

/// Builds a `ProxyMiddleware`.
#[derive(Debug, Clone)]
pub struct ProxyMiddlewareBuilder {
    source: ProxySource,
    strategy: ProxyRotationStrategy,
    block_detection_texts: Vec<String>,
}

/// What a builder is set to.
#[verifier::ext_equal]
pub struct ProxySettings {
    /// Where proxies come from.
    pub source: ProxySourceView,
    /// How they take turns.
    pub strategy: ProxyRotationStrategy,
    /// The texts by which a body tells that the proxy is blocked.
    pub block_texts: Seq<Seq<char>>,
}

impl View for ProxyMiddlewareBuilder {
    type V = ProxySettings;

    closed spec fn view(&self) -> ProxySettings {
        ProxySettings {
            source: self.source@,
            strategy: self.strategy,
            block_texts: texts(self.block_detection_texts@),
        }
    }
}

/// The usual settings: no proxies, one after the other.
pub open spec fn default_settings() -> ProxySettings {
    ProxySettings {
        source: ProxySourceView::List(Seq::empty()),
        strategy: ProxyRotationStrategy::Sequential,
        block_texts: Seq::empty(),
    }
}

/// The proxies of a source, or the error where its file cannot be read.
pub open spec fn proxies_of(source: ProxySourceView, read: FileReadView) -> Result<
    Seq<Seq<char>>,
    SpiderErrorView,
> {
    match source {
        ProxySourceView::List(list) => Ok(list),
        ProxySourceView::File(path) => items_or_error(read, "Proxy file not found: "@, path),
    }
}

/// Sends requests through proxies in turn.
pub struct ProxyMiddleware {
    strategy: ProxyRotationStrategy,
    proxies: Vec<String>,
    current_index: usize,
    block_detection_texts: Option<Vec<String>>,
}

/// The proxies and whose turn it is.
#[verifier::ext_equal]
pub struct ProxyState {
    /// How the proxies take turns.
    pub strategy: ProxyRotationStrategy,
    /// The proxies.
    pub proxies: Seq<Seq<char>>,
    /// How many turns there were.
    pub turns: usize,
    /// The texts by which a body tells that the proxy is blocked.
    pub block_texts: Seq<Seq<char>>,
}

impl View for ProxyMiddleware {
    type V = ProxyState;

    closed spec fn view(&self) -> ProxyState {
        ProxyState {
            strategy: self.strategy,
            proxies: texts(self.proxies@),
            turns: self.current_index,
            block_texts: match self.block_detection_texts {
                Some(list) => texts(list@),
                None => Seq::empty(),
            },
        }
    }
}

impl Default for ProxyMiddlewareBuilder {
    fn default() -> (r: Self)
        ensures
            r@ == default_settings(),
    {
        let r = ProxyMiddlewareBuilder {
            source: ProxySource::default(),
            strategy: ProxyRotationStrategy::Sequential,
            block_detection_texts: Vec::new(),
        };
        assert(r@.block_texts =~= Seq::empty());
        r
    }
}

impl ProxyMiddlewareBuilder {
    /// Sets where proxies come from.
    pub fn source(self, source: ProxySource) -> (r: Self)
        ensures
            r@ == (ProxySettings { source: source@, ..self@ }),
    {
        ProxyMiddlewareBuilder { source, ..self }
    }

    /// Sets how proxies take turns.
    pub fn strategy(self, strategy: ProxyRotationStrategy) -> (r: Self)
        ensures
            r@ == (ProxySettings { strategy, ..self@ }),
    {
        ProxyMiddlewareBuilder { strategy, ..self }
    }

    /// Sets the texts by which a body tells that the proxy is blocked. They only count
    /// where a proxy is kept until it fails.
    pub fn with_block_detection_texts(self, block_detection_texts: Vec<String>) -> (r: Self)
        ensures
            r@ == (ProxySettings { block_texts: texts(block_detection_texts@), ..self@ }),
    {
        ProxyMiddlewareBuilder { block_detection_texts, ..self }
    }

    /// The path of the file that has to be read before the middleware can be built.
    pub fn source_path(&self) -> (r: Option<String>)
        ensures
            match self@.source {
                ProxySourceView::List(_) => r is None,
                ProxySourceView::File(path) => r matches Some(p) && p@ == path,
            },
    {
        match &self.source {
            ProxySource::List(_) => None,
            ProxySource::File(path) => Some(path.clone()),
        }
    }

    /// Builds the middleware; `read` is what came of reading the source's file. It fails
    /// where there is a file to be read and it cannot be.
    pub fn build(self, read: FileRead) -> (r: Result<ProxyMiddleware, SpiderError>)
        ensures
            match proxies_of(self@.source, read@) {
                Ok(proxies) => r matches Ok(m) && m@ == (ProxyState {
                    strategy: self@.strategy,
                    proxies,
                    turns: 0,
                    block_texts: self@.block_texts,
                }),
                Err(e) => r matches Err(f) && f@ == e,
            },
    {
        let proxies = match ProxyMiddleware::load_proxies(&self.source, &read) {
            Ok(proxies) => proxies,
            Err(e) => {
                return Err(e);
            },
        };
        let block_texts = if self.block_detection_texts.len() == 0 {
            None
        } else {
            Some(self.block_detection_texts)
        };
        assert(self.block_detection_texts@.len() == 0 ==> texts(self.block_detection_texts@)
            =~= Seq::empty());
        Ok(
            ProxyMiddleware {
                strategy: self.strategy,
                proxies,
                current_index: 0,
                block_detection_texts: block_texts,
            },
        )
    }
}

/// The proxy whose turn it is.
pub open spec fn proxy_in_turn(state: ProxyState) -> Seq<char> {
    state.proxies[state.turns as int % state.proxies.len() as int]
}

/// The state once the next proxy has its turn.
pub open spec fn next_turn(state: ProxyState) -> ProxyState {
    if state.proxies.len() == 0 {
        state
    } else {
        ProxyState {
            turns: if state.turns == usize::MAX {
                0
            } else {
                (state.turns + 1) as usize
            },
            ..state
        }
    }
}

/// A request that is to be sent through a proxy.
pub open spec fn through(request: RequestView, proxy: Seq<char>) -> RequestView {
    RequestView {
        meta: MetaView {
            values: request.meta.values.insert("proxy"@, MetaValueView::Text(proxy)),
            ..request.meta
        },
        ..request
    }
}

/// The state after a request: proxies that take turns one after the other have moved on.
pub open spec fn after_request(state: ProxyState) -> ProxyState {
    if state.strategy == ProxyRotationStrategy::Sequential {
        next_turn(state)
    } else {
        state
    }
}

/// Whether a proxy may be the one that a request is sent through.
pub open spec fn may_be_taken(state: ProxyState, proxy: Seq<char>) -> bool {
    if state.strategy == ProxyRotationStrategy::Random {
        state.proxies.contains(proxy)
    } else {
        proxy == proxy_in_turn(state)
    }
}

/// Whether a response tells that the proxy failed: by its status code, or where it
/// succeeded by a text in its body.
pub open spec fn tells_failure(state: ProxyState, response: ResponseView) -> bool {
    ||| is_failure(response.status)
    ||| is_success(response.status) && exists|i: int|
        0 <= i < state.block_texts.len() && has_part(
            lossy_text(response.body),
            #[trigger] state.block_texts[i],
        )
}

/// The state after a response: a proxy that is kept until it fails is left where it did.
pub open spec fn after_response(state: ProxyState, response: ResponseView) -> ProxyState {
    if state.strategy == ProxyRotationStrategy::StickyFailover && tells_failure(state, response) {
        next_turn(state)
    } else {
        state
    }
}

/// The state after an error: a proxy that is kept until it fails is left.
pub open spec fn after_error(state: ProxyState) -> ProxyState {
    if state.strategy == ProxyRotationStrategy::StickyFailover {
        next_turn(state)
    } else {
        state
    }
}

/// Whether a text holds any of others.
fn contains_any(body: &str, list: &Vec<String>) -> (r: bool)
    ensures
        r == exists|i: int|
            0 <= i < list@.len() && has_part(body@, #[trigger] texts(list@)[i]),
{
    let mut i: usize = 0;
    while i < list.len()
        invariant
            i <= list.len(),
            forall|j: int| 0 <= j < i ==> !has_part(body@, #[trigger] texts(list@)[j]),
        decreases list.len() - i,
    {
        if contains(body, list[i].as_str()) {
            assert(texts(list@)[i as int] == list@[i as int]@);
            return true;
        }
        i += 1;
    }
    false
}

impl ProxyMiddleware {
    /// Whether chance took a proxy when it was asked for one of the list.
    pub closed spec fn is_drawn(&self, proxy: Seq<char>) -> bool {
        exists|p: &String| #[trigger]
            call_ensures(chosen::<String>, (&self.proxies,), Some(p)) && p@ == proxy
    }

    /// A builder with the usual settings.
    pub fn builder() -> (r: ProxyMiddlewareBuilder)
        ensures
            r@ == default_settings(),
    {
        ProxyMiddlewareBuilder::default()
    }

    /// The middleware's name.
    pub fn name(&self) -> (r: &str)
        ensures
            r@ == "ProxyMiddleware"@,
    {
        "ProxyMiddleware"
    }

    /// How the proxies take turns.
    pub fn strategy(&self) -> (r: ProxyRotationStrategy)
        ensures
            r == self@.strategy,
    {
        self.strategy
    }

    /// How many proxies there are.
    pub fn pool_size(&self) -> (r: usize)
        ensures
            r == self@.proxies.len(),
    {
        self.proxies.len()
    }

    /// How many turns there were.
    pub fn current_index(&self) -> (r: usize)
        ensures
            r == self@.turns,
    {
        self.current_index
    }

    /// The texts by which a body tells that the proxy is blocked.
    pub fn block_detection_texts(&self) -> (r: Vec<String>)
        ensures
            texts(r@) == self@.block_texts,
    {
        match &self.block_detection_texts {
            Some(list) => copy_texts(list),
            None => {
                let none: Vec<String> = Vec::new();
                assert(texts(none@) =~= Seq::empty());
                none
            },
        }
    }

    /// The proxies of a source, or the error where its file cannot be read.
    pub fn load_proxies(source: &ProxySource, read: &FileRead) -> (r: Result<
        Vec<String>,
        SpiderError,
    >)
        ensures
            match proxies_of(source@, read@) {
                Ok(list) => r matches Ok(v) && texts(v@) == list,
                Err(e) => r matches Err(f) && f@ == e,
            },
    {
        match source {
            ProxySource::List(list) => Ok(copy_texts(list)),
            ProxySource::File(path) => load_items(read, "Proxy file not found: ", path.as_str()),
        }
    }

    /// The proxy that the next request is sent through; nothing where there is none.
    fn get_proxy(&mut self) -> (r: Option<String>)
        ensures
            r is None == (old(self)@.proxies.len() == 0),
            r matches Some(proxy) ==> may_be_taken(old(self)@, proxy@),
            old(self)@.strategy == ProxyRotationStrategy::Random && r is Some
                ==> old(self).is_drawn(r->0@),
            final(self)@ == after_request(old(self)@),
    {
        if self.proxies.len() == 0 {
            return None;
        }
        match self.strategy {
            ProxyRotationStrategy::Sequential => {
                let index: usize = self.current_index % self.proxies.len();
                self.current_index = self.current_index.wrapping_add(1);
                Some(self.proxies[index].clone())
            },
            ProxyRotationStrategy::Random => {
                match chosen(&self.proxies) {
                    Some(proxy) => {
                        proof {
                            let i = self.proxies@.index_of(*proxy);
                            assert(texts(self.proxies@)[i] == proxy@);
                            assert(self.is_drawn(proxy@));
                        }
                        Some(proxy.clone())
                    },
                    None => None,
                }
            },
            ProxyRotationStrategy::StickyFailover => {
                let index: usize = self.current_index % self.proxies.len();
                Some(self.proxies[index].clone())
            },
        }
    }

    /// Gives the turn to the next proxy.
    pub fn rotate_proxy(&mut self)
        ensures
            final(self)@ == next_turn(old(self)@),
    {
        if self.proxies.len() != 0 {
            self.current_index = self.current_index.wrapping_add(1);
        }
    }

    /// A request that is to be sent through a proxy.
    pub fn send_through(request: Request, proxy: &str) -> (r: Request)
        ensures
            r@ == through(request@, proxy@),
    {
        Request {
            url: request.url,
            method: request.method,
            headers: request.headers,
            body: request.body,
            meta: request.meta.with("proxy", MetaValue::Text(proxy.to_owned())),
        }
    }

    /// Sends a request through the proxy whose turn it is.
    pub fn process_request(&mut self, request: Request) -> (r: Result<
        MiddlewareAction<Request>,
        SpiderError,
    >)
        ensures
            r matches Ok(MiddlewareAction::Continue(q)) && if old(self)@.proxies.len() == 0 {
                q == request
            } else {
                exists|proxy: Seq<char>| #[trigger]
                    may_be_taken(old(self)@, proxy) && q@ == through(request@, proxy) && (
                    old(self)@.strategy == ProxyRotationStrategy::Random ==> old(self).is_drawn(
                        proxy,
                    ))
            },
            final(self)@ == after_request(old(self)@),
    {
        match self.get_proxy() {
            Some(proxy) => {
                let request = Self::send_through(request, proxy.as_str());
                Ok(MiddlewareAction::Continue(request))
            },
            None => Ok(MiddlewareAction::Continue(request)),
        }
    }

    /// Leaves a proxy that a response tells has failed.
    pub fn process_response(&mut self, response: Response) -> (r: Result<
        MiddlewareAction<Response>,
        SpiderError,
    >)
        ensures
            r matches Ok(MiddlewareAction::Continue(p)) && p == response,
            final(self)@ == after_response(old(self)@, response@),
    {
        if self.strategy != ProxyRotationStrategy::StickyFailover {
            return Ok(MiddlewareAction::Continue(response));
        }
        let mut rotate = false;
        let status: u16 = response.status;
        if 400 <= status && status < 600 {
            rotate = true;
        }
        if 200 <= status && status < 300 {
            if let Some(list) = &self.block_detection_texts {
                let body = utf8_text_lossy(&response.body);
                if contains_any(body.as_str(), list) {
                    rotate = true;
                }
            }
        }
        if rotate {
            self.rotate_proxy();
        }
        Ok(MiddlewareAction::Continue(response))
    }

    /// Leaves a proxy after an error. The error stands.
    pub fn handle_error(&mut self, error: &SpiderError) -> (r: Result<
        MiddlewareAction<Request>,
        SpiderError,
    >)
        ensures
            r matches Err(e) && e == *error,
            final(self)@ == after_error(old(self)@),
    {
        if self.strategy == ProxyRotationStrategy::StickyFailover {
            self.rotate_proxy();
        }
        Err(error.copy())
    }
}

/// The state after so many requests.
pub open spec fn after_requests(state: ProxyState, times: nat) -> ProxyState
    decreases times,
{
    if times == 0 {
        state
    } else {
        after_request(after_requests(state, (times - 1) as nat))
    }
}

proof fn turns_count_requests(state: ProxyState, times: nat)
    requires
        state.strategy == ProxyRotationStrategy::Sequential,
        state.proxies.len() > 0,
        state.turns + times <= usize::MAX,
    ensures
        after_requests(state, times) == (ProxyState {
            turns: (state.turns + times) as usize,
            ..state
        }),
    decreases times,
{
    if times > 0 {
        turns_count_requests(state, (times - 1) as nat);
    }
}

/// Proxies that take turns one after the other do so in the order of the list and begin
/// again at its end: the request that comes `times` later is sent through the proxy that
/// stands as many places further round. While the turns can be counted.
pub proof fn proxies_take_turns(state: ProxyState, times: nat, proxy: Seq<char>)
    requires
        state.strategy == ProxyRotationStrategy::Sequential,
        state.proxies.len() > 0,
        state.turns + times <= usize::MAX,
        may_be_taken(after_requests(state, times), proxy),
    ensures
        proxy == state.proxies[(state.turns + times) as int % state.proxies.len() as int],
        times == state.proxies.len() ==> proxy == proxy_in_turn(state),
{
    turns_count_requests(state, times);
    if times == state.proxies.len() {
        let n = state.proxies.len() as int;
        vstd::arithmetic::div_mod::lemma_mod_add_multiples_vanish(state.turns as int, n);
    }
}

/// Of as many requests as there are proxies, no two are sent through the same place of the
/// list.
pub proof fn every_proxy_has_its_turn(state: ProxyState, first: nat, second: nat)
    requires
        state.strategy == ProxyRotationStrategy::Sequential,
        first < second < first + state.proxies.len(),
        state.turns + second <= usize::MAX,
    ensures
        (state.turns + first) as int % state.proxies.len() as int != (state.turns + second) as int
            % state.proxies.len() as int,
{
    let n = state.proxies.len() as int;
    let a = state.turns + first;
    let b = state.turns + second;
    if a % n == b % n {
        assert(a == n * (a / n) + a % n) by (nonlinear_arith)
            requires
                n > 0,
        ;
        assert(b == n * (b / n) + b % n) by (nonlinear_arith)
            requires
                n > 0,
        ;
        let q = b / n - a / n;
        assert(b - a == n * q) by (nonlinear_arith)
            requires
                a == n * (a / n) + a % n,
                b == n * (b / n) + b % n,
                a % n == b % n,
                q == b / n - a / n,
        ;
        assert(false) by (nonlinear_arith)
            requires
                b - a == n * q,
                0 < b - a < n,
        ;
    }
}

/// A proxy that is kept until it fails is kept over requests and over responses that tell
/// of no failure; a failure gives the turn to the one after it, the first after the last.
pub proof fn proxies_are_kept_until_they_fail(state: ProxyState, response: ResponseView)
    requires
        state.strategy == ProxyRotationStrategy::StickyFailover,
        state.proxies.len() > 0,
        state.turns < usize::MAX,
    ensures
        after_request(state) == state,
        !tells_failure(state, response) ==> after_response(state, response) == state,
        tells_failure(state, response) ==> after_response(state, response) == after_error(state),
        proxy_in_turn(after_error(state)) == state.proxies[(state.turns + 1) as int
            % state.proxies.len() as int],
{
}

/// What happens while requests are sent through proxies.
pub enum ProxyEvent {
    /// A request is sent.
    Request,
    /// A response comes.
    Response(ResponseView),
    /// A request ends in an error.
    Error,
    /// The turn is given to the next proxy.
    Rotation,
}

/// The state after an event.
pub open spec fn after_event(state: ProxyState, event: ProxyEvent) -> ProxyState {
    match event {
        ProxyEvent::Request => after_request(state),
        ProxyEvent::Response(response) => after_response(state, response),
        ProxyEvent::Error => after_error(state),
        ProxyEvent::Rotation => next_turn(state),
    }
}

/// The state after events one after the other.
pub open spec fn after_events(state: ProxyState, events: Seq<ProxyEvent>) -> ProxyState
    decreases events.len(),
{
    if events.len() == 0 {
        state
    } else {
        after_event(after_events(state, events.drop_last()), events.last())
    }
}

/// Whether an event gives the turn to the next proxy.
pub open spec fn moves_on(state: ProxyState, event: ProxyEvent) -> bool {
    match event {
        ProxyEvent::Request => state.strategy == ProxyRotationStrategy::Sequential,
        ProxyEvent::Response(response) => state.strategy == ProxyRotationStrategy::StickyFailover
            && tells_failure(state, response),
        ProxyEvent::Error => state.strategy == ProxyRotationStrategy::StickyFailover,
        ProxyEvent::Rotation => true,
    }
}

/// How many of the events give the turn to the next proxy.
pub open spec fn moves(state: ProxyState, events: Seq<ProxyEvent>) -> nat
    decreases events.len(),
{
    if events.len() == 0 {
        0
    } else if moves_on(state, events.last()) {
        moves(state, events.drop_last()) + 1
    } else {
        moves(state, events.drop_last())
    }
}

/// Whatever happens, the proxies, how they take turns and the texts stay as they are, and
/// where there are proxies the turns are counted, from 0 again after the largest number; where
/// there are none nothing changes.
pub proof fn turns_are_counted(state: ProxyState, events: Seq<ProxyEvent>)
    ensures
        after_events(state, events) == (ProxyState {
            turns: after_events(state, events).turns,
            ..state
        }),
        state.proxies.len() > 0 ==> after_events(state, events).turns as int == (state.turns
            + moves(state, events)) % (usize::MAX + 1),
        state.proxies.len() == 0 ==> after_events(state, events) == state,
    decreases events.len(),
{
    let wrap = usize::MAX + 1;
    if events.len() == 0 {
        vstd::arithmetic::div_mod::lemma_small_mod(state.turns as nat, wrap as nat);
    } else {
        let front = events.drop_last();
        turns_are_counted(state, front);
        let before = after_events(state, front);
        assert(moves_on(before, events.last()) == moves_on(state, events.last()));
        if state.proxies.len() > 0 && moves_on(state, events.last()) {
            let sum = state.turns + moves(state, front);
            vstd::arithmetic::div_mod::lemma_add_mod_noop(sum, 1, wrap);
            vstd::arithmetic::div_mod::lemma_small_mod(1, wrap as nat);
            assert((sum + 1) % wrap == (before.turns + 1) % wrap);
            if before.turns == usize::MAX {
                vstd::arithmetic::div_mod::lemma_mod_self_0(wrap);
            } else {
                vstd::arithmetic::div_mod::lemma_small_mod((before.turns + 1) as nat, wrap as nat);
            }
        }
    }
}

/// Whatever happened, the proxy that a request is sent through is one of those that were
/// there at first.
pub proof fn proxies_are_always_of_the_pool(
    state: ProxyState,
    events: Seq<ProxyEvent>,
    proxy: Seq<char>,
)
    requires
        state.proxies.len() > 0,
        may_be_taken(after_events(state, events), proxy),
    ensures
        state.proxies.contains(proxy),
{
    turns_are_counted(state, events);
    let after = after_events(state, events);
    let n = state.proxies.len() as int;
    vstd::arithmetic::div_mod::lemma_mod_bound(after.turns as int, n);
    assert(state.proxies.contains(state.proxies[after.turns as int % n]));
}

/// After as many moves as there are proxies the same proxy has its turn again, whatever else
/// happened between them. While the turns can be counted.
pub proof fn whole_rounds_come_back(state: ProxyState, events: Seq<ProxyEvent>)
    requires
        state.proxies.len() > 0,
        moves(state, events) == state.proxies.len(),
        state.turns + state.proxies.len() <= usize::MAX,
    ensures
        proxy_in_turn(after_events(state, events)) == proxy_in_turn(state),
{
    turns_are_counted(state, events);
    let n = state.proxies.len() as int;
    vstd::arithmetic::div_mod::lemma_small_mod((state.turns + n) as nat, (usize::MAX + 1) as nat);
    vstd::arithmetic::div_mod::lemma_mod_add_multiples_vanish(state.turns as int, n);
}

/// A proxy that is kept until it fails is kept as long as no response tells of a failure,
/// no error comes and the turn is not given on.
pub proof fn proxies_are_kept_while_nothing_fails(state: ProxyState, events: Seq<ProxyEvent>)
    requires
        state.strategy == ProxyRotationStrategy::StickyFailover,
        forall|i: int|
            0 <= i < events.len() ==> match #[trigger] events[i] {
                ProxyEvent::Request => true,
                ProxyEvent::Response(response) => !tells_failure(state, response),
                ProxyEvent::Error => false,
                ProxyEvent::Rotation => false,
            },
    ensures
        after_events(state, events) == state,
    decreases events.len(),
{
    if events.len() > 0 {
        let front = events.drop_last();
        assert forall|i: int| 0 <= i < front.len() implies match #[trigger] front[i] {
            ProxyEvent::Request => true,
            ProxyEvent::Response(response) => !tells_failure(state, response),
            ProxyEvent::Error => false,
            ProxyEvent::Rotation => false,
        } by {
            assert(front[i] == events[i]);
        }
        proxies_are_kept_while_nothing_fails(state, front);
        assert(events[events.len() - 1] == events.last());
    }
}

/// A request goes on with nothing changed but the proxy that its metadata names, and with
/// nothing changed at all where there are no proxies. Proxies that take turns are taken in
/// the order of the list, from its front again after its end, and each request moves the turn
/// on by one; a proxy that is kept until it fails is the one in turn and the turn stays; one by
/// chance is one that chance took of the list. Nothing else of the middleware changes.
pub proof fn requests_are_sent_through_proxies(
    middleware: &mut ProxyMiddleware,
    request: Request,
    r: Result<MiddlewareAction<Request>, SpiderError>,
)
    requires
        call_ensures(ProxyMiddleware::process_request, (middleware, request), r),
    ensures
        r matches Ok(MiddlewareAction::Continue(_)),
        final(middleware)@.proxies == old(middleware)@.proxies,
        final(middleware)@.strategy == old(middleware)@.strategy,
        final(middleware)@.block_texts == old(middleware)@.block_texts,
        ({
            let before = old(middleware)@;
            let n = before.proxies.len() as int;
            let sent = r->Ok_0->Continue_0;
            if n == 0 {
                sent == request && final(middleware)@.turns == before.turns
            } else {
                &&& sent@.url == request@.url
                &&& sent@.method == request@.method
                &&& sent@.headers == request@.headers
                &&& sent@.body == request@.body
                &&& sent@.meta.retry_attempts == request@.meta.retry_attempts
                &&& forall|name: Seq<char>|
                    name != "proxy"@ ==> (#[trigger] sent@.meta.values.contains_key(name))
                        == request@.meta.values.contains_key(name)
                &&& forall|name: Seq<char>|
                    name != "proxy"@ && sent@.meta.values.contains_key(name)
                        ==> #[trigger] sent@.meta.values[name] == request@.meta.values[name]
                &&& sent@.meta.values.contains_key("proxy"@)
                &&& match before.strategy {
                    ProxyRotationStrategy::Sequential => {
                        &&& sent@.meta.values["proxy"@] == MetaValueView::Text(
                            before.proxies[before.turns as int % n],
                        )
                        &&& before.turns < usize::MAX ==> final(middleware)@.turns == before.turns
                            + 1
                        &&& before.turns == usize::MAX ==> final(middleware)@.turns == 0
                    },
                    ProxyRotationStrategy::StickyFailover => {
                        &&& sent@.meta.values["proxy"@] == MetaValueView::Text(
                            before.proxies[before.turns as int % n],
                        )
                        &&& final(middleware)@.turns == before.turns
                    },
                    ProxyRotationStrategy::Random => {
                        &&& final(middleware)@.turns == before.turns
                        &&& sent@.meta.values["proxy"@] is Text
                        &&& before.proxies.contains(sent@.meta.values["proxy"@]->Text_0)
                        &&& old(middleware).is_drawn(sent@.meta.values["proxy"@]->Text_0)
                    },
                }
            }
        }),
{
}

/// A proxy by chance comes of asking chance for one of the list, and is no other.
proof fn chance_takes_the_proxy(middleware: ProxyMiddleware, proxy: Seq<char>)
    requires
        middleware.is_drawn(proxy),
    ensures
        exists|p: &String| #[trigger]
            call_ensures(chosen::<String>, (&middleware.proxies,), Some(p)) && p@ == proxy,
{
}

/// Whether a list has a text that stands somewhere in another.
pub open spec fn stands_in(list: Seq<Seq<char>>, body: Seq<char>) -> bool {
    exists|i: int, before: Seq<char>, after: Seq<char>|
        0 <= i < list.len() && #[trigger] (before + list[i] + after) == body
}

proof fn parts_stand_in(list: Seq<Seq<char>>, body: Seq<char>)
    ensures
        stands_in(list, body) == exists|i: int|
            0 <= i < list.len() && has_part(body, #[trigger] list[i]),
{
    if exists|i: int| 0 <= i < list.len() && has_part(body, #[trigger] list[i]) {
        let i = choose|i: int| 0 <= i < list.len() && has_part(body, #[trigger] list[i]);
        let at = choose|at: int| part_at(body, list[i], at);
        let before = body.take(at);
        let after = body.skip(at + list[i].len());
        assert(before + list[i] + after =~= body) by {
            assert forall|k: int| 0 <= k < body.len() implies (before + list[i] + after)[k]
                == body[k] by {
                if at <= k < at + list[i].len() {
                    assert(body.subrange(at, at + list[i].len())[k - at] == body[k]);
                }
            }
        }
    }
    if stands_in(list, body) {
        let (i, before, after) = choose|i: int, before: Seq<char>, after: Seq<char>|
            0 <= i < list.len() && #[trigger] (before + list[i] + after) == body;
        let at = before.len() as int;
        assert(body.subrange(at, at + list[i].len()) =~= list[i]);
        assert(part_at(body, list[i], at));
        assert(has_part(body, list[i]));
    }
}

/// Where a proxy is kept until it fails, every response with a status from 400 to 599 gives the
/// turn to the next, and so does one with a status from 200 to 299 whose body holds one of the
/// texts; no other response does, and none where proxies take turns otherwise or there are
/// none. The response goes on as it is, and nothing else of the middleware changes.
pub proof fn failures_give_the_turn_on(
    middleware: &mut ProxyMiddleware,
    response: Response,
    r: Result<MiddlewareAction<Response>, SpiderError>,
)
    requires
        call_ensures(ProxyMiddleware::process_response, (middleware, response), r),
    ensures
        r == Ok::<MiddlewareAction<Response>, SpiderError>(MiddlewareAction::Continue(response)),
        final(middleware)@.proxies == old(middleware)@.proxies,
        final(middleware)@.strategy == old(middleware)@.strategy,
        final(middleware)@.block_texts == old(middleware)@.block_texts,
        ({
            let before = old(middleware)@;
            let fails = 400 <= response.status < 600 || (200 <= response.status < 300 && stands_in(
                before.block_texts,
                lossy_text(response.body@),
            ));
            if before.strategy == ProxyRotationStrategy::StickyFailover && before.proxies.len() > 0
                && fails {
                if before.turns < usize::MAX {
                    final(middleware)@.turns == before.turns + 1
                } else {
                    final(middleware)@.turns == 0
                }
            } else {
                final(middleware)@.turns == before.turns
            }
        }),
{
    parts_stand_in(old(middleware)@.block_texts, lossy_text(response.body@));
}

/// The same over states: a status from 400 to 599 moves the turn on by one, and any other
/// exactly where it is from 200 to 299 and the body holds one of the texts.
pub proof fn statuses_tell_failure(state: ProxyState, response: ResponseView)
    requires
        state.strategy == ProxyRotationStrategy::StickyFailover,
        state.proxies.len() > 0,
        state.turns < usize::MAX,
    ensures
        400 <= response.status < 600 ==> after_response(state, response).turns == state.turns + 1,
        !(400 <= response.status < 600) ==> (after_response(state, response).turns == state.turns
            + 1) == (200 <= response.status < 300 && stands_in(
            state.block_texts,
            lossy_text(response.body),
        )),
        after_response(state, response).turns == state.turns || after_response(
            state,
            response,
        ).turns == state.turns + 1,
{
    parts_stand_in(state.block_texts, lossy_text(response.body));
}

/// Any error gives the turn to the next proxy where one is kept until it fails, and to none
/// where they take turns otherwise; the error stands.
pub proof fn errors_give_the_turn_on(
    middleware: &mut ProxyMiddleware,
    error: SpiderError,
    r: Result<MiddlewareAction<Request>, SpiderError>,
)
    requires
        call_ensures(ProxyMiddleware::handle_error, (middleware, &error), r),
    ensures
        r == Err::<MiddlewareAction<Request>, SpiderError>(error),
        final(middleware)@.proxies == old(middleware)@.proxies,
        final(middleware)@.strategy == old(middleware)@.strategy,
        final(middleware)@.block_texts == old(middleware)@.block_texts,
        ({
            let before = old(middleware)@;
            if before.strategy == ProxyRotationStrategy::StickyFailover && before.proxies.len()
                > 0 {
                if before.turns < usize::MAX {
                    final(middleware)@.turns == before.turns + 1
                } else {
                    final(middleware)@.turns == 0
                }
            } else {
                final(middleware)@.turns == before.turns
            }
        }),
{
}

/// Giving the turn on moves it by one place of the list, whatever the strategy, and changes
/// nothing else; where there are no proxies it changes nothing.
pub proof fn rotation_moves_by_one(middleware: &mut ProxyMiddleware)
    requires
        call_ensures(ProxyMiddleware::rotate_proxy, (middleware,), ()),
    ensures
        final(middleware)@.proxies == old(middleware)@.proxies,
        final(middleware)@.strategy == old(middleware)@.strategy,
        final(middleware)@.block_texts == old(middleware)@.block_texts,
        old(middleware)@.proxies.len() == 0 ==> final(middleware)@.turns
            == old(middleware)@.turns,
        old(middleware)@.proxies.len() > 0 && old(middleware)@.turns < usize::MAX
            ==> final(middleware)@.turns == old(middleware)@.turns + 1,
{
}

/// A middleware has the proxies of its list, or the lines of its file that say something, each
/// as it stands and in their order; it begins at the front, with the strategy and the texts
/// that were set. A file that is not there or cannot be opened is an error.
pub proof fn sources_give_their_proxies(
    builder: ProxyMiddlewareBuilder,
    read: FileRead,
    r: Result<ProxyMiddleware, SpiderError>,
)
    requires
        call_ensures(ProxyMiddlewareBuilder::build, (builder, read), r),
    ensures
        match builder@.source {
            ProxySourceView::List(list) => r is Ok && r->Ok_0@.proxies == list,
            ProxySourceView::File(path) => match read {
                FileRead::Missing => r matches Err(SpiderError::IoError(e)) && e@
                    == "Proxy file not found: "@ + path,
                FileRead::Unreadable(words) => r matches Err(SpiderError::IoError(e)) && e@
                    == words@,
                FileRead::Lines(lines) => r is Ok && r->Ok_0@.proxies == texts(lines@).filter(
                    |line: Seq<char>| says_something(line),
                ),
            },
        },
        r matches Ok(m) ==> m@.turns == 0 && m@.strategy == builder@.strategy && m@.block_texts
            == builder@.block_texts,
{
    if let FileRead::Lines(lines) = read {
        items_are_what_lines_say(texts(lines@));
    }
}

/// A setting of a builder is kept until it is set again, and the others stay as they are.
pub proof fn proxy_settings_are_kept(
    builder: ProxyMiddlewareBuilder,
    source: ProxySource,
    strategy: ProxyRotationStrategy,
    block_texts: Vec<String>,
    with_source: ProxyMiddlewareBuilder,
    with_strategy: ProxyMiddlewareBuilder,
    with_texts: ProxyMiddlewareBuilder,
    usual: ProxyMiddlewareBuilder,
)
    requires
        call_ensures(ProxyMiddlewareBuilder::source, (builder, source), with_source),
        call_ensures(ProxyMiddlewareBuilder::strategy, (builder, strategy), with_strategy),
        call_ensures(
            ProxyMiddlewareBuilder::with_block_detection_texts,
            (builder, block_texts),
            with_texts,
        ),
        call_ensures(ProxyMiddleware::builder, (), usual),
    ensures
        with_source@.source == source@,
        with_source@.strategy == builder@.strategy,
        with_source@.block_texts == builder@.block_texts,
        with_strategy@.source == builder@.source,
        with_strategy@.strategy == strategy,
        with_strategy@.block_texts == builder@.block_texts,
        with_texts@.source == builder@.source,
        with_texts@.strategy == builder@.strategy,
        with_texts@.block_texts == texts(block_texts@),
        usual@.source == ProxySourceView::List(Seq::empty()),
        usual@.strategy == ProxyRotationStrategy::Sequential,
        usual@.block_texts.len() == 0,
{
}

/// What is told of a source is all that it holds.
pub proof fn proxy_sources_are_told(source: ProxySource)
    ensures
        source matches ProxySource::List(list) ==> source@ is List && source@->List_0.len()
            == list@.len() && forall|i: int|
            0 <= i < list@.len() ==> #[trigger] source@->List_0[i] == list@[i]@,
        source matches ProxySource::File(path) ==> source@ == ProxySourceView::File(path@),
{
}

} // verus!
