//! robots.txt: which requests a site asks not to be sent.
use vstd::prelude::*;
use vstd::utf8::{decode_utf8, valid_utf8};

use crate::cache::{find_text, longest_life, new_texts, put_text, text_limits, texts_put};
use crate::delay::{Delay, NANOS_PER_SEC};
use crate::encoding::{ascii_text, utf8_text};
use crate::error::{SpiderError, SpiderErrorView};
use crate::headers::{header_text, is_plain, user_agent_is_a_name};
use crate::middleware::MiddlewareAction;
use crate::request::{is_success, Request, RequestView};
use crate::text::{chars_of, joined, same};
use crate::weburl::maybe_text;

verus! {

/// Whether the rules of a robots.txt let an agent ask for a URL, as
/// `RobotsMatcher::one_agent_allowed_by_robots` reads them.
pub uninterp spec fn robots_allow(body: Seq<char>, agent: Seq<char>, url: Seq<char>) -> bool;

/// How many bytes a character takes in UTF-8.
pub open spec fn width(c: char) -> nat {
    if (c as u32) < 0x80 {
        1
    } else if (c as u32) < 0x800 {
        2
    } else if (c as u32) < 0x10000 {
        3
    } else {
        4
    }
}

/// The number of bytes of a line after which the rest of the line is passed over.
pub const LINE_LIMIT: usize = 16_663;

/// How many bytes a text takes in UTF-8.
pub open spec fn byte_len(s: Seq<char>) -> nat
    decreases s.len(),
{
    if s.len() == 0 {
        0
    } else {
        byte_len(s.drop_last()) + width(s.last())
    }
}

/// Whether a character of a text begins after so many bytes, or the text ends there.
pub open spec fn is_edge(s: Seq<char>, n: nat) -> bool {
    exists|k: int| 0 <= k <= s.len() && #[trigger] byte_len(s.take(k)) == n
}

/// How far the matcher has come in a text.
#[verifier::ext_equal]
pub struct Reading {
    /// How many characters of the mark it has passed over that may stand at the front, 3
    /// once another character came.
    pub mark: nat,
    /// The byte at which it takes the line to begin.
    pub start: nat,
    /// The byte at which it takes the line to end.
    pub end: nat,
    /// How many characters at the end of a long line it has passed over.
    pub skipped: nat,
    /// Whether the last line ended in a carriage return.
    pub after_return: bool,
}

/// The characters whose numbers are the bytes of a byte order mark.
pub open spec fn mark_char(i: nat) -> char {
    if i == 0 {
        '\u{ef}'
    } else if i == 1 {
        '\u{bb}'
    } else {
        '\u{bf}'
    }
}

/// How far the matcher has come after one more character. Of a character that it passes
/// over it counts one byte only.
pub open spec fn one_further(at: Reading, c: char) -> Reading {
    if at.mark < 3 && c == mark_char(at.mark) {
        Reading {
            mark: at.mark + 1,
            start: at.start + width(c),
            end: at.end + width(c),
            ..at
        }
    } else if c == '\n' || c == '\r' {
        Reading {
            mark: 3,
            start: at.end + at.skipped + width(c),
            end: at.end + at.skipped + width(c),
            skipped: 0,
            after_return: c == '\r',
        }
    } else if at.end - at.start < LINE_LIMIT {
        Reading { mark: 3, end: at.end + width(c), ..at }
    } else {
        Reading { mark: 3, skipped: at.skipped + 1, ..at }
    }
}

/// How far the matcher has come after a text.
pub open spec fn reading(s: Seq<char>) -> Reading
    decreases s.len(),
{
    if s.len() == 0 {
        Reading { mark: 0, start: 0, end: 0, skipped: 0, after_return: false }
    } else {
        one_further(reading(s.drop_last()), s.last())
    }
}

/// Whether the matcher cuts a line out of the text before a character.
pub open spec fn cuts(at: Reading, c: char) -> bool {
    (c == '\n' || c == '\r') && !(at.end == at.start && at.after_return && c == '\n')
}

/// Whether a line that the matcher cuts out of a text does not begin or end within a
/// character.
pub open spec fn cuts_well(body: Seq<char>, at: Reading) -> bool {
    is_edge(body, at.start) && is_edge(body, at.end)
}

/// Whether a robots.txt can be read: the matcher cuts no line out of it that begins or ends
/// within a character.
pub open spec fn is_readable(body: Seq<char>) -> bool {
    &&& body.len() < u32::MAX
    &&& forall|i: int|
        0 <= i < body.len() && cuts(reading(#[trigger] body.take(i)), body[i]) ==> cuts_well(
            body,
            reading(body.take(i)),
        )
    &&& cuts_well(body, reading(body))
}

/// `DefaultMatcher::one_agent_allowed_by_robots`: whether the rules let the agent ask for
/// the URL. Where there are no rules they do. A text that cannot be read is left out: the
/// matcher panics on it.
#[verifier::external_body]
fn ask_rules(body: &str, agent: &str, url: &str) -> (r: bool)
    requires
        is_readable(body@),
    ensures
        r == robots_allow(body@, agent@, url@),
        body@.len() == 0 ==> r,
{
    robotstxt::DefaultMatcher::default().one_agent_allowed_by_robots(body, agent, url)
}

/// How many bytes a character takes in UTF-8.
fn wide(c: char) -> (r: usize)
    ensures
        r == width(c),
        1 <= r <= 4,
{
    let number: u32 = c as u32;
    if number < 0x80 {
        1
    } else if number < 0x800 {
        2
    } else if number < 0x10000 {
        3
    } else {
        4
    }
}

proof fn byte_len_grows(s: Seq<char>, k: int, i: int)
    requires
        0 <= k <= i <= s.len(),
    ensures
        byte_len(s.take(k)) + (i - k) <= byte_len(s.take(i)),
    decreases i - k,
{
    if k < i {
        byte_len_grows(s, k, i - 1);
        assert(s.take(i).drop_last() =~= s.take(i - 1));
    }
}

proof fn reading_is_behind(s: Seq<char>)
    ensures
        reading(s).start <= reading(s).end,
        reading(s).end + reading(s).skipped <= byte_len(s),
        reading(s).mark <= 3,
    decreases s.len(),
{
    if s.len() > 0 {
        reading_is_behind(s.drop_last());
    }
}

/// Whether a character of a text begins after so many bytes, for every number of bytes up to
/// that of the whole text.
fn edges_of(body: &Vec<char>) -> (r: Vec<bool>)
    ensures
        r@.len() == byte_len(body@) + 1,
        forall|n: int| 0 <= n < r@.len() ==> #[trigger] r@[n] == is_edge(body@, n as nat),
{
    let mut r: Vec<bool> = Vec::new();
    let mut i: usize = 0;
    while i < body.len()
        invariant
            i <= body.len(),
            r@.len() == byte_len(body@.take(i as int)),
            forall|n: int|
                0 <= n < r@.len() ==> #[trigger] r@[n] == is_edge_before(body@, n as nat, i as int),
        decreases body.len() - i,
    {
        let ghost before = r@;
        let w: usize = wide(body[i]);
        assert(body@.take(i + 1).drop_last() =~= body@.take(i as int));
        r.push(true);
        let mut k: usize = 1;
        while k < w
            invariant
                1 <= k <= w <= 4,
                r@.len() == before.len() + k,
                r@.take(before.len() as int) == before,
                r@[before.len() as int],
                forall|n: int| before.len() < n < r@.len() ==> !#[trigger] r@[n],
            decreases w - k,
        {
            let ghost last = r@;
            r.push(false);
            assert(r@.take(before.len() as int) =~= last.take(before.len() as int));
            k += 1;
        }
        assert forall|n: int| 0 <= n < r@.len() implies #[trigger] r@[n] == is_edge_before(
            body@,
            n as nat,
            i + 1,
        ) by {
            if n < before.len() {
                assert(r@[n] == r@.take(before.len() as int)[n]);
                assert(r@[n] == is_edge_before(body@, n as nat, i as int));
                if is_edge_before(body@, n as nat, i as int) {
                    let k = choose|k: int|
                        0 <= k < i && #[trigger] byte_len(body@.take(k)) == n as nat;
                    assert(byte_len(body@.take(k)) == n as nat);
                }
            } else if n == before.len() {
                assert(byte_len(body@.take(i as int)) == n as nat);
            } else {
                assert forall|k: int| 0 <= k < i + 1 implies #[trigger] byte_len(body@.take(k))
                    != n as nat by {
                    byte_len_grows(body@, k, i as int);
                }
            }
        }
        i += 1;
    }
    let ghost before = r@;
    r.push(true);
    proof {
        let len = body@.len() as int;
        assert(body@.take(len) =~= body@);
        assert forall|n: int| 0 <= n < r@.len() implies #[trigger] r@[n] == is_edge(
            body@,
            n as nat,
        ) by {
            if n < before.len() {
                assert(r@[n] == before[n]);
                if is_edge_before(body@, n as nat, len) {
                    let k = choose|k: int|
                        0 <= k < len && #[trigger] byte_len(body@.take(k)) == n as nat;
                    assert(byte_len(body@.take(k)) == n as nat);
                } else {
                    assert forall|k: int| 0 <= k <= len implies #[trigger] byte_len(body@.take(k))
                        != n as nat by {}
                }
            } else {
                assert(byte_len(body@.take(len)) == n as nat);
            }
        }
    }
    r
}

/// Whether one of the first characters of a text begins after so many bytes.
spec fn is_edge_before(s: Seq<char>, n: nat, i: int) -> bool {
    exists|k: int| 0 <= k < i && #[trigger] byte_len(s.take(k)) == n
}

/// Whether a robots.txt can be read.
pub fn readable(body: &str) -> (r: bool)
    ensures
        r == is_readable(body@),
{
    let cs = chars_of(body);
    if cs.len() >= u32::MAX as usize {
        return false;
    }
    let edges = edges_of(&cs);
    let mut mark: usize = 0;
    let mut start: usize = 0;
    let mut end: usize = 0;
    let mut skipped: usize = 0;
    let mut after_return = false;
    let mut i: usize = 0;
    assert(body@.take(0) =~= Seq::empty());
    while i < cs.len()
        invariant
            i <= cs.len(),
            cs@ == body@,
            edges.len() == byte_len(body@) + 1,
            forall|n: int| 0 <= n < edges@.len() ==> #[trigger] edges@[n] == is_edge(body@, n as nat),
            reading(body@.take(i as int)) == (Reading {
                mark: mark as nat,
                start: start as nat,
                end: end as nat,
                skipped: skipped as nat,
                after_return,
            }),
            forall|j: int|
                0 <= j < i && cuts(reading(#[trigger] body@.take(j)), body@[j]) ==> cuts_well(
                    body@,
                    reading(body@.take(j)),
                ),
        decreases cs.len() - i,
    {
        let c = cs[i];
        let w: usize = wide(c);
        proof {
            reading_is_behind(body@.take(i as int));
            assert(body@.take(i + 1).drop_last() =~= body@.take(i as int));
            assert(body@.take(body@.len() as int) =~= body@);
            byte_len_grows(body@, i as int, body@.len() as int);
            byte_len_grows(body@, i + 1, body@.len() as int);
        }
        let line_ends = c == '\n' || c == '\r';
        if line_ends && !(end == start && after_return && c == '\n') {
            if !edges[start] || !edges[end] {
                assert(cuts(reading(body@.take(i as int)), body@[i as int]));
                return false;
            }
        }
        if (mark == 0 && c == '\u{ef}') || (mark == 1 && c == '\u{bb}') || (mark == 2 && c
            == '\u{bf}') {
            mark += 1;
            start += w;
            end += w;
        } else {
            mark = 3;
            if line_ends {
                end = end + skipped + w;
                start = end;
                skipped = 0;
                after_return = c == '\r';
            } else if end - start < LINE_LIMIT {
                end += w;
            } else {
                skipped += 1;
            }
        }
        i += 1;
    }
    proof {
        assert(body@.take(i as int) =~= body@);
        reading_is_behind(body@);
    }
    edges[start] && edges[end]
}

/// What comes next for a request.
#[derive(Debug)]
pub enum RobotsStep {
    /// The URL has no site that could have rules: the request goes on.
    Pass,
    /// The site's rules are known.
    Known(String),
    /// The site's rules have to be fetched.
    Fetch {
        /// The site.
        origin: String,
        /// Where the rules are.
        url: String,
        /// How long to wait for them.
        timeout: Delay,
    },
}

/// What comes of a request.
#[derive(Debug)]
pub enum RobotsOutcome {
    /// The request goes on, or the error.
    Decided(Result<MiddlewareAction<Request>, SpiderError>),
    /// The site's rules cannot be read.
    Unreadable(Request),
    /// The site's rules have to be fetched first.
    Fetch {
        /// The request.
        request: Request,
        /// The site.
        origin: String,
        /// Where the rules are.
        url: String,
        /// How long to wait for them.
        timeout: Delay,
    },
}

/// Keeps requests from being sent that a site's robots.txt forbids.
#[derive(Debug)]
pub struct RobotsTxtMiddleware {
    cache_ttl: Delay,
    cache_capacity: u64,
    request_timeout: Delay,
    cache: moka::sync::Cache<String, String>,
}

/// What the middleware is set to and the rules that it was told.
#[verifier::ext_equal]
pub struct RobotsState {
    /// How long rules are kept, in nanoseconds.
    pub cache_ttl: nat,
    /// For how many sites rules are kept.
    pub cache_capacity: nat,
    /// How long to wait for rules, in nanoseconds.
    pub request_timeout: nat,
    /// The rules that were told last for each site.
    pub told: Map<Seq<char>, Seq<char>>,
}

impl View for RobotsTxtMiddleware {
    type V = RobotsState;

    closed spec fn view(&self) -> RobotsState {
        RobotsState {
            cache_ttl: self.cache_ttl@,
            cache_capacity: self.cache_capacity as nat,
            request_timeout: self.request_timeout@,
            told: texts_put(self.cache),
        }
    }
}

/// The settings of a new middleware: rules are kept for a day and for ten thousand sites,
/// and waited for five seconds.
pub open spec fn new_state() -> RobotsState {
    RobotsState {
        cache_ttl: (86_400 * NANOS_PER_SEC) as nat,
        cache_capacity: 10_000,
        request_timeout: (5 * NANOS_PER_SEC) as nat,
        told: Map::empty(),
    }
}

/// The rules that a site gave: its text where it answered with success and UTF-8, else
/// none. Nothing stands for a fetch that failed.
pub open spec fn rules_from(reply: Option<(u16, Seq<u8>)>) -> Seq<char> {
    match reply {
        Some((status, body)) => if is_success(status) && valid_utf8(body) {
            decode_utf8(body)
        } else {
            Seq::empty()
        },
        None => Seq::empty(),
    }
}

/// A reply to a fetch, taken by its bytes.
pub open spec fn reply_view(reply: Option<(u16, Vec<u8>)>) -> Option<(u16, Seq<u8>)> {
    match reply {
        Some((status, body)) => Some((status, body@)),
        None => None,
    }
}

/// What a site's rules say to a request: the request, or the error. A request that does
/// not say who asks is forbidden.
pub open spec fn judgement(request: RequestView, body: Seq<char>) -> Result<
    RequestView,
    SpiderErrorView,
> {
    if !request.headers.contains_key("user-agent"@) {
        Err(SpiderErrorView::BlockedByRobotsTxt)
    } else {
        let agent = request.headers["user-agent"@][0];
        if !is_plain(agent) {
            Err(SpiderErrorView::HeaderValueError("failed to convert header to a str"@))
        } else if robots_allow(body, ascii_text(agent), request.url.text) {
            Ok(request)
        } else {
            Err(SpiderErrorView::BlockedByRobotsTxt)
        }
    }
}

/// Whether a request says who asks, in plain text.
pub open spec fn names_agent(request: RequestView) -> bool {
    request.headers.contains_key("user-agent"@) && is_plain(request.headers["user-agent"@][0])
}

/// Whether an answer to a request is what a site's rules say.
pub open spec fn is_judged(
    r: Result<MiddlewareAction<Request>, SpiderError>,
    request: Request,
    body: Seq<char>,
) -> bool {
    match judgement(request@, body) {
        Ok(_) => r matches Ok(MiddlewareAction::Continue(q)) && q == request,
        Err(e) => r matches Err(f) && f@ == e,
    }
}

/// Whether what comes of a request is right where a site's rules are known. Only where it
/// says who asks are they read.
pub open spec fn is_right_by_rules(
    outcome: RobotsOutcome,
    request: Request,
    body: Seq<char>,
) -> bool {
    if names_agent(request@) && !is_readable(body) {
        outcome == RobotsOutcome::Unreadable(request)
    } else {
        outcome matches RobotsOutcome::Decided(r) && is_judged(r, request, body)
    }
}

/// Whether what comes of a request is right where the cache gave an answer: a URL without
/// a site goes on, rules that are known are asked, and others are to be fetched.
pub open spec fn is_right_outcome(
    state: RobotsState,
    request: Request,
    cached: Option<Seq<char>>,
    outcome: RobotsOutcome,
) -> bool {
    if request@.url.origin == "null"@ {
        outcome matches RobotsOutcome::Decided(Ok(MiddlewareAction::Continue(q))) && q == request
    } else {
        match cached {
            Some(body) => is_right_by_rules(outcome, request, body),
            None => outcome matches RobotsOutcome::Fetch { request: q, origin, url, timeout } && q
                == request && origin@ == request@.url.origin && url@ == request@.url.origin
                + "/robots.txt"@ && timeout@ == state.request_timeout,
        }
    }
}

/// Whether a cache can answer so for a site: with the rules that were told last, or not at
/// all.
pub open spec fn can_answer(
    state: RobotsState,
    origin: Seq<char>,
    cached: Option<Seq<char>>,
) -> bool {
    cached is Some ==> state.told.contains_key(origin) && cached->0 == state.told[origin]
}

/// Whether a step is the right one for a request where the cache gave an answer.
pub open spec fn right_step(
    state: RobotsState,
    request: RequestView,
    cached: Option<Seq<char>>,
    step: RobotsStep,
) -> bool {
    if request.url.origin == "null"@ {
        step is Pass
    } else {
        match cached {
            Some(body) => step matches RobotsStep::Known(b) && b@ == body,
            None => step matches RobotsStep::Fetch { origin, url, timeout } && origin@
                == request.url.origin && url@ == request.url.origin + "/robots.txt"@ && timeout@
                == state.request_timeout,
        }
    }
}

impl Default for RobotsTxtMiddleware {
    fn default() -> (r: Self)
        ensures
            r@ == new_state(),
    {
        let cache_ttl = Delay::from_secs(86_400);
        let cache_capacity: u64 = 10_000;
        let cache = new_texts(cache_ttl, cache_capacity);
        RobotsTxtMiddleware {
            cache_ttl,
            cache_capacity,
            request_timeout: Delay::from_secs(5),
            cache,
        }
    }
}

impl RobotsTxtMiddleware {
    #[verifier::type_invariant]
    spec fn well_formed(self) -> bool {
        &&& self.cache_ttl@ <= longest_life()
        &&& text_limits(self.cache) == (self.cache_ttl@, self.cache_capacity as nat)
    }

    /// A middleware that keeps rules for a day and for ten thousand sites, and waits five
    /// seconds for them.
    pub fn new() -> (r: Self)
        ensures
            r@ == new_state(),
    {
        Self::default()
    }

    /// Sets how long rules are kept. Rules told before are forgotten.
    pub fn cache_ttl(self, cache_ttl: Delay) -> (r: Self)
        requires
            cache_ttl@ <= longest_life(),
        ensures
            r@ == (RobotsState { cache_ttl: cache_ttl@, told: Map::empty(), ..self@ }),
    {
        Self::rebuild_cache(cache_ttl, self.cache_capacity, self.request_timeout)
    }

    /// Sets for how many sites rules are kept. Rules told before are forgotten.
    pub fn cache_capacity(self, cache_capacity: u64) -> (r: Self)
        ensures
            r@ == (RobotsState {
                cache_capacity: cache_capacity as nat,
                told: Map::empty(),
                ..self@
            }),
    {
        proof {
            use_type_invariant(&self);
        }
        Self::rebuild_cache(self.cache_ttl, cache_capacity, self.request_timeout)
    }

    /// Sets how long to wait for rules.
    pub fn request_timeout(self, request_timeout: Delay) -> (r: Self)
        ensures
            r@ == (RobotsState { request_timeout: request_timeout@, ..self@ }),
    {
        proof {
            use_type_invariant(&self);
        }
        RobotsTxtMiddleware { request_timeout, ..self }
    }

    /// A middleware with an empty cache.
    fn rebuild_cache(cache_ttl: Delay, cache_capacity: u64, request_timeout: Delay) -> (r: Self)
        requires
            cache_ttl@ <= longest_life(),
        ensures
            r@ == (RobotsState {
                cache_ttl: cache_ttl@,
                cache_capacity: cache_capacity as nat,
                request_timeout: request_timeout@,
                told: Map::empty(),
            }),
    {
        let cache = new_texts(cache_ttl, cache_capacity);
        RobotsTxtMiddleware { cache_ttl, cache_capacity, request_timeout, cache }
    }

    /// The middleware's name.
    pub fn name(&self) -> (r: &str)
        ensures
            r@ == "RobotsTxtMiddleware"@,
    {
        "RobotsTxtMiddleware"
    }

    /// What comes next for a request, where the cache gave an answer.
    pub fn step_for(&self, request: &Request, cached: Option<String>) -> (r: RobotsStep)
        ensures
            right_step(
                self@,
                request@,
                match cached {
                    Some(body) => Some(body@),
                    None => None,
                },
                r,
            ),
    {
        let origin = request.url.origin();
        if same(origin, "null") {
            return RobotsStep::Pass;
        }
        match cached {
            Some(body) => RobotsStep::Known(body),
            None => RobotsStep::Fetch {
                origin: origin.to_owned(),
                url: joined(origin, "/robots.txt"),
                timeout: self.request_timeout,
            },
        }
    }

    /// Whether the cache gave an answer when it was asked for a site.
    pub closed spec fn is_answer(&self, origin: Seq<char>, cached: Option<Seq<char>>) -> bool {
        exists|name: &str, r: Option<String>| #[trigger]
            call_ensures(find_text, (&self.cache, name), r) && name@ == origin && maybe_text(r)
                == cached
    }

    /// What comes next for a request: rules that are known are those told last.
    pub fn next_step(&self, request: &Request) -> (r: RobotsStep)
        ensures
            exists|cached: Option<Seq<char>>| #[trigger]
                can_answer(self@, request@.url.origin, cached) && self.is_answer(
                    request@.url.origin,
                    cached,
                ) && right_step(
                    self@,
                    request@,
                    cached,
                    r,
                ),
    {
        let cached = find_text(&self.cache, request.url.origin());
        let ghost answer: Option<Seq<char>> = match cached {
            Some(ref body) => Some(body@),
            None => None,
        };
        assert(self.is_answer(request@.url.origin, answer));
        let r = self.step_for(request, cached);
        assert(can_answer(self@, request@.url.origin, answer));
        r
    }

    /// The rules that a site gave: nothing stands for a fetch that failed.
    pub fn fetch_robots_content(reply: Option<(u16, Vec<u8>)>) -> (r: String)
        ensures
            r@ == rules_from(reply_view(reply)),
    {
        match reply {
            Some((status, body)) => {
                if 200 <= status && status < 300 {
                    match utf8_text(body) {
                        Some(text) => text,
                        None => String::new(),
                    }
                } else {
                    String::new()
                }
            },
            None => String::new(),
        }
    }

    /// Keeps the rules of a site.
    pub fn remember(self, origin: &str, body: &str) -> (r: Self)
        ensures
            r@ == (RobotsState { told: self@.told.insert(origin@, body@), ..self@ }),
    {
        proof {
            use_type_invariant(&self);
        }
        let cache_ttl = self.cache_ttl;
        let cache_capacity: u64 = self.cache_capacity;
        let request_timeout = self.request_timeout;
        let mut cache = self.cache;
        put_text(&mut cache, origin, body);
        RobotsTxtMiddleware { cache_ttl, cache_capacity, request_timeout, cache }
    }

    /// Lets a request go on where a site's rules allow it. They must be ones that can be read
    /// where the request says who asks.
    pub fn judge(request: Request, body: &str) -> (r: Result<
        MiddlewareAction<Request>,
        SpiderError,
    >)
        requires
            names_agent(request@) ==> is_readable(body@),
        ensures
            is_judged(r, request, body@),
            names_agent(request@) && body@.len() == 0 ==> r is Ok,
    {
        proof {
            user_agent_is_a_name();
        }
        match header_text(&request.headers, "user-agent") {
            None => Err(SpiderError::BlockedByRobotsTxt),
            Some(None) => Err(
                SpiderError::HeaderValueError("failed to convert header to a str".to_owned()),
            ),
            Some(Some(agent)) => {
                if ask_rules(body, agent.as_str(), request.url.as_str()) {
                    Ok(MiddlewareAction::Continue(request))
                } else {
                    Err(SpiderError::BlockedByRobotsTxt)
                }
            },
        }
    }

    /// Asks a site's rules, where they have to be read and can be.
    fn ask(request: Request, body: &str) -> (r: RobotsOutcome)
        ensures
            is_right_by_rules(r, request, body@),
    {
        proof {
            user_agent_is_a_name();
        }
        if let Some(Some(_)) = header_text(&request.headers, "user-agent") {
            if !readable(body) {
                return RobotsOutcome::Unreadable(request);
            }
        }
        RobotsOutcome::Decided(Self::judge(request, body))
    }

    /// What comes of a request before anything was fetched for it.
    pub fn process_request(&self, request: Request) -> (r: RobotsOutcome)
        ensures
            exists|cached: Option<Seq<char>>| #[trigger]
                can_answer(self@, request@.url.origin, cached) && self.is_answer(
                    request@.url.origin,
                    cached,
                ) && is_right_outcome(
                    self@,
                    request,
                    cached,
                    r,
                ),
    {
        match self.next_step(&request) {
            RobotsStep::Pass => RobotsOutcome::Decided(Ok(MiddlewareAction::Continue(request))),
            RobotsStep::Known(body) => Self::ask(request, body.as_str()),
            RobotsStep::Fetch { origin, url, timeout } => RobotsOutcome::Fetch {
                request,
                origin,
                url,
                timeout,
            },
        }
    }

    /// What comes of a request once the site has answered, or the fetch has failed: the
    /// rules are kept and asked.
    pub fn process_reply(
        self,
        request: Request,
        origin: &str,
        reply: Option<(u16, Vec<u8>)>,
    ) -> (r: (Self, RobotsOutcome))
        ensures
            r.0@ == (RobotsState {
                told: self@.told.insert(origin@, rules_from(reply_view(reply))),
                ..self@
            }),
            is_right_by_rules(r.1, request, rules_from(reply_view(reply))),
    {
        let body = Self::fetch_robots_content(reply);
        let rules = self.remember(origin, body.as_str());
        (rules, Self::ask(request, body.as_str()))
    }
}

/// A fetch that failed, or that a site did not answer with success and UTF-8, gives rules
/// that hold nothing and can be read.
pub proof fn no_rules_can_be_read(reply: Option<(u16, Seq<u8>)>)
    requires
        reply matches Some((status, body)) ==> !is_success(status) || !valid_utf8(body),
    ensures
        rules_from(reply).len() == 0,
        is_readable(rules_from(reply)),
{
    let body = rules_from(reply);
    assert(body.take(0) =~= body);
    assert(byte_len(body.take(0)) == 0);
}

/// Rules that were told last for a site are those that are asked, and nothing is fetched,
/// while the cache knows them; they are fetched again once it does not.
pub proof fn told_rules_are_asked(
    state: RobotsState,
    request: Request,
    body: Seq<char>,
    cached: Option<Seq<char>>,
    outcome: RobotsOutcome,
)
    requires
        request@.url.origin != "null"@,
        can_answer(
            RobotsState { told: state.told.insert(request@.url.origin, body), ..state },
            request@.url.origin,
            cached,
        ),
        is_right_outcome(
            RobotsState { told: state.told.insert(request@.url.origin, body), ..state },
            request,
            cached,
            outcome,
        ),
    ensures
        cached is Some ==> is_right_by_rules(outcome, request, body),
        outcome is Fetch == cached is None,
{
}

/// What the cache is taken to have answered is what came of asking it for the site.
proof fn answers_come_from_the_cache(
    middleware: RobotsTxtMiddleware,
    origin: Seq<char>,
    cached: Option<Seq<char>>,
)
    requires
        middleware.is_answer(origin, cached),
    ensures
        exists|name: &str, r: Option<String>| #[trigger]
            call_ensures(find_text, (&middleware.cache, name), r) && name@ == origin && maybe_text(
                r,
            ) == cached,
{
}

/// A request that does not say who asks is forbidden, whatever the rules are, and one that says
/// it in bytes that are not all printable ASCII or tabs is an error; any other is let through,
/// as it is, exactly where the rules let who asks ask for its URL.
pub proof fn rules_decide(
    request: Request,
    body: &str,
    r: Result<MiddlewareAction<Request>, SpiderError>,
)
    requires
        call_ensures(RobotsTxtMiddleware::judge, (request, body), r),
    ensures
        ({
            let fields = request@.headers;
            let agent = fields["user-agent"@][0];
            let plain = forall|i: int|
                0 <= i < agent.len() ==> 32 <= #[trigger] agent[i] < 127 || agent[i] == 9;
            let allowed = robots_allow(body@, ascii_text(agent), request@.url.text);
            if !fields.contains_key("user-agent"@) {
                r == Err::<MiddlewareAction<Request>, SpiderError>(SpiderError::BlockedByRobotsTxt)
            } else if !plain {
                r matches Err(SpiderError::HeaderValueError(e)) && e@
                    == "failed to convert header to a str"@
            } else if allowed {
                r == Ok::<MiddlewareAction<Request>, SpiderError>(
                    MiddlewareAction::Continue(request),
                )
            } else {
                r == Err::<MiddlewareAction<Request>, SpiderError>(SpiderError::BlockedByRobotsTxt)
            }
        }),
{
    let agent = request@.headers["user-agent"@][0];
    let plain = forall|i: int|
        0 <= i < agent.len() ==> 32 <= #[trigger] agent[i] < 127 || agent[i] == 9;
    assert(plain == is_plain(agent));
}

/// The rules of a site are the text that it answered with, where its status is from 200 to 299
/// and the text is UTF-8; else there are none, and neither where the fetch failed.
pub proof fn replies_bring_rules(reply: Option<(u16, Vec<u8>)>, r: String)
    requires
        call_ensures(RobotsTxtMiddleware::fetch_robots_content, (reply,), r),
    ensures
        match reply {
            Some((status, body)) => if 200 <= status <= 299 && valid_utf8(body@) {
                r@ == decode_utf8(body@)
            } else {
                r@.len() == 0
            },
            None => r@.len() == 0,
        },
{
}

/// What comes of a request before anything is fetched. One to a URL without a site goes on as it
/// is. For any other the cache is asked for the site: where it has rules these are the ones told
/// last, and they decide, unless they have to be read and cannot be; where it has none they are
/// to be fetched from the site's `/robots.txt`, for as long as was set.
pub proof fn known_rules_are_asked(
    middleware: RobotsTxtMiddleware,
    request: Request,
    outcome: RobotsOutcome,
)
    requires
        call_ensures(RobotsTxtMiddleware::process_request, (&middleware, request), outcome),
    ensures
        request@.url.origin == "null"@ ==> outcome == RobotsOutcome::Decided(
            Ok(MiddlewareAction::Continue(request)),
        ),
        request@.url.origin != "null"@ ==> exists|cached: Option<Seq<char>>| #[trigger]
            middleware.is_answer(request@.url.origin, cached) && match cached {
                None => outcome matches RobotsOutcome::Fetch { request: q, origin, url, timeout }
                    && q == request && origin@ == request@.url.origin && url@
                    == request@.url.origin + "/robots.txt"@ && timeout@
                    == middleware@.request_timeout,
                Some(body) => {
                    let fields = request@.headers;
                    let agent = fields["user-agent"@][0];
                    let plain = forall|i: int|
                        0 <= i < agent.len() ==> 32 <= #[trigger] agent[i] < 127 || agent[i] == 9;
                    &&& middleware@.told.contains_key(request@.url.origin)
                    &&& body == middleware@.told[request@.url.origin]
                    &&& !fields.contains_key("user-agent"@) ==> outcome == RobotsOutcome::Decided(
                        Err(SpiderError::BlockedByRobotsTxt),
                    )
                    &&& fields.contains_key("user-agent"@) && !plain ==> (outcome matches
                        RobotsOutcome::Decided(Err(SpiderError::HeaderValueError(_))))
                    &&& fields.contains_key("user-agent"@) && plain && !is_readable(body)
                        ==> outcome == RobotsOutcome::Unreadable(request)
                    &&& fields.contains_key("user-agent"@) && plain && is_readable(body)
                        && robots_allow(body, ascii_text(agent), request@.url.text) ==> outcome
                        == RobotsOutcome::Decided(Ok(MiddlewareAction::Continue(request)))
                    &&& fields.contains_key("user-agent"@) && plain && is_readable(body)
                        && !robots_allow(body, ascii_text(agent), request@.url.text) ==> outcome
                        == RobotsOutcome::Decided(Err(SpiderError::BlockedByRobotsTxt))
                },
            },
{
    let cached = choose|cached: Option<Seq<char>>| #[trigger]
        can_answer(middleware@, request@.url.origin, cached) && middleware.is_answer(
            request@.url.origin,
            cached,
        ) && is_right_outcome(middleware@, request, cached, outcome);
    assert(middleware.is_answer(request@.url.origin, cached));
    let agent = request@.headers["user-agent"@][0];
    let plain = forall|i: int|
        0 <= i < agent.len() ==> 32 <= #[trigger] agent[i] < 127 || agent[i] == 9;
    assert(plain == is_plain(agent));
}

/// The step for a request is the one that its outcome begins with: the cache is asked for the
/// site, and its rules are taken or are to be fetched.
pub proof fn steps_ask_the_cache(
    middleware: RobotsTxtMiddleware,
    request: Request,
    step: RobotsStep,
)
    requires
        call_ensures(RobotsTxtMiddleware::next_step, (&middleware, &request), step),
    ensures
        (request@.url.origin == "null"@) == (step is Pass),
        request@.url.origin != "null"@ ==> exists|cached: Option<Seq<char>>| #[trigger]
            middleware.is_answer(request@.url.origin, cached) && match cached {
                None => step matches RobotsStep::Fetch { origin, url, timeout } && origin@
                    == request@.url.origin && url@ == request@.url.origin + "/robots.txt"@
                    && timeout@ == middleware@.request_timeout,
                Some(body) => step matches RobotsStep::Known(b) && b@ == body
                    && middleware@.told.contains_key(request@.url.origin) && body
                    == middleware@.told[request@.url.origin],
            },
{
    let cached = choose|cached: Option<Seq<char>>| #[trigger]
        can_answer(middleware@, request@.url.origin, cached) && middleware.is_answer(
            request@.url.origin,
            cached,
        ) && right_step(middleware@, request@, cached, step);
    assert(middleware.is_answer(request@.url.origin, cached));
}

/// What comes of a request once the site has answered: its rules, or none where the fetch
/// failed, are kept for the site in the place of what was told before, and they decide; what is
/// kept for other sites and what is set stay.
pub proof fn fetched_rules_are_kept_and_asked(
    middleware: RobotsTxtMiddleware,
    request: Request,
    origin: &str,
    reply: Option<(u16, Vec<u8>)>,
    r: (RobotsTxtMiddleware, RobotsOutcome),
)
    requires
        call_ensures(
            RobotsTxtMiddleware::process_reply,
            (middleware, request, origin, reply),
            r,
        ),
    ensures
        r.0@.cache_ttl == middleware@.cache_ttl,
        r.0@.cache_capacity == middleware@.cache_capacity,
        r.0@.request_timeout == middleware@.request_timeout,
        ({
            let body = match reply {
                Some((status, bytes)) => if 200 <= status <= 299 && valid_utf8(bytes@) {
                    decode_utf8(bytes@)
                } else {
                    Seq::<char>::empty()
                },
                None => Seq::<char>::empty(),
            };
            let fields = request@.headers;
            let agent = fields["user-agent"@][0];
            let plain = forall|i: int|
                0 <= i < agent.len() ==> 32 <= #[trigger] agent[i] < 127 || agent[i] == 9;
            &&& r.0@.told == middleware@.told.insert(origin@, body)
            &&& !fields.contains_key("user-agent"@) ==> r.1 == RobotsOutcome::Decided(
                Err(SpiderError::BlockedByRobotsTxt),
            )
            &&& fields.contains_key("user-agent"@) && !plain ==> (r.1 matches
                RobotsOutcome::Decided(Err(SpiderError::HeaderValueError(_))))
            &&& fields.contains_key("user-agent"@) && plain && !is_readable(body) ==> r.1
                == RobotsOutcome::Unreadable(request)
            &&& fields.contains_key("user-agent"@) && plain && is_readable(body) && robots_allow(
                body,
                ascii_text(agent),
                request@.url.text,
            ) ==> r.1 == RobotsOutcome::Decided(Ok(MiddlewareAction::Continue(request)))
            &&& fields.contains_key("user-agent"@) && plain && is_readable(body) && !robots_allow(
                body,
                ascii_text(agent),
                request@.url.text,
            ) ==> r.1 == RobotsOutcome::Decided(Err(SpiderError::BlockedByRobotsTxt))
        }),
{
    let agent = request@.headers["user-agent"@][0];
    let plain = forall|i: int|
        0 <= i < agent.len() ==> 32 <= #[trigger] agent[i] < 127 || agent[i] == 9;
    assert(plain == is_plain(agent));
}

/// A new middleware keeps rules for a day, for ten thousand sites, waits five seconds for them
/// and knows none. Each setting is kept until it is set again; those of the cache begin another
/// one with nothing told.
pub proof fn usual_rules(
    usual: RobotsTxtMiddleware,
    middleware: RobotsTxtMiddleware,
    span: Delay,
    number: u64,
    with_life: RobotsTxtMiddleware,
    with_capacity: RobotsTxtMiddleware,
    with_timeout: RobotsTxtMiddleware,
)
    requires
        call_ensures(RobotsTxtMiddleware::new, (), usual),
        call_ensures(RobotsTxtMiddleware::cache_ttl, (middleware, span), with_life),
        call_ensures(RobotsTxtMiddleware::cache_capacity, (middleware, number), with_capacity),
        call_ensures(RobotsTxtMiddleware::request_timeout, (middleware, span), with_timeout),
    ensures
        usual@.cache_ttl == 86_400_000_000_000,
        usual@.cache_capacity == 10_000,
        usual@.request_timeout == 5_000_000_000,
        forall|origin: Seq<char>| !#[trigger] usual@.told.contains_key(origin),
        with_life@.cache_ttl == span@,
        with_life@.cache_capacity == middleware@.cache_capacity,
        with_life@.request_timeout == middleware@.request_timeout,
        with_capacity@.cache_ttl == middleware@.cache_ttl,
        with_capacity@.cache_capacity == number,
        with_capacity@.request_timeout == middleware@.request_timeout,
        with_timeout@.cache_ttl == middleware@.cache_ttl,
        with_timeout@.cache_capacity == middleware@.cache_capacity,
        with_timeout@.request_timeout == span@,
        with_timeout@.told == middleware@.told,
{
}

/// Rules that were told for a site are known for it, and those of other sites stay.
pub proof fn told_rules_are_remembered(
    middleware: RobotsTxtMiddleware,
    origin: &str,
    body: &str,
    r: RobotsTxtMiddleware,
)
    requires
        call_ensures(RobotsTxtMiddleware::remember, (middleware, origin, body), r),
    ensures
        r@.told.contains_key(origin@),
        r@.told[origin@] == body@,
        forall|other: Seq<char>|
            other != origin@ ==> (#[trigger] r@.told.contains_key(other))
                == middleware@.told.contains_key(other),
        forall|other: Seq<char>|
            other != origin@ && middleware@.told.contains_key(other) ==> #[trigger] r@.told[other]
                == middleware@.told[other],
        r@.cache_ttl == middleware@.cache_ttl,
        r@.cache_capacity == middleware@.cache_capacity,
        r@.request_timeout == middleware@.request_timeout,
{
}

proof fn ascii_takes_a_byte_each(s: Seq<char>)
    requires
        forall|i: int| 0 <= i < s.len() ==> (#[trigger] s[i] as u32) < 128,
    ensures
        byte_len(s) == s.len(),
    decreases s.len(),
{
    if s.len() > 0 {
        assert((s[s.len() - 1] as u32) < 128);
        assert forall|i: int| 0 <= i < s.drop_last().len() implies (#[trigger] s.drop_last()[i]
            as u32) < 128 by {
            assert((s[i] as u32) < 128);
        }
        ascii_takes_a_byte_each(s.drop_last());
    }
}

/// A text in ASCII can always be read, however long its lines are.
pub proof fn ascii_rules_can_be_read(body: &str, r: bool)
    requires
        call_ensures(readable, (body,), r),
        body@.len() < u32::MAX,
        forall|i: int| 0 <= i < body@.len() ==> (#[trigger] body@[i] as u32) < 128,
    ensures
        r,
{
    let s = body@;
    assert forall|k: int| 0 <= k <= s.len() implies #[trigger] byte_len(s.take(k)) == k by {
        assert forall|i: int| 0 <= i < s.take(k).len() implies (#[trigger] s.take(k)[i] as u32)
            < 128 by {
            assert((s[i] as u32) < 128);
        }
        ascii_takes_a_byte_each(s.take(k));
    }
    assert(s.take(s.len() as int) =~= s);
    assert forall|n: nat| n <= s.len() implies #[trigger] is_edge(s, n) by {
        assert(byte_len(s.take(n as int)) == n);
    }
    assert forall|i: int| 0 <= i < s.len() && cuts(reading(#[trigger] s.take(i)), s[i]) implies
        cuts_well(s, reading(s.take(i))) by {
        reading_is_behind(s.take(i));
        assert(byte_len(s.take(i)) == i);
    }
    reading_is_behind(s);
    assert(byte_len(s.take(s.len() as int)) == s.len());
}

proof fn marks_begin_the_text(s: Seq<char>)
    ensures
        reading(s).mark < 3 ==> reading(s).start == reading(s).end,
        reading(s).mark == 3 || reading(s).mark == s.len(),
    decreases s.len(),
{
    if s.len() > 0 {
        marks_begin_the_text(s.drop_last());
        reading_is_behind(s.drop_last());
    }
}

/// Whether no line of a text takes more than 16663 bytes.
pub open spec fn has_short_lines(body: Seq<char>) -> bool {
    forall|i: int, j: int|
        0 <= i <= j <= body.len() && (forall|n: int|
            i <= n < j ==> #[trigger] body[n] != '\n' && body[n] != '\r') ==> byte_len(
            #[trigger] body.subrange(i, j),
        ) <= 16_663
}

proof fn parts_take_their_bytes(s: Seq<char>, k: int, i: int)
    requires
        0 <= k <= i <= s.len(),
    ensures
        byte_len(s.take(i)) == byte_len(s.take(k)) + byte_len(s.subrange(k, i)),
    decreases i - k,
{
    if k < i {
        parts_take_their_bytes(s, k, i - 1);
        assert(s.take(i).drop_last() =~= s.take(i - 1));
        assert(s.subrange(k, i).drop_last() =~= s.subrange(k, i - 1));
    } else {
        assert(s.subrange(k, i) =~= Seq::empty());
    }
}

proof fn short_lines_are_read_along(body: Seq<char>, i: int) -> (k: int)
    requires
        has_short_lines(body),
        0 <= i <= body.len(),
    ensures
        0 <= k <= i,
        forall|n: int| k <= n < i ==> #[trigger] body[n] != '\n' && body[n] != '\r',
        reading(body.take(i)).skipped == 0,
        reading(body.take(i)).end == byte_len(body.take(i)),
        reading(body.take(i)).start == byte_len(body.take(k)),
    decreases i,
{
    if i == 0 {
        assert(body.take(0) =~= Seq::empty());
        0
    } else {
        let before = short_lines_are_read_along(body, i - 1);
        let c = body[i - 1];
        let at = reading(body.take(i - 1));
        assert(body.take(i).drop_last() =~= body.take(i - 1));
        assert(body.take(i).last() == c);
        marks_begin_the_text(body.take(i - 1));
        if at.mark < 3 && c == mark_char(at.mark) {
            i
        } else if c == '\n' || c == '\r' {
            i
        } else {
            parts_take_their_bytes(body, before, i - 1);
            parts_take_their_bytes(body, before, i);
            assert forall|n: int| before <= n < i implies #[trigger] body[n] != '\n' && body[n]
                != '\r' by {
                if n == i - 1 {
                    assert(body[n] == c);
                }
            }
            assert(byte_len(body.subrange(before, i)) <= 16_663);
            before
        }
    }
}

/// A text can be read where none of its lines takes more than 16663 bytes, whatever stands in
/// them and however long the text is, up to what can be counted in 32 bits.
pub proof fn short_lines_can_be_read(body: &str, r: bool)
    requires
        call_ensures(readable, (body,), r),
        body@.len() < u32::MAX,
        has_short_lines(body@),
    ensures
        r,
{
    let s = body@;
    assert(s.take(s.len() as int) =~= s);
    assert forall|i: int| 0 <= i < s.len() && cuts(reading(#[trigger] s.take(i)), s[i]) implies
        cuts_well(s, reading(s.take(i))) by {
        let k = short_lines_are_read_along(s, i);
        assert(is_edge(s, byte_len(s.take(k))));
        assert(is_edge(s, byte_len(s.take(i))));
    }
    let k = short_lines_are_read_along(s, s.len() as int);
    assert(is_edge(s, byte_len(s.take(k))));
    assert(is_edge(s, byte_len(s.take(s.len() as int))));
}

} // verus!
