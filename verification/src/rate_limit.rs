//! How often requests are sent.
use vstd::prelude::*;

use crate::cache::longest_life;
use crate::delay::{longest, span, Delay, NANOS_PER_SEC};
use crate::request::{answered, normalize_origin, origin_key, origins_tell_apart, Request,
    RequestView, Response};

verus! {

/// Which requests share a limit.
#[derive(Debug, Clone, Copy, PartialEq, Eq, Structural)]
pub enum Scope {
    /// All requests.
    Global,
    /// The requests to the same scheme, host and port.
    Domain,
}

/// The pause that an adaptive limiter starts with, in milliseconds.
pub const INITIAL_DELAY_MILLIS: u64 = 500;

/// The shortest pause, in milliseconds.
pub const MIN_DELAY_MILLIS: u64 = 50;

/// The longest pause, in seconds.
pub const MAX_DELAY_SECS: u64 = 60;

/// The most that chance may add to a wait or take from it, in milliseconds.
pub const MAX_JITTER_MILLIS: u64 = 500;

/// The part of a wait that chance may add to it or take from it, in percent.
pub const JITTER_PERCENT: u32 = 25;

/// What a pause is multiplied with after an error, in percent.
pub const ERROR_PENALTY_PERCENT: u32 = 150;

/// What a pause is multiplied with after a success, in percent.
pub const SUCCESS_DECAY_PERCENT: u32 = 95;

/// What a pause is multiplied with after a refusal, in percent.
pub const FORBIDDEN_PENALTY_PERCENT: u32 = 120;

/// A limiter that waits longer where requests fail and less where they succeed.
#[derive(Debug, Clone, Copy)]
pub struct AdaptiveLimiter {
    delay: Delay,
    next_allowed_at: Delay,
    jitter: bool,
}

/// A limiter, taken by its spans in nanoseconds.
#[verifier::ext_equal]
pub struct LimiterView {
    /// The pause between two requests.
    pub delay: nat,
    /// When the next request may be sent.
    pub next_allowed_at: nat,
    /// Whether waits are changed by chance.
    pub jitter: bool,
}

impl View for AdaptiveLimiter {
    type V = LimiterView;

    closed spec fn view(&self) -> LimiterView {
        LimiterView {
            delay: self.delay@,
            next_allowed_at: self.next_allowed_at@,
            jitter: self.jitter,
        }
    }
}

/// `Uniform::new_inclusive` and a sample of it from `rand::thread_rng`: some span between
/// the two, each given by its seconds and nanoseconds.
#[verifier::external_body]
fn sample(low: (u64, u32), high: (u64, u32)) -> (r: (u64, u32))
    requires
        low.1 < NANOS_PER_SEC,
        high.1 < NANOS_PER_SEC,
        span(low.0, low.1) <= span(high.0, high.1),
    ensures
        r.1 < NANOS_PER_SEC,
        span(low.0, low.1) <= span(r.0, r.1) <= span(high.0, high.1),
{
    let low = std::time::Duration::new(low.0, low.1);
    let high = std::time::Duration::new(high.0, high.1);
    let range = rand::distributions::Uniform::new_inclusive(low, high);
    let r = rand::distributions::Distribution::sample(&range, &mut rand::thread_rng());
    (r.as_secs(), r.subsec_nanos())
}

/// Whether chance took a span when it was asked for one between two others.
pub closed spec fn is_sampled(low: nat, high: nat, taken: nat) -> bool {
    exists|l: (u64, u32), h: (u64, u32), r: (u64, u32)| #[trigger]
        call_ensures(sample, (l, h), r) && span(l.0, l.1) == low && span(h.0, h.1) == high && span(
            r.0,
            r.1,
        ) == taken
}

/// Some span between two.
fn span_between(low: Delay, high: Delay) -> (r: Delay)
    requires
        low@ <= high@,
    ensures
        low@ <= r@ <= high@,
        is_sampled(low@, high@, r@),
{
    let least: (u64, u32) = (low.as_secs(), low.subsec_nanos());
    let most: (u64, u32) = (high.as_secs(), high.subsec_nanos());
    let taken: (u64, u32) = sample(least, most);
    proof {
        vstd::arithmetic::div_mod::lemma_fundamental_div_mod(low@ as int, NANOS_PER_SEC as int);
        vstd::arithmetic::div_mod::lemma_fundamental_div_mod(high@ as int, NANOS_PER_SEC as int);
        assert(span(least.0, least.1) == low@);
        assert(span(most.0, most.1) == high@);
        assert(is_sampled(low@, high@, span(taken.0, taken.1)));
    }
    Delay::new(taken.0, taken.1)
}

/// The later of two points in time.
pub open spec fn later(a: nat, b: nat) -> nat {
    if a < b {
        b
    } else {
        a
    }
}

/// When a request that asks at some time is sent.
pub open spec fn slot(limiter: LimiterView, now: nat) -> nat {
    later(limiter.next_allowed_at, now)
}

/// How long a request has to wait.
pub open spec fn wait_for(limiter: LimiterView, now: nat) -> nat {
    (slot(limiter, now) - now) as nat
}

/// A limiter once a request has asked: the next one is sent a pause later.
pub open spec fn after_request(limiter: LimiterView, now: nat) -> LimiterView {
    LimiterView { next_allowed_at: slot(limiter, now) + limiter.delay, ..limiter }
}

/// Whether the next pause ends at a point in time that can be told.
pub open spec fn is_in_time(limiter: LimiterView, now: nat) -> bool {
    slot(limiter, now) + limiter.delay <= longest()
}

/// What a pause is multiplied with after a response, in percent.
pub open spec fn percent_for(status: u16) -> u32 {
    if 200 <= status <= 399 {
        SUCCESS_DECAY_PERCENT
    } else if status == 403 {
        FORBIDDEN_PENALTY_PERCENT
    } else if status == 429 || 500 <= status <= 599 {
        ERROR_PENALTY_PERCENT
    } else {
        100
    }
}

/// The shortest pause.
pub open spec fn min_delay() -> nat {
    (MIN_DELAY_MILLIS * 1_000_000) as nat
}

/// The longest pause.
pub open spec fn max_delay() -> nat {
    (MAX_DELAY_SECS * NANOS_PER_SEC) as nat
}

/// A span, brought between the shortest and the longest pause.
pub open spec fn bounded(delay: nat) -> nat {
    if delay < min_delay() {
        min_delay()
    } else if max_delay() < delay {
        max_delay()
    } else {
        delay
    }
}

/// A limiter after a response, where its pause was multiplied with what the response
/// asks for.
pub open spec fn after_response(limiter: LimiterView, status: u16, scaled: nat) -> LimiterView {
    LimiterView {
        delay: bounded(
            if percent_for(status) == 100 {
                limiter.delay
            } else {
                scaled
            },
        ),
        ..limiter
    }
}

/// How far chance may move a wait.
pub open spec fn jitter_window(quarter: nat) -> nat {
    if quarter < MAX_JITTER_MILLIS * 1_000_000 {
        quarter
    } else {
        (MAX_JITTER_MILLIS * 1_000_000) as nat
    }
}

/// The shortest and the longest that a wait may become by chance.
pub open spec fn jitter_range(limiter: LimiterView, wait: nat, quarter: nat) -> (nat, nat) {
    if !limiter.jitter || wait == 0 {
        (wait, wait)
    } else {
        let window = jitter_window(quarter);
        (
            if window <= wait {
                (wait - window) as nat
            } else {
                0
            },
            wait + window,
        )
    }
}

/// Whether the longest that a wait may become by chance can be told.
pub open spec fn jitter_fits(limiter: LimiterView, wait: nat, quarter: nat) -> bool {
    !limiter.jitter || wait == 0 || wait + jitter_window(quarter) <= longest()
}

/// What a pause is multiplied with after a response, in percent; 100 where it stays.
pub fn percent_of(status: u16) -> (r: u32)
    ensures
        r == percent_for(status),
{
    if 200 <= status && status <= 399 {
        SUCCESS_DECAY_PERCENT
    } else if status == 403 {
        FORBIDDEN_PENALTY_PERCENT
    } else if status == 429 || (500 <= status && status <= 599) {
        ERROR_PENALTY_PERCENT
    } else {
        100
    }
}

impl AdaptiveLimiter {
    /// A limiter with a first pause; the next request may be sent at once.
    pub fn new(initial_delay: Delay, jitter: bool, now: Delay) -> (r: Self)
        ensures
            r@ == (LimiterView { delay: initial_delay@, next_allowed_at: now@, jitter }),
    {
        AdaptiveLimiter { delay: initial_delay, next_allowed_at: now, jitter }
    }

    /// Whether the next pause ends at a point in time that can be told.
    pub fn in_time(&self, now: &Delay) -> (r: bool)
        ensures
            r == is_in_time(self@, now@),
    {
        let slot = if self.next_allowed_at.shorter_than(now) {
            *now
        } else {
            self.next_allowed_at
        };
        slot.can_grow_by(&self.delay)
    }

    /// Gives a request that asks now the next free slot, and says how long to wait for it.
    pub fn acquire(&mut self, now: Delay) -> (wait: Delay)
        requires
            is_in_time(old(self)@, now@),
        ensures
            wait@ == wait_for(old(self)@, now@),
            final(self)@ == after_request(old(self)@, now@),
    {
        let delay = self.delay;
        if now.shorter_than(&self.next_allowed_at) {
            let wait = self.next_allowed_at.saturating_sub(now);
            self.next_allowed_at = self.next_allowed_at.plus(delay);
            wait
        } else {
            self.next_allowed_at = now.plus(delay);
            Delay::from_secs(0)
        }
    }

    /// Whether the longest that a wait may become by chance can be told.
    pub fn can_jitter(&self, wait: &Delay, quarter: &Delay) -> (r: bool)
        ensures
            r == jitter_fits(self@, wait@, quarter@),
    {
        !self.jitter || wait.is_zero() || wait.can_grow_by(
            &quarter.min(Delay::from_millis(MAX_JITTER_MILLIS)),
        )
    }

    /// The shortest and the longest that a wait may become by chance; `quarter` is the
    /// part of it that chance may move it by.
    pub fn jitter_bounds(&self, wait: Delay, quarter: Delay) -> (r: (Delay, Delay))
        requires
            jitter_fits(self@, wait@, quarter@),
        ensures
            (r.0@, r.1@) == jitter_range(self@, wait@, quarter@),
            r.0@ <= wait@ <= r.1@,
    {
        if !self.jitter || wait.is_zero() {
            return (wait, wait);
        }
        let window = quarter.min(Delay::from_millis(MAX_JITTER_MILLIS));
        (wait.saturating_sub(window), wait.plus(window))
    }

    /// A wait, moved by chance where the limiter does that.
    pub fn apply_jitter(&self, wait: Delay, quarter: Delay) -> (r: Delay)
        requires
            jitter_fits(self@, wait@, quarter@),
        ensures
            jitter_range(self@, wait@, quarter@).0 <= r@ <= jitter_range(
                self@,
                wait@,
                quarter@,
            ).1,
            self@.jitter && wait@ > 0 ==> is_sampled(
                jitter_range(self@, wait@, quarter@).0,
                jitter_range(self@, wait@, quarter@).1,
                r@,
            ),
    {
        let (low, high) = self.jitter_bounds(wait, quarter);
        if !self.jitter || wait.is_zero() {
            wait
        } else {
            span_between(low, high)
        }
    }

    /// Changes the pause after a response; `scaled` is the pause, multiplied with the
    /// percentage that the response asks for.
    pub fn adjust(&mut self, status: u16, scaled: Delay)
        ensures
            final(self)@ == after_response(old(self)@, status, scaled@),
    {
        let percent: u32 = percent_of(status);
        let delay = if percent == 100 {
            self.delay
        } else {
            scaled
        };
        self.delay = delay.clamp(
            Delay::from_millis(MIN_DELAY_MILLIS),
            Delay::from_secs(MAX_DELAY_SECS),
        );
    }

    /// The pause between two requests.
    pub fn current_delay(&self) -> (r: Delay)
        ensures
            r@ == self@.delay,
    {
        self.delay
    }

    /// Whether waits are changed by chance.
    pub fn jitter(&self) -> (r: bool)
        ensures
            r == self@.jitter,
    {
        self.jitter
    }
}

/// How often a token bucket gives out: at first so many at once, then one after every
/// interval.
#[derive(Debug, Clone, Copy)]
pub struct TokenBucketLimiter {
    burst: u32,
    interval: Delay,
}

/// `Quota::per_second`, with `Quota::burst_size` and `Quota::replenish_interval`: as many
/// at once as the number says, and each again after that part of a second, given in seconds
/// and nanoseconds.
#[verifier::external_body]
fn quota_per_second(requests_per_second: u32) -> (r: (u32, u64, u32))
    requires
        requests_per_second > 0,
    ensures
        r.0 == requests_per_second,
        r.2 < NANOS_PER_SEC,
        span(r.1, r.2) == NANOS_PER_SEC as nat / requests_per_second as nat,
{
    let number = std::num::NonZeroU32::new(requests_per_second).unwrap();
    let quota = governor::Quota::per_second(number);
    let interval = quota.replenish_interval();
    (quota.burst_size().get(), interval.as_secs(), interval.subsec_nanos())
}

impl TokenBucketLimiter {
    /// A token bucket for so many requests in a second.
    pub fn new(requests_per_second: u32) -> (r: Self)
        requires
            requests_per_second > 0,
        ensures
            r.burst_size() == requests_per_second,
            r.replenish_interval() == NANOS_PER_SEC as nat / requests_per_second as nat,
    {
        let (burst, secs, nanos) = quota_per_second(requests_per_second);
        TokenBucketLimiter { burst, interval: Delay::new(secs, nanos) }
    }

    /// How many requests may be sent at once.
    pub closed spec fn burst_size(self) -> u32 {
        self.burst
    }

    /// After how many nanoseconds one more may be sent.
    pub closed spec fn replenish_interval(self) -> nat {
        self.interval@
    }

    /// How many requests may be sent at once.
    pub fn burst(&self) -> (r: u32)
        ensures
            r == self.burst_size(),
    {
        self.burst
    }

    /// After which span one more may be sent.
    pub fn interval(&self) -> (r: Delay)
        ensures
            r@ == self.replenish_interval(),
    {
        self.interval
    }

    /// The pause between two requests; the bucket tells none.
    pub fn current_delay(&self) -> (r: Delay)
        ensures
            r@ == 0,
    {
        Delay::from_secs(0)
    }
}

/// The limiters that were last put into a cache under each name, also those that it has
/// forgotten since.
pub uninterp spec fn limiters_put(
    cache: moka::sync::Cache<String, AdaptiveLimiter>,
) -> Map<Seq<char>, LimiterView>;

/// After how many nanoseconds without use a cache of limiters forgets one, and how many
/// it keeps.
pub uninterp spec fn limiter_limits(
    cache: moka::sync::Cache<String, AdaptiveLimiter>,
) -> (nat, nat);

/// `Cache::builder` with `time_to_idle` and `max_capacity`: nothing was put in yet.
#[verifier::external_body]
fn new_limiters(secs: u64, nanos: u32, capacity: u64) -> (r: moka::sync::Cache<
    String,
    AdaptiveLimiter,
>)
    requires
        nanos < NANOS_PER_SEC,
        span(secs, nanos) <= longest_life(),
    ensures
        limiters_put(r).dom() == Set::<Seq<char>>::empty(),
        limiter_limits(r) == (span(secs, nanos), capacity as nat),
{
    let idle = std::time::Duration::new(secs, nanos);
    moka::sync::Cache::builder().time_to_idle(idle).max_capacity(capacity).build()
}

/// `Cache::get`: nothing, or the limiter that was last put in under the name.
#[verifier::external_body]
fn find_limiter(cache: &moka::sync::Cache<String, AdaptiveLimiter>, name: &str) -> (r: Option<
    AdaptiveLimiter,
>)
    ensures
        r is Some ==> limiters_put(*cache).contains_key(name@),
        r is Some ==> r->0@ == limiters_put(*cache)[name@],
{
    cache.get(name)
}

/// `Cache::insert`: the name has that limiter.
#[verifier::external_body]
fn put_limiter(
    cache: &mut moka::sync::Cache<String, AdaptiveLimiter>,
    name: &str,
    limiter: AdaptiveLimiter,
)
    ensures
        limiters_put(*final(cache)) == limiters_put(*old(cache)).insert(name@, limiter@),
        limiter_limits(*final(cache)) == limiter_limits(*old(cache)),
{
    cache.insert(name.to_string(), limiter);
}

/// Where the limiters come from.
#[derive(Debug, Clone, Copy)]
pub enum LimiterPlan {
    /// Each name gets an adaptive limiter of its own, with this first pause.
    Own(Delay, bool),
    /// All names share one adaptive limiter.
    Shared(AdaptiveLimiter),
    /// Each name gets a token bucket for so many requests in a second.
    TokenBucket(u32),
    /// The limiters are made elsewhere.
    Elsewhere,
}

/// Where the limiters come from, taken by its spans.
pub enum PlanView {
    /// Each name gets an adaptive limiter of its own, with this first pause.
    Own(nat, bool),
    /// All names share one adaptive limiter.
    Shared(LimiterView),
    /// Each name gets a token bucket for so many requests in a second.
    TokenBucket(u32),
    /// The limiters are made elsewhere.
    Elsewhere,
}

impl View for LimiterPlan {
    type V = PlanView;

    open spec fn view(&self) -> PlanView {
        match self {
            LimiterPlan::Own(delay, jitter) => PlanView::Own(delay@, *jitter),
            LimiterPlan::Shared(limiter) => PlanView::Shared(limiter@),
            LimiterPlan::TokenBucket(n) => PlanView::TokenBucket(*n),
            LimiterPlan::Elsewhere => PlanView::Elsewhere,
        }
    }
}

/// Limits how often requests are sent.
#[derive(Debug)]
pub struct RateLimitMiddleware {
    scope: Scope,
    limiters: moka::sync::Cache<String, AdaptiveLimiter>,
    plan: LimiterPlan,
}

/// What the middleware is set to and the limiters that were put into its cache.
#[verifier::ext_equal]
pub struct RateState {
    /// Which requests share a limit.
    pub scope: Scope,
    /// Where the limiters come from.
    pub plan: PlanView,
    /// After how many nanoseconds without use a limiter is forgotten.
    pub idle: nat,
    /// How many limiters are kept.
    pub capacity: nat,
    /// The limiters that were put in last.
    pub limiters: Map<Seq<char>, LimiterView>,
}

impl View for RateLimitMiddleware {
    type V = RateState;

    closed spec fn view(&self) -> RateState {
        RateState {
            scope: self.scope,
            plan: self.plan@,
            idle: limiter_limits(self.limiters).0,
            capacity: limiter_limits(self.limiters).1,
            limiters: limiters_put(self.limiters),
        }
    }
}

/// The name under which the limiter of a request is kept.
pub open spec fn key_for(scope: Scope, request: RequestView) -> Seq<char> {
    match scope {
        Scope::Global => "global"@,
        Scope::Domain => origin_key(request.url),
    }
}

/// The limiter for a name where the cache gave an answer: a shared one is always the same,
/// else the cache's, else a new one. Nothing where the limiters are not adaptive.
pub open spec fn limiter_now(
    state: RateState,
    cached: Option<LimiterView>,
    now: nat,
) -> Option<LimiterView> {
    match state.plan {
        PlanView::Own(delay, jitter) => match cached {
            Some(limiter) => Some(limiter),
            None => Some(LimiterView { delay, next_allowed_at: now, jitter }),
        },
        PlanView::Shared(limiter) => Some(limiter),
        _ => None,
    }
}

/// The state once the limiter of a name has changed.
pub open spec fn with_limiter(state: RateState, key: Seq<char>, limiter: LimiterView) -> RateState {
    RateState {
        plan: match state.plan {
            PlanView::Shared(_) => PlanView::Shared(limiter),
            plan => plan,
        },
        limiters: state.limiters.insert(key, limiter),
        ..state
    }
}

impl RateLimitMiddleware {
    /// A builder with the usual settings.
    pub fn builder() -> (r: RateLimitMiddlewareBuilder)
        ensures
            r@ == default_settings(),
    {
        RateLimitMiddlewareBuilder::default()
    }

    /// The middleware's name.
    pub fn name(&self) -> (r: &str)
        ensures
            r@ == "RateLimitMiddleware"@,
    {
        "RateLimitMiddleware"
    }

    /// Where the limiters come from.
    pub fn plan(&self) -> (r: LimiterPlan)
        ensures
            r@ == self@.plan,
    {
        self.plan
    }

    /// The name under which the limiter of a request is kept.
    pub fn scope_key(&self, request: &Request) -> (r: String)
        ensures
            r@ == key_for(self@.scope, request@),
    {
        match self.scope {
            Scope::Global => "global".to_owned(),
            Scope::Domain => normalize_origin(request),
        }
    }

    /// Whether the cache gave an answer when it was asked for a name.
    pub closed spec fn is_answer(&self, key: Seq<char>, cached: Option<LimiterView>) -> bool {
        exists|name: &str, r: Option<AdaptiveLimiter>| #[trigger]
            call_ensures(find_limiter, (&self.limiters, name), r) && name@ == key && maybe_limiter(
                r,
            ) == cached
    }

    /// The limiter that the cache still has for a name.
    pub fn cached_limiter(&self, key: &str) -> (r: Option<AdaptiveLimiter>)
        ensures
            self.is_answer(key@, maybe_limiter(r)),
            r matches Some(limiter) ==> self@.limiters.contains_key(key@) && limiter@
                == self@.limiters[key@],
    {
        find_limiter(&self.limiters, key)
    }

    /// The limiter for a name where the cache gave an answer.
    pub fn limiter_for(&self, cached: Option<AdaptiveLimiter>, now: Delay) -> (r: Option<
        AdaptiveLimiter,
    >)
        ensures
            maybe_limiter(r) == limiter_now(self@, maybe_limiter(cached), now@),
    {
        match self.plan {
            LimiterPlan::Own(delay, jitter) => match cached {
                Some(limiter) => Some(limiter),
                None => Some(AdaptiveLimiter::new(delay, jitter, now)),
            },
            LimiterPlan::Shared(limiter) => Some(limiter),
            LimiterPlan::TokenBucket(_) => None,
            LimiterPlan::Elsewhere => None,
        }
    }

    /// Keeps a limiter that has changed.
    fn keep(&mut self, key: &str, limiter: AdaptiveLimiter)
        ensures
            final(self)@ == with_limiter(old(self)@, key@, limiter@),
    {
        if let LimiterPlan::Shared(_) = self.plan {
            self.plan = LimiterPlan::Shared(limiter);
        }
        put_limiter(&mut self.limiters, key, limiter);
    }

    /// Gives a request the next free slot of a limiter, and says how long to wait for it.
    pub fn take_slot(&mut self, key: &str, limiter: AdaptiveLimiter, now: Delay) -> (wait:
        Delay)
        requires
            is_in_time(limiter@, now@),
        ensures
            wait@ == wait_for(limiter@, now@),
            final(self)@ == with_limiter(old(self)@, key@, after_request(limiter@, now@)),
    {
        let mut limiter = limiter;
        let wait = limiter.acquire(now);
        self.keep(key, limiter);
        wait
    }

    /// Gives a request the next free slot of its limiter, and says how long to wait for it.
    pub fn process_request(&mut self, request: &Request, now: Delay) -> (r: Pace)
        ensures
            exists|cached: Option<LimiterView>| #[trigger]
                can_answer(old(self)@, key_for(old(self)@.scope, request@), cached)
                    && old(self).is_answer(key_for(old(self)@.scope, request@), cached)
                    && is_right_pace(
                    old(self)@,
                    key_for(old(self)@.scope, request@),
                    cached,
                    now@,
                    r,
                    final(self)@,
                ),
    {
        let key = self.scope_key(request);
        let cached = self.cached_limiter(key.as_str());
        assert(can_answer(old(self)@, key@, maybe_limiter(cached)));
        match self.limiter_for(cached, now) {
            None => Pace::Elsewhere(key),
            Some(limiter) => {
                if limiter.in_time(&now) {
                    let wait = self.take_slot(key.as_str(), limiter, now);
                    Pace::Wait(limiter, wait)
                } else {
                    Pace::OutOfTime
                }
            },
        }
    }

    /// The limiter that a response can change and its name, where there is one.
    pub fn limiter_of(&self, response: &Response) -> (r: (String, Option<AdaptiveLimiter>))
        ensures
            r.0@ == key_for(self@.scope, answered(response@)),
            exists|cached: Option<LimiterView>| #[trigger]
                can_answer(self@, r.0@, cached) && self.is_answer(r.0@, cached) && maybe_limiter(
                    r.1,
                ) == match cached {
                    Some(limiter) => limiter_now(self@, Some(limiter), 0),
                    None => None,
                },
    {
        let request = response.request_from_response();
        let key = self.scope_key(&request);
        let cached = self.cached_limiter(key.as_str());
        assert(can_answer(self@, key@, maybe_limiter(cached)));
        let limiter = self.limiter_to_adjust(cached);
        (key, limiter)
    }

    /// The limiter that a response can change: the one that the cache still has for it, or
    /// the shared one where the cache knows the name.
    pub fn limiter_to_adjust(&self, cached: Option<AdaptiveLimiter>) -> (r: Option<
        AdaptiveLimiter,
    >)
        ensures
            maybe_limiter(r) == match maybe_limiter(cached) {
                Some(limiter) => limiter_now(self@, Some(limiter), 0),
                None => None,
            },
    {
        match cached {
            Some(limiter) => match self.plan {
                LimiterPlan::Own(_, _) => Some(limiter),
                LimiterPlan::Shared(shared) => Some(shared),
                LimiterPlan::TokenBucket(_) => None,
                LimiterPlan::Elsewhere => None,
            },
            None => None,
        }
    }

    /// Changes a limiter after a response; `scaled` is its pause, multiplied with the
    /// percentage that the response asks for.
    pub fn adjust(
        &mut self,
        key: &str,
        limiter: AdaptiveLimiter,
        status: u16,
        scaled: Delay,
    )
        ensures
            final(self)@ == with_limiter(
                old(self)@,
                key@,
                after_response(limiter@, status, scaled@),
            ),
    {
        let mut limiter = limiter;
        limiter.adjust(status, scaled);
        self.keep(key, limiter);
    }
}

/// What is to be done before a request is sent.
#[derive(Debug)]
pub enum Pace {
    /// To wait so long, moved by chance where the limiter does that.
    Wait(AdaptiveLimiter, Delay),
    /// The next pause ends at no point in time that can be told.
    OutOfTime,
    /// To ask the limiter of this name that was made elsewhere.
    Elsewhere(String),
}

/// Whether a cache of limiters can answer so for a name: with the limiter that was put in
/// last, or not at all.
pub open spec fn can_answer(
    state: RateState,
    key: Seq<char>,
    cached: Option<LimiterView>,
) -> bool {
    cached is Some ==> state.limiters.contains_key(key) && cached->0 == state.limiters[key]
}

/// Whether what is to be done before a request is sent, and the state after it, is right
/// where the cache gave an answer.
pub open spec fn is_right_pace(
    before: RateState,
    key: Seq<char>,
    cached: Option<LimiterView>,
    now: nat,
    pace: Pace,
    after: RateState,
) -> bool {
    match limiter_now(before, cached, now) {
        None => pace matches Pace::Elsewhere(k) && k@ == key && after == before,
        Some(limiter) => if is_in_time(limiter, now) {
            pace matches Pace::Wait(l, wait) && l@ == limiter && wait@ == wait_for(limiter, now)
                && after == with_limiter(before, key, after_request(limiter, now))
        } else {
            pace is OutOfTime && after == before
        },
    }
}

/// A limiter that may be missing.
pub open spec fn maybe_limiter(limiter: Option<AdaptiveLimiter>) -> Option<LimiterView> {
    match limiter {
        Some(l) => Some(l@),
        None => None,
    }
}

impl Default for RateLimitMiddleware {
    fn default() -> (r: Self)
        ensures
            r@ == default_settings(),
    {
        Self::builder().build()
    }
}

/// The usual settings: each scheme, host and port has an adaptive limiter of its own that
/// starts with half a second and is forgotten after an hour; ten thousand are kept.
pub open spec fn default_settings() -> RateState {
    RateState {
        scope: Scope::Domain,
        plan: PlanView::Own((INITIAL_DELAY_MILLIS * 1_000_000) as nat, true),
        idle: (3600 * NANOS_PER_SEC) as nat,
        capacity: 10_000,
        limiters: Map::empty(),
    }
}

/// Builds a `RateLimitMiddleware`.
#[derive(Debug)]
pub struct RateLimitMiddlewareBuilder {
    scope: Scope,
    cache_ttl: Delay,
    cache_capacity: u64,
    plan: LimiterPlan,
}

impl View for RateLimitMiddlewareBuilder {
    type V = RateState;

    closed spec fn view(&self) -> RateState {
        RateState {
            scope: self.scope,
            plan: self.plan@,
            idle: self.cache_ttl@,
            capacity: self.cache_capacity as nat,
            limiters: Map::empty(),
        }
    }
}

impl Default for RateLimitMiddlewareBuilder {
    fn default() -> (r: Self)
        ensures
            r@ == default_settings(),
    {
        RateLimitMiddlewareBuilder {
            scope: Scope::Domain,
            cache_ttl: Delay::from_secs(3600),
            cache_capacity: 10_000,
            plan: LimiterPlan::Own(Delay::from_millis(INITIAL_DELAY_MILLIS), true),
        }
    }
}

impl RateLimitMiddlewareBuilder {
    #[verifier::type_invariant]
    spec fn well_formed(self) -> bool {
        self.cache_ttl@ <= longest_life()
    }

    /// Sets which requests share a limit.
    pub fn scope(self, scope: Scope) -> (r: Self)
        ensures
            r@ == (RateState { scope, ..self@ }),
    {
        proof {
            use_type_invariant(&self);
        }
        RateLimitMiddlewareBuilder { scope, ..self }
    }

    /// Limits each name by a token bucket for so many requests in a second.
    pub fn use_token_bucket_limiter(self, requests_per_second: u32) -> (r: Self)
        ensures
            r@ == (RateState { plan: PlanView::TokenBucket(requests_per_second), ..self@ }),
    {
        proof {
            use_type_invariant(&self);
        }
        RateLimitMiddlewareBuilder {
            plan: LimiterPlan::TokenBucket(requests_per_second),
            ..self
        }
    }

    /// Lets all names share one adaptive limiter.
    pub fn limiter(self, limiter: AdaptiveLimiter) -> (r: Self)
        ensures
            r@ == (RateState { plan: PlanView::Shared(limiter@), ..self@ }),
    {
        proof {
            use_type_invariant(&self);
        }
        RateLimitMiddlewareBuilder { plan: LimiterPlan::Shared(limiter), ..self }
    }

    /// Lets the limiters be made elsewhere.
    pub fn limiter_factory(self) -> (r: Self)
        ensures
            r@ == (RateState { plan: PlanView::Elsewhere, ..self@ }),
    {
        proof {
            use_type_invariant(&self);
        }
        RateLimitMiddlewareBuilder { plan: LimiterPlan::Elsewhere, ..self }
    }

    /// Builds the middleware.
    pub fn build(self) -> (r: RateLimitMiddleware)
        ensures
            r@ == self@,
    {
        proof {
            use_type_invariant(&self);
        }
        let limiters = new_limiters(
            self.cache_ttl.as_secs(),
            self.cache_ttl.subsec_nanos(),
            self.cache_capacity,
        );
        assert(limiters_put(limiters) =~= Map::empty());
        RateLimitMiddleware { scope: self.scope, limiters, plan: self.plan }
    }
}

/// Two requests that ask one after the other are sent at least a pause apart, and neither
/// before it asked.
pub proof fn slots_are_apart(limiter: LimiterView, first: nat, second: nat)
    ensures
        slot(limiter, first) >= first,
        slot(after_request(limiter, first), second) >= second,
        slot(after_request(limiter, first), second) >= slot(limiter, first) + limiter.delay,
        wait_for(limiter, first) + first == slot(limiter, first),
{
}

/// When the last of requests that ask one after the other is sent.
pub open spec fn slots(limiter: LimiterView, times: Seq<nat>) -> Seq<nat>
    decreases times.len(),
{
    if times.len() == 0 {
        Seq::empty()
    } else {
        seq![slot(limiter, times[0])] + slots(after_request(limiter, times[0]), times.drop_first())
    }
}

/// Of any number of requests that ask one after the other while the pause stays, the one
/// that asks `k` requests later is sent at least `k` pauses later, whenever they ask: in
/// no span of time are more sent than the pause allows.
pub proof fn rate_is_kept(limiter: LimiterView, times: Seq<nat>, i: int, k: nat)
    requires
        0 <= i,
        i + k < times.len(),
    ensures
        slots(limiter, times).len() == times.len(),
        slots(limiter, times)[i + k] >= slots(limiter, times)[i] + k * limiter.delay,
        i == 0 ==> slots(limiter, times)[i + k] >= limiter.next_allowed_at + k * limiter.delay,
    decreases times.len(),
{
    let rest = times.drop_first();
    let next = after_request(limiter, times[0]);
    let later = slots(next, rest);
    if i > 0 {
        rate_is_kept(next, rest, i - 1, k);
        assert(slots(limiter, times)[i + k] == later[i - 1 + k]);
        assert(slots(limiter, times)[i] == later[i - 1]);
    } else if k > 0 {
        rate_is_kept(next, rest, 0, (k - 1) as nat);
        assert(slots(limiter, times)[k as int] == later[k - 1]);
        assert((k - 1) * limiter.delay + limiter.delay == k * limiter.delay) by (nonlinear_arith);
    } else {
        slots_has_one_each(limiter, times);
        assert(0 * limiter.delay == 0);
    }
}

proof fn slots_has_one_each(limiter: LimiterView, times: Seq<nat>)
    ensures
        slots(limiter, times).len() == times.len(),
    decreases times.len(),
{
    if times.len() > 0 {
        slots_has_one_each(after_request(limiter, times[0]), times.drop_first());
    }
}

/// Once a response has come, the pause is between the shortest and the longest, and it
/// stays there.
pub proof fn pauses_stay_bounded(limiter: LimiterView, status: u16, scaled: nat)
    ensures
        min_delay() <= after_response(limiter, status, scaled).delay <= max_delay(),
{
}

/// A pause that is bounded grows with errors until it is the longest, shrinks with
/// successes until it is the shortest, and stays with anything else; where multiplying
/// with more than 100 percent makes it longer, and with less does not.
pub proof fn pauses_follow_responses(limiter: LimiterView, status: u16, scaled: nat)
    requires
        min_delay() <= limiter.delay <= max_delay(),
        percent_for(status) > 100 ==> scaled > limiter.delay,
        percent_for(status) < 100 ==> scaled < limiter.delay,
    ensures
        status == 429 || status == 403 || 500 <= status <= 599 ==> {
            ||| after_response(limiter, status, scaled).delay > limiter.delay
            ||| limiter.delay == max_delay() && after_response(limiter, status, scaled).delay
                == max_delay()
        },
        200 <= status <= 399 ==> {
            ||| after_response(limiter, status, scaled).delay < limiter.delay
            ||| limiter.delay == min_delay() && after_response(limiter, status, scaled).delay
                == min_delay()
        },
        percent_for(status) == 100 ==> after_response(limiter, status, scaled) == limiter,
{
}

/// Where all requests share a limit they have one name, and where they do not, those to the
/// same scheme, host and port do.
pub proof fn scopes_tell_who_shares(a: RequestView, b: RequestView)
    ensures
        key_for(Scope::Global, a) == key_for(Scope::Global, b),
        a.url.scheme == b.url.scheme && a.url.host == b.url.host && a.url.port == b.url.port
            ==> key_for(Scope::Domain, a) == key_for(Scope::Domain, b),
{
}

/// Requests of other names leave a name's own limiter as it is.
pub proof fn names_do_not_meet(
    state: RateState,
    key: Seq<char>,
    other: Seq<char>,
    limiter: LimiterView,
)
    requires
        state.plan is Own,
        key != other,
    ensures
        with_limiter(state, other, limiter).plan == state.plan,
        with_limiter(state, other, limiter).limiters.contains_key(key)
            == state.limiters.contains_key(key),
        state.limiters.contains_key(key) ==> with_limiter(state, other, limiter).limiters[key]
            == state.limiters[key],
{
}

/// What the cache is taken to have answered is what came of asking it for the name.
proof fn answers_come_from_the_cache(
    middleware: RateLimitMiddleware,
    key: Seq<char>,
    cached: Option<LimiterView>,
)
    requires
        middleware.is_answer(key, cached),
    ensures
        exists|name: &str, r: Option<AdaptiveLimiter>| #[trigger]
            call_ensures(find_limiter, (&middleware.limiters, name), r) && name@ == key
                && maybe_limiter(r) == cached,
{
}

/// A span by chance comes of asking chance for one between the two, and is no other.
proof fn chance_takes_the_span(low: nat, high: nat, taken: nat)
    requires
        is_sampled(low, high, taken),
    ensures
        exists|l: (u64, u32), h: (u64, u32), r: (u64, u32)| #[trigger]
            call_ensures(sample, (l, h), r) && span(l.0, l.1) == low && span(h.0, h.1) == high
                && span(r.0, r.1) == taken,
{
}

/// A limiter is asked for a slot: the request is sent when it asks, or when the limiter next
/// allows it where that is later, and the limiter then allows the next one a whole pause after
/// that. Its pause stays, and so does whether waits are changed by chance.
pub proof fn slots_follow_each_other(limiter: &mut AdaptiveLimiter, now: Delay, wait: Delay)
    requires
        call_ensures(AdaptiveLimiter::acquire, (limiter, now), wait),
    ensures
        now@ + wait@ >= old(limiter)@.next_allowed_at,
        wait@ == 0 || now@ + wait@ == old(limiter)@.next_allowed_at,
        final(limiter)@.next_allowed_at == now@ + wait@ + old(limiter)@.delay,
        final(limiter)@.delay == old(limiter)@.delay,
        final(limiter)@.jitter == old(limiter)@.jitter,
{
}

/// A new limiter has the pause that it was given, and a first request is sent at once.
pub proof fn first_requests_are_sent_at_once(
    initial_delay: Delay,
    jitter: bool,
    now: Delay,
    limiter: &mut AdaptiveLimiter,
    wait: Delay,
)
    requires
        call_ensures(AdaptiveLimiter::new, (initial_delay, jitter, now), *old(limiter)),
        call_ensures(AdaptiveLimiter::acquire, (limiter, now), wait),
    ensures
        wait@ == 0,
        old(limiter)@.delay == initial_delay@,
        old(limiter)@.jitter == jitter,
        final(limiter)@.next_allowed_at == now@ + initial_delay@,
{
}

/// After a response a limiter's pause is what was handed in for it where the status is from
/// 200 to 399, 403, 429 or from 500 to 599, and what it was with any other; never less than 50
/// milliseconds and never more than a minute. When the next request may be sent stays, and so
/// does whether waits are changed by chance.
pub proof fn responses_change_the_pause(
    limiter: &mut AdaptiveLimiter,
    status: u16,
    scaled: Delay,
)
    requires
        call_ensures(AdaptiveLimiter::adjust, (limiter, status, scaled), ()),
    ensures
        ({
            let counts = 200 <= status <= 399 || status == 403 || status == 429 || 500 <= status
                <= 599;
            let pause = if counts {
                scaled@
            } else {
                old(limiter)@.delay
            };
            let after = final(limiter)@.delay;
            &&& 50_000_000 <= after <= 60_000_000_000
            &&& 50_000_000 <= pause <= 60_000_000_000 ==> after == pause
            &&& pause < 50_000_000 ==> after == 50_000_000
            &&& pause > 60_000_000_000 ==> after == 60_000_000_000
        }),
        final(limiter)@.next_allowed_at == old(limiter)@.next_allowed_at,
        final(limiter)@.jitter == old(limiter)@.jitter,
{
}

/// After a success, from 200 to 399, a pause is multiplied with 95 percent; after a refusal,
/// 403, with 120; after an error, 429 and from 500 to 599, with 150; and otherwise stays.
pub proof fn statuses_tell_the_percentage(status: u16, percent: u32)
    requires
        call_ensures(percent_of, (status,), percent),
    ensures
        200 <= status <= 399 ==> percent == 95,
        status == 403 ==> percent == 120,
        status == 429 || 500 <= status <= 599 ==> percent == 150,
        !(200 <= status <= 399) && status != 403 && status != 429 && !(500 <= status <= 599)
            ==> percent == 100,
{
}

/// Chance moves a wait by no more than what was handed in and no more than half a second, to
/// either side and not below nothing, and any span in that range can come; a limiter that does
/// not do that leaves the wait as it is, and so is no wait at all.
pub proof fn chance_moves_waits(limiter: AdaptiveLimiter, wait: Delay, quarter: Delay, r: Delay)
    requires
        call_ensures(AdaptiveLimiter::apply_jitter, (&limiter, wait, quarter), r),
    ensures
        !limiter@.jitter || wait@ == 0 ==> r@ == wait@,
        limiter@.jitter && wait@ > 0 ==> {
            let most: nat = if quarter@ <= 500_000_000 {
                quarter@
            } else {
                500_000_000
            };
            let least: nat = if most <= wait@ {
                (wait@ - most) as nat
            } else {
                0
            };
            least <= r@ <= wait@ + most && is_sampled(least, wait@ + most, r@)
        },
{
}

/// The bounds of what chance may make of a wait lie as far to either side of it, but not below
/// nothing.
pub proof fn bounds_lie_around_the_wait(
    limiter: AdaptiveLimiter,
    wait: Delay,
    quarter: Delay,
    r: (Delay, Delay),
)
    requires
        call_ensures(AdaptiveLimiter::jitter_bounds, (&limiter, wait, quarter), r),
        limiter@.jitter,
        wait@ > 0,
    ensures
        r.1@ - wait@ <= 500_000_000,
        r.1@ - wait@ <= quarter@,
        r.1@ - wait@ == quarter@ || r.1@ - wait@ == 500_000_000,
        r.0@ > 0 ==> wait@ - r.0@ == r.1@ - wait@,
        r.0@ == 0 ==> wait@ <= r.1@ - wait@,
{
}

/// With one limit for all requests, any two have the same name; with one for each domain, two
/// have where their schemes, hosts and ports are the same, and nowhere else.
pub proof fn names_tell_who_shares(
    middleware: RateLimitMiddleware,
    a: Request,
    b: Request,
    first: String,
    second: String,
)
    requires
        call_ensures(RateLimitMiddleware::scope_key, (&middleware, &a), first),
        call_ensures(RateLimitMiddleware::scope_key, (&middleware, &b), second),
        !a@.url.scheme.contains(':'),
        !b@.url.scheme.contains(':'),
        a@.url.host is Some,
        b@.url.host is Some,
        a@.url.port is Some,
        b@.url.port is Some,
    ensures
        middleware@.scope == Scope::Global ==> first@ == second@,
        middleware@.scope == Scope::Domain ==> (first@ == second@) == (a@.url.scheme
            == b@.url.scheme && a@.url.host == b@.url.host && a@.url.port == b@.url.port),
{
    origins_tell_apart(a@.url, b@.url);
}

/// A request is paced by the limiter that the cache gave for its name when it was asked, by a
/// new one that lets it through at once where the cache has none, and always by the one limiter
/// where all share it: it waits until that limiter allows it, and the limiter that is then kept
/// for the name allows the next request a pause later. Other names keep their limiters.
pub proof fn requests_are_paced_by_their_limiter(
    middleware: &mut RateLimitMiddleware,
    request: Request,
    now: Delay,
    pace: Pace,
    key: Seq<char>,
)
    requires
        call_ensures(RateLimitMiddleware::process_request, (middleware, &request, now), pace),
        old(middleware)@.scope == Scope::Global ==> key == "global"@,
        old(middleware)@.scope == Scope::Domain ==> key == origin_key(request@.url),
    ensures
        final(middleware)@.scope == old(middleware)@.scope,
        final(middleware)@.idle == old(middleware)@.idle,
        final(middleware)@.capacity == old(middleware)@.capacity,
        old(middleware)@.plan is TokenBucket || old(middleware)@.plan is Elsewhere ==> {
            pace matches Pace::Elsewhere(name) && name@ == key
        },
        old(middleware)@.plan is Own || old(middleware)@.plan is Shared ==> !(pace is Elsewhere),
        exists|cached: Option<LimiterView>| #[trigger]
            old(middleware).is_answer(key, cached) && (pace matches Pace::Wait(limiter, wait) ==> {
                &&& old(middleware)@.plan matches PlanView::Shared(one) ==> limiter@ == one
                &&& old(middleware)@.plan is Own && cached is Some ==> limiter@ == cached->0
                    && limiter@ == old(middleware)@.limiters[key]
                &&& old(middleware)@.plan is Own && cached is None ==> wait@ == 0 && limiter@
                    == (LimiterView {
                    delay: old(middleware)@.plan->Own_0,
                    next_allowed_at: now@,
                    jitter: old(middleware)@.plan->Own_1,
                })
            }),
        pace matches Pace::Wait(limiter, wait) ==> {
            let kept = final(middleware)@.limiters;
            &&& now@ + wait@ >= limiter@.next_allowed_at
            &&& wait@ == 0 || now@ + wait@ == limiter@.next_allowed_at
            &&& kept.contains_key(key)
            &&& kept[key].next_allowed_at == now@ + wait@ + limiter@.delay
            &&& kept[key].delay == limiter@.delay
            &&& kept[key].jitter == limiter@.jitter
            &&& old(middleware)@.plan is Shared ==> final(middleware)@.plan == PlanView::Shared(
                kept[key],
            )
            &&& old(middleware)@.plan is Own ==> final(middleware)@.plan == old(middleware)@.plan
        },
        forall|name: Seq<char>|
            name != key ==> (#[trigger] final(middleware)@.limiters.contains_key(name))
                == old(middleware)@.limiters.contains_key(name),
        forall|name: Seq<char>|
            name != key && old(middleware)@.limiters.contains_key(name) ==> #[trigger] final(
                middleware)@.limiters[name] == old(middleware)@.limiters[name],
        pace is OutOfTime ==> final(middleware)@ == old(middleware)@,
{
    assert(key == key_for(old(middleware)@.scope, request@));
    let cached = choose|cached: Option<LimiterView>| #[trigger]
        can_answer(old(middleware)@, key, cached) && old(middleware).is_answer(key, cached)
            && is_right_pace(
            old(middleware)@,
            key,
            cached,
            now@,
            pace,
            final(middleware)@,
        );
    assert(old(middleware).is_answer(key, cached));
}

/// Two requests of one name that come one after the other are sent at least a pause apart,
/// where all names share a limiter, or the cache still has the one of the name when it is asked
/// for the second. With one limit for all requests that is any two of them.
pub proof fn requests_of_a_name_are_apart(
    first: &mut RateLimitMiddleware,
    second: &mut RateLimitMiddleware,
    a: Request,
    b: Request,
    now: Delay,
    then: Delay,
    pace: Pace,
    next: Pace,
    key: Seq<char>,
)
    requires
        call_ensures(RateLimitMiddleware::process_request, (first, &a, now), pace),
        call_ensures(RateLimitMiddleware::process_request, (second, &b, then), next),
        *old(second) == *final(first),
        old(first)@.plan is Own || old(first)@.plan is Shared,
        old(first)@.scope == Scope::Global ==> key == "global"@,
        old(first)@.scope == Scope::Domain ==> key == origin_key(a@.url) && key == origin_key(
            b@.url,
        ),
        pace is Wait,
        next is Wait,
    ensures
        exists|cached: Option<LimiterView>| #[trigger]
            old(second).is_answer(key, cached) && (cached is Some || old(first)@.plan is Shared
                ==> then@ + next->Wait_1@ >= now@ + pace->Wait_1@ + pace->Wait_0@.delay),
{
    requests_are_paced_by_their_limiter(first, a, now, pace, key);
    requests_are_paced_by_their_limiter(second, b, then, next, key);
    let cached = choose|cached: Option<LimiterView>| #[trigger]
        old(second).is_answer(key, cached) && (next matches Pace::Wait(limiter, wait) ==> {
            &&& old(second)@.plan matches PlanView::Shared(one) ==> limiter@ == one
            &&& old(second)@.plan is Own && cached is Some ==> limiter@ == cached->0 && limiter@
                == old(second)@.limiters[key]
            &&& old(second)@.plan is Own && cached is None ==> wait@ == 0 && limiter@ == (
            LimiterView {
                delay: old(second)@.plan->Own_0,
                next_allowed_at: then@,
                jitter: old(second)@.plan->Own_1,
            })
        });
    assert(old(second).is_answer(key, cached));
}

/// The limiter that a response changes is the one that the cache gave for the name of what was
/// asked for, and the shared one where all share it and the cache knows the name; where the
/// cache has nothing there is none, and none where limiters are not adaptive.
pub proof fn responses_change_their_limiter(
    middleware: RateLimitMiddleware,
    response: Response,
    r: (String, Option<AdaptiveLimiter>),
)
    requires
        call_ensures(RateLimitMiddleware::limiter_of, (&middleware, &response), r),
    ensures
        middleware@.scope == Scope::Global ==> r.0@ == "global"@,
        middleware@.scope == Scope::Domain ==> r.0@ == origin_key(response@.request_url),
        exists|cached: Option<LimiterView>| #[trigger]
            middleware.is_answer(r.0@, cached) && {
                &&& cached is None ==> r.1 is None
                &&& cached is Some && middleware@.plan is Own ==> r.1 is Some && r.1->0@
                    == cached->0 && r.1->0@ == middleware@.limiters[r.0@]
                &&& cached is Some && middleware@.plan is Shared ==> r.1 is Some
                    && middleware@.plan == PlanView::Shared(r.1->0@)
                &&& !(middleware@.plan is Own) && !(middleware@.plan is Shared) ==> r.1 is None
            },
{
    let cached = choose|cached: Option<LimiterView>| #[trigger]
        can_answer(middleware@, r.0@, cached) && middleware.is_answer(r.0@, cached)
            && maybe_limiter(r.1) == match cached {
            Some(limiter) => limiter_now(middleware@, Some(limiter), 0),
            None => None,
        };
    assert(middleware.is_answer(r.0@, cached));
}

/// A limiter that a response has changed is kept for its name, and as the shared one where all
/// share it: its pause is what was handed in where the status is from 200 to 399, 403, 429 or
/// from 500 to 599, else as it was, held between 50 milliseconds and a minute.
pub proof fn changed_limiters_are_kept(
    middleware: &mut RateLimitMiddleware,
    key: &str,
    limiter: AdaptiveLimiter,
    status: u16,
    scaled: Delay,
)
    requires
        call_ensures(RateLimitMiddleware::adjust, (middleware, key, limiter, status, scaled), ()),
    ensures
        ({
            let counts = 200 <= status <= 399 || status == 403 || status == 429 || 500 <= status
                <= 599;
            let pause = if counts {
                scaled@
            } else {
                limiter@.delay
            };
            let kept = final(middleware)@.limiters;
            &&& kept.contains_key(key@)
            &&& 50_000_000 <= kept[key@].delay <= 60_000_000_000
            &&& 50_000_000 <= pause <= 60_000_000_000 ==> kept[key@].delay == pause
            &&& pause < 50_000_000 ==> kept[key@].delay == 50_000_000
            &&& pause > 60_000_000_000 ==> kept[key@].delay == 60_000_000_000
            &&& kept[key@].next_allowed_at == limiter@.next_allowed_at
            &&& kept[key@].jitter == limiter@.jitter
            &&& old(middleware)@.plan is Shared ==> final(middleware)@.plan == PlanView::Shared(
                kept[key@],
            )
            &&& !(old(middleware)@.plan is Shared) ==> final(middleware)@.plan
                == old(middleware)@.plan
        }),
        final(middleware)@.scope == old(middleware)@.scope,
        forall|name: Seq<char>|
            name != key@ && old(middleware)@.limiters.contains_key(name) ==> #[trigger] final(
                middleware)@.limiters[name] == old(middleware)@.limiters[name],
{
}

/// A builder limits each domain by an adaptive limiter of its own that begins with half a
/// second, changes waits by chance, is forgotten after an hour without use and is one of ten
/// thousand at most; what is set on it is kept by the middleware that it builds.
pub proof fn usual_limits(
    usual: RateLimitMiddlewareBuilder,
    builder: RateLimitMiddlewareBuilder,
    built: RateLimitMiddleware,
    scope: Scope,
    limiter: AdaptiveLimiter,
    rate: u32,
    with_scope: RateLimitMiddlewareBuilder,
    with_limiter: RateLimitMiddlewareBuilder,
    with_bucket: RateLimitMiddlewareBuilder,
)
    requires
        call_ensures(RateLimitMiddleware::builder, (), usual),
        call_ensures(RateLimitMiddlewareBuilder::build, (builder,), built),
        call_ensures(RateLimitMiddlewareBuilder::scope, (builder, scope), with_scope),
        call_ensures(RateLimitMiddlewareBuilder::limiter, (builder, limiter), with_limiter),
        call_ensures(
            RateLimitMiddlewareBuilder::use_token_bucket_limiter,
            (builder, rate),
            with_bucket,
        ),
    ensures
        usual@.scope == Scope::Domain,
        usual@.plan == PlanView::Own(500_000_000, true),
        usual@.idle == 3_600_000_000_000,
        usual@.capacity == 10_000,
        built@.scope == builder@.scope,
        built@.plan == builder@.plan,
        built@.idle == builder@.idle,
        built@.capacity == builder@.capacity,
        with_scope@.scope == scope,
        with_scope@.plan == builder@.plan,
        with_limiter@.scope == builder@.scope,
        with_limiter@.plan == PlanView::Shared(limiter@),
        with_bucket@.scope == builder@.scope,
        with_bucket@.plan == PlanView::TokenBucket(rate),
{
}

/// A token bucket gives out as many at once as it is for in a second, and each again after that
/// part of a second; it tells no pause.
pub proof fn buckets_hold_a_second(
    rate: u32,
    bucket: TokenBucketLimiter,
    burst: u32,
    interval: Delay,
    pause: Delay,
)
    requires
        rate > 0,
        call_ensures(TokenBucketLimiter::new, (rate,), bucket),
        call_ensures(TokenBucketLimiter::burst, (&bucket,), burst),
        call_ensures(TokenBucketLimiter::interval, (&bucket,), interval),
        call_ensures(TokenBucketLimiter::current_delay, (&bucket,), pause),
    ensures
        burst == rate,
        interval@ * rate <= 1_000_000_000,
        (interval@ + 1) * rate > 1_000_000_000,
        pause@ == 0,
{
    vstd::arithmetic::div_mod::lemma_fundamental_div_mod(1_000_000_000, rate as int);
    vstd::arithmetic::div_mod::lemma_mod_bound(1_000_000_000, rate as int);
    let q = interval@ as int;
    assert(q * rate == rate * q) by (nonlinear_arith);
    assert((q + 1) * rate == q * rate + rate) by (nonlinear_arith);
}

} // verus!
