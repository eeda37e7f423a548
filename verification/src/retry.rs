//! Requests that failed are sent again.
use vstd::prelude::*;

use crate::delay::{Delay, NANOS_PER_SEC};
use crate::error::SpiderError;
use crate::middleware::MiddlewareAction;
use crate::request::{answered, one_more_attempt, Request, RequestView, Response};

verus! {

/// Sends requests again that failed, after a pause.
///
/// The pause doubles with every attempt; who calls computes it and hands it in.
#[derive(Debug, Clone)]
pub struct RetryMiddleware {
    /// How often a request is sent again at most.
    pub max_retries: u32,
    /// The status codes on which a request is sent again.
    pub retry_http_codes: Vec<u16>,
    /// The longest pause.
    pub max_delay: Delay,
}

/// Whether an error comes from a connection that was not made or took too long.
pub open spec fn is_passing(error: SpiderError) -> bool {
    error matches SpiderError::ReqwestError(details) && (details.is_connect || details.is_timeout)
}

/// The shorter of two spans.
pub open spec fn shorter(a: nat, b: nat) -> nat {
    if b < a {
        b
    } else {
        a
    }
}

/// Whether an action sends a request one more time after a pause, or drops it where it
/// was sent often enough.
pub open spec fn is_next_try<T>(
    action: MiddlewareAction<T>,
    retry: RetryMiddleware,
    request: RequestView,
    backoff: nat,
) -> bool {
    if request.meta.retry_attempts < retry.max_retries {
        action matches MiddlewareAction::Retry(q, pause) && q@ == one_more_attempt(request)
            && pause@ == shorter(backoff, retry.max_delay@)
    } else {
        action is Drop
    }
}

impl Default for RetryMiddleware {
    fn default() -> (r: Self)
        ensures
            r.max_retries == 3,
            r.retry_http_codes@ == seq![500u16, 502, 503, 504, 408, 429],
            r.max_delay@ == 180 * NANOS_PER_SEC,
    {
        RetryMiddleware {
            max_retries: 3,
            retry_http_codes: vec![500, 502, 503, 504, 408, 429],
            max_delay: Delay::from_secs(180),
        }
    }
}

impl RetryMiddleware {
    /// A middleware that sends a request again up to three times, on errors of the server
    /// and where it is busy, and pauses up to three minutes.
    pub fn new() -> (r: Self)
        ensures
            r.max_retries == 3,
            r.retry_http_codes@ == seq![500u16, 502, 503, 504, 408, 429],
            r.max_delay@ == 180 * NANOS_PER_SEC,
    {
        Self::default()
    }

    /// Sets how often a request is sent again at most.
    pub fn max_retries(self, max_retries: u32) -> (r: Self)
        ensures
            r == (RetryMiddleware { max_retries, ..self }),
    {
        RetryMiddleware { max_retries, ..self }
    }

    /// Sets the status codes on which a request is sent again.
    pub fn retry_http_codes(self, retry_http_codes: Vec<u16>) -> (r: Self)
        ensures
            r == (RetryMiddleware { retry_http_codes, ..self }),
    {
        RetryMiddleware { retry_http_codes, ..self }
    }

    /// Sets the longest pause.
    pub fn max_delay(self, max_delay: Delay) -> (r: Self)
        ensures
            r == (RetryMiddleware { max_delay, ..self }),
    {
        RetryMiddleware { max_delay, ..self }
    }

    /// The middleware's name.
    pub fn name(&self) -> (r: &str)
        ensures
            r@ == "RetryMiddleware"@,
    {
        "RetryMiddleware"
    }

    /// Lets a request go on.
    pub fn process_request(&self, request: Request) -> (r: Result<
        MiddlewareAction<Request>,
        SpiderError,
    >)
        ensures
            r matches Ok(MiddlewareAction::Continue(q)) && q == request,
    {
        Ok(MiddlewareAction::Continue(request))
    }

    /// Whether a request is sent again on a status code.
    fn retries_on(&self, status: u16) -> (r: bool)
        ensures
            r == self.retry_http_codes@.contains(status),
    {
        let mut i: usize = 0;
        while i < self.retry_http_codes.len()
            invariant
                i <= self.retry_http_codes.len(),
                forall|j: int| 0 <= j < i ==> self.retry_http_codes@[j] != status,
            decreases self.retry_http_codes.len() - i,
        {
            if self.retry_http_codes[i] == status {
                return true;
            }
            i += 1;
        }
        false
    }

    /// A pause, cut to the longest.
    fn calculate_delay(&self, backoff: Delay) -> (r: Delay)
        ensures
            r@ == shorter(backoff@, self.max_delay@),
    {
        backoff.min(self.max_delay)
    }

    /// Sends a request one more time, or drops it where it was sent often enough.
    fn next_try<T>(&self, request: Request, backoff: Delay) -> (r: MiddlewareAction<T>)
        ensures
            is_next_try(r, *self, request@, backoff@),
    {
        let attempts: u32 = request.get_retry_attempts();
        if attempts < self.max_retries {
            let request = request.with_one_more_attempt();
            MiddlewareAction::Retry(Box::new(request), self.calculate_delay(backoff))
        } else {
            MiddlewareAction::Drop
        }
    }

    /// After how many attempts a response makes its request be sent again; nothing where
    /// it does not.
    pub fn attempts_before_response(&self, response: &Response) -> (r: Option<u32>)
        ensures
            r == if self.retry_http_codes@.contains(response@.status)
                && response@.meta.retry_attempts < self.max_retries {
                Some(response@.meta.retry_attempts)
            } else {
                None
            },
    {
        let attempts: u32 = response.meta.retry_attempts();
        if self.retries_on(response.status) && attempts < self.max_retries {
            Some(attempts)
        } else {
            None
        }
    }

    /// Sends the request of a response again where its status asks for it. A request that
    /// was sent often enough is dropped.
    pub fn process_response(&self, response: Response, backoff: Delay) -> (r: Result<
        MiddlewareAction<Response>,
        SpiderError,
    >)
        ensures
            if self.retry_http_codes@.contains(response@.status) {
                r matches Ok(action) && is_next_try(
                    action,
                    *self,
                    answered(response@),
                    backoff@,
                )
            } else {
                r matches Ok(MiddlewareAction::Continue(p)) && p == response
            },
    {
        if self.retries_on(response.status) {
            let request = response.request_from_response();
            Ok(self.next_try(request, backoff))
        } else {
            Ok(MiddlewareAction::Continue(response))
        }
    }

    /// Whether an error comes from a connection that was not made or took too long.
    fn passes(error: &SpiderError) -> (r: bool)
        ensures
            r == is_passing(*error),
    {
        match error {
            SpiderError::ReqwestError(details) => details.is_connect || details.is_timeout,
            _ => false,
        }
    }

    /// After how many attempts an error makes its request be sent again; nothing where it
    /// does not.
    pub fn attempts_before_error(&self, request: &Request, error: &SpiderError) -> (r: Option<u32>)
        ensures
            r == if is_passing(*error) && request@.meta.retry_attempts < self.max_retries {
                Some(request@.meta.retry_attempts)
            } else {
                None
            },
    {
        let attempts: u32 = request.get_retry_attempts();
        if Self::passes(error) && attempts < self.max_retries {
            Some(attempts)
        } else {
            None
        }
    }

    /// Sends a request again whose connection was not made or took too long. Any other
    /// error stands.
    pub fn handle_error(&self, request: &Request, error: &SpiderError, backoff: Delay) -> (r:
        Result<MiddlewareAction<Request>, SpiderError>)
        ensures
            if is_passing(*error) {
                r matches Ok(action) && is_next_try(action, *self, request@, backoff@)
            } else {
                r matches Err(e) && e == *error
            },
    {
        if Self::passes(error) {
            Ok(self.next_try(request.copy(), backoff))
        } else {
            Err(error.copy())
        }
    }
}

/// A request that was sent again so many times.
pub open spec fn sent_again(request: RequestView, times: nat) -> RequestView
    decreases times,
{
    if times == 0 {
        request
    } else {
        one_more_attempt(sent_again(request, (times - 1) as nat))
    }
}

/// Whether each of so many tries of a request comes before the limit.
pub open spec fn tries_allowed(retry: RetryMiddleware, request: RequestView, times: nat) -> bool {
    forall|k: nat|
        k < times ==> (#[trigger] sent_again(request, k)).meta.retry_attempts < retry.max_retries
}

/// A request is never sent again more often than the limit says, and the last try that
/// fails is dropped.
pub proof fn retries_are_bounded(retry: RetryMiddleware, request: RequestView, times: nat)
    requires
        request.meta.retry_attempts <= retry.max_retries,
        tries_allowed(retry, request, times),
    ensures
        sent_again(request, times).meta.retry_attempts == request.meta.retry_attempts + times,
        request.meta.retry_attempts + times <= retry.max_retries,
        forall|action: MiddlewareAction<Response>, backoff: nat|
            request.meta.retry_attempts + times == retry.max_retries && #[trigger] is_next_try(
                action,
                retry,
                sent_again(request, times),
                backoff,
            ) ==> action is Drop,
    decreases times,
{
    if times > 0 {
        let fewer = (times - 1) as nat;
        assert(tries_allowed(retry, request, fewer)) by {
            assert forall|k: nat| k < fewer implies (#[trigger] sent_again(
                request,
                k,
            )).meta.retry_attempts < retry.max_retries by {
                assert(k < times);
            }
        }
        retries_are_bounded(retry, request, fewer);
        assert(sent_again(request, fewer).meta.retry_attempts < retry.max_retries);
    }
}

/// A pause is never longer than the longest.
pub proof fn pauses_are_bounded(
    action: MiddlewareAction<Response>,
    retry: RetryMiddleware,
    request: RequestView,
    backoff: nat,
)
    requires
        is_next_try(action, retry, request, backoff),
    ensures
        action matches MiddlewareAction::Retry(_, pause) ==> pause@ <= retry.max_delay@ && pause@
            <= backoff,
{
}

/// However often a request is sent again, it asks for the same in the same way, with the same
/// header fields, body and metadata; only the count of its attempts grows, by one each time.
pub proof fn requests_sent_again_stay_the_same(request: RequestView, times: nat)
    requires
        request.meta.retry_attempts + times <= u32::MAX,
    ensures
        sent_again(request, times).url == request.url,
        sent_again(request, times).method == request.method,
        sent_again(request, times).headers == request.headers,
        sent_again(request, times).body == request.body,
        sent_again(request, times).meta.values == request.meta.values,
        sent_again(request, times).meta.retry_attempts == request.meta.retry_attempts + times,
    decreases times,
{
    if times > 0 {
        requests_sent_again_stay_the_same(request, (times - 1) as nat);
    }
}

/// After an error by which no connection was made or the time ran out, the same request is
/// sent again with one more attempt counted, after the pause that was handed in or the longest
/// where that is shorter; one that had all its attempts is dropped. Any other error stands.
pub proof fn errors_are_retried(
    retry: RetryMiddleware,
    request: Request,
    error: SpiderError,
    backoff: Delay,
    r: Result<MiddlewareAction<Request>, SpiderError>,
)
    requires
        call_ensures(RetryMiddleware::handle_error, (&retry, &request, &error, backoff), r),
    ensures
        match error {
            SpiderError::ReqwestError(details) => if !details.is_connect && !details.is_timeout {
                r == Err::<MiddlewareAction<Request>, SpiderError>(error)
            } else if request@.meta.retry_attempts >= retry.max_retries {
                r matches Ok(MiddlewareAction::Drop)
            } else {
                &&& r matches Ok(MiddlewareAction::Retry(again, pause))
                    && again@.url == request@.url && again@.method == request@.method
                    && again@.headers == request@.headers && again@.body == request@.body
                    && again@.meta.values == request@.meta.values
                    && again@.meta.retry_attempts == request@.meta.retry_attempts + 1
                    && pause@ <= backoff@ && pause@ <= retry.max_delay@ && (pause@ == backoff@
                    || pause@ == retry.max_delay@)
            },
            _ => r == Err::<MiddlewareAction<Request>, SpiderError>(error),
        },
{
}

/// After a response with one of the status codes, what it was asked for is asked for again
/// with one more attempt counted, after the pause that was handed in or the longest where
/// that is shorter; where all attempts were made it is dropped. Any other response goes on as
/// it is.
pub proof fn responses_are_retried(
    retry: RetryMiddleware,
    response: Response,
    backoff: Delay,
    r: Result<MiddlewareAction<Response>, SpiderError>,
)
    requires
        call_ensures(RetryMiddleware::process_response, (&retry, response, backoff), r),
    ensures
        (forall|i: int|
            0 <= i < retry.retry_http_codes@.len() ==> #[trigger] retry.retry_http_codes@[i]
                != response.status) ==> r == Ok::<MiddlewareAction<Response>, SpiderError>(
            MiddlewareAction::Continue(response),
        ),
        forall|i: int|
            0 <= i < retry.retry_http_codes@.len() && #[trigger] retry.retry_http_codes@[i]
                == response.status && response@.meta.retry_attempts >= retry.max_retries
                ==> (r matches Ok(MiddlewareAction::Drop)),
        forall|i: int|
            0 <= i < retry.retry_http_codes@.len() && #[trigger] retry.retry_http_codes@[i]
                == response.status && response@.meta.retry_attempts < retry.max_retries ==> {
                &&& r matches Ok(MiddlewareAction::Retry(again, pause))
                    && again@.url == response@.request_url && again@.method == "GET"@
                    && again@.body is None && again@.meta.values == response@.meta.values
                    && again@.meta.retry_attempts == response@.meta.retry_attempts + 1
                    && pause@ <= backoff@ && pause@ <= retry.max_delay@ && (pause@ == backoff@
                    || pause@ == retry.max_delay@)
            },
{
}

/// Requests go on as they are.
pub proof fn requests_are_not_held_up(
    retry: RetryMiddleware,
    request: Request,
    r: Result<MiddlewareAction<Request>, SpiderError>,
)
    requires
        call_ensures(RetryMiddleware::process_request, (&retry, request), r),
    ensures
        r == Ok::<MiddlewareAction<Request>, SpiderError>(MiddlewareAction::Continue(request)),
{
}

/// The count that a pause is computed from is told exactly where the request is sent again,
/// and is how often it was tried before.
pub proof fn pauses_are_asked_for_where_they_are_needed(
    retry: RetryMiddleware,
    request: Request,
    error: SpiderError,
    response: Response,
    backoff: Delay,
    before_error: Option<u32>,
    before_response: Option<u32>,
    after_error: Result<MiddlewareAction<Request>, SpiderError>,
    after_response: Result<MiddlewareAction<Response>, SpiderError>,
)
    requires
        call_ensures(
            RetryMiddleware::attempts_before_error,
            (&retry, &request, &error),
            before_error,
        ),
        call_ensures(
            RetryMiddleware::handle_error,
            (&retry, &request, &error, backoff),
            after_error,
        ),
        call_ensures(
            RetryMiddleware::attempts_before_response,
            (&retry, &response),
            before_response,
        ),
        call_ensures(
            RetryMiddleware::process_response,
            (&retry, response, backoff),
            after_response,
        ),
    ensures
        before_error is Some == (after_error matches Ok(MiddlewareAction::Retry(_, _))),
        before_error is Some ==> before_error->0 == request@.meta.retry_attempts,
        before_response is Some == (after_response matches Ok(MiddlewareAction::Retry(_, _))),
        before_response is Some ==> before_response->0 == response@.meta.retry_attempts,
{
}

/// A new middleware tries three times, on the codes for errors of the server and for being
/// asked to wait, with pauses of up to three minutes.
pub proof fn usual_retries(retry: RetryMiddleware)
    requires
        call_ensures(RetryMiddleware::new, (), retry),
    ensures
        retry.max_retries == 3,
        forall|status: u16| #[trigger]
            retry.retry_http_codes@.contains(status) <==> (status == 408 || status == 429 || status
                == 500 || status == 502 || status == 503 || status == 504),
        retry.max_delay@ == 180_000_000_000,
{
    let codes = retry.retry_http_codes@;
    assert(codes[0] == 500 && codes[1] == 502 && codes[2] == 503 && codes[3] == 504 && codes[4]
        == 408 && codes[5] == 429);
}

} // verus!
