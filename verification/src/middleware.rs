//! What a middleware answers.
use vstd::prelude::*;

use crate::delay::Delay;
use crate::error::{SpiderError, SpiderErrorView};
use crate::request::{Request, RequestView, Response};

verus! {

/// What is to be done with an item that went through a middleware.
#[derive(Debug)]
pub enum MiddlewareAction<T> {
    /// Go on with the item.
    Continue(T),
    /// Send the request again after the span of time.
    Retry(Box<Request>, Delay),
    /// Go no further with the item.
    Drop,
    /// Take the response, and send nothing.
    ReturnResponse(Response),
}

/// What an answer to a request says.
pub open spec fn answer_is(
    r: Result<MiddlewareAction<Request>, SpiderError>,
    expected: Result<RequestView, SpiderErrorView>,
) -> bool {
    match expected {
        Ok(q) => r matches Ok(MiddlewareAction::Continue(p)) && p@ == q,
        Err(e) => r matches Err(f) && f@ == e,
    }
}

/// The error where a request's header fields are so many that no more can be set.
pub open spec fn crowded_error() -> SpiderErrorView {
    SpiderErrorView::GeneralError("size overflows MAX_SIZE"@)
}

/// The error where a request's header fields are so many that no more can be set.
pub fn crowded() -> (r: SpiderError)
    ensures
        r@ == crowded_error(),
{
    SpiderError::GeneralError("size overflows MAX_SIZE".to_owned())
}

/// Whether an answer to a request is the expected one, or the error that its header fields
/// are too many where they can be.
pub open spec fn answer_unless_crowded(
    r: Result<MiddlewareAction<Request>, SpiderError>,
    expected: Result<RequestView, SpiderErrorView>,
    can_be_crowded: bool,
) -> bool {
    answer_is(r, expected) || (can_be_crowded && answer_is(r, Err(crowded_error())))
}

} // verus!
