//! What can go wrong in a crawl.
use vstd::prelude::*;

verus! {

/// An error of the crawler or of one of its middlewares.
#[derive(Debug)]
pub enum SpiderError {
    /// A request failed before a response came.
    ReqwestError(ReqwestErrorDetails),
    /// Reading or writing failed.
    IoError(String),
    /// The configuration cannot be used.
    ConfigurationError(String),
    /// A text is no URL.
    UrlParseError(String),
    /// A header's value is not text.
    HeaderValueError(String),
    /// A text cannot be a header's value.
    InvalidHeaderValueError(String),
    /// The site's robots.txt forbids the request.
    BlockedByRobotsTxt,
    /// Any other error.
    GeneralError(String),
}

/// How a request failed.
#[derive(Debug)]
pub struct ReqwestErrorDetails {
    /// What happened, in words.
    pub message: String,
    /// No connection could be made.
    pub is_connect: bool,
    /// The time ran out.
    pub is_timeout: bool,
}

/// An error, taken by its words.
pub enum SpiderErrorView {
    /// A request failed before a response came.
    ReqwestError {
        /// What happened, in words.
        message: Seq<char>,
        /// No connection could be made.
        is_connect: bool,
        /// The time ran out.
        is_timeout: bool,
    },
    /// Reading or writing failed.
    IoError(Seq<char>),
    /// The configuration cannot be used.
    ConfigurationError(Seq<char>),
    /// A text is no URL.
    UrlParseError(Seq<char>),
    /// A header's value is not text.
    HeaderValueError(Seq<char>),
    /// A text cannot be a header's value.
    InvalidHeaderValueError(Seq<char>),
    /// The site's robots.txt forbids the request.
    BlockedByRobotsTxt,
    /// Any other error.
    GeneralError(Seq<char>),
}

impl View for SpiderError {
    type V = SpiderErrorView;

    open spec fn view(&self) -> SpiderErrorView {
        match self {
            SpiderError::ReqwestError(d) => SpiderErrorView::ReqwestError {
                message: d.message@,
                is_connect: d.is_connect,
                is_timeout: d.is_timeout,
            },
            SpiderError::IoError(m) => SpiderErrorView::IoError(m@),
            SpiderError::ConfigurationError(m) => SpiderErrorView::ConfigurationError(m@),
            SpiderError::UrlParseError(m) => SpiderErrorView::UrlParseError(m@),
            SpiderError::HeaderValueError(m) => SpiderErrorView::HeaderValueError(m@),
            SpiderError::InvalidHeaderValueError(m) => SpiderErrorView::InvalidHeaderValueError(m@),
            SpiderError::BlockedByRobotsTxt => SpiderErrorView::BlockedByRobotsTxt,
            SpiderError::GeneralError(m) => SpiderErrorView::GeneralError(m@),
        }
    }
}

impl SpiderError {
    /// The same error again.
    pub fn copy(&self) -> (r: SpiderError)
        ensures
            r == *self,
    {
        match self {
            SpiderError::ReqwestError(d) => SpiderError::ReqwestError(
                ReqwestErrorDetails {
                    message: d.message.clone(),
                    is_connect: d.is_connect,
                    is_timeout: d.is_timeout,
                },
            ),
            SpiderError::IoError(m) => SpiderError::IoError(m.clone()),
            SpiderError::ConfigurationError(m) => SpiderError::ConfigurationError(m.clone()),
            SpiderError::UrlParseError(m) => SpiderError::UrlParseError(m.clone()),
            SpiderError::HeaderValueError(m) => SpiderError::HeaderValueError(m.clone()),
            SpiderError::InvalidHeaderValueError(m) => SpiderError::InvalidHeaderValueError(
                m.clone(),
            ),
            SpiderError::BlockedByRobotsTxt => SpiderError::BlockedByRobotsTxt,
            SpiderError::GeneralError(m) => SpiderError::GeneralError(m.clone()),
        }
    }
}

/// What is told of an error is its kind and its words, and of a request that failed how it did.
pub proof fn errors_are_told_by_their_words(error: SpiderError)
    ensures
        error matches SpiderError::ReqwestError(d) ==> error@ == (SpiderErrorView::ReqwestError {
            message: d.message@,
            is_connect: d.is_connect,
            is_timeout: d.is_timeout,
        }),
        error matches SpiderError::IoError(m) ==> error@ == SpiderErrorView::IoError(m@),
        error matches SpiderError::ConfigurationError(m) ==> error@
            == SpiderErrorView::ConfigurationError(m@),
        error matches SpiderError::UrlParseError(m) ==> error@ == SpiderErrorView::UrlParseError(
            m@,
        ),
        error matches SpiderError::HeaderValueError(m) ==> error@
            == SpiderErrorView::HeaderValueError(m@),
        error matches SpiderError::InvalidHeaderValueError(m) ==> error@
            == SpiderErrorView::InvalidHeaderValueError(m@),
        error is BlockedByRobotsTxt ==> error@ == SpiderErrorView::BlockedByRobotsTxt,
        error matches SpiderError::GeneralError(m) ==> error@ == SpiderErrorView::GeneralError(
            m@,
        ),
{
}

/// A copy of an error is the same error.
pub proof fn copied_errors_are_the_same(error: SpiderError, copy: SpiderError)
    requires
        call_ensures(SpiderError::copy, (&error,), copy),
    ensures
        copy@ == error@,
        copy == error,
{
}

} // verus!
