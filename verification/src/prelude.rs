//! The items that are used most.
pub use crate::cookies::CookieMiddleware;
pub use crate::http_cache::HttpCacheMiddleware;
pub use crate::middleware::MiddlewareAction;
pub use crate::proxy::ProxyMiddleware;
pub use crate::rate_limit::RateLimitMiddleware;
pub use crate::referer::RefererMiddleware;
pub use crate::request::{Request, Response};
pub use crate::retry::RetryMiddleware;
pub use crate::robots_txt::RobotsTxtMiddleware;
pub use crate::user_agent::UserAgentMiddleware;
