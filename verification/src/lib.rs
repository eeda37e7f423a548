//! Middleware for a web crawler.
//!
//! Each middleware is a state and the rules by which requests, responses and errors change
//! it and are answered. What depends on files, clocks or connections is handed in.
pub mod agents;
pub mod cache;
pub mod chance;
pub mod cookies;
pub mod delay;
pub mod encoding;
pub mod error;
pub mod files;
pub mod headers;
pub mod http_cache;
pub mod jar;
pub mod meta;
pub mod middleware;
pub mod number;
pub mod prelude;
pub mod proxy;
pub mod rate_limit;
pub mod referer;
pub mod request;
pub mod retry;
pub mod robots_txt;
pub mod slots;
pub mod text;
pub mod user_agent;
pub mod weburl;
