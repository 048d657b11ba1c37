//! A small request-dispatch and authentication kernel: a path router with
//! parameterized and wildcard segments, an ordered middleware chain with
//! short-circuiting, a lock-guarded shared counter, and a credential/token
//! authentication service.

pub mod strutil;
pub mod route;
pub mod table;
pub mod context;
pub mod counter;
pub mod dispatch;
pub mod auth;
