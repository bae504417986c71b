//! A micro web framework: a request passes through an ordered chain of
//! middleware, and a router dispatches it by method and path pattern.
pub mod context;
pub mod extensions;
pub mod middleware;
pub mod regex_pattern;
pub mod request;
pub mod result;
pub mod router;
pub mod susanoo;

pub use context::Context;
pub use extensions::Extensions;
pub use middleware::{Chain, Middleware};
pub use regex_pattern::{InvalidPattern, OwnedCaptures, RegexPattern};
pub use request::{HttpVersion, Method, Request};
pub use result::{Failure, Response};
pub use router::{NoRoute, Router};
pub use susanoo::Susanoo;
