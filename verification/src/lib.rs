//! A small HTTP request dispatcher: a request parser, a path router and the
//! job queue of a fixed-size worker pool.

pub mod http;
pub mod pool;
pub mod response;
pub mod router;
pub mod text;

pub use http::{HttpRequest, ParseError};
pub use pool::{JobQueue, PoolError, Step};
pub use response::Status;
pub use router::{Dispatch, Route, RouteSegment, Router};
