//! The filter: what it does with a request, from one callback of the proxy to the next.
pub mod command;
pub mod http;
pub mod laws;
pub mod root;

pub use command::{Command, GrpcCall, LocalReply, Step};
pub use http::AuthzHttp;
pub use root::AuthzRoot;
