//! Request buffering, response rendering and task scheduling for small
//! non-blocking HTTP servers.
pub mod attempt;
pub mod blocking;
pub mod clock;
pub mod conversation;
pub mod exchange;
pub mod history;
pub mod minitokio;
pub mod mio_mt;
pub mod mio_st;
pub mod ready_queue;
pub mod registry;
pub mod request;
pub mod request_buf;
pub mod response;
pub mod session;
pub mod transcript;

pub use request::process_request;
pub use request_buf::{RequestBuf, RequestError};
