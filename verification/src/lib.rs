//! The message layer of a forward HTTP proxy: incremental parsing and
//! serialisation of requests and responses, the buffering rules of a
//! connection, and the per-exchange steps of the proxy.

pub mod text;
pub mod headers;
pub mod parsable;
pub mod head;
pub mod target;
pub mod request;
pub mod response;
pub mod connection;
pub mod proxy;

pub use connection::{ConnResult, ReadEvent, Received, Receiver, Sender, Sent, WriteEvent};
pub use headers::{Header, Headers};
pub use parsable::{parse_body, parse_chunked, Parsable, ParseErrorKind, ParseStatus, Sendable};
pub use proxy::{Action, Ending, Event, Exchange};
pub use request::Request;
pub use response::Response;
