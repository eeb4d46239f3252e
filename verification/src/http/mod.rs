//! HTTP messages as byte buffers: the incremental request reader, the
//! request builder, the response and its wire form.

pub mod method;
pub mod status;
pub mod reader;
pub mod request;
pub mod response;

pub use self::request::{RequestBuilder, Request, QueryStringValue};
pub use self::reader::{HttpReader, Event};
pub use self::status::Status;
pub use self::response::Response;
