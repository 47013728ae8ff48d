//! The request and response engine of an embeddable HTTP/1.1 origin server:
//! the head parser, the body reader (URL-encoded and streamed multipart
//! forms), the routing table, the response builder and writer (byte ranges,
//! chunked transfer, `HEAD`), and the decisions of the connection loop.
//!
//! The library decides and the caller does the I/O: functions here take the
//! bytes that were read and say what to write, read or close next.
use vstd::prelude::*;

pub mod body;
pub mod bytes;
pub mod connection;
pub mod form;
pub mod head;
pub mod headers;
pub mod laws;
pub mod mime;
pub mod multipart;
pub mod range;
pub mod request;
pub mod response;
pub mod router;
pub mod server;
pub mod table;
pub mod text;

pub use body::{BodyContent, BodyPlan, HasBody};
pub use connection::{ConnAction, ConnEvent, ConnState};
pub use form::FieldMap;
pub use head::{Head, HeadRead, HeadReader};
pub use headers::HeaderMap;
pub use multipart::{MultipartAction, MultipartReader, MultipleFormData, MultipleFormFile};
pub use range::ResponseRangeMeta;
pub use request::Request;
pub use response::{BodyType, Response, ResponseChunkMeta, ResponseConfig, WritePlan};
pub use router::{RouteMatch, RouteTable};
pub use server::{EndPoint, RoundRobin, SerializationMethods, ServerConfig};
pub use table::{
    get_httpmethod_from_code, CONNECT, DELETE, GET, HEAD, OPTIONS, PATCH, POST, PUT, TRACE,
};

verus! {

} // verus!
