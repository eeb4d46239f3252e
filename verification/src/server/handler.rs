//! Requests as the exact-match router hands them to handlers, and the
//! responses that handlers give back.

use vstd::prelude::*;
use bytes::Bytes;
use crate::buffers::{bytes_seq, bytes_slice, bytes_empty, bytes_static};
use crate::bytemap::ByteMap;
use crate::http::request::bytes_map_view;
use super::method::RequestMethod;
use super::protocol::Protocol;
use super::status::Status;

verus! {

/// What a route does with a request.
pub trait RequestHandler {
    fn action(&self, request: Request) -> ResponseBuilder;
}

/// A request under construction.
pub struct RequestBuilder {
    method: RequestMethod,
    protocol: Protocol,
    uri: Bytes,
    headers: ByteMap<Bytes>,
    query_params: ByteMap<Bytes>,
    body: Option<Bytes>,
}

/// A request as mathematical values.
pub ghost struct HandlerRequestView {
    pub method: RequestMethod,
    pub protocol: Protocol,
    pub uri: Seq<u8>,
    pub headers: Map<Seq<u8>, Seq<u8>>,
    pub query_params: Map<Seq<u8>, Seq<u8>>,
    pub body: Option<Seq<u8>>,
}

/// An optional byte handle as an optional byte string.
pub open spec fn opt_bytes(b: Option<Bytes>) -> Option<Seq<u8>> {
    match b {
        Some(x) => Some(bytes_seq(x)),
        None => None,
    }
}

/// An optional borrowed byte handle as an optional byte string.
pub open spec fn opt_ref_bytes(b: Option<&Bytes>) -> Option<Seq<u8>> {
    match b {
        Some(x) => Some(bytes_seq(*x)),
        None => None,
    }
}

impl View for RequestBuilder {
    type V = HandlerRequestView;

    closed spec fn view(&self) -> HandlerRequestView {
        HandlerRequestView {
            method: self.method,
            protocol: self.protocol,
            uri: bytes_seq(self.uri),
            headers: bytes_map_view(self.headers),
            query_params: bytes_map_view(self.query_params),
            body: opt_bytes(self.body),
        }
    }
}

impl RequestBuilder {
    /// An empty request: unknown method and protocol, empty uri, no
    /// headers, parameters or body.
    pub fn new() -> (r: RequestBuilder)
        ensures
            r@ == (HandlerRequestView {
                method: RequestMethod::Unknown,
                protocol: Protocol::UNKNOWN,
                uri: Seq::empty(),
                headers: Map::empty(),
                query_params: Map::empty(),
                body: None,
            }),
    {
        let r = RequestBuilder {
            method: RequestMethod::Unknown,
            protocol: Protocol::UNKNOWN,
            uri: bytes_empty(),
            headers: ByteMap::new(),
            query_params: ByteMap::new(),
            body: None,
        };
        assert(r@.headers =~= Map::empty());
        assert(r@.query_params =~= Map::empty());
        r
    }

    pub fn set_method(&mut self, method: RequestMethod) -> (r: &mut Self)
        ensures
            *final(self) == *final(r),
            r@ == (HandlerRequestView { method, ..old(self)@ }),
    {
        self.method = method;
        self
    }

    pub fn set_protocol(&mut self, protocol: Protocol) -> (r: &mut Self)
        ensures
            *final(self) == *final(r),
            r@ == (HandlerRequestView { protocol, ..old(self)@ }),
    {
        self.protocol = protocol;
        self
    }

    pub fn set_uri(&mut self, uri: Bytes) -> (r: &mut Self)
        ensures
            *final(self) == *final(r),
            r@ == (HandlerRequestView { uri: bytes_seq(uri), ..old(self)@ }),
    {
        self.uri = uri;
        self
    }

    pub fn set_headers(&mut self, headers: ByteMap<Bytes>) -> (r: &mut Self)
        ensures
            *final(self) == *final(r),
            r@ == (HandlerRequestView { headers: bytes_map_view(headers), ..old(self)@ }),
    {
        self.headers = headers;
        self
    }

    pub fn set_query_params(&mut self, query_params: ByteMap<Bytes>) -> (r: &mut Self)
        ensures
            *final(self) == *final(r),
            r@ == (HandlerRequestView { query_params: bytes_map_view(query_params), ..old(self)@ }),
    {
        self.query_params = query_params;
        self
    }

    pub fn set_body(&mut self, body: Bytes) -> (r: &mut Self)
        ensures
            *final(self) == *final(r),
            r@ == (HandlerRequestView { body: Some(bytes_seq(body)), ..old(self)@ }),
    {
        self.body = Some(body);
        self
    }

    /// The request: its uri, headers and query parameters as set, its
    /// method GET and protocol HTTP/1 whatever was set, and no body.
    pub fn build(self) -> (r: Request)
        ensures
            r@ == (HandlerRequestView {
                method: RequestMethod::Get,
                protocol: Protocol::HTTP1,
                body: None,
                ..self@
            }),
    {
        Request {
            method: RequestMethod::Get,
            protocol: Protocol::HTTP1,
            uri: self.uri,
            headers: self.headers,
            query_params: self.query_params,
            body: None,
        }
    }
}

/// A request.
pub struct Request {
    method: RequestMethod,
    protocol: Protocol,
    uri: Bytes,
    headers: ByteMap<Bytes>,
    query_params: ByteMap<Bytes>,
    body: Option<Bytes>,
}

impl View for Request {
    type V = HandlerRequestView;

    closed spec fn view(&self) -> HandlerRequestView {
        HandlerRequestView {
            method: self.method,
            protocol: self.protocol,
            uri: bytes_seq(self.uri),
            headers: bytes_map_view(self.headers),
            query_params: bytes_map_view(self.query_params),
            body: opt_bytes(self.body),
        }
    }
}

impl Request {
    pub fn get_method(&self) -> (m: &RequestMethod)
        ensures
            *m == self@.method,
    {
        &self.method
    }

    pub fn get_uri(&self) -> (u: &Bytes)
        ensures
            bytes_seq(*u) == self@.uri,
    {
        &self.uri
    }

    /// The value of a header.
    pub fn get_header(&self, header_name: &Bytes) -> (v: Option<&Bytes>)
        ensures
            opt_ref_bytes(v) == (if self@.headers.dom().contains(bytes_seq(*header_name)) {
                Some(self@.headers[bytes_seq(*header_name)])
            } else {
                None
            }),
    {
        self.headers.get(bytes_slice(header_name))
    }

    /// The value of a query parameter.
    pub fn get_query_param(&self, query_param_name: &Bytes) -> (v: Option<&Bytes>)
        ensures
            opt_ref_bytes(v) == (if self@.query_params.dom().contains(bytes_seq(*query_param_name)) {
                Some(self@.query_params[bytes_seq(*query_param_name)])
            } else {
                None
            }),
    {
        self.query_params.get(bytes_slice(query_param_name))
    }
}

/// A handler's response.
pub struct ResponseBuilder {
    protocol: Protocol,
    status: Status,
    headers: Vec<(Bytes, Bytes)>,
    body: Option<Bytes>,
}

impl ResponseBuilder {
    /// The body of the response, if any.
    pub closed spec fn body(&self) -> Option<Seq<u8>> {
        opt_bytes(self.body)
    }

    /// A response of HTTP/1, status OK, no headers, and the given body.
    pub fn new(body: Bytes) -> (r: ResponseBuilder)
        ensures
            r.body() == Some(bytes_seq(body)),
    {
        ResponseBuilder { protocol: Protocol::HTTP1, status: Status::OK, headers: Vec::new(), body: Some(body) }
    }

    /// The bytes that are sent for the response: its body, or nothing.
    pub fn into_bytes(self) -> (b: Bytes)
        ensures
            bytes_seq(b) == (match self.body() { Some(s) => s, None => Seq::empty() }),
    {
        match self.body {
            Some(b) => b,
            None => {
                let empty: &'static [u8] = &[];
                assert(empty@ =~= Seq::<u8>::empty());
                bytes_static(empty)
            },
        }
    }
}

} // verus!
