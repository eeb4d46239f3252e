//! The exact-match router: GET handlers kept by their uri.

use vstd::prelude::*;
use crate::buffers::{bytes_slice, bytes_static};
use crate::bytemap::ByteMap;
use super::handler::{RequestBuilder, ResponseBuilder, RequestHandler, Request, HandlerRequestView};
use super::protocol::Protocol;
use super::method::RequestMethod;

verus! {

#[verifier::external_type_specification]
#[verifier::external_body]
pub struct ExIoError(std::io::Error);

/// `std::io::Error::from(std::io::ErrorKind::NotFound)`: an error of kind
/// NotFound. Nothing is stated of the value.
#[verifier::external_body]
fn not_found() -> std::io::Error {
    std::io::Error::from(std::io::ErrorKind::NotFound)
}

/// A handler sees what was set: the request that `route` and `call` hand
/// on, built from a builder whose headers and query parameters were set,
/// holds exactly those headers and query parameters, and the uri set.
pub proof fn law_handler_sees_what_was_set(
    before: HandlerRequestView,
    headers: Map<Seq<u8>, Seq<u8>>,
    query_params: Map<Seq<u8>, Seq<u8>>,
    handed: HandlerRequestView,
)
    requires
        handed == (HandlerRequestView {
            method: RequestMethod::Get,
            protocol: Protocol::HTTP1,
            body: None,
            ..HandlerRequestView { headers, query_params, ..before }
        }),
    ensures
        forall|k: Seq<u8>| #[trigger] handed.headers.dom().contains(k) <==> headers.dom().contains(k),
        forall|k: Seq<u8>| headers.dom().contains(k) ==> #[trigger] handed.headers[k] == headers[k],
        forall|k: Seq<u8>| #[trigger] handed.query_params.dom().contains(k) <==> query_params.dom().contains(k),
        forall|k: Seq<u8>| query_params.dom().contains(k) ==> #[trigger] handed.query_params[k] == query_params[k],
        handed.uri == before.uri,
{
}

/// GET handlers by uri.
pub struct Router<H> {
    get: ByteMap<H>,
}

impl<H> Router<H> {
    /// The handlers by uri.
    pub closed spec fn handlers(&self) -> Map<Seq<u8>, H> {
        self.get.as_map()
    }

    /// A router with no handler.
    pub fn new() -> (r: Router<H>)
        ensures
            r.handlers() == Map::<Seq<u8>, H>::empty(),
    {
        Router { get: ByteMap::new() }
    }

    /// Registers the handler for GET requests to exactly this uri,
    /// replacing any handler it had.
    pub fn get(&mut self, uri: &'static [u8], callback: H)
        ensures
            final(self).handlers() == old(self).handlers().insert(uri@, callback),
    {
        self.get.insert(bytes_static(uri), callback);
    }

    /// The handler for a request and the request as the handler gets it:
    /// built from the builder, so a GET of HTTP/1 without body, with the
    /// uri, headers and query parameters that were set. `None` when no
    /// handler is registered for the uri.
    pub fn route(&self, request_builder: RequestBuilder) -> (r: Option<(&H, Request)>)
        ensures
            match r {
                Some((h, request)) => {
                    &&& self.handlers().dom().contains(request_builder@.uri)
                    &&& *h == self.handlers()[request_builder@.uri]
                    &&& request@ == (HandlerRequestView {
                        method: RequestMethod::Get,
                        protocol: Protocol::HTTP1,
                        body: None,
                        ..request_builder@
                    })
                },
                None => !self.handlers().dom().contains(request_builder@.uri),
            },
    {
        let request = request_builder.build();
        match request.get_method() {
            RequestMethod::Get => match self.get.get(bytes_slice(request.get_uri())) {
                Some(handler) => Some((handler, request)),
                None => None,
            },
            _ => None,
        }
    }

    /// Builds the request and hands it to the handler of its uri (see
    /// `route`); an error (of kind NotFound) when no handler is registered
    /// for the uri. What comes back is what that handler gave, called on
    /// the built request.
    pub fn call(&self, request_builder: RequestBuilder) -> (r: std::io::Result<ResponseBuilder>)
        where H: RequestHandler
        ensures
            r is Ok <==> self.handlers().dom().contains(request_builder@.uri),
            r matches Ok(x) ==> exists|req: Request| {
                &&& req@ == (HandlerRequestView {
                    method: RequestMethod::Get,
                    protocol: Protocol::HTTP1,
                    body: None,
                    ..request_builder@
                })
                &&& call_ensures(H::action, (&self.handlers()[request_builder@.uri], req), x)
            },
    {
        match self.route(request_builder) {
            Some((handler, request)) => Ok(handler.action(request)),
            None => Err(not_found()),
        }
    }
}

} // verus!
