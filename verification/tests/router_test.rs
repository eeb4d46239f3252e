use bytes::Bytes;
use express::bytemap::ByteMap;
use express::server::handler::{Request, RequestBuilder, RequestHandler, ResponseBuilder};
use express::server::method::RequestMethod;
use express::server::protocol::Protocol;
use express::server::router::Router;
use rand::distributions::Alphanumeric;
use rand::{thread_rng, Rng};
use std::sync::mpsc::{channel, Receiver, Sender};

fn rand_string(n: usize) -> String {
    let mut rng = thread_rng();
    (0..n).map(|_| char::from(rng.sample(Alphanumeric))).collect()
}

/// A handler that hands each request it gets to the test.
struct Forward {
    transmitter: Sender<Request>,
}

impl RequestHandler for Forward {
    fn action(&self, request: Request) -> ResponseBuilder {
        let responses_builder = ResponseBuilder::new(Bytes::from(rand_string(10)));
        self.transmitter.send(request).unwrap();
        responses_builder
    }
}

fn given_routing_for(router: &mut Router<Forward>, uri: &'static [u8]) -> Receiver<Request> {
    let (transmitter, receiver) = channel();
    router.get(uri, Forward { transmitter });
    receiver
}

fn given_some_pairs() -> (ByteMap<Bytes>, Vec<(Bytes, Bytes)>) {
    let mut map = ByteMap::new();
    let mut pairs = Vec::new();
    for _ in 0..5 {
        let key = Bytes::from(rand_string(10));
        let value = Bytes::from(rand_string(10));
        map.insert(key.clone(), value.clone());
        pairs.push((key, value));
    }
    (map, pairs)
}

#[test]
fn single_route_test() {
    let uri: &'static [u8] = b"/path/to/action";
    let mut router = Router::new();
    let receiver = given_routing_for(&mut router, uri);
    let mut request_builder = RequestBuilder::new();
    request_builder
        .set_method(RequestMethod::Get)
        .set_protocol(Protocol::HTTP1)
        .set_uri(Bytes::from(&uri[..]));
    let _ = router.call(request_builder);
    receiver.try_recv().expect("expected router handler wasn't triggered");
}

#[test]
fn multiple_route_test() {
    let routing1: &'static [u8] = b"/path/to/action1";
    let routing2: &'static [u8] = b"/path/to/action2";

    let mut router = Router::new();
    let receiver1 = given_routing_for(&mut router, routing1);
    let receiver2 = given_routing_for(&mut router, routing2);

    let mut request_builder1 = RequestBuilder::new();
    request_builder1
        .set_method(RequestMethod::Get)
        .set_protocol(Protocol::HTTP1)
        .set_uri(Bytes::from(&routing1[..]));
    let _ = router.call(request_builder1);
    receiver1.try_recv().expect("expected router handler wasn't triggered");

    let mut request_builder2 = RequestBuilder::new();
    request_builder2
        .set_method(RequestMethod::Get)
        .set_protocol(Protocol::HTTP1)
        .set_uri(Bytes::from(&routing2[..]));
    let _ = router.call(request_builder2);
    receiver2.try_recv().expect("expected router handler wasn't triggered");
}

#[test]
fn router_action_called_with_related_parameters_test() {
    let uri: &'static [u8] = b"/path/to/action";
    let mut router = Router::new();
    let receiver = given_routing_for(&mut router, uri);
    let (headers, header_pairs) = given_some_pairs();
    let (query_params, query_pairs) = given_some_pairs();

    let mut request_builder = RequestBuilder::new();
    request_builder
        .set_method(RequestMethod::Get)
        .set_protocol(Protocol::HTTP1)
        .set_uri(Bytes::from(&uri[..]))
        .set_headers(headers)
        .set_query_params(query_params);

    let _ = router.call(request_builder);
    let request = receiver.try_recv().expect("expected router handler wasn't triggered");
    for (name, value) in header_pairs.iter() {
        assert_eq!(request.get_header(name), Some(value));
    }
    for (name, value) in query_pairs.iter() {
        assert_eq!(request.get_query_param(name), Some(value));
    }
}

#[test]
fn unregistered_uri_is_not_found() {
    let mut router = Router::new();
    let receiver = given_routing_for(&mut router, b"/a");
    let mut request_builder = RequestBuilder::new();
    request_builder.set_uri(Bytes::from_static(b"/b"));
    let result = router.call(request_builder);
    assert_eq!(result.err().map(|e| e.kind()), Some(std::io::ErrorKind::NotFound));
    assert!(receiver.try_recv().is_err());
}

#[test]
fn built_request_is_a_get_whatever_was_set() {
    let mut request_builder = RequestBuilder::new();
    request_builder
        .set_method(RequestMethod::Post)
        .set_protocol(Protocol::UNKNOWN)
        .set_uri(Bytes::from_static(b"/x"))
        .set_body(Bytes::from_static(b"body"));
    let request = request_builder.build();
    assert_eq!(*request.get_method(), RequestMethod::Get);
    assert_eq!(request.get_uri(), &Bytes::from_static(b"/x"));
    assert_eq!(request.get_header(&Bytes::from_static(b"missing")), None);
}

#[test]
fn a_later_handler_replaces_an_earlier_one() {
    let mut router = Router::new();
    let first = given_routing_for(&mut router, b"/same");
    let second = given_routing_for(&mut router, b"/same");
    let mut request_builder = RequestBuilder::new();
    request_builder.set_uri(Bytes::from_static(b"/same"));
    assert!(router.call(request_builder).is_ok());
    assert!(second.try_recv().is_ok());
    assert!(first.try_recv().is_err());
}

#[test]
fn response_builder_sends_its_body() {
    let response = ResponseBuilder::new(Bytes::from_static(b"hello"));
    assert_eq!(response.into_bytes(), Bytes::from_static(b"hello"));
}

#[test]
fn routed_request_carries_what_was_set() {
    let mut router = Router::new();
    let _receiver = given_routing_for(&mut router, b"/r");
    let (headers, header_pairs) = given_some_pairs();
    let mut request_builder = RequestBuilder::new();
    request_builder
        .set_method(RequestMethod::Delete)
        .set_uri(Bytes::from_static(b"/r"))
        .set_headers(headers);
    let (_handler, request) = router.route(request_builder).expect("a handler for /r");
    assert_eq!(*request.get_method(), RequestMethod::Get);
    for (name, value) in header_pairs.iter() {
        assert_eq!(request.get_header(name), Some(value));
    }
    let mut other = RequestBuilder::new();
    other.set_uri(Bytes::from_static(b"/elsewhere"));
    assert!(router.route(other).is_none());
}
