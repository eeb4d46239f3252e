use bytes::Bytes;
use express::bytemap::ByteMap;
use express::http::method::MethodKind;
use express::http::reader::byte_array_to_i32;
use express::http::{Event, HttpReader, RequestBuilder, Response, Status};
use express::http::reader::ReadStep;
use express::router::reader::{Event as RouteEvent, RouteReader};
use express::router::route::{moving, RouteAction, Routes};
use express::router::router::{record_event, event_recordable, run_request_callback, Router};
use express::http::Request;

/// Runs the reader over `input`, handing it pages of at most `page` bytes.
fn events_of(input: &[u8], page: usize) -> Vec<Event> {
    let mut reader = HttpReader::new(vec![0u8; page]);
    let mut chunks = input.chunks(page);
    let mut out = Vec::new();
    assert!(!reader.next_would_panic());
    let mut step = reader.next();
    loop {
        match step {
            ReadStep::Fill => {
                let chunk: &[u8] = chunks.next().unwrap_or(&[]);
                assert!(!reader.fill_would_panic(Some(chunk)));
                step = reader.fill(Some(chunk));
            }
            ReadStep::Emit(Some(e)) => {
                out.push(e);
                assert!(!reader.next_would_panic());
                step = reader.next();
            }
            ReadStep::Emit(None) => break,
        }
    }
    out
}

fn text(b: &Bytes) -> String {
    String::from_utf8(b.to_vec()).unwrap()
}

fn describe(e: &Event) -> String {
    match e {
        Event::Header(k, v) => format!("H {}={}", text(k), text(v)),
        Event::Method(m) => format!("M {}", text(m)),
        Event::Uri(u) => format!("U {}", text(u)),
        Event::QueryStringParam(k, v) => format!("Q {}={}", text(k), text(v)),
        Event::Version(v) => format!("V {}", text(v)),
        Event::ContentLength(n) => format!("L {}", n),
        Event::Body(b) => format!("B {}", text(b)),
        Event::EndOfHeaders => "E".to_string(),
        Event::Error(c) => format!("X {}", c),
    }
}

#[test]
fn reader_reads_a_get_request() {
    let input = b"GET /path/to?a=1&b=2 HTTP/1.1\r\nHost: localhost\r\nAccept: */*\r\n\r\n";
    let events: Vec<String> = events_of(input, 1024).iter().map(describe).collect();
    assert_eq!(events[0], "M GET");
    assert_eq!(events[1], "U /path/to");
    assert_eq!(events[2], "Q a=1");
    assert_eq!(events[3], "Q b=2");
    assert!(events.iter().any(|e| e.starts_with("V HTTP/1.1")));
    assert!(events.iter().any(|e| e == "H Host= localhost"));
    assert!(events.iter().any(|e| e == "H Accept= */*"));
    assert!(events.iter().any(|e| e == "E"));
}

#[test]
fn reader_reads_a_body_by_its_length() {
    let input = b"POST /items HTTP/1.1\r\nContent-Length: 5\r\n\r\nhello";
    let events: Vec<String> = events_of(input, 1024).iter().map(describe).collect();
    assert_eq!(events[0], "M POST");
    assert_eq!(events[1], "U /items");
    assert!(events.iter().any(|e| e == "B hello"));
}

#[test]
fn reader_reports_an_unknown_method() {
    let input = b"BREW /pot HTTP/1.1\r\n\r\n";
    let events: Vec<String> = events_of(input, 1024).iter().map(describe).collect();
    assert_eq!(events[0], "X 1");
}

#[test]
fn reader_stops_at_an_empty_stream() {
    let events = events_of(b"", 64);
    assert!(events.is_empty());
}

#[test]
fn byte_array_to_i32_keeps_digits_only() {
    assert_eq!(byte_array_to_i32(b"123"), 123);
    assert_eq!(byte_array_to_i32(b" 4 2\r"), 42);
    assert_eq!(byte_array_to_i32(b""), 0);
    assert_eq!(byte_array_to_i32(b"abc"), 0);
}

#[test]
fn response_generates_status_line_headers_and_body() {
    let mut response = Response::new();
    response.add_json_headers().add_body(Bytes::from_static(b"{\"noam\":\"noam\"}"));
    let out = response.generate();
    let expected = b"HTTP/1.1 200 OK\r\n\
Server: Noam's\r\n\
Content-Type: application/json; charset=utf-8\r\n\
Access-Control-Allow-Origin: *\r\n\
Cache-Control: no-cache\r\n\
Status: 200 OK\r\n\
Content-Length: 15\r\n\
\r\n\
{\"noam\":\"noam\"}";
    assert_eq!(&out[..], &expected[..]);
}

#[test]
fn empty_response_has_only_its_status_line() {
    let response = Response::new();
    assert_eq!(&response.generate()[..], &b" 200 OK\r\n\r\n"[..]);
}

#[test]
fn response_headers_come_in_order() {
    let mut response = Response::new();
    response
        .set_protocol(Bytes::from_static(b"HTTP/1.0"))
        .set_status(Status::OK)
        .add_header(Bytes::from_static(b"A"), Bytes::from_static(b"1"))
        .add_header(Bytes::from_static(b"B"), Bytes::from_static(b"2"));
    assert_eq!(&response.generate()[..], &b"HTTP/1.0 200 OK\r\nA: 1\r\nB: 2\r\n\r\n"[..]);
}

#[test]
fn status_ok_is_200() {
    assert_eq!(Status::OK.to_code(), 200);
    assert_eq!(Status::OK.to_message(), b"OK");
    assert_eq!(Status::OK.code_bytes_len(), 3);
}

#[test]
fn request_builder_records_method_uri_and_keep_alive() {
    let mut builder = RequestBuilder::new();
    builder
        .add_method(Bytes::from_static(b"PUT"))
        .add_uri(Bytes::from_static(b"/x"))
        .add_header(Bytes::from_static(b"Connection"), Bytes::from_static(b"keep-alive"));
    assert_eq!(builder.method(), MethodKind::Put);
    assert_eq!(builder.uri(), Bytes::from_static(b"/x"));
    assert!(builder.has_keep_alive());
    let mut other = RequestBuilder::new();
    other.add_method(Bytes::from_static(b"PATCH"));
    assert_eq!(other.method(), MethodKind::Unknown);
    assert!(!other.has_keep_alive());
    assert_eq!(builder.build().method(), MethodKind::Put);
}

#[test]
fn route_reader_splits_segments_and_variables() {
    let mut reader = RouteReader::new(Bytes::from_static(b"/users/:id/posts"));
    let mut pieces = Vec::new();
    while let Some(e) = reader.next() {
        pieces.push(match e {
            RouteEvent::Segment(s) => format!("S {}", text(&s)),
            RouteEvent::Variable(v) => format!("V {}", text(&v)),
        });
    }
    assert_eq!(pieces, vec!["S ", "S users", "V id", "S posts"]);
}

struct Tag(&'static [u8]);

impl RouteAction for Tag {
    fn action(&self, _req: Request, res: Response) -> Response {
        let mut res = res;
        res.add_header(Bytes::from_static(b"X-Route"), Bytes::from_static(self.0));
        res
    }
}

fn request_for(method: &'static [u8], uri: &'static [u8]) -> RequestBuilder {
    let mut builder = RequestBuilder::new();
    builder.add_method(Bytes::from_static(method)).add_uri(Bytes::from_static(uri));
    builder
}

#[test]
fn routes_find_literal_and_variable_paths() {
    let mut routes = Routes::new();
    routes.set_route(b"/home/page", Tag(b"literal"));
    routes.set_route(b"/users/:id", Tag(b"user"));
    let found = routes.run_callback(request_for(b"GET", b"/home/page"), Response::new());
    assert!(found.is_ok());
    let out = found.ok().unwrap().generate();
    assert!(out.windows(7).any(|w| w == b"literal"));
    let user = routes.run_callback(request_for(b"GET", b"/users/42"), Response::new());
    assert!(user.ok().unwrap().generate().windows(4).any(|w| w == b"user"));
    assert!(routes.run_callback(request_for(b"GET", b"/nowhere"), Response::new()).is_err());
    assert!(routes.run_callback(request_for(b"GET", b"/home"), Response::new()).is_err());
}

#[test]
fn router_dispatches_by_method() {
    let mut router = Router::new();
    router.get(b"/a", Tag(b"get")).post(b"/a", Tag(b"post"));
    let inner = router.into_inner();
    let got = run_request_callback(request_for(b"POST", b"/a"), &inner).ok().unwrap().generate();
    assert!(got.windows(4).any(|w| w == b"post"));
    assert!(run_request_callback(request_for(b"PUT", b"/a"), &inner).is_err());
    assert!(run_request_callback(request_for(b"BREW", b"/a"), &inner).is_err());
}

#[test]
fn recording_events_builds_the_request() {
    let mut builder = RequestBuilder::new();
    let events = vec![
        Event::Method(Bytes::from_static(b"DELETE")),
        Event::Uri(Bytes::from_static(b"/gone")),
        Event::QueryStringParam(Bytes::from_static(b"k[]"), Bytes::from_static(b"1")),
        Event::EndOfHeaders,
    ];
    for e in events {
        assert!(event_recordable(&e));
        assert_eq!(record_event(&mut builder, e), None);
    }
    assert_eq!(builder.method(), MethodKind::Delete);
    assert_eq!(builder.uri(), Bytes::from_static(b"/gone"));
    assert_eq!(record_event(&mut builder, Event::Error(5)), Some(5));
    assert!(!event_recordable(&Event::QueryStringParam(Bytes::new(), Bytes::new())));
}

#[test]
fn byte_map_replaces_and_removes() {
    let mut map = ByteMap::new();
    map.insert(Bytes::from_static(b"k"), 1);
    map.insert(Bytes::from_static(b"k"), 2);
    assert_eq!(map.get(b"k"), Some(&2));
    assert!(map.contains_key(b"k"));
    assert_eq!(map.remove(b"k"), Some(2));
    assert_eq!(map.get(b"k"), None);
}

#[test]
fn moving_hands_its_value_back() {
    assert_eq!(moving(7), 7);
}

#[test]
fn reader_reports_a_header_line_without_colon() {
    let input = b"GET / HTTP/1.1\r\nbroken line\r\n\r\n";
    let events: Vec<String> = events_of(input, 1024).iter().map(describe).collect();
    assert!(events.iter().any(|e| e == "X 2"));
}

#[test]
fn reader_reports_a_failed_read() {
    let mut reader = HttpReader::new(vec![0u8; 32]);
    assert!(matches!(reader.next(), ReadStep::Fill));
    assert!(reader.awaiting_page());
    match reader.fill(None) {
        ReadStep::Emit(Some(Event::Error(5))) => {}
        _ => panic!("expected error 5"),
    }
    assert!(!reader.awaiting_page());
}

#[test]
fn reader_reports_a_value_cut_by_the_page_end() {
    let mut reader = HttpReader::new(vec![0u8; 64]);
    assert!(matches!(reader.next(), ReadStep::Fill));
    let page: &[u8] = b"GET /a?x=1";
    let mut seen = Vec::new();
    let mut step = reader.fill(Some(page));
    while let ReadStep::Emit(Some(e)) = step {
        seen.push(describe(&e));
        step = reader.next();
    }
    assert_eq!(seen, vec!["M GET", "U /a"]);
    match reader.next() {
        ReadStep::Emit(Some(Event::Error(6))) => {}
        _ => panic!("expected error 6"),
    }
}

#[test]
fn reader_flags_a_body_that_overshoots_its_pages() {
    let head: &[u8] = b"POST / HTTP/1.1\r\nContent-Length: 70\r\n\r\n";
    let mut input = head.to_vec();
    input.extend_from_slice(&[b'x'; 70]);
    let mut reader = HttpReader::new(vec![0u8; 64]);
    assert!(matches!(reader.next(), ReadStep::Fill));
    let mut step = reader.fill(Some(&input[..64]));
    let mut ended_headers = false;
    loop {
        match step {
            ReadStep::Emit(Some(Event::EndOfHeaders)) => {
                ended_headers = true;
                break;
            }
            ReadStep::Emit(Some(_)) => step = reader.next(),
            _ => break,
        }
    }
    assert!(ended_headers);
    assert!(reader.next_would_panic());
}

#[test]
fn page_size_is_the_buffer_length() {
    let reader = HttpReader::new(vec![0u8; 128]);
    assert_eq!(reader.page_size(), 128);
    assert!(!reader.awaiting_page());
}

#[test]
fn a_request_shorter_than_the_page_is_read_once() {
    let input: &[u8] = b"POST /a?k=v HTTP/1.1\r\nHost: h\r\nContent-Length: 3\r\n\r\nabc";
    let mut reader = HttpReader::new(vec![0u8; 1024]);
    let mut fills = 0;
    let mut events = Vec::new();
    let mut step = reader.next();
    loop {
        match step {
            ReadStep::Fill => {
                fills += 1;
                step = reader.fill(Some(if fills == 1 { input } else { &[] }));
            }
            ReadStep::Emit(Some(e)) => {
                events.push(describe(&e));
                step = reader.next();
            }
            ReadStep::Emit(None) => break,
        }
    }
    assert_eq!(fills, 1);
    assert!(events.iter().any(|e| e == "B abc"));
}

#[test]
fn a_literal_segment_wins_and_registering_again_replaces() {
    let mut routes = Routes::new();
    routes.set_route(b"/a/:x", Tag(b"variable"));
    routes.set_route(b"/a/b", Tag(b"first"));
    routes.set_route(b"/a/b", Tag(b"second"));
    let lit = routes.run_callback(request_for(b"GET", b"/a/b"), Response::new()).ok().unwrap().generate();
    assert!(lit.windows(6).any(|w| w == b"second"));
    assert!(!lit.windows(5).any(|w| w == b"first"));
    let var = routes.run_callback(request_for(b"GET", b"/a/c"), Response::new()).ok().unwrap().generate();
    assert!(var.windows(8).any(|w| w == b"variable"));
}

#[test]
fn registering_another_route_keeps_the_first() {
    let mut routes = Routes::new();
    routes.set_route(b"/shop/cart", Tag(b"cart"));
    routes.set_route(b"/shop/list", Tag(b"list"));
    let cart = routes.run_callback(request_for(b"GET", b"/shop/cart"), Response::new()).ok().unwrap().generate();
    assert!(cart.windows(4).any(|w| w == b"cart"));
    routes.set_route(b"/shop/cart/", Tag(b"slash"));
    let replaced = routes.run_callback(request_for(b"GET", b"/shop/cart"), Response::new()).ok().unwrap().generate();
    assert!(replaced.windows(5).any(|w| w == b"slash"));
}
