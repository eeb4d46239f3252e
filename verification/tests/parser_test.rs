use express::client::{Client, Response as ClientResponse};
use express::fields::split_accept;
use express::flow::{admits_connection, admits_job, after_request, pool_size_for, still_fresh, AfterRequest, default_pool_size};
use express::http_parser::{
    accepts_method_line, collect_header_line, header_line, header_line_parses, header_parses,
    parse_header, parse_method, parse_query_string, HttpHeader, HttpVersion, MethodKind,
    QueryString, QueryStringParam, Request, Connection, CacheControl,
};
use express::http_parser_old::{self as builder_parser, RequestBuilder as OldBuilder};
use express::strmap::StrMap;

fn simple(p: Option<&QueryStringParam>) -> Option<String> {
    match p {
        Some(QueryStringParam::SimpleParam(s)) => Some(s.clone()),
        _ => None,
    }
}

fn array(p: Option<&QueryStringParam>) -> Option<Vec<String>> {
    match p {
        Some(QueryStringParam::ArrayParam(v)) => Some(v.clone()),
        _ => None,
    }
}

#[test]
fn query_string_reads_simple_and_array_params() {
    let q = parse_query_string("a=1&b[]=x&b[]=y&c=3").unwrap();
    assert_eq!(simple(q.get("a")), Some("1".to_string()));
    assert_eq!(array(q.get("b")), Some(vec!["x".to_string(), "y".to_string()]));
    assert_eq!(simple(q.get("c")), Some("3".to_string()));
    assert!(q.get("b[]").is_none());
    assert!(q.get("d").is_none());
}

#[test]
fn query_string_later_values_replace_earlier() {
    let q = QueryString::parse("k=1&k=2").unwrap();
    assert_eq!(simple(q.get("k")), Some("2".to_string()));
    let q = QueryString::parse("k=1&k[]=2&k[]=3").unwrap();
    assert_eq!(array(q.get("k")), Some(vec!["2".to_string(), "3".to_string()]));
    let q = QueryString::parse("k[]=1&k=2").unwrap();
    assert_eq!(simple(q.get("k")), Some("2".to_string()));
}

#[test]
fn query_string_refuses_pieces_without_one_equals() {
    assert!(parse_query_string("a").is_none());
    assert!(parse_query_string("a=1&b").is_none());
    assert!(parse_query_string("a=1=2").is_none());
    assert!(parse_query_string("").is_none());
    assert!(parse_query_string("a=").is_some());
}

#[test]
fn parse_method_reads_three_words() {
    let line = "GET /index?x=1 HTTP/1.1\r\n".to_string();
    assert!(accepts_method_line(&line));
    let (m, uri, v) = parse_method(&line).unwrap();
    assert_eq!(m, MethodKind::Get);
    assert_eq!(uri, "/index?x=1");
    assert_eq!(v, HttpVersion::V1);
    let short = "GET /index\r\n".to_string();
    assert!(accepts_method_line(&short));
    assert!(parse_method(&short).is_err());
    assert!(!accepts_method_line("GET / HTTP/1.0"));
    assert!(!accepts_method_line("BREW / HTTP/1.1"));
    let extra = "  DELETE   /a   HTTP/1.1  trailing".to_string();
    assert_eq!(parse_method(&extra).unwrap().0, MethodKind::Delete);
}

#[test]
fn old_parse_method_reports_each_error() {
    let (m, uri, v) = builder_parser::parse_method("POST /form HTTP/1.0\r\n").unwrap();
    assert_eq!((m, uri.as_str(), v), (MethodKind::Post, "/form", HttpVersion::V1));
    assert_eq!(builder_parser::parse_method("GET /").unwrap_err(), "broken method line GET /");
    assert_eq!(builder_parser::parse_method("GET / HTTP/2").unwrap_err(), "unknoun HTTP version: HTTP/2");
    assert_eq!(builder_parser::parse_method("BREW / HTTP/1.1").unwrap_err(), "unknoun HTTP Method");
}

#[test]
fn header_lines_split_at_the_first_colon() {
    assert_eq!(header_line("Host: example.com:8080\r\n"), Some(("Host".to_string(), "example.com:8080".to_string())));
    assert_eq!(header_line("  X-A :  b c \n"), Some(("X-A".to_string(), "b c".to_string())));
    assert_eq!(header_line("\r\n"), None);
    assert_eq!(header_line("\n"), None);
    assert!(header_line_parses("\r\n"));
    assert!(!header_line_parses("no colon here\r\n"));
}

#[test]
fn collected_headers_replace_by_name() {
    let mut headers = StrMap::new();
    assert!(!collect_header_line(&mut headers, "Accept: a\r\n"));
    assert!(!collect_header_line(&mut headers, "Accept: b\r\n"));
    assert!(collect_header_line(&mut headers, "\r\n"));
    assert_eq!(headers.get("Accept").map(|s| s.as_str()), Some("b"));
}

#[test]
fn headers_read_by_name() {
    assert_eq!(parse_header("Host", &"localhost:8080".to_string()), HttpHeader::Host { name: "localhost".to_string(), port: 8080 });
    assert_eq!(parse_header("User-Agent", &"curl/8".to_string()), HttpHeader::UserAgent("curl/8".to_string()));
    assert_eq!(parse_header("Connection", &"keep-alive".to_string()), HttpHeader::Connection(Connection::KeepAlive));
    assert_eq!(parse_header("Connection", &"close".to_string()), HttpHeader::Connection(Connection::Close));
    assert_eq!(parse_header("Cache-Control", &"max-age=60".to_string()), HttpHeader::CacheControl(CacheControl::MaxAge(60)));
    assert_eq!(parse_header("Cache-Control", &"no-cache".to_string()), HttpHeader::CacheControl(CacheControl::MaxAge(0)));
    assert_eq!(parse_header("Upgrade-Insecure-Requests", &"1".to_string()), HttpHeader::UpgradeInsecureRequests);
    assert_eq!(
        parse_header("Accept-Encoding", &"gzip, deflate ,br".to_string()),
        HttpHeader::AcceptEncoding(vec!["gzip".to_string(), "deflate".to_string(), "br".to_string()])
    );
    assert!(!header_parses("X-Unknown", "v"));
    assert!(!header_parses("Host", "localhost"));
    assert!(!header_parses("Host", "localhost:port"));
    assert!(!header_parses("Cache-Control", "max-age=soon"));
    assert!(header_parses("Cache-Control", "a=b=c"));
}

#[test]
fn accept_lists_carry_ranks_from_the_last_entry() {
    let v = split_accept("text/html,application/xml;q=0.9,*/*;q=0.8");
    assert_eq!(
        v,
        vec![
            ("*/*".to_string(), Some("0.8".to_string())),
            ("application/xml".to_string(), Some("0.9".to_string())),
            ("text/html".to_string(), Some("0.9".to_string())),
        ]
    );
    let plain = split_accept("a,b");
    assert_eq!(plain, vec![("b".to_string(), None), ("a".to_string(), None)]);
    let skipped = split_accept("x;q=1;q=2,y");
    assert_eq!(skipped, vec![("y".to_string(), None)]);
}

#[test]
fn request_from_parts_splits_the_url() {
    let mut headers = StrMap::new();
    collect_header_line(&mut headers, "Host: h:1\r\n");
    let req = Request::from_parts(MethodKind::Get, "/p?x=1&y[]=2", HttpVersion::V1, headers).unwrap();
    assert_eq!(req.uri(), "/p");
    assert_eq!(simple(req.query("x")), Some("1".to_string()));
    assert_eq!(array(req.query("y")), Some(vec!["2".to_string()]));
    assert_eq!(req.get_header("Host"), Some("h:1"));
    assert!(req.header_parses_if_present("Host"));
    assert_eq!(req.get_parsed_header("Host"), Some(HttpHeader::Host { name: "h".to_string(), port: 1 }));
    assert_eq!(req.get_parsed_header("Accept"), None);
    assert!(Request::from_parts(MethodKind::Get, "/p?bad", HttpVersion::V1, StrMap::new()).is_none());
}

#[test]
fn old_builder_and_request() {
    let mut builder = OldBuilder::new();
    builder.method(MethodKind::Put).protocol(HttpVersion::V2).uri("/u".to_string());
    let req = builder.build();
    assert_eq!(req.uri(), "/u");
    assert!(req.query("a").is_none());
    assert!(req.get_header("a").is_none());

    let mut headers = StrMap::new();
    collect_header_line(&mut headers, "HOST: server:80\r\n");
    collect_header_line(&mut headers, "X-Thing: 1\r\n");
    let req = builder_parser::Request::from_parts(MethodKind::Get, "/a?k=v", HttpVersion::V1, headers);
    assert_eq!(req.uri(), "/a");
    assert_eq!(simple(req.query("k")), Some("v".to_string()));
    assert_eq!(req.get_parsed_header("HOST"), Some(HttpHeader::Host { name: "server".to_string(), port: 80 }));
    assert_eq!(req.get_parsed_header("X-Thing"), None);
    assert_eq!(req.checked_parsed_header("X-Thing"), Some(None));

    let req = builder_parser::Request::from_parts(MethodKind::Get, "/plain", HttpVersion::V1, StrMap::new());
    assert_eq!(req.uri(), "/plain");
    let req = builder_parser::Request::from_parts(MethodKind::Get, "/q?bad", HttpVersion::V1, StrMap::new());
    assert_eq!(req.uri(), "/q");
    assert!(req.query("bad").is_none());

    let mut bad = StrMap::new();
    collect_header_line(&mut bad, "Host: noport\r\n");
    let req = builder_parser::Request::from_parts(MethodKind::Get, "/", HttpVersion::V1, bad);
    assert!(req.checked_parsed_header("Host").is_none());
}

#[test]
fn old_header_errors_name_the_lower_case_header() {
    assert_eq!(builder_parser::parse_lower_header("x-custom", "v").unwrap_err(), "unknoun HTTP header x-custom => v");
    assert_eq!(builder_parser::parse_lower_header("pragma", "no-cache").unwrap(), HttpHeader::Pragma("no-cache".to_string()));
}

#[test]
fn admission_and_pool_sizes() {
    assert!(admits_connection(1899));
    assert!(!admits_connection(1900));
    assert!(admits_job(899));
    assert!(!admits_job(900));
    assert!(still_fresh(9));
    assert!(!still_fresh(10));
    assert_eq!(after_request(true, 10), AfterRequest::Requeue);
    assert_eq!(after_request(true, 1900), AfterRequest::Release);
    assert_eq!(after_request(false, 0), AfterRequest::Release);
    assert_eq!(pool_size_for(4), Some(3));
    assert_eq!(pool_size_for(1), None);
    if let Some(n) = default_pool_size() {
        assert!(n >= 1);
    }
}

#[test]
fn client_keeps_its_address() {
    let client = Client::new("localhost", 8080);
    assert_eq!(client.host(), "localhost");
    assert_eq!(client.port(), 8080);
    let response = ClientResponse::new("body".to_string());
    assert_eq!(response.body(), "body");
}

#[test]
fn both_parsers_read_an_http11_line_alike() {
    let line = "PUT /things/1 HTTP/1.1\r\n";
    let (m1, u1, v1) = parse_method(&line.to_string()).unwrap();
    let (m2, u2, v2) = builder_parser::parse_method(line).unwrap();
    assert_eq!((m1, u1, v1), (m2, u2, v2));
}
