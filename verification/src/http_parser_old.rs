//! A line-oriented parser that assembles its request with a builder,
//! reports errors as messages, reads header names without regard to case,
//! and takes HTTP/1.0 as HTTP/1.1.

use vstd::prelude::*;
use crate::scan::{split, lemma_split_nonempty};
use crate::chars::{chars_of, str_eq, concat, ws_tokens, first_words};
use crate::fields::split_str;
use crate::strmap::StrMap;
use crate::types::HeaderModel;
use crate::headers::{
    lower_header_name_of, header_value_readable, header_model, lookup_lower_header_name,
    value_readable, read_header_value,
};
use crate::http_parser::{ParamModel, query_spec, method_kind_of, method_kind, strs_map, method_line_accepted};

pub use crate::types::{MethodKind, HttpVersion, Connection, CacheControl, HttpHeader};
pub use crate::http_parser::{QueryString, QueryStringParam};

verus! {

/// What `str::to_lowercase` gives for a string: its characters mapped to
/// lower case by the Unicode tables of the standard library.
pub uninterp spec fn lowercase(s: Seq<char>) -> Seq<char>;

/// `str::to_lowercase`. The result is claimed to be `lowercase` of the
/// argument and nothing more: the Unicode case mapping is not stated.
#[verifier::external_body]
fn to_lower(s: &str) -> (r: String)
    ensures
        r@ == lowercase(s@),
{
    s.to_lowercase()
}

/// Whether a version word is one this parser reads.
pub open spec fn version_known(p: Seq<char>) -> bool {
    p == "HTTP/1.1"@ || p == "HTTP/1.0"@
}

/// What a method line reads as: the method and the url, or the message
/// of what is wrong with it.
pub open spec fn method_line_result(line: Seq<char>) -> Result<(MethodKind, Seq<char>), Seq<char>> {
    let t = ws_tokens(line);
    if t.len() < 3 {
        Err("broken method line "@ + line)
    } else if !version_known(t[2]) {
        Err("unknoun HTTP version: "@ + t[2])
    } else if method_kind_of(t[0]) is None {
        Err("unknoun HTTP Method"@)
    } else {
        Ok((method_kind_of(t[0])->Some_0, t[1]))
    }
}

/// Reads a method line: its first three white-space separated words are
/// the method, the url and the version (HTTP/1.1 or HTTP/1.0, both read
/// as `V1`).
pub fn parse_method(buf: &str) -> (r: Result<(MethodKind, String, HttpVersion), String>)
    ensures
        match r {
            Ok((m, uri, v)) => method_line_result(buf@) == Ok::<(MethodKind, Seq<char>), Seq<char>>((m, uri@))
                && v == HttpVersion::V1,
            Err(e) => method_line_result(buf@) == Err::<(MethodKind, Seq<char>), Seq<char>>(e@),
        },
{
    let v = chars_of(buf);
    let words = first_words(v.as_slice(), 3);
    if words.len() < 3 {
        return Err(concat("broken method line ", buf));
    }
    let (a, b) = words[0];
    let (c, d) = words[1];
    let (e, f) = words[2];
    let proto = buf.substring_char(e, f);
    if !(str_eq(proto, "HTTP/1.1") || str_eq(proto, "HTTP/1.0")) {
        return Err(concat("unknoun HTTP version: ", proto));
    }
    match method_kind(buf.substring_char(a, b)) {
        Some(m) => Ok((m, buf.substring_char(c, d).to_owned(), HttpVersion::V1)),
        None => Err("unknoun HTTP Method".to_owned()),
    }
}

/// The two parsers agree on the method lines that the newer one accepts:
/// a line of three words or more that names HTTP/1.1 and a known method
/// reads as that method and the same url under the builder-based parser.
pub proof fn law_parsers_agree_on_method_lines(line: Seq<char>)
    requires
        method_line_accepted(line),
        ws_tokens(line).len() >= 3,
    ensures
        method_line_result(line) == Ok::<(MethodKind, Seq<char>), Seq<char>>(
            (method_kind_of(ws_tokens(line)[0])->Some_0, ws_tokens(line)[1]),
        ),
{
}

/// What a header reads as under its lower-case name, or the message for
/// an unknown name.
pub open spec fn header_result(lower: Seq<char>, value: Seq<char>) -> Result<HeaderModel, Seq<char>> {
    match lower_header_name_of(lower) {
        Some(k) => Ok(header_model(k, value)),
        None => Err("unknoun HTTP header "@ + lower + " => "@ + value),
    }
}

/// Whether a header's value can be read, where its lower-case name is
/// known.
pub open spec fn lower_header_accepted(lower: Seq<char>, value: Seq<char>) -> bool {
    lower_header_name_of(lower) matches Some(k) ==> header_value_readable(k, value)
}

/// Reads a header's value under its lower-case name; `Err` with a message
/// for an unknown name.
pub fn parse_lower_header(lower: &str, value: &str) -> (r: Result<HttpHeader, String>)
    requires
        lower_header_accepted(lower@, value@),
    ensures
        match r {
            Ok(h) => header_result(lower@, value@) == Ok::<HeaderModel, Seq<char>>(h@),
            Err(e) => header_result(lower@, value@) == Err::<HeaderModel, Seq<char>>(e@),
        },
{
    match lookup_lower_header_name(lower) {
        Some(k) => Ok(read_header_value(k, value)),
        None => {
            let m = concat(concat(concat("unknoun HTTP header ", lower).as_str(), " => ").as_str(), value);
            Err(m)
        },
    }
}

/// Reads a header's value under its name, taken in lower case.
fn parse_header(name: &str, value: &str) -> (r: Result<HttpHeader, String>)
    requires
        lower_header_accepted(lowercase(name@), value@),
    ensures
        match r {
            Ok(h) => header_result(lowercase(name@), value@) == Ok::<HeaderModel, Seq<char>>(h@),
            Err(e) => header_result(lowercase(name@), value@) == Err::<HeaderModel, Seq<char>>(e@),
        },
{
    let lower = to_lower(name);
    parse_lower_header(lower.as_str(), value)
}

/// A request under construction: each part set or not yet set.
pub struct RequestBuilder {
    method: Option<MethodKind>,
    uri: Option<String>,
    query: Option<QueryString>,
    protocol: Option<HttpVersion>,
    headers: Option<StrMap<String>>,
}

/// A request under construction, as mathematical values.
pub ghost struct BuilderModel {
    pub method: Option<MethodKind>,
    pub uri: Option<Seq<char>>,
    pub query: Option<Map<Seq<char>, ParamModel>>,
    pub protocol: Option<HttpVersion>,
    pub headers: Option<Map<Seq<char>, Seq<char>>>,
}

impl View for RequestBuilder {
    type V = BuilderModel;

    closed spec fn view(&self) -> BuilderModel {
        BuilderModel {
            method: self.method,
            uri: match self.uri {
                Some(u) => Some(u@),
                None => None,
            },
            query: match self.query {
                Some(q) => Some(q@),
                None => None,
            },
            protocol: self.protocol,
            headers: match self.headers {
                Some(h) => Some(strs_map(h)),
                None => None,
            },
        }
    }
}

/// A request, as mathematical values.
pub ghost struct OldRequestModel {
    pub method: MethodKind,
    pub uri: Seq<char>,
    pub query: Option<Map<Seq<char>, ParamModel>>,
    pub protocol: HttpVersion,
    pub headers: Option<Map<Seq<char>, Seq<char>>>,
}

/// A request assembled by a `RequestBuilder`.
pub struct Request {
    method: MethodKind,
    uri: String,
    query: Option<QueryString>,
    protocol: HttpVersion,
    headers: Option<StrMap<String>>,
}

impl View for Request {
    type V = OldRequestModel;

    closed spec fn view(&self) -> OldRequestModel {
        OldRequestModel {
            method: self.method,
            uri: self.uri@,
            query: match self.query {
                Some(q) => Some(q@),
                None => None,
            },
            protocol: self.protocol,
            headers: match self.headers {
                Some(h) => Some(strs_map(h)),
                None => None,
            },
        }
    }
}

impl RequestBuilder {
    /// A builder with no part set.
    pub fn new() -> (b: RequestBuilder)
        ensures
            b@ == (BuilderModel { method: None, uri: None, query: None, protocol: None, headers: None }),
    {
        RequestBuilder { method: None, uri: None, query: None, protocol: None, headers: None }
    }

    pub fn method(&mut self, m: MethodKind) -> (r: &mut Self)
        ensures
            *final(self) == *final(r),
            r@ == (BuilderModel { method: Some(m), ..old(self)@ }),
    {
        self.method = Some(m);
        self
    }

    pub fn uri(&mut self, u: String) -> (r: &mut Self)
        ensures
            *final(self) == *final(r),
            r@ == (BuilderModel { uri: Some(u@), ..old(self)@ }),
    {
        self.uri = Some(u);
        self
    }

    pub fn query(&mut self, q: QueryString) -> (r: &mut Self)
        ensures
            *final(self) == *final(r),
            r@ == (BuilderModel { query: Some(q@), ..old(self)@ }),
    {
        self.query = Some(q);
        self
    }

    pub fn protocol(&mut self, p: HttpVersion) -> (r: &mut Self)
        ensures
            *final(self) == *final(r),
            r@ == (BuilderModel { protocol: Some(p), ..old(self)@ }),
    {
        self.protocol = Some(p);
        self
    }

    pub fn headers(&mut self, h: StrMap<String>) -> (r: &mut Self)
        ensures
            *final(self) == *final(r),
            r@ == (BuilderModel { headers: Some(strs_map(h)), ..old(self)@ }),
    {
        self.headers = Some(h);
        self
    }

    /// The request made of the parts set; the method, uri and protocol
    /// must be set.
    pub fn build(self) -> (r: Request)
        requires
            self@.method is Some,
            self@.uri is Some,
            self@.protocol is Some,
        ensures
            r@ == (OldRequestModel {
                method: self@.method->Some_0,
                uri: self@.uri->Some_0,
                query: self@.query,
                protocol: self@.protocol->Some_0,
                headers: self@.headers,
            }),
    {
        Request {
            method: self.method.unwrap(),
            uri: self.uri.unwrap(),
            query: self.query,
            protocol: self.protocol.unwrap(),
            headers: self.headers,
        }
    }
}

/// The query parameters that a url carries: those of the part after its
/// one '?' when they parse; none without a '?' or when they do not parse.
pub open spec fn url_query(url: Seq<char>) -> Option<Map<Seq<char>, ParamModel>> {
    if split(url, '?').len() == 2 { query_spec(split(url, '?')[1]) } else { None }
}

impl Request {
    /// The request made of a method line's parts and the headers read
    /// after it. The url is split at its '?': the part before is the uri,
    /// the part after the query string. A url must not hold two '?'.
    pub fn from_parts(method: MethodKind, url: &str, protocol: HttpVersion, headers: StrMap<String>) -> (r: Request)
        requires
            split(url@, '?').len() <= 2,
        ensures
            r@ == (OldRequestModel {
                method,
                uri: split(url@, '?')[0],
                query: url_query(url@),
                protocol,
                headers: Some(strs_map(headers)),
            }),
    {
        let mut builder = RequestBuilder::new();
        builder.method(method).protocol(protocol);
        builder.headers(headers);
        let pieces = split_str(url, '?');
        proof {
            lemma_split_nonempty(url@, '?');
            assert(pieces@[0]@ == split(url@, '?')[0]);
        }
        if pieces.len() == 2 {
            assert(pieces@[1]@ == split(url@, '?')[1]);
            match QueryString::parse(pieces[1].as_str()) {
                Some(query) => {
                    builder.query(query);
                },
                None => {},
            }
            builder.uri(pieces[0].clone());
        } else {
            builder.uri(pieces[0].clone());
        }
        builder.build()
    }

    /// Whether the named header, where present, can be read
    /// (`get_parsed_header` requires it).
    pub open spec fn header_readable(&self, lower: Seq<char>, name: Seq<char>) -> bool {
        match self@.headers {
            Some(h) => h.contains_key(name) ==> lower_header_accepted(lower, h[name]),
            None => true,
        }
    }

    /// The named header, read under its name taken in lower case; `None`
    /// when it is absent or its name unknown.
    pub fn get_parsed_header(&self, name: &str) -> (r: Option<HttpHeader>)
        requires
            self.header_readable(lowercase(name@), name@),
        ensures
            match r {
                Some(h) => self@.headers matches Some(m) && m.contains_key(name@)
                    && header_result(lowercase(name@), m[name@]) == Ok::<HeaderModel, Seq<char>>(h@),
                None => !(self@.headers matches Some(m) && m.contains_key(name@))
                    || header_result(lowercase(name@), self@.headers->Some_0[name@]) is Err,
            },
    {
        match self.get_header(name) {
            Some(value) => {
                match parse_header(name, value) {
                    Ok(header) => Some(header),
                    Err(_) => None,
                }
            },
            None => None,
        }
    }

    /// `get_parsed_header` where the named header can be read: `None`
    /// where its value cannot be read under its name.
    pub fn checked_parsed_header(&self, name: &str) -> (r: Option<Option<HttpHeader>>)
        ensures
            match r {
                Some(h) => self.header_readable(lowercase(name@), name@) && match h {
                    Some(h) => self@.headers matches Some(m) && m.contains_key(name@)
                        && header_result(lowercase(name@), m[name@]) == Ok::<HeaderModel, Seq<char>>(h@),
                    None => !(self@.headers matches Some(m) && m.contains_key(name@))
                        || header_result(lowercase(name@), self@.headers->Some_0[name@]) is Err,
                },
                None => !self.header_readable(lowercase(name@), name@),
            },
    {
        let lower = to_lower(name);
        let readable = match self.get_header(name) {
            Some(value) => match lookup_lower_header_name(lower.as_str()) {
                Some(k) => value_readable(k, value),
                None => true,
            },
            None => true,
        };
        if readable {
            Some(self.get_parsed_header(name))
        } else {
            None
        }
    }

    /// The text of the named header.
    pub fn get_header(&self, name: &str) -> (r: Option<&str>)
        ensures
            match r {
                Some(v) => self@.headers matches Some(m) && m.contains_key(name@) && v@ == m[name@],
                None => !(self@.headers matches Some(m) && m.contains_key(name@)),
            },
    {
        match self.headers {
            Some(ref headers) => {
                match headers.get(name) {
                    Some(value) => Some(value.as_str()),
                    None => None,
                }
            },
            None => None,
        }
    }

    /// The url's part before its '?'.
    pub fn uri(&self) -> (r: &str)
        ensures
            r@ == self@.uri,
    {
        self.uri.as_str()
    }

    /// The value of a query parameter.
    pub fn query(&self, key: &str) -> (r: Option<&QueryStringParam>)
        ensures
            match r {
                Some(p) => self@.query matches Some(q) && q.contains_key(key@) && p@ == q[key@],
                None => !(self@.query matches Some(q) && q.contains_key(key@)),
            },
    {
        match self.query {
            Some(ref query) => query.get(key),
            None => None,
        }
    }
}

} // verus!
