//! The request as the reader's events build it.

use vstd::prelude::*;
use bytes::Bytes;
use crate::buffers::{bytes_seq, bytes_slice, bytes_clone, bytes_empty, slices_equal};
use crate::bytemap::ByteMap;
use super::method::MethodKind;

verus! {

/// A query parameter's value: one value, or the values of a name that ends
/// in "[]", in the order they came.
pub enum QueryStringValue {
    Single(Bytes),
    Array(Vec<Bytes>),
}

pub ghost enum QueryValueView {
    Single(Seq<u8>),
    Array(Seq<Seq<u8>>),
}

/// The contents of a list of byte handles.
pub open spec fn bytes_list(v: Seq<Bytes>) -> Seq<Seq<u8>> {
    v.map_values(|b: Bytes| bytes_seq(b))
}

impl View for QueryStringValue {
    type V = QueryValueView;

    open spec fn view(&self) -> QueryValueView {
        match self {
            QueryStringValue::Single(b) => QueryValueView::Single(bytes_seq(*b)),
            QueryStringValue::Array(v) => QueryValueView::Array(bytes_list(v@)),
        }
    }
}

/// A map of byte strings to byte strings, as a mathematical map.
pub open spec fn bytes_map_view(m: ByteMap<Bytes>) -> Map<Seq<u8>, Seq<u8>> {
    m.as_map().map_values(|b: Bytes| bytes_seq(b))
}

/// A map of query values, as a mathematical map.
pub open spec fn query_map_view(m: ByteMap<QueryStringValue>) -> Map<Seq<u8>, QueryValueView> {
    m.as_map().map_values(|q: QueryStringValue| q@)
}

/// The method that a method name gives.
pub open spec fn method_of(m: Seq<u8>) -> MethodKind {
    if m == seq![71u8, 69u8, 84u8] {
        MethodKind::Get
    } else if m == seq![80u8, 79u8, 83u8, 84u8] {
        MethodKind::Post
    } else if m == seq![80u8, 85u8, 84u8] {
        MethodKind::Put
    } else if m == seq![68u8, 69u8, 76u8, 69u8, 84u8, 69u8] {
        MethodKind::Delete
    } else {
        MethodKind::Unknown
    }
}

/// Whether a parameter name ends in "[]".
pub open spec fn is_array_name(name: Seq<u8>) -> bool {
    name.len() >= 2 && name[name.len() - 1] == 93u8 && name[name.len() - 2] == 91u8
}

/// Whether the name of a query parameter can be looked at: its last two
/// bytes are read to tell a "[]" name, so it must not be empty, nor the
/// one-byte name "]".
pub open spec fn query_name_readable(name: Seq<u8>) -> bool {
    name.len() >= 2 || (name.len() == 1 && name[0] != 93u8)
}

/// The query parameters after one more `name=value` pair.
pub open spec fn query_after(q: Map<Seq<u8>, QueryValueView>, name: Seq<u8>, value: Seq<u8>) -> Map<Seq<u8>, QueryValueView> {
    if is_array_name(name) {
        if q.dom().contains(name) {
            match q[name] {
                QueryValueView::Array(vs) => q.insert(name, QueryValueView::Array(vs.push(value))),
                QueryValueView::Single(_) => q,
            }
        } else {
            q.insert(name, QueryValueView::Array(seq![value]))
        }
    } else {
        q.insert(name, QueryValueView::Single(value))
    }
}

/// The query parameters after the values of one name are added, the first
/// value first.
pub open spec fn query_after_values(q: Map<Seq<u8>, QueryValueView>, name: Seq<u8>, values: Seq<Seq<u8>>) -> Map<Seq<u8>, QueryValueView>
    decreases values.len(),
{
    if values.len() == 0 {
        q
    } else {
        query_after(query_after_values(q, name, values.drop_last()), name, values.last())
    }
}

/// A "[]" name collects every value given for it, in order: starting from
/// no parameters, adding values under such a name one after the other
/// leaves the name holding the list of them.
pub proof fn law_array_query_values_collect(name: Seq<u8>, values: Seq<Seq<u8>>)
    requires
        is_array_name(name),
        values.len() > 0,
    ensures
        query_after_values(Map::empty(), name, values)
            == Map::<Seq<u8>, QueryValueView>::empty().insert(name, QueryValueView::Array(values)),
    decreases values.len(),
{
    let n = values.len();
    let e = Map::<Seq<u8>, QueryValueView>::empty();
    if n == 1 {
        assert(values.drop_last() =~= Seq::<Seq<u8>>::empty());
        assert(query_after_values(e, name, values.drop_last()) == e);
        assert(values =~= seq![values[0]]);
        assert(query_after(e, name, values.last()) == e.insert(name, QueryValueView::Array(seq![values.last()])));
    } else {
        law_array_query_values_collect(name, values.drop_last());
        let m = e.insert(name, QueryValueView::Array(values.drop_last()));
        assert(query_after_values(e, name, values.drop_last()) == m);
        assert(m.dom().contains(name));
        assert(values.drop_last().push(values.last()) =~= values);
        assert(query_after(m, name, values.last()) == m.insert(name, QueryValueView::Array(values)));
        assert(m.insert(name, QueryValueView::Array(values)) =~= e.insert(name, QueryValueView::Array(values)));
    }
}

/// A request under construction.
pub struct RequestBuilder {
    method: MethodKind,
    uri: Bytes,
    uri_params: ByteMap<Bytes>,
    query: ByteMap<QueryStringValue>,
    headers: ByteMap<Bytes>,
    body: Bytes,
}

/// A request as mathematical values.
pub ghost struct RequestView {
    pub method: MethodKind,
    pub uri: Seq<u8>,
    pub uri_params: Map<Seq<u8>, Seq<u8>>,
    pub query: Map<Seq<u8>, QueryValueView>,
    pub headers: Map<Seq<u8>, Seq<u8>>,
    pub body: Seq<u8>,
}

impl View for RequestBuilder {
    type V = RequestView;

    closed spec fn view(&self) -> RequestView {
        RequestView {
            method: self.method,
            uri: bytes_seq(self.uri),
            uri_params: bytes_map_view(self.uri_params),
            query: query_map_view(self.query),
            headers: bytes_map_view(self.headers),
            body: bytes_seq(self.body),
        }
    }
}

/// The method name that a method has (an empty name for `Unknown`).
fn method_from_bytes(m: &[u8]) -> (k: MethodKind)
    ensures
        k == method_of(m@),
{
    let n = m.len();
    if n == 3 && m[0] == 71 && m[1] == 69 && m[2] == 84 {
        assert(m@ =~= seq![71u8, 69u8, 84u8]);
        MethodKind::Get
    } else if n == 4 && m[0] == 80 && m[1] == 79 && m[2] == 83 && m[3] == 84 {
        assert(m@ =~= seq![80u8, 79u8, 83u8, 84u8]);
        MethodKind::Post
    } else if n == 3 && m[0] == 80 && m[1] == 85 && m[2] == 84 {
        assert(m@ =~= seq![80u8, 85u8, 84u8]);
        MethodKind::Put
    } else if n == 6 && m[0] == 68 && m[1] == 69 && m[2] == 76 && m[3] == 69 && m[4] == 84 && m[5] == 69 {
        assert(m@ =~= seq![68u8, 69u8, 76u8, 69u8, 84u8, 69u8]);
        MethodKind::Delete
    } else {
        MethodKind::Unknown
    }
}

impl RequestBuilder {
    /// An empty request: unknown method, empty uri, no parameters, headers
    /// or body.
    pub fn new() -> (r: RequestBuilder)
        ensures
            r@ == (RequestView {
                method: MethodKind::Unknown,
                uri: Seq::empty(),
                uri_params: Map::empty(),
                query: Map::empty(),
                headers: Map::empty(),
                body: Seq::empty(),
            }),
    {
        let r = RequestBuilder {
            method: MethodKind::Unknown,
            uri: bytes_empty(),
            query: ByteMap::new(),
            headers: ByteMap::new(),
            uri_params: ByteMap::new(),
            body: bytes_empty(),
        };
        assert(r@.uri_params =~= Map::empty());
        assert(r@.query =~= Map::empty());
        assert(r@.headers =~= Map::empty());
        r
    }

    /// Sets the method from its name; a name other than GET, POST, PUT and
    /// DELETE gives `Unknown`.
    pub fn add_method(&mut self, method: Bytes) -> (r: &mut Self)
        ensures
            *final(self) == *final(r),
            r@ == (RequestView { method: method_of(bytes_seq(method)), ..old(self)@ }),
    {
        self.method = method_from_bytes(bytes_slice(&method));
        self
    }

    /// Sets the uri.
    pub fn add_uri(&mut self, uri: Bytes) -> (r: &mut Self)
        ensures
            *final(self) == *final(r),
            r@ == (RequestView { uri: bytes_seq(uri), ..old(self)@ }),
    {
        self.uri = uri;
        self
    }

    /// Sets the parameters taken from the uri's variable segments.
    pub fn add_uri_params(&mut self, uri_params: ByteMap<Bytes>) -> (r: &mut Self)
        ensures
            *final(self) == *final(r),
            r@ == (RequestView { uri_params: bytes_map_view(uri_params), ..old(self)@ }),
    {
        self.uri_params = uri_params;
        self
    }

    /// Adds a query parameter: a name ending in "[]" collects its values in
    /// order, any other name keeps its last value.
    pub fn add_query_param(&mut self, name: Bytes, value: Bytes) -> (r: &mut Self)
        requires
            query_name_readable(bytes_seq(name)),
        ensures
            *final(self) == *final(r),
            r@ == (RequestView {
                query: query_after(old(self)@.query, bytes_seq(name), bytes_seq(value)),
                ..old(self)@
            }),
    {
        let ghost q0 = query_map_view(self.query);
        let ghost n = bytes_seq(name);
        let ghost v = bytes_seq(value);
        let is_array = {
            let s = bytes_slice(&name);
            let len = s.len();
            s[len - 1] == 93 && s[len - 2] == 91
        };
        if is_array {
            match self.query.remove(bytes_slice(&name)) {
                Some(QueryStringValue::Array(mut vec)) => {
                    vec.push(value);
                    self.query.insert(name, QueryStringValue::Array(vec));
                    proof {
                        assert(bytes_list(vec@) =~= bytes_list(old(self).query.as_map()[n]->Array_0@).push(v));
                        assert(query_map_view(self.query) =~= q0.insert(n, QueryValueView::Array(bytes_list(vec@))));
                    }
                },
                Some(single) => {
                    self.query.insert(name, single);
                    proof {
                        assert(query_map_view(self.query) =~= q0);
                    }
                },
                None => {
                    let mut vec: Vec<Bytes> = Vec::new();
                    vec.push(value);
                    self.query.insert(name, QueryStringValue::Array(vec));
                    proof {
                        assert(bytes_list(vec@) =~= seq![v]);
                        assert(query_map_view(self.query) =~= q0.insert(n, QueryValueView::Array(seq![v])));
                    }
                },
            }
        } else {
            self.query.insert(name, QueryStringValue::Single(value));
            proof {
                assert(query_map_view(self.query) =~= q0.insert(n, QueryValueView::Single(v)));
            }
        }
        self
    }

    /// Sets a header, replacing any value it had.
    pub fn add_header(&mut self, name: Bytes, value: Bytes) -> (r: &mut Self)
        ensures
            *final(self) == *final(r),
            r@ == (RequestView {
                headers: old(self)@.headers.insert(bytes_seq(name), bytes_seq(value)),
                ..old(self)@
            }),
    {
        let ghost h0 = bytes_map_view(self.headers);
        let ghost n = bytes_seq(name);
        let ghost v = bytes_seq(value);
        self.headers.insert(name, value);
        assert(bytes_map_view(self.headers) =~= h0.insert(n, v));
        self
    }

    /// Sets the body.
    pub fn add_body(&mut self, body: Bytes) -> (r: &mut Self)
        ensures
            *final(self) == *final(r),
            r@ == (RequestView { body: bytes_seq(body), ..old(self)@ }),
    {
        self.body = body;
        self
    }

    /// The request with everything set so far.
    pub fn build(self) -> (r: Request)
        ensures
            r@ == self@,
    {
        Request {
            method: self.method,
            uri: self.uri,
            uri_params: self.uri_params,
            query: self.query,
            headers: self.headers,
            body: self.body,
        }
    }

    /// The method set so far.
    pub fn method(&self) -> (m: MethodKind)
        ensures
            m == self@.method,
    {
        self.method
    }

    /// The uri set so far.
    pub fn uri(&self) -> (u: Bytes)
        ensures
            bytes_seq(u) == self@.uri,
    {
        bytes_clone(&self.uri)
    }

    /// Whether the request asks to keep its connection open: its
    /// Connection header is exactly "keep-alive". The reader hands header
    /// values on untrimmed, so a value read as " keep-alive" (with the
    /// space after the colon) does not count.
    pub fn has_keep_alive(&self) -> (b: bool)
        ensures
            b == (self@.headers.contains_key(connection_name())
                && self@.headers[connection_name()] == keep_alive_value()),
    {
        let name: &'static [u8] = &[67u8, 111u8, 110u8, 110u8, 101u8, 99u8, 116u8, 105u8, 111u8, 110u8];
        let value: &'static [u8] = &[107u8, 101u8, 101u8, 112u8, 45u8, 97u8, 108u8, 105u8, 118u8, 101u8];
        assert(name@ =~= connection_name());
        assert(value@ =~= keep_alive_value());
        match self.headers.get(name) {
            Some(v) => slices_equal(bytes_slice(v), value),
            None => false,
        }
    }
}

/// "Connection"
pub open spec fn connection_name() -> Seq<u8> {
    seq![67u8, 111u8, 110u8, 110u8, 101u8, 99u8, 116u8, 105u8, 111u8, 110u8]
}

/// "keep-alive"
pub open spec fn keep_alive_value() -> Seq<u8> {
    seq![107u8, 101u8, 101u8, 112u8, 45u8, 97u8, 108u8, 105u8, 118u8, 101u8]
}

/// A request.
pub struct Request {
    method: MethodKind,
    uri: Bytes,
    uri_params: ByteMap<Bytes>,
    query: ByteMap<QueryStringValue>,
    headers: ByteMap<Bytes>,
    body: Bytes,
}

impl View for Request {
    type V = RequestView;

    closed spec fn view(&self) -> RequestView {
        RequestView {
            method: self.method,
            uri: bytes_seq(self.uri),
            uri_params: bytes_map_view(self.uri_params),
            query: query_map_view(self.query),
            headers: bytes_map_view(self.headers),
            body: bytes_seq(self.body),
        }
    }
}

impl Request {
    /// The request's method.
    pub fn method(&self) -> (m: MethodKind)
        ensures
            m == self@.method,
    {
        self.method
    }
}

} // verus!
