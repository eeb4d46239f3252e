//! A line-oriented request parser: the method line, header lines and the
//! query string of the url, each read from text.

use vstd::prelude::*;
use crate::scan::split;
use crate::scan::first_of;
use crate::chars::{chars_of, str_eq, ws_tokens, first_words, find_char_of, trim, trim_str};
use crate::fields::{split_str, strs_view};
use crate::strmap::StrMap;
use crate::headers::{header_name_of, header_value_readable, header_model, lookup_header_name, value_readable, read_header_value};

pub use crate::types::{MethodKind, HttpVersion, Connection, CacheControl, HttpHeader};

verus! {

/// The value of a query parameter: one value, or the values of a name
/// written with a trailing "[]", in the order they came.
#[derive(Debug)]
pub enum QueryStringParam {
    SimpleParam(String),
    ArrayParam(Vec<String>),
}

/// A query parameter's value as mathematical values.
pub ghost enum ParamModel {
    Simple(Seq<char>),
    Array(Seq<Seq<char>>),
}

impl View for QueryStringParam {
    type V = ParamModel;

    open spec fn view(&self) -> ParamModel {
        match self {
            QueryStringParam::SimpleParam(s) => ParamModel::Simple(s@),
            QueryStringParam::ArrayParam(v) => ParamModel::Array(strs_view(v@)),
        }
    }
}

/// The parameters of a query string by name.
pub struct QueryString(StrMap<QueryStringParam>);

impl View for QueryString {
    type V = Map<Seq<char>, ParamModel>;

    closed spec fn view(&self) -> Map<Seq<char>, ParamModel> {
        self.0.as_map().map_values(|p: QueryStringParam| p@)
    }
}

/// "[]"
pub open spec fn array_suffix() -> Seq<char> {
    seq!['[', ']']
}

/// Whether a parameter name ends in "[]".
pub open spec fn is_array_key(k: Seq<char>) -> bool {
    k.len() >= 2 && k.subrange(k.len() - 2, k.len() as int) == array_suffix()
}

/// The name under which a parameter is kept: without its "[]".
pub open spec fn param_key(k: Seq<char>) -> Seq<char> {
    if is_array_key(k) { k.subrange(0, k.len() - 2) } else { k }
}

/// The parameters after one more `name=value` piece; `None` when the
/// piece does not have exactly one '='. A "[]" name adds its value to the
/// list kept under the name, or starts one; a plain name sets a single
/// value. Either replaces what the name held otherwise.
pub open spec fn query_step(m: Map<Seq<char>, ParamModel>, piece: Seq<char>) -> Option<Map<Seq<char>, ParamModel>> {
    let seg = split(piece, '=');
    if seg.len() != 2 {
        None
    } else {
        let key = param_key(seg[0]);
        let value = seg[1];
        if !is_array_key(seg[0]) {
            Some(m.insert(key, ParamModel::Simple(value)))
        } else if m.contains_key(key) && m[key] is Array {
            Some(m.insert(key, ParamModel::Array(m[key]->Array_0.push(value))))
        } else {
            Some(m.insert(key, ParamModel::Array(seq![value])))
        }
    }
}

/// The parameters that a list of pieces gives, read from the first.
pub open spec fn query_fold(pieces: Seq<Seq<char>>) -> Option<Map<Seq<char>, ParamModel>>
    decreases pieces.len(),
{
    if pieces.len() == 0 {
        Some(Map::empty())
    } else {
        match query_fold(pieces.drop_last()) {
            Some(m) => query_step(m, pieces.last()),
            None => None,
        }
    }
}

/// The parameters of a query string: its '&'-separated pieces, in order.
pub open spec fn query_spec(qs: Seq<char>) -> Option<Map<Seq<char>, ParamModel>> {
    query_fold(split(qs, '&'))
}

/// Once a prefix of the pieces fails, the whole list fails.
proof fn lemma_fold_fails(t: Seq<Seq<char>>, k: int)
    requires
        0 <= k <= t.len(),
        query_fold(t.take(k)) is None,
    ensures
        query_fold(t) is None,
    decreases t.len() - k,
{
    if k < t.len() {
        assert(t.take(k + 1).drop_last() =~= t.take(k));
        lemma_fold_fails(t, k + 1);
    } else {
        assert(t.take(k) =~= t);
    }
}

proof fn lemma_strs_push(s: Seq<String>, x: String)
    ensures
        strs_view(s.push(x)) == strs_view(s).push(x@),
{
    assert(strs_view(s.push(x)) =~= strs_view(s).push(x@));
}

/// A "[]" name collects every value given for it, in order: a query
/// string whose pieces all give values to the name `key` + "[]" reads as
/// that one name holding the list of the values.
pub proof fn law_array_params_collect_in_order(key: Seq<char>, pieces: Seq<Seq<char>>, values: Seq<Seq<char>>)
    requires
        pieces.len() == values.len(),
        pieces.len() > 0,
        forall|i: int| 0 <= i < pieces.len() ==> split(#[trigger] pieces[i], '=') == seq![key + array_suffix(), values[i]],
    ensures
        query_fold(pieces) == Some(Map::<Seq<char>, ParamModel>::empty().insert(key, ParamModel::Array(values))),
    decreases pieces.len(),
{
    let k = key + array_suffix();
    assert(k.subrange(k.len() - 2, k.len() as int) =~= array_suffix());
    assert(k.subrange(0, k.len() - 2) =~= key);
    let n = pieces.len();
    assert(split(pieces[n - 1], '=') == seq![k, values[n - 1]]);
    if n == 1 {
        assert(pieces.drop_last() =~= Seq::<Seq<char>>::empty());
        assert(values =~= seq![values[0]]);
        assert(Map::<Seq<char>, ParamModel>::empty().insert(key, ParamModel::Array(seq![values[0]]))
            =~= Map::<Seq<char>, ParamModel>::empty().insert(key, ParamModel::Array(values)));
    } else {
        assert forall|i: int| 0 <= i < pieces.drop_last().len() implies
            split(#[trigger] pieces.drop_last()[i], '=') == seq![key + array_suffix(), values.drop_last()[i]] by {
            assert(pieces.drop_last()[i] == pieces[i]);
        }
        law_array_params_collect_in_order(key, pieces.drop_last(), values.drop_last());
        let m = Map::<Seq<char>, ParamModel>::empty().insert(key, ParamModel::Array(values.drop_last()));
        assert(values.drop_last().push(values[n - 1]) =~= values);
        assert(m.insert(key, ParamModel::Array(values)) =~= Map::<Seq<char>, ParamModel>::empty().insert(key, ParamModel::Array(values)));
    }
}

impl QueryString {
    /// The value of a parameter.
    pub fn get(&self, key: &str) -> (r: Option<&QueryStringParam>)
        ensures
            match r {
                Some(p) => self@.contains_key(key@) && p@ == self@[key@],
                None => !self@.contains_key(key@),
            },
    {
        self.0.get(key)
    }

    /// Reads a query string: `name=value` pieces separated by '&'. `None`
    /// when a piece has no '=' or more than one.
    pub fn parse(query_string: &str) -> (r: Option<QueryString>)
        ensures
            match r {
                Some(q) => query_spec(query_string@) == Some(q@),
                None => query_spec(query_string@) is None,
            },
    {
        let pieces = split_str(query_string, '&');
        let ghost all = split(query_string@, '&');
        let mut map: StrMap<QueryStringParam> = StrMap::new();
        let mut i: usize = 0;
        proof {
            assert(all.take(0).len() == 0);
            assert(map.as_map().map_values(|p: QueryStringParam| p@) =~= Map::empty());
        }
        while i < pieces.len()
            invariant
                i <= pieces@.len(),
                strs_view(pieces@) == all,
                all == split(query_string@, '&'),
                query_fold(all.take(i as int)) == Some(map.as_map().map_values(|p: QueryStringParam| p@)),
            decreases pieces@.len() - i,
        {
            let ghost before = map.as_map().map_values(|p: QueryStringParam| p@);
            let piece = pieces[i].as_str();
            proof {
                assert(all.take(i + 1).drop_last() =~= all.take(i as int));
                assert(all.take(i + 1).last() == all[i as int]);
                assert(piece@ == all[i as int]);
            }
            let segments = split_str(piece, '=');
            if segments.len() != 2 {
                proof {
                    assert(split(piece@, '=').len() != 2);
                    lemma_fold_fails(all, i + 1);
                }
                return None;
            }
            let k0 = segments[0].as_str();
            let kc = chars_of(k0);
            let n = kc.len();
            proof {
                assert(k0@ == split(piece@, '=')[0]);
                assert(segments@[1]@ == split(piece@, '=')[1]);
            }
            let is_array = n >= 2 && kc[n - 2] == '[' && kc[n - 1] == ']';
            proof {
                if n >= 2 {
                    let suf = k0@.subrange(n - 2, n as int);
                    if is_array {
                        assert(suf =~= array_suffix());
                    } else {
                        assert(suf[0] != '[' || suf[1] != ']');
                        assert(suf != array_suffix());
                    }
                }
            }
            let key: String = if is_array { k0.substring_char(0, n - 2).to_owned() } else { k0.to_owned() };
            let value = segments[1].clone();
            assert(key@ == param_key(k0@));
            if is_array {
                let existing = map.remove(key.as_str());
                match existing {
                    Some(QueryStringParam::ArrayParam(mut c)) => {
                        let ghost old_c = c@;
                        c.push(value);
                        proof { lemma_strs_push(old_c, value); }
                        map.insert(key, QueryStringParam::ArrayParam(c));
                    },
                    _ => {
                        let mut c: Vec<String> = Vec::new();
                        c.push(value);
                        assert(strs_view(c@) =~= seq![value@]);
                        map.insert(key, QueryStringParam::ArrayParam(c));
                    },
                }
            } else {
                map.insert(key, QueryStringParam::SimpleParam(value));
            }
            proof {
                let after = map.as_map().map_values(|p: QueryStringParam| p@);
                assert(query_step(before, piece@) == Some(after)) by {
                    match query_step(before, piece@) {
                        Some(m2) => { assert(m2 =~= after); },
                        None => {},
                    }
                }
            }
            i = i + 1;
        }
        proof {
            assert(all.take(i as int) =~= all);
        }
        Some(QueryString(map))
    }
}

/// Reads a query string: `name=value` pieces separated by '&'. `None`
/// when a piece has no '=' or more than one.
pub fn parse_query_string(query_string: &str) -> (r: Option<QueryString>)
    ensures
        match r {
            Some(q) => query_spec(query_string@) == Some(q@),
            None => query_spec(query_string@) is None,
        },
{
    QueryString::parse(query_string)
}

/// The method that a method name gives.
pub open spec fn method_kind_of(s: Seq<char>) -> Option<MethodKind> {
    if s == "GET"@ {
        Some(MethodKind::Get)
    } else if s == "POST"@ {
        Some(MethodKind::Post)
    } else if s == "PUT"@ {
        Some(MethodKind::Put)
    } else if s == "DELETE"@ {
        Some(MethodKind::Delete)
    } else {
        None
    }
}

/// The method that a method name gives.
pub fn method_kind(s: &str) -> (r: Option<MethodKind>)
    ensures
        r == method_kind_of(s@),
{
    if str_eq(s, "GET") {
        Some(MethodKind::Get)
    } else if str_eq(s, "POST") {
        Some(MethodKind::Post)
    } else if str_eq(s, "PUT") {
        Some(MethodKind::Put)
    } else if str_eq(s, "DELETE") {
        Some(MethodKind::Delete)
    } else {
        None
    }
}

/// Whether this parser accepts a method line: one with three words or
/// more must name HTTP/1.1 in its third and a known method in its first.
pub open spec fn method_line_accepted(line: Seq<char>) -> bool {
    let t = ws_tokens(line);
    t.len() >= 3 ==> t[2] == "HTTP/1.1"@ && method_kind_of(t[0]) is Some
}

/// Whether a method line is accepted (`parse_method` requires it).
pub fn accepts_method_line(buf: &str) -> (b: bool)
    ensures
        b == method_line_accepted(buf@),
{
    let v = chars_of(buf);
    let words = first_words(v.as_slice(), 3);
    if words.len() < 3 {
        return true;
    }
    let (a, b) = words[0];
    let (c, d) = words[2];
    let proto = buf.substring_char(c, d);
    let name = buf.substring_char(a, b);
    str_eq(proto, "HTTP/1.1") && method_kind(name).is_some()
}

/// Reads a method line: its first three white-space separated words are
/// the method, the url and the version. `Err` when it has fewer words.
pub fn parse_method(buf: &String) -> (r: Result<(MethodKind, String, HttpVersion), ()>)
    requires
        method_line_accepted(buf@),
    ensures
        r is Ok <==> ws_tokens(buf@).len() >= 3,
        r matches Ok((m, uri, v)) ==> {
            &&& Some(m) == method_kind_of(ws_tokens(buf@)[0])
            &&& uri@ == ws_tokens(buf@)[1]
            &&& v == HttpVersion::V1
        },
{
    let s = buf.as_str();
    let v = chars_of(s);
    let words = first_words(v.as_slice(), 3);
    if words.len() < 3 {
        return Err(());
    }
    let (a, b) = words[0];
    let (c, d) = words[1];
    let name = s.substring_char(a, b);
    let uri = s.substring_char(c, d).to_owned();
    let m = method_kind(name).unwrap();
    Ok((m, uri, HttpVersion::V1))
}

/// Whether a header parses: its name is known and its value readable
/// under it.
pub open spec fn header_accepted(name: Seq<char>, value: Seq<char>) -> bool {
    header_name_of(name) matches Some(k) && header_value_readable(k, value)
}

/// Whether a header parses (`parse_header` requires it).
pub fn header_parses(name: &str, value: &str) -> (b: bool)
    ensures
        b == header_accepted(name@, value@),
{
    match lookup_header_name(name) {
        Some(k) => value_readable(k, value),
        None => false,
    }
}

/// Reads a header's value under its name.
pub fn parse_header(name: &str, value: &String) -> (h: HttpHeader)
    requires
        header_accepted(name@, value@),
    ensures
        h@ == header_model(header_name_of(name@)->Some_0, value@),
{
    let k = lookup_header_name(name).unwrap();
    read_header_value(k, value.as_str())
}

/// A line without its line end: one trailing '\n', then one '\r' before it.
pub open spec fn strip_line_end(s: Seq<char>) -> Seq<char> {
    if s.len() > 0 && s.last() == '\n' {
        let t = s.drop_last();
        if t.len() > 0 && t.last() == '\r' { t.drop_last() } else { t }
    } else {
        s
    }
}

/// Whether a header line can be read: a line that is not empty once its
/// line end is gone must hold a ':'.
pub open spec fn header_line_readable(s: Seq<char>) -> bool {
    let t = strip_line_end(s);
    t.len() > 0 ==> first_of(t, 0, ':', ':') < t.len()
}

/// The length of a line without its line end.
fn line_content_len(v: &[char]) -> (n: usize)
    ensures
        n <= v@.len(),
        v@.subrange(0, n as int) == strip_line_end(v@),
{
    let mut n = v.len();
    if n > 0 && v[n - 1] == '\n' {
        n = n - 1;
        if n > 0 && v[n - 1] == '\r' {
            n = n - 1;
        }
    }
    proof {
        let s = v@;
        if s.len() > 0 && s.last() == '\n' {
            let t = s.drop_last();
            assert(t =~= s.subrange(0, s.len() - 1));
            if t.len() > 0 && t.last() == '\r' {
                assert(t.drop_last() =~= s.subrange(0, n as int));
            } else {
                assert(t =~= s.subrange(0, n as int));
            }
        } else {
            assert(s =~= s.subrange(0, n as int));
        }
    }
    n
}

/// Whether a header line can be read (`header_line` requires it).
pub fn header_line_parses(buf: &str) -> (b: bool)
    ensures
        b == header_line_readable(buf@),
{
    let v = chars_of(buf);
    let n = line_content_len(v.as_slice());
    if n == 0 {
        return true;
    }
    let t = chars_of(buf.substring_char(0, n));
    find_char_of(t.as_slice(), 0, ':', ':') < n
}

/// Reads a header line: `None` for the empty line that ends the headers,
/// else the trimmed text before its first ':' and the trimmed text after.
pub fn header_line(buf: &str) -> (r: Option<(String, String)>)
    requires
        header_line_readable(buf@),
    ensures
        r is None <==> strip_line_end(buf@).len() == 0,
        r matches Some((n, v)) ==> {
            let t = strip_line_end(buf@);
            let p = first_of(t, 0, ':', ':');
            &&& n@ == trim(t.subrange(0, p))
            &&& v@ == trim(t.subrange(p + 1, t.len() as int))
        },
{
    let v = chars_of(buf);
    let n = line_content_len(v.as_slice());
    if n == 0 {
        return None;
    }
    let line = buf.substring_char(0, n);
    let t = chars_of(line);
    let p = find_char_of(t.as_slice(), 0, ':', ':');
    let name = trim_str(line.substring_char(0, p)).to_owned();
    let value = trim_str(line.substring_char(p + 1, n)).to_owned();
    Some((name, value))
}

/// A map of strings to strings, as a mathematical map.
pub open spec fn strs_map(m: StrMap<String>) -> Map<Seq<char>, Seq<char>> {
    m.as_map().map_values(|s: String| s@)
}

/// The name and value that a readable, non-empty header line holds.
pub open spec fn header_line_fields(s: Seq<char>) -> (Seq<char>, Seq<char>) {
    let t = strip_line_end(s);
    let p = first_of(t, 0, ':', ':');
    (trim(t.subrange(0, p)), trim(t.subrange(p + 1, t.len() as int)))
}

/// One step of reading the headers: the empty line ends them (`true`);
/// another line adds its header, replacing one of the same name.
pub fn collect_header_line(headers: &mut StrMap<String>, buf: &str) -> (done: bool)
    requires
        header_line_readable(buf@),
    ensures
        done <==> strip_line_end(buf@).len() == 0,
        done ==> final(headers).as_map() == old(headers).as_map(),
        !done ==> strs_map(*final(headers)) == strs_map(*old(headers)).insert(
            header_line_fields(buf@).0,
            header_line_fields(buf@).1,
        ),
{
    match header_line(buf) {
        None => true,
        Some((name, value)) => {
            headers.insert(name, value);
            proof {
                assert(strs_map(*headers) =~= strs_map(*old(headers)).insert(name@, value@));
            }
            false
        },
    }
}

/// A parsed request.
pub struct Request {
    method: MethodKind,
    uri: String,
    query: QueryString,
    protocol: HttpVersion,
    headers: StrMap<String>,
}

/// A parsed request as mathematical values.
pub ghost struct RequestModel {
    pub method: MethodKind,
    pub uri: Seq<char>,
    pub query: Map<Seq<char>, ParamModel>,
    pub protocol: HttpVersion,
    pub headers: Map<Seq<char>, Seq<char>>,
}

impl View for Request {
    type V = RequestModel;

    closed spec fn view(&self) -> RequestModel {
        RequestModel {
            method: self.method,
            uri: self.uri@,
            query: self.query@,
            protocol: self.protocol,
            headers: strs_map(self.headers),
        }
    }
}

impl Request {
    /// Splits a url at its '?': the part before it and the parameters of
    /// the part after it (up to a second '?', if any).
    fn get_uri_and_query_string(url: &str) -> (r: Option<(String, QueryString)>)
        requires
            split(url@, '?').len() >= 2,
        ensures
            match r {
                Some((uri, q)) => uri@ == split(url@, '?')[0]
                    && query_spec(split(url@, '?')[1]) == Some(q@),
                None => query_spec(split(url@, '?')[1]) is None,
            },
    {
        let pieces = split_str(url, '?');
        proof {
            assert(pieces@[0]@ == split(url@, '?')[0]);
            assert(pieces@[1]@ == split(url@, '?')[1]);
        }
        let uri = pieces[0].clone();
        match parse_query_string(pieces[1].as_str()) {
            Some(query) => Some((uri, query)),
            None => None,
        }
    }

    /// The request made of a method line's parts and the headers read
    /// after it; `None` when the url's query string does not parse. The
    /// url must hold a '?'.
    pub fn from_parts(method: MethodKind, url: &str, protocol: HttpVersion, headers: StrMap<String>) -> (r: Option<Request>)
        requires
            split(url@, '?').len() >= 2,
        ensures
            match r {
                Some(req) => query_spec(split(url@, '?')[1]) is Some && req@ == (RequestModel {
                    method,
                    uri: split(url@, '?')[0],
                    query: query_spec(split(url@, '?')[1])->Some_0,
                    protocol,
                    headers: strs_map(headers),
                }),
                None => query_spec(split(url@, '?')[1]) is None,
            },
    {
        match Request::get_uri_and_query_string(url) {
            Some((uri, query)) => Some(Request { method, uri, query, protocol, headers }),
            None => None,
        }
    }

    /// Whether the named header is present and parses, or is absent
    /// (`get_parsed_header` requires it).
    pub fn header_parses_if_present(&self, name: &str) -> (b: bool)
        ensures
            b == (self@.headers.contains_key(name@) ==> header_accepted(name@, self@.headers[name@])),
    {
        match self.get_header(name) {
            Some(value) => header_parses(name, value),
            None => true,
        }
    }

    /// The named header, read under its name.
    pub fn get_parsed_header(&self, name: &str) -> (r: Option<HttpHeader>)
        requires
            self@.headers.contains_key(name@) ==> header_accepted(name@, self@.headers[name@]),
        ensures
            match r {
                Some(h) => self@.headers.contains_key(name@)
                    && h@ == header_model(header_name_of(name@)->Some_0, self@.headers[name@]),
                None => !self@.headers.contains_key(name@),
            },
    {
        match self.headers.get(name) {
            Some(value) => Some(parse_header(name, value)),
            None => None,
        }
    }

    /// The text of the named header.
    pub fn get_header(&self, name: &str) -> (r: Option<&str>)
        ensures
            match r {
                Some(v) => self@.headers.contains_key(name@) && v@ == self@.headers[name@],
                None => !self@.headers.contains_key(name@),
            },
    {
        match self.headers.get(name) {
            Some(value) => Some(value.as_str()),
            None => None,
        }
    }

    /// The url's part before its '?'.
    pub fn uri(&self) -> (r: &str)
        ensures
            r@ == self@.uri,
    {
        self.uri.as_str()
    }

    /// The value of a query parameter.
    pub fn query(&self, key: &str) -> (r: Option<&QueryStringParam>)
        ensures
            match r {
                Some(p) => self@.query.contains_key(key@) && p@ == self@.query[key@],
                None => !self@.query.contains_key(key@),
            },
    {
        self.query.get(key)
    }
}

} // verus!
