//! Reading the value of a known header: what each header name makes of
//! its text.

use vstd::prelude::*;
use crate::types::{HttpHeader, HeaderModel, HeaderName, Connection, CacheControl, ranked_list};
use crate::scan::split;
use crate::chars::{trim, str_eq, parse_i32_spec};
use crate::fields::{
    accept_spec, split_accept, split_trimmed, strs_view, host_readable, split_host,
    cache_control_readable, max_age_spec, cache_max_age,
};

verus! {

/// The header that a name gives, the names written as the parser of
/// whole requests expects them ("Host", "User-Agent", ...).
pub open spec fn header_name_of(n: Seq<char>) -> Option<HeaderName> {
    if n == "Host"@ {
        Some(HeaderName::Host)
    } else if n == "User-Agent"@ {
        Some(HeaderName::UserAgent)
    } else if n == "Accept"@ {
        Some(HeaderName::Accept)
    } else if n == "Referer"@ {
        Some(HeaderName::Referer)
    } else if n == "Pragma"@ {
        Some(HeaderName::Pragma)
    } else if n == "Accept-Language"@ {
        Some(HeaderName::AcceptLanguage)
    } else if n == "Accept-Encoding"@ {
        Some(HeaderName::AcceptEncoding)
    } else if n == "Connection"@ {
        Some(HeaderName::Connection)
    } else if n == "Upgrade-Insecure-Requests"@ {
        Some(HeaderName::UpgradeInsecureRequests)
    } else if n == "Cache-Control"@ {
        Some(HeaderName::CacheControl)
    } else {
        None
    }
}

/// The header that a lower-case name gives ("host", "user-agent", ...).
pub open spec fn lower_header_name_of(n: Seq<char>) -> Option<HeaderName> {
    if n == "host"@ {
        Some(HeaderName::Host)
    } else if n == "user-agent"@ {
        Some(HeaderName::UserAgent)
    } else if n == "accept"@ {
        Some(HeaderName::Accept)
    } else if n == "referer"@ {
        Some(HeaderName::Referer)
    } else if n == "pragma"@ {
        Some(HeaderName::Pragma)
    } else if n == "accept-language"@ {
        Some(HeaderName::AcceptLanguage)
    } else if n == "accept-encoding"@ {
        Some(HeaderName::AcceptEncoding)
    } else if n == "connection"@ {
        Some(HeaderName::Connection)
    } else if n == "upgrade-insecure-requests"@ {
        Some(HeaderName::UpgradeInsecureRequests)
    } else if n == "cache-control"@ {
        Some(HeaderName::CacheControl)
    } else {
        None
    }
}

/// Whether a value can be read as the given header: a Host value needs a
/// numeric port and a Cache-Control value with one '=' a numeric max-age.
pub open spec fn header_value_readable(k: HeaderName, v: Seq<char>) -> bool {
    match k {
        HeaderName::Host => host_readable(v),
        HeaderName::CacheControl => cache_control_readable(v),
        _ => true,
    }
}

/// What a value reads as under the given header.
pub open spec fn header_model(k: HeaderName, v: Seq<char>) -> HeaderModel {
    match k {
        HeaderName::Host => HeaderModel::Host {
            name: split(v, ':')[0],
            port: parse_i32_spec(split(v, ':')[1])->Some_0,
        },
        HeaderName::UserAgent => HeaderModel::UserAgent(v),
        HeaderName::Accept => HeaderModel::Accept(accept_spec(v)),
        HeaderName::Referer => HeaderModel::Referer(v),
        HeaderName::Pragma => HeaderModel::Pragma(v),
        HeaderName::AcceptLanguage => HeaderModel::AcceptLanguage(accept_spec(v)),
        HeaderName::AcceptEncoding => HeaderModel::AcceptEncoding(
            split(v, ',').map_values(|p: Seq<char>| trim(p)),
        ),
        HeaderName::Connection => HeaderModel::Connection(
            if v == "keep-alive"@ { Connection::KeepAlive } else { Connection::Close },
        ),
        HeaderName::UpgradeInsecureRequests => HeaderModel::UpgradeInsecureRequests,
        HeaderName::CacheControl => HeaderModel::CacheControl(CacheControl::MaxAge(max_age_spec(v))),
    }
}

/// The name that a header model is of.
pub open spec fn kind_of(h: HeaderModel) -> HeaderName {
    match h {
        HeaderModel::Host { .. } => HeaderName::Host,
        HeaderModel::UserAgent(_) => HeaderName::UserAgent,
        HeaderModel::Referer(_) => HeaderName::Referer,
        HeaderModel::Accept(_) => HeaderName::Accept,
        HeaderModel::AcceptLanguage(_) => HeaderName::AcceptLanguage,
        HeaderModel::AcceptEncoding(_) => HeaderName::AcceptEncoding,
        HeaderModel::Connection(_) => HeaderName::Connection,
        HeaderModel::UpgradeInsecureRequests => HeaderName::UpgradeInsecureRequests,
        HeaderModel::CacheControl(_) => HeaderName::CacheControl,
        HeaderModel::Pragma(_) => HeaderName::Pragma,
    }
}

/// A value read under a header name gives a header of that name, and the
/// free-text headers keep the value as it is.
pub proof fn law_header_is_of_its_name(k: HeaderName, v: Seq<char>)
    ensures
        kind_of(header_model(k, v)) == k,
        k == HeaderName::UserAgent ==> header_model(k, v) == HeaderModel::UserAgent(v),
        k == HeaderName::Referer ==> header_model(k, v) == HeaderModel::Referer(v),
        k == HeaderName::Pragma ==> header_model(k, v) == HeaderModel::Pragma(v),
{
}

/// The header that a name gives (names as "Host", "User-Agent", ...).
pub fn lookup_header_name(n: &str) -> (r: Option<HeaderName>)
    ensures
        r == header_name_of(n@),
{
    if str_eq(n, "Host") {
        Some(HeaderName::Host)
    } else if str_eq(n, "User-Agent") {
        Some(HeaderName::UserAgent)
    } else if str_eq(n, "Accept") {
        Some(HeaderName::Accept)
    } else if str_eq(n, "Referer") {
        Some(HeaderName::Referer)
    } else if str_eq(n, "Pragma") {
        Some(HeaderName::Pragma)
    } else if str_eq(n, "Accept-Language") {
        Some(HeaderName::AcceptLanguage)
    } else if str_eq(n, "Accept-Encoding") {
        Some(HeaderName::AcceptEncoding)
    } else if str_eq(n, "Connection") {
        Some(HeaderName::Connection)
    } else if str_eq(n, "Upgrade-Insecure-Requests") {
        Some(HeaderName::UpgradeInsecureRequests)
    } else if str_eq(n, "Cache-Control") {
        Some(HeaderName::CacheControl)
    } else {
        None
    }
}

/// The header that a lower-case name gives ("host", "user-agent", ...).
pub fn lookup_lower_header_name(n: &str) -> (r: Option<HeaderName>)
    ensures
        r == lower_header_name_of(n@),
{
    if str_eq(n, "host") {
        Some(HeaderName::Host)
    } else if str_eq(n, "user-agent") {
        Some(HeaderName::UserAgent)
    } else if str_eq(n, "accept") {
        Some(HeaderName::Accept)
    } else if str_eq(n, "referer") {
        Some(HeaderName::Referer)
    } else if str_eq(n, "pragma") {
        Some(HeaderName::Pragma)
    } else if str_eq(n, "accept-language") {
        Some(HeaderName::AcceptLanguage)
    } else if str_eq(n, "accept-encoding") {
        Some(HeaderName::AcceptEncoding)
    } else if str_eq(n, "connection") {
        Some(HeaderName::Connection)
    } else if str_eq(n, "upgrade-insecure-requests") {
        Some(HeaderName::UpgradeInsecureRequests)
    } else if str_eq(n, "cache-control") {
        Some(HeaderName::CacheControl)
    } else {
        None
    }
}

/// Whether a value can be read as the given header.
pub fn value_readable(k: HeaderName, value: &str) -> (b: bool)
    ensures
        b == header_value_readable(k, value@),
{
    match k {
        HeaderName::Host => split_host(value).is_some(),
        HeaderName::CacheControl => cache_max_age(value).is_some(),
        _ => true,
    }
}

/// Reads a value as the given header.
pub fn read_header_value(k: HeaderName, value: &str) -> (h: HttpHeader)
    requires
        header_value_readable(k, value@),
    ensures
        h@ == header_model(k, value@),
{
    match k {
        HeaderName::Host => {
            let (name, port) = split_host(value).unwrap();
            HttpHeader::Host { name, port }
        },
        HeaderName::UserAgent => HttpHeader::UserAgent(value.to_owned()),
        HeaderName::Accept => {
            let v = split_accept(value);
            assert(ranked_list(v@) == accept_spec(value@));
            HttpHeader::Accept(v)
        },
        HeaderName::Referer => HttpHeader::Referer(value.to_owned()),
        HeaderName::Pragma => HttpHeader::Pragma(value.to_owned()),
        HeaderName::AcceptLanguage => {
            let v = split_accept(value);
            assert(ranked_list(v@) == accept_spec(value@));
            HttpHeader::AcceptLanguage(v)
        },
        HeaderName::AcceptEncoding => {
            let v = split_trimmed(value, ',');
            assert(strs_view(v@) == split(value@, ',').map_values(|p: Seq<char>| trim(p)));
            HttpHeader::AcceptEncoding(v)
        },
        HeaderName::Connection => {
            if str_eq(value, "keep-alive") {
                HttpHeader::Connection(Connection::KeepAlive)
            } else {
                HttpHeader::Connection(Connection::Close)
            }
        },
        HeaderName::UpgradeInsecureRequests => HttpHeader::UpgradeInsecureRequests,
        HeaderName::CacheControl => {
            let n = cache_max_age(value).unwrap();
            HttpHeader::CacheControl(CacheControl::MaxAge(n))
        },
    }
}

} // verus!
