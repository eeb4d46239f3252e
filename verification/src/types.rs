//! The request vocabulary shared by the line-oriented parsers: methods,
//! versions, and the headers they read.

use vstd::prelude::*;
use crate::fields::{RankedType, ranked_view, strs_view};

verus! {

#[derive(Clone, Copy, Debug, PartialEq, Eq, Structural)]
pub enum MethodKind {
    Get,
    Post,
    Put,
    Delete,
}

#[derive(Clone, Copy, Debug, PartialEq, Eq, Structural)]
pub enum HttpVersion {
    V1,
    V2,
}

#[derive(Clone, Copy, Debug, PartialEq, Eq, Structural)]
pub enum Connection {
    KeepAlive,
    Close,
}

#[derive(Clone, Copy, Debug, PartialEq, Eq, Structural)]
pub enum CacheControl {
    MaxAge(i32),
    NoCache,
}

/// A header read from its text. The ranks of Accept lists are kept as the
/// text that follows ";q=" (`None` for the default rank 1.0); turning that
/// text into a number is left to the caller.
#[derive(Clone, Debug, PartialEq, Eq)]
pub enum HttpHeader {
    Host { name: String, port: i32 },
    UserAgent(String),
    Referer(String),
    Accept(Vec<RankedType>),
    AcceptLanguage(Vec<RankedType>),
    AcceptEncoding(Vec<String>),
    Connection(Connection),
    UpgradeInsecureRequests,
    CacheControl(CacheControl),
    Pragma(String),
}

/// A header as mathematical values.
pub ghost enum HeaderModel {
    Host { name: Seq<char>, port: i32 },
    UserAgent(Seq<char>),
    Referer(Seq<char>),
    Accept(Seq<(Seq<char>, Option<Seq<char>>)>),
    AcceptLanguage(Seq<(Seq<char>, Option<Seq<char>>)>),
    AcceptEncoding(Seq<Seq<char>>),
    Connection(Connection),
    UpgradeInsecureRequests,
    CacheControl(CacheControl),
    Pragma(Seq<char>),
}

/// A list of ranked media types as mathematical values.
pub open spec fn ranked_list(v: Seq<RankedType>) -> Seq<(Seq<char>, Option<Seq<char>>)> {
    v.map_values(|e: RankedType| ranked_view(e))
}

impl View for HttpHeader {
    type V = HeaderModel;

    open spec fn view(&self) -> HeaderModel {
        match self {
            HttpHeader::Host { name, port } => HeaderModel::Host { name: name@, port: *port },
            HttpHeader::UserAgent(s) => HeaderModel::UserAgent(s@),
            HttpHeader::Referer(s) => HeaderModel::Referer(s@),
            HttpHeader::Accept(v) => HeaderModel::Accept(ranked_list(v@)),
            HttpHeader::AcceptLanguage(v) => HeaderModel::AcceptLanguage(ranked_list(v@)),
            HttpHeader::AcceptEncoding(v) => HeaderModel::AcceptEncoding(strs_view(v@)),
            HttpHeader::Connection(c) => HeaderModel::Connection(*c),
            HttpHeader::UpgradeInsecureRequests => HeaderModel::UpgradeInsecureRequests,
            HttpHeader::CacheControl(c) => HeaderModel::CacheControl(*c),
            HttpHeader::Pragma(s) => HeaderModel::Pragma(s@),
        }
    }
}

/// The headers that the parsers know by name.
#[derive(Clone, Copy, Debug, PartialEq, Eq, Structural)]
pub enum HeaderName {
    Host,
    UserAgent,
    Accept,
    Referer,
    Pragma,
    AcceptLanguage,
    AcceptEncoding,
    Connection,
    UpgradeInsecureRequests,
    CacheControl,
}

} // verus!
