//! A small HTTP/1.1 toolkit: an incremental request reader, request and
//! response builders, a trie router with path variables, an exact-match
//! router, two line-oriented request parsers, and the admission decisions
//! of the worker pools that serve them.

pub mod buffers;
pub mod scan;
pub mod chars;
pub mod fields;
pub mod bytemap;
pub mod strmap;
pub mod http;
pub mod router;
pub mod server;
pub mod types;
pub mod headers;
pub mod http_parser;
pub mod http_parser_old;
pub mod client;
pub mod flow;
