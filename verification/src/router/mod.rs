//! The router: route patterns read into segments and variables, a trie of
//! routes per method, and the dispatch of requests to their actions.

pub mod reader;
pub mod route;
pub mod router;
