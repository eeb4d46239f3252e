//! A minimal exact-match server: requests are matched on their uri alone
//! against the GET routes of a `server::router::Router`.

use vstd::prelude::*;
use bytes::Bytes;
use crate::buffers::{bytes_seq, bytes_copy};
use crate::scan::{first_of, find_of};

pub mod router;
pub mod method;
pub mod handler;
pub mod protocol;
pub mod status;

use self::router::Router;

verus! {

/// A server: where it listens and the routes it serves.
pub struct Server<H> {
    host: String,
    port: u32,
    router: Router<H>,
}

impl<H> Server<H> {
    /// A server for the given host, port and routes.
    pub fn new(host: &str, port: u32, router: Router<H>) -> (s: Server<H>)
        ensures
            s.host()@ == host@,
            s.port() == port,
            s.router() == router,
    {
        Server { host: host.to_owned(), port, router }
    }

    pub closed spec fn host(&self) -> String {
        self.host
    }

    pub closed spec fn port(&self) -> u32 {
        self.port
    }

    pub closed spec fn router(&self) -> Router<H> {
        self.router
    }

    /// The host the server listens on.
    pub fn host_name(&self) -> (h: &str)
        ensures
            h@ == self.host()@,
    {
        self.host.as_str()
    }

    /// The port the server listens on.
    pub fn port_number(&self) -> (p: u32)
        ensures
            p == self.port(),
    {
        self.port
    }

    /// The routes the server serves.
    pub fn routes(&self) -> (r: &Router<H>)
        ensures
            *r == self.router(),
    {
        &self.router
    }
}

/// The bytes of a request buffer up to its first zero byte, or all of them.
pub fn parse_buffer(buffer: &[u8]) -> (b: Bytes)
    ensures
        bytes_seq(b) == buffer@.subrange(0, first_of(buffer@, 0, 0u8, 0u8)),
{
    let k = find_of(buffer, 0, 0, 0);
    bytes_copy(&buffer[0..k])
}

} // verus!
