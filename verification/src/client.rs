//! A client of a server: where it connects, and the body it reads back.

use vstd::prelude::*;

verus! {

/// What a request read back: the text that the server sent.
pub struct Response {
    body: String,
}

impl Response {
    /// A response holding the given text.
    pub fn new(body: String) -> (r: Response)
        ensures
            r.text() == body@,
    {
        Response { body }
    }

    pub closed spec fn text(&self) -> Seq<char> {
        self.body@
    }

    /// A copy of the text.
    pub fn body(&self) -> (b: String)
        ensures
            b@ == self.text(),
    {
        self.body.clone()
    }
}

/// A client of the server at a host and port.
pub struct Client {
    host: String,
    port: u32,
}

impl Client {
    /// A client of the server at `host` and `port`.
    pub fn new(host: &str, port: u32) -> (c: Client)
        ensures
            c.host_text() == host@,
            c.port_number() == port,
    {
        Client { host: host.to_owned(), port }
    }

    pub closed spec fn host_text(&self) -> Seq<char> {
        self.host@
    }

    pub closed spec fn port_number(&self) -> u32 {
        self.port
    }

    /// The host the client connects to.
    pub fn host(&self) -> (h: &str)
        ensures
            h@ == self.host_text(),
    {
        self.host.as_str()
    }

    /// The port the client connects to.
    pub fn port(&self) -> (p: u32)
        ensures
            p == self.port_number(),
    {
        self.port
    }
}

} // verus!
