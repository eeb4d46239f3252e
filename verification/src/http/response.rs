//! The response and the bytes it is sent as.

use vstd::prelude::*;
use bytes::Bytes;
use crate::buffers::{bytes_seq, bytes_slice, bytes_static, bytes_copy, bytes_empty, bytes_mut_seq,
    bytes_mut_with_capacity, bytes_mut_put, bytes_mut_freeze};
use crate::scan::{decimal, decimal_bytes, lemma_decimal_len};
use super::reader::{digits_value, is_digit};
use super::status::Status;

verus! {

/// A response: protocol, status, headers in the order they were added, and
/// body.
pub struct Response {
    protocol: Bytes,
    status: Status,
    headers: Vec<(Bytes, Bytes)>,
    body: Bytes,
}

pub ghost struct ResponseView {
    pub protocol: Seq<u8>,
    pub status: Status,
    pub headers: Seq<(Seq<u8>, Seq<u8>)>,
    pub body: Seq<u8>,
}

/// A list of header handles as byte strings.
pub open spec fn header_list(h: Seq<(Bytes, Bytes)>) -> Seq<(Seq<u8>, Seq<u8>)> {
    h.map_values(|p: (Bytes, Bytes)| (bytes_seq(p.0), bytes_seq(p.1)))
}

impl View for Response {
    type V = ResponseView;

    closed spec fn view(&self) -> ResponseView {
        ResponseView {
            protocol: bytes_seq(self.protocol),
            status: self.status,
            headers: header_list(self.headers@),
            body: bytes_seq(self.body),
        }
    }
}

/// "\r\n"
pub open spec fn crlf() -> Seq<u8> {
    seq![13u8, 10u8]
}

/// The header lines: each `name: value` followed by "\r\n".
pub open spec fn headers_wire(h: Seq<(Seq<u8>, Seq<u8>)>) -> Seq<u8>
    decreases h.len(),
{
    if h.len() == 0 {
        Seq::empty()
    } else {
        headers_wire(h.drop_last()) + h.last().0 + seq![58u8, 32u8] + h.last().1 + crlf()
    }
}

/// The bytes of a response: the status line, the header lines, an empty
/// line, and the body.
pub open spec fn wire(r: ResponseView) -> Seq<u8> {
    r.protocol + seq![32u8] + decimal(r.status.code()) + seq![32u8] + r.status.message() + crlf()
        + headers_wire(r.headers) + crlf() + r.body
}

/// "HTTP/1.1"
pub open spec fn http11() -> Seq<u8> {
    seq![72u8, 84u8, 84u8, 80u8, 47u8, 49u8, 46u8, 49u8]
}

/// The headers that `add_json_headers` adds, in order.
pub open spec fn json_headers() -> Seq<(Seq<u8>, Seq<u8>)> {
    seq![
        (seq![83u8, 101u8, 114u8, 118u8, 101u8, 114u8], seq![78u8, 111u8, 97u8, 109u8, 39u8, 115u8]),
        (seq![67u8, 111u8, 110u8, 116u8, 101u8, 110u8, 116u8, 45u8, 84u8, 121u8, 112u8, 101u8],
         seq![97u8, 112u8, 112u8, 108u8, 105u8, 99u8, 97u8, 116u8, 105u8, 111u8, 110u8, 47u8, 106u8, 115u8, 111u8, 110u8, 59u8, 32u8, 99u8, 104u8, 97u8, 114u8, 115u8, 101u8, 116u8, 61u8, 117u8, 116u8, 102u8, 45u8, 56u8]),
        (seq![65u8, 99u8, 99u8, 101u8, 115u8, 115u8, 45u8, 67u8, 111u8, 110u8, 116u8, 114u8, 111u8, 108u8, 45u8, 65u8, 108u8, 108u8, 111u8, 119u8, 45u8, 79u8, 114u8, 105u8, 103u8, 105u8, 110u8],
         seq![42u8]),
        (seq![67u8, 97u8, 99u8, 104u8, 101u8, 45u8, 67u8, 111u8, 110u8, 116u8, 114u8, 111u8, 108u8],
         seq![110u8, 111u8, 45u8, 99u8, 97u8, 99u8, 104u8, 101u8]),
        (seq![83u8, 116u8, 97u8, 116u8, 117u8, 115u8], seq![50u8, 48u8, 48u8, 32u8, 79u8, 75u8]),
    ]
}

/// "Content-Length"
pub open spec fn content_length_name() -> Seq<u8> {
    seq![67u8, 111u8, 110u8, 116u8, 101u8, 110u8, 116u8, 45u8, 76u8, 101u8, 110u8, 103u8, 116u8, 104u8]
}

/// The Content-Length that a response writes reads back as the body's
/// length: the decimal form of a number is made of ASCII digits only, and
/// reading its digits gives the number again.
pub proof fn law_decimal_reads_back(n: nat)
    ensures
        forall|i: int| 0 <= i < decimal(n).len() ==> is_digit(#[trigger] decimal(n)[i]),
        digits_value(decimal(n)) == n,
    decreases n,
{
    if n >= 10 {
        law_decimal_reads_back(n / 10);
        let s = decimal(n / 10);
        let d = (48 + n % 10) as u8;
        assert(decimal(n) == s.push(d));
        assert(s.push(d).drop_last() =~= s);
        assert(d == 48 + n % 10);
        assert(is_digit(d));
        assert(digits_value(s.push(d)) == digits_value(s) * 10 + (d - 48) as nat);
        assert(n == (n / 10) * 10 + n % 10);
    } else {
        let s = decimal(n);
        let d = (48 + n) as u8;
        assert(d == 48 + n);
        assert(s == seq![d]);
        assert(s.drop_last() =~= Seq::<u8>::empty());
        assert(digits_value(s) == digits_value(s.drop_last()) * 10 + (d - 48) as nat);
    }
}

impl Response {
    /// An empty response: no protocol, status OK, no headers, no body.
    pub fn new() -> (r: Response)
        ensures
            r@ == (ResponseView { protocol: Seq::empty(), status: Status::OK, headers: Seq::empty(), body: Seq::empty() }),
    {
        let r = Response { protocol: bytes_empty(), status: Status::OK, headers: Vec::new(), body: bytes_empty() };
        assert(r@.headers =~= Seq::empty());
        r
    }

    /// Adds the JSON headers and sets the protocol to HTTP/1.1.
    pub fn add_json_headers(&mut self) -> (r: &mut Self)
        ensures
            *final(self) == *final(r),
            r@ == (ResponseView { protocol: http11(), headers: old(self)@.headers + json_headers(), ..old(self)@ }),
    {
        let n0: &'static [u8] = &[83u8, 101u8, 114u8, 118u8, 101u8, 114u8];
        let v0: &'static [u8] = &[78u8, 111u8, 97u8, 109u8, 39u8, 115u8];
        assert(n0@ == json_headers()[0].0 && v0@ == json_headers()[0].1);
        self.add_header_str(n0, v0);
        let n1: &'static [u8] = &[67u8, 111u8, 110u8, 116u8, 101u8, 110u8, 116u8, 45u8, 84u8, 121u8, 112u8, 101u8];
        let v1: &'static [u8] = &[97u8, 112u8, 112u8, 108u8, 105u8, 99u8, 97u8, 116u8, 105u8, 111u8, 110u8, 47u8, 106u8, 115u8, 111u8, 110u8, 59u8, 32u8, 99u8, 104u8, 97u8, 114u8, 115u8, 101u8, 116u8, 61u8, 117u8, 116u8, 102u8, 45u8, 56u8];
        assert(n1@ == json_headers()[1].0 && v1@ == json_headers()[1].1);
        self.add_header_str(n1, v1);
        let n2: &'static [u8] = &[65u8, 99u8, 99u8, 101u8, 115u8, 115u8, 45u8, 67u8, 111u8, 110u8, 116u8, 114u8, 111u8, 108u8, 45u8, 65u8, 108u8, 108u8, 111u8, 119u8, 45u8, 79u8, 114u8, 105u8, 103u8, 105u8, 110u8];
        let v2: &'static [u8] = &[42u8];
        assert(n2@ == json_headers()[2].0 && v2@ == json_headers()[2].1);
        self.add_header_str(n2, v2);
        let n3: &'static [u8] = &[67u8, 97u8, 99u8, 104u8, 101u8, 45u8, 67u8, 111u8, 110u8, 116u8, 114u8, 111u8, 108u8];
        let v3: &'static [u8] = &[110u8, 111u8, 45u8, 99u8, 97u8, 99u8, 104u8, 101u8];
        assert(n3@ == json_headers()[3].0 && v3@ == json_headers()[3].1);
        self.add_header_str(n3, v3);
        let n4: &'static [u8] = &[83u8, 116u8, 97u8, 116u8, 117u8, 115u8];
        let v4: &'static [u8] = &[50u8, 48u8, 48u8, 32u8, 79u8, 75u8];
        assert(n4@ == json_headers()[4].0 && v4@ == json_headers()[4].1);
        self.add_header_str(n4, v4);
        self.protocol = bytes_static(&[72u8, 84u8, 84u8, 80u8, 47u8, 49u8, 46u8, 49u8]);
        proof {
            let h0 = old(self)@.headers;
            let j = json_headers();
            assert(self@.headers =~= h0.push(j[0]).push(j[1]).push(j[2]).push(j[3]).push(j[4]));
            assert(self@.headers =~= h0 + j);
        }
        self
    }

    /// Sets the protocol.
    pub fn set_protocol(&mut self, protocol: Bytes) -> (r: &mut Self)
        ensures
            *final(self) == *final(r),
            r@ == (ResponseView { protocol: bytes_seq(protocol), ..old(self)@ }),
    {
        self.protocol = protocol;
        self
    }

    /// Sets the status.
    pub fn set_status(&mut self, status: Status) -> (r: &mut Self)
        ensures
            *final(self) == *final(r),
            r@ == (ResponseView { status, ..old(self)@ }),
    {
        self.status = status;
        self
    }

    /// Appends a header.
    pub fn add_header(&mut self, name: Bytes, value: Bytes) -> (r: &mut Self)
        ensures
            *final(self) == *final(r),
            r@ == (ResponseView {
                headers: old(self)@.headers.push((bytes_seq(name), bytes_seq(value))),
                ..old(self)@
            }),
    {
        let ghost n = bytes_seq(name);
        let ghost v = bytes_seq(value);
        self.headers.push((name, value));
        assert(self@.headers =~= old(self)@.headers.push((n, v)));
        self
    }

    fn add_header_str(&mut self, name: &'static [u8], value: &'static [u8])
        ensures
            final(self)@ == (ResponseView { headers: old(self)@.headers.push((name@, value@)), ..old(self)@ }),
    {
        self.add_header(bytes_static(name), bytes_static(value));
    }

    /// Sets the body, and appends a Content-Length header with its length.
    pub fn add_body(&mut self, body: Bytes) -> (r: &mut Self)
        ensures
            *final(self) == *final(r),
            r@ == (ResponseView {
                headers: old(self)@.headers.push((content_length_name(), decimal(bytes_seq(body).len()))),
                body: bytes_seq(body),
                ..old(self)@
            }),
    {
        let len = bytes_slice(&body).len();
        let digits = decimal_bytes(len);
        self.add_header(
            bytes_static(&[67u8, 111u8, 110u8, 116u8, 101u8, 110u8, 116u8, 45u8, 76u8, 101u8, 110u8, 103u8, 116u8, 104u8]),
            bytes_copy(digits.as_slice()),
        );
        self.body = body;
        self
    }

    /// The bytes of the response.
    pub fn generate(&self) -> (out: Bytes)
        requires
            wire(self@).len() <= isize::MAX,
        ensures
            bytes_seq(out) == wire(self@),
    {
        let ghost hs = self@.headers;
        proof { lemma_decimal_len(self.status.code()); }
        let protocol = bytes_slice(&self.protocol);
        let message = self.status.to_message();
        let mut count: usize = protocol.len() + 1 + self.status.code_bytes_len() + 1 + message.len() + 2;
        let mut i: usize = 0;
        while i < self.headers.len()
            invariant
                i <= self.headers@.len(),
                hs == header_list(self.headers@),
                wire(self@).len() <= isize::MAX,
                count == protocol@.len() + 1 + decimal(self.status.code()).len() + 1 + message@.len() + 2
                    + headers_wire(hs.take(i as int)).len(),
                protocol@ == self@.protocol,
                message@ == self.status.message(),
            decreases self.headers@.len() - i,
        {
            proof {
                assert(hs.take(i + 1).drop_last() =~= hs.take(i as int));
                lemma_headers_wire_prefix(hs, i + 1);
            }
            let k = bytes_slice(&self.headers[i].0).len();
            let v = bytes_slice(&self.headers[i].1).len();
            count = count + k + v + 4;
            i = i + 1;
        }
        proof {
            assert(hs.take(i as int) =~= hs);
        }
        count = count + 2 + bytes_slice(&self.body).len();
        let mut result = bytes_mut_with_capacity(count);
        let code = decimal_bytes(self.status.to_code() as usize);
        bytes_mut_put(&mut result, protocol);
        bytes_mut_put(&mut result, &[32u8]);
        bytes_mut_put(&mut result, code.as_slice());
        bytes_mut_put(&mut result, &[32u8]);
        bytes_mut_put(&mut result, message);
        bytes_mut_put(&mut result, &[13u8, 10u8]);
        let ghost head = bytes_mut_seq(result);
        let mut i: usize = 0;
        while i < self.headers.len()
            invariant
                i <= self.headers@.len(),
                hs == header_list(self.headers@),
                bytes_mut_seq(result) == head + headers_wire(hs.take(i as int)),
                head + headers_wire(hs) + crlf() + self@.body == wire(self@),
                wire(self@).len() <= isize::MAX,
            decreases self.headers@.len() - i,
        {
            proof {
                assert(hs.take(i + 1).drop_last() =~= hs.take(i as int));
                lemma_headers_wire_prefix(hs, i + 1);
            }
            bytes_mut_put(&mut result, bytes_slice(&self.headers[i].0));
            bytes_mut_put(&mut result, &[58u8, 32u8]);
            bytes_mut_put(&mut result, bytes_slice(&self.headers[i].1));
            bytes_mut_put(&mut result, &[13u8, 10u8]);
            proof {
                assert(bytes_mut_seq(result) =~= head + headers_wire(hs.take(i + 1)));
            }
            i = i + 1;
        }
        proof {
            assert(hs.take(i as int) =~= hs);
        }
        bytes_mut_put(&mut result, &[13u8, 10u8]);
        bytes_mut_put(&mut result, bytes_slice(&self.body));
        assert(bytes_mut_seq(result) =~= wire(self@));
        bytes_mut_freeze(result)
    }
}

/// The header lines of a prefix are no longer than those of the whole list.
proof fn lemma_headers_wire_prefix(h: Seq<(Seq<u8>, Seq<u8>)>, i: int)
    requires
        0 <= i <= h.len(),
    ensures
        headers_wire(h.take(i)).len() <= headers_wire(h).len(),
    decreases h.len() - i,
{
    if i < h.len() {
        lemma_headers_wire_prefix(h, i + 1);
        assert(h.take(i + 1).drop_last() =~= h.take(i));
    } else {
        assert(h.take(i) =~= h);
    }
}

} // verus!
