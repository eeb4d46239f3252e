//! The incremental request reader: a state machine over a page buffer that
//! turns the bytes of a request into events (method, uri, query parameters,
//! version, headers, content length, body).
//!
//! The reader never touches a socket. When it has consumed its whole page it
//! asks for the next one (`ReadStep::Fill`); the caller reads the socket into
//! a page and hands the result to `fill`.

use vstd::prelude::*;
use bytes::{Bytes, BytesMut};
use crate::buffers::{bytes_seq, bytes_mut_seq, bytes_copy, bytes_empty, bytes_mut_with_capacity, bytes_mut_put, bytes_mut_freeze};
use crate::scan::{first_of, lemma_first_of, find_of, slice_to_vec};

verus! {

/// ' '
pub const SP: u8 = 32;
/// '?'
pub const QMARK: u8 = 63;
/// '='
pub const EQ: u8 = 61;
/// '&'
pub const AMP: u8 = 38;
/// ':'
pub const COLON: u8 = 58;
/// '\n'
pub const LF: u8 = 10;
/// '\r'
pub const CR: u8 = 13;

/// One element of a request, as the reader finds it.
pub enum Event {
    Header(Bytes, Bytes),
    Method(Bytes),
    Uri(Bytes),
    QueryStringParam(Bytes, Bytes),
    Version(Bytes),
    ContentLength(usize),
    Body(Bytes),
    EndOfHeaders,
    Error(u8),
}

/// An event with its byte strings as sequences.
pub ghost enum EventView {
    Header(Seq<u8>, Seq<u8>),
    Method(Seq<u8>),
    Uri(Seq<u8>),
    QueryStringParam(Seq<u8>, Seq<u8>),
    Version(Seq<u8>),
    ContentLength(nat),
    Body(Seq<u8>),
    EndOfHeaders,
    Error(u8),
}

impl View for Event {
    type V = EventView;

    open spec fn view(&self) -> EventView {
        match self {
            Event::Header(k, v) => EventView::Header(bytes_seq(*k), bytes_seq(*v)),
            Event::Method(m) => EventView::Method(bytes_seq(*m)),
            Event::Uri(u) => EventView::Uri(bytes_seq(*u)),
            Event::QueryStringParam(k, v) => EventView::QueryStringParam(bytes_seq(*k), bytes_seq(*v)),
            Event::Version(v) => EventView::Version(bytes_seq(*v)),
            Event::ContentLength(n) => EventView::ContentLength(*n as nat),
            Event::Body(b) => EventView::Body(bytes_seq(*b)),
            Event::EndOfHeaders => EventView::EndOfHeaders,
            Event::Error(e) => EventView::Error(*e),
        }
    }
}

/// Which part of the request the reader expects next.
#[derive(Clone, Copy, PartialEq, Eq, Structural)]
pub enum State {
    Method,
    Uri,
    QueryStringParamName,
    QueryStringParamValue,
    Version,
    HeaderName,
    HeaderValue,
    Body,
    End,
}

/// Where the reader waits for a page: nowhere, at the start of a step, or
/// inside the body.
#[derive(Clone, Copy, PartialEq, Eq, Structural)]
pub enum Awaiting {
    Idle,
    Next,
    Body,
}

/// What a step of the reader gives: a request for the next page, or the
/// outcome of the step (`None` when there is nothing more to read from the
/// current page).
pub enum ReadStep {
    Fill,
    Emit(Option<Event>),
}

pub ghost enum StepView {
    Fill,
    Emit(Option<EventView>),
}

impl View for ReadStep {
    type V = StepView;

    open spec fn view(&self) -> StepView {
        match self {
            ReadStep::Fill => StepView::Fill,
            ReadStep::Emit(None) => StepView::Emit(None),
            ReadStep::Emit(Some(e)) => StepView::Emit(Some(e@)),
        }
    }
}

/// The reader's state as mathematical values.
pub ghost struct ReaderView {
    pub buffer: Seq<u8>,
    pub pos: int,
    pub read_size: int,
    pub content_length: int,
    pub has_body: bool,
    pub state: State,
    pub awaiting: Awaiting,
    pub body: Seq<u8>,
    pub left: int,
}

/// The Version event holds the version and no line end: its bytes are the
/// start of the unread part, none of them is '\n', and what follows them
/// is either "\r\n", or a '\n' with no '\r' just before it.
pub proof fn law_version_has_no_line_end(v: ReaderView)
    requires
        0 <= v.pos <= v.read_size <= v.buffer.len(),
        !(v.runner().len() > 0 && v.runner()[0] == LF),
    ensures
        v.version_step().1 matches Some(EventView::Version(b)) ==> {
            let r = v.runner();
            let n = b.len() as int;
            &&& n < r.len()
            &&& b == r.subrange(0, n)
            &&& forall|i: int| 0 <= i < n ==> b[i] != LF
            &&& (r[n] == LF && n > 0 && r[n - 1] != CR) || (n + 1 < r.len() && r[n] == CR && r[n + 1] == LF)
        },
{
    let r = v.runner();
    lemma_first_of(r, 0, LF, LF);
}

/// Whether a reader holds a page shorter than its buffer, with the part
/// still to read inside it, and waits for nothing.
pub open spec fn within_short_page(v: ReaderView) -> bool {
    &&& v.awaiting == Awaiting::Idle
    &&& 0 <= v.pos <= v.read_size < v.buffer.len()
}

/// A page shorter than the buffer is read once: from a reader within such
/// a page, a step never asks for another page, leaves the page as it is,
/// and stays within it. So every event that follows takes its bytes from
/// that one page.
pub proof fn law_short_page_is_read_once(v: ReaderView)
    requires
        within_short_page(v),
    ensures
        !(v.next_step().1 is Fill),
        within_short_page(v.next_step().0),
        v.next_step().0.buffer == v.buffer,
        v.next_step().0.read_size == v.read_size,
{
    let r = v.runner();
    match v.state {
        State::Method => { lemma_first_of(r, 0, SP, SP); },
        State::Uri => { lemma_first_of(r, 0, QMARK, SP); },
        State::QueryStringParamName => {
            lemma_first_of(r, 0, EQ, SP);
            let j = first_of(r, 0, EQ, SP);
            if j < r.len() && r[j] != SP {
                lemma_first_of(r, j + 1, AMP, SP);
            }
        },
        State::Version => { lemma_first_of(r, 0, LF, LF); },
        State::HeaderName => {
            lemma_first_of(r, 0, COLON, LF);
            let j = first_of(r, 0, COLON, LF);
            if j < r.len() && r[j] != LF {
                lemma_first_of(r, j + 1, LF, LF);
            }
        },
        _ => {},
    }
}

/// The reader after `n` steps, each taken as `next` takes it.
pub open spec fn after_steps(v: ReaderView, n: nat) -> ReaderView
    decreases n,
{
    if n == 0 {
        v
    } else {
        after_steps(v.next_step().0, (n - 1) as nat)
    }
}

/// A page shorter than the buffer is the only page read, however many
/// steps follow: from a reader within such a page, no step ever asks for
/// another page, and the page's bytes stay as they were read.
pub proof fn law_short_page_is_the_only_page(v: ReaderView, n: nat)
    requires
        within_short_page(v),
    ensures
        within_short_page(after_steps(v, n)),
        !(after_steps(v, n).next_step().1 is Fill),
        after_steps(v, n).buffer == v.buffer,
        after_steps(v, n).read_size == v.read_size,
    decreases n,
{
    law_short_page_is_read_once(v);
    if n > 0 {
        law_short_page_is_the_only_page(v.next_step().0, (n - 1) as nat);
    }
}

/// The first page of a request, when shorter than the buffer, leaves the
/// reader within it: the step that the page serves asks for no other page.
pub proof fn law_first_short_page_is_kept(v: ReaderView, page: Seq<u8>)
    requires
        v.wf(),
        v.awaiting == Awaiting::Next,
        page.len() < v.buffer.len(),
    ensures
        !(v.fill_step(Some(page)).1 is Fill),
        within_short_page(v.fill_step(Some(page)).0),
        v.fill_step(Some(page)).0.buffer == v.with_page(page).buffer,
        v.fill_step(Some(page)).0.read_size == page.len(),
{
    let w = v.with_page(page);
    assert(w.buffer.len() == v.buffer.len());
    assert(w.wf());
    law_short_page_is_read_once(w);
}

/// The request reader.
pub struct HttpReader {
    buffer: Vec<u8>,
    pos: usize,
    read_size: usize,
    content_length: usize,
    has_body: bool,
    state: State,
    awaiting: Awaiting,
    body: BytesMut,
    left_to_read: usize,
}

// ---------------------------------------------------------------------------
// The specification of one step.

/// Whether a byte is an ASCII digit.
pub open spec fn is_digit(b: u8) -> bool {
    48 <= b <= 57
}

/// The number written by the digits of `s`, other bytes skipped.
pub open spec fn digits_value(s: Seq<u8>) -> nat
    decreases s.len(),
{
    if s.len() == 0 {
        0
    } else if is_digit(s.last()) {
        digits_value(s.drop_last()) * 10 + (s.last() - 48) as nat
    } else {
        digits_value(s.drop_last())
    }
}

/// "CONTENT-LENGTH"
pub open spec fn content_length_upper() -> Seq<u8> {
    seq![67u8, 79u8, 78u8, 84u8, 69u8, 78u8, 84u8, 45u8, 76u8, 69u8, 78u8, 71u8, 84u8, 72u8]
}

/// "content-length"
pub open spec fn content_length_lower() -> Seq<u8> {
    seq![99u8, 111u8, 110u8, 116u8, 101u8, 110u8, 116u8, 45u8, 108u8, 101u8, 110u8, 103u8, 116u8, 104u8]
}

/// Whether a header line whose value ends at `k` is read as the content
/// length: its first fourteen bytes spell "content-length", each byte in
/// either case.
pub open spec fn is_content_length_line(r: Seq<u8>, k: int) -> bool {
    &&& k >= 13
    &&& r.len() >= 14
    &&& forall|i: int|
        0 <= i < 14 ==> r[i] == #[trigger] content_length_upper()[i] || r[i] == content_length_lower()[i]
}

/// The four method names that the reader accepts.
pub open spec fn is_known_method(m: Seq<u8>) -> bool {
    ||| m == seq![71u8, 69u8, 84u8]
    ||| m == seq![80u8, 79u8, 83u8, 84u8]
    ||| m == seq![80u8, 85u8, 84u8]
    ||| m == seq![68u8, 69u8, 76u8, 69u8, 84u8, 69u8]
}

impl ReaderView {
    /// The unread part of the current page.
    pub open spec fn runner(self) -> Seq<u8> {
        self.buffer.subrange(self.pos, self.read_size)
    }

    pub open spec fn advanced(self, n: int, state: State) -> ReaderView {
        ReaderView { pos: self.pos + n, state, ..self }
    }

    pub open spec fn with_state(self, state: State) -> ReaderView {
        ReaderView { state, ..self }
    }

    /// The well-formedness that every step keeps.
    pub open spec fn wf(self) -> bool {
        &&& 0 <= self.read_size <= self.buffer.len() <= isize::MAX
        &&& 0 <= self.pos <= self.buffer.len()
        &&& (self.pos <= self.read_size || self.pos == self.buffer.len())
        &&& self.state == State::Method ==> (self.pos == 0 || self.pos == self.buffer.len())
        &&& self.awaiting != Awaiting::Idle ==> self.pos == self.buffer.len()
        &&& self.awaiting == Awaiting::Body ==> {
            &&& self.state == State::Body
            &&& self.left > 0
            &&& self.body.len() + self.left + 1 == self.content_length
            &&& self.content_length <= isize::MAX
        }
        &&& 0 <= self.left
        &&& 0 <= self.content_length <= usize::MAX
    }

    /// The method step: the bytes up to the first space.
    pub open spec fn method_step(self) -> (ReaderView, Option<EventView>) {
        let r = self.runner();
        let j = first_of(r, 0, SP, SP);
        if j >= r.len() {
            (self, None)
        } else {
            let m = r.subrange(0, j);
            let ev = if is_known_method(m) { EventView::Method(m) } else { EventView::Error(1) };
            (self.advanced(j + 1, State::Uri), Some(ev))
        }
    }

    /// The uri step: the bytes up to the first '?' or space.
    pub open spec fn uri_step(self) -> (ReaderView, Option<EventView>) {
        let r = self.runner();
        let j = first_of(r, 0, QMARK, SP);
        if j >= r.len() {
            (self, None)
        } else {
            let next = if r[j] == QMARK { State::QueryStringParamName } else { State::Version };
            (self.advanced(j + 1, next), Some(EventView::Uri(r.subrange(0, j))))
        }
    }

    /// The query step: one `name=value` pair, ended by '&' or a space; a
    /// name ended by a space has an empty value.
    pub open spec fn query_step(self) -> (ReaderView, Option<EventView>) {
        let r = self.runner();
        let j = first_of(r, 0, EQ, SP);
        if j >= r.len() {
            (self, None)
        } else if r[j] == SP {
            (
                self.advanced(j + 1, State::Version),
                Some(EventView::QueryStringParam(r.subrange(0, j), Seq::empty())),
            )
        } else {
            let k = first_of(r, j + 1, AMP, SP);
            if k >= r.len() {
                (self.with_state(State::QueryStringParamValue), None)
            } else {
                let next = if r[k] == AMP { State::QueryStringParamName } else { State::Version };
                (
                    self.advanced(k + 1, next),
                    Some(EventView::QueryStringParam(r.subrange(0, j), r.subrange(j + 1, k))),
                )
            }
        }
    }

    /// The version step: the line up to '\n', without a '\r' before it.
    pub open spec fn version_step(self) -> (ReaderView, Option<EventView>) {
        let r = self.runner();
        let j = first_of(r, 0, LF, LF);
        if j >= r.len() {
            (self, None)
        } else {
            let end = if r[j - 1] == CR { j - 1 } else { j };
            (self.advanced(j + 1, State::HeaderName), Some(EventView::Version(r.subrange(0, end))))
        }
    }

    /// The header step: a `name: value` line, the content length when the
    /// line names it, or the empty line that ends the headers.
    pub open spec fn header_step(self) -> (ReaderView, Option<EventView>) {
        let r = self.runner();
        let j = first_of(r, 0, COLON, LF);
        if j >= r.len() {
            (self, None)
        } else if r[j] == LF {
            if r[0] == CR || j == 0 {
                (self.advanced(j + 1, State::Body), Some(EventView::EndOfHeaders))
            } else {
                (self.advanced(j + 1, State::HeaderName), Some(EventView::Error(2)))
            }
        } else {
            let k = first_of(r, j + 1, LF, LF);
            if k >= r.len() {
                (self.with_state(State::HeaderValue), None)
            } else {
                let end = if r[k - 1] == CR { k - 1 } else { k };
                let value = r.subrange(j + 1, end);
                if is_content_length_line(r, k) {
                    let n = digits_value(value);
                    (
                        ReaderView { has_body: true, content_length: n as int, ..self.advanced(k + 1, State::HeaderName) },
                        Some(EventView::ContentLength(n)),
                    )
                } else {
                    (
                        self.advanced(k + 1, State::HeaderName),
                        Some(EventView::Header(r.subrange(0, j), value)),
                    )
                }
            }
        }
    }

    /// The body step on entry: the rest of the page when it covers the
    /// content length, else the start of a body that continues.
    pub open spec fn body_step(self) -> (ReaderView, StepView) {
        if self.content_length > 0 {
            let avail = self.read_size - self.pos + 1;
            if self.content_length <= avail {
                (self.with_state(State::End), StepView::Emit(Some(EventView::Body(self.runner()))))
            } else {
                let started = ReaderView {
                    body: self.runner(),
                    left: self.content_length - avail,
                    ..self
                };
                if self.pos == self.buffer.len() {
                    (ReaderView { awaiting: Awaiting::Body, ..started }, StepView::Fill)
                } else {
                    started.body_loop()
                }
            }
        } else {
            (self, StepView::Emit(None))
        }
    }

    /// The body loop: the page is appended again and again, its size taken
    /// from what is left, until nothing is left.
    pub open spec fn body_loop(self) -> (ReaderView, StepView) {
        let page = self.buffer.subrange(0, self.read_size);
        if self.read_size == 0 {
            (self, StepView::Emit(Some(EventView::Error(4))))
        } else {
            let body = body_fill(self.body, self.left, page);
            (
                ReaderView { state: State::End, body: Seq::empty(), left: 0, ..self },
                StepView::Emit(Some(EventView::Body(body))),
            )
        }
    }

    /// One step from a page that holds unread bytes.
    pub open spec fn dispatch(self) -> (ReaderView, StepView) {
        let emit = |p: (ReaderView, Option<EventView>)| (p.0, StepView::Emit(p.1));
        match self.state {
            State::Method => emit(self.method_step()),
            State::Uri => emit(self.uri_step()),
            State::QueryStringParamName => emit(self.query_step()),
            State::Version => emit(self.version_step()),
            State::HeaderName => emit(self.header_step()),
            State::Body => self.body_step(),
            State::End => (self, StepView::Emit(None)),
            _ => (self, StepView::Emit(Some(EventView::Error(6)))),
        }
    }

    /// A step: a request for a page when the current one is used up, else
    /// the dispatch on the current state.
    pub open spec fn next_step(self) -> (ReaderView, StepView) {
        if self.pos == self.buffer.len() {
            (ReaderView { awaiting: Awaiting::Next, ..self }, StepView::Fill)
        } else {
            self.dispatch()
        }
    }

    /// The reader once a page has been read into its buffer.
    pub open spec fn with_page(self, page: Seq<u8>) -> ReaderView {
        ReaderView {
            buffer: page + self.buffer.subrange(page.len() as int, self.buffer.len() as int),
            read_size: page.len() as int,
            pos: 0,
            awaiting: Awaiting::Idle,
            ..self
        }
    }

    /// The continuation of a step once the page it asked for was read
    /// (`Some`) or the read failed (`None`).
    pub open spec fn fill_step(self, page: Option<Seq<u8>>) -> (ReaderView, StepView) {
        let idle = ReaderView { awaiting: Awaiting::Idle, ..self };
        match page {
            None => {
                let e = if self.awaiting == Awaiting::Body { 3u8 } else { 5u8 };
                (idle, StepView::Emit(Some(EventView::Error(e))))
            },
            Some(p) => {
                if self.awaiting == Awaiting::Body {
                    self.with_page(p).body_loop()
                } else {
                    self.with_page(p).dispatch()
                }
            },
        }
    }

    /// Whether the loop of the body would subtract past zero.
    pub open spec fn body_loop_panics(self) -> bool {
        self.read_size > 0 && body_overshoots(self.left, self.read_size)
    }

    /// Whether a dispatch would panic: a version line that starts with
    /// '\n', a content length beyond `usize`, a body larger than an
    /// allocation can be, or a body loop that subtracts past zero.
    pub open spec fn dispatch_panics(self) -> bool {
        let r = self.runner();
        match self.state {
            State::Version => r.len() > 0 && r[0] == LF,
            State::HeaderName => {
                let j = first_of(r, 0, COLON, LF);
                let k = first_of(r, j + 1, LF, LF);
                &&& j < r.len()
                &&& r[j] == COLON
                &&& k < r.len()
                &&& is_content_length_line(r, k)
                &&& digits_value(r.subrange(j + 1, if r[k - 1] == CR { k - 1 } else { k })) > usize::MAX
            },
            State::Body => {
                let avail = self.read_size - self.pos + 1;
                &&& self.content_length > 0
                &&& self.content_length > avail
                &&& (self.content_length > isize::MAX || (self.pos != self.buffer.len()
                    && ReaderView { left: self.content_length - avail, ..self }.body_loop_panics()))
            },
            _ => false,
        }
    }

    pub open spec fn next_panics(self) -> bool {
        self.pos != self.buffer.len() && self.dispatch_panics()
    }

    pub open spec fn fill_panics(self, page: Option<Seq<u8>>) -> bool {
        match page {
            None => false,
            Some(p) => if self.awaiting == Awaiting::Body {
                self.with_page(p).body_loop_panics()
            } else {
                self.with_page(p).dispatch_panics()
            },
        }
    }
}

/// Whether subtracting `rs` from `left` again and again overshoots zero.
pub open spec fn body_overshoots(left: int, rs: int) -> bool
    decreases left,
{
    if rs <= 0 || left <= 0 {
        false
    } else if left < rs {
        true
    } else {
        body_overshoots(left - rs, rs)
    }
}

/// The body after the loop: `page` appended once for each time it fits
/// in what is left.
pub open spec fn body_fill(body: Seq<u8>, left: int, page: Seq<u8>) -> Seq<u8>
    decreases left,
{
    if page.len() == 0 || left <= page.len() {
        body + page
    } else {
        body_fill(body + page, left - page.len(), page)
    }
}


/// An optional event as a mathematical value.
pub open spec fn opt_event_view(e: Option<Event>) -> Option<EventView> {
    match e {
        Some(ev) => Some(ev@),
        None => None,
    }
}

/// An optional page as a mathematical value.
pub open spec fn opt_page_view(p: Option<&[u8]>) -> Option<Seq<u8>> {
    match p {
        Some(s) => Some(s@),
        None => None,
    }
}

/// Whether the bytes are one of the four method names.
fn known_method(m: &[u8]) -> (b: bool)
    ensures
        b == is_known_method(m@),
{
    let n = m.len();
    let b = (n == 3 && m[0] == 71 && m[1] == 69 && m[2] == 84)
        || (n == 4 && m[0] == 80 && m[1] == 79 && m[2] == 83 && m[3] == 84)
        || (n == 3 && m[0] == 80 && m[1] == 85 && m[2] == 84)
        || (n == 6 && m[0] == 68 && m[1] == 69 && m[2] == 76 && m[3] == 69 && m[4] == 84 && m[5] == 69);
    proof {
        if n == 3 && m[0] == 71 && m[1] == 69 && m[2] == 84 {
            assert(m@ =~= seq![71u8, 69u8, 84u8]);
        }
        if n == 4 && m[0] == 80 && m[1] == 79 && m[2] == 83 && m[3] == 84 {
            assert(m@ =~= seq![80u8, 79u8, 83u8, 84u8]);
        }
        if n == 3 && m[0] == 80 && m[1] == 85 && m[2] == 84 {
            assert(m@ =~= seq![80u8, 85u8, 84u8]);
        }
        if n == 6 && m[0] == 68 && m[1] == 69 && m[2] == 76 && m[3] == 69 && m[4] == 84 && m[5] == 69 {
            assert(m@ =~= seq![68u8, 69u8, 76u8, 69u8, 84u8, 69u8]);
        }
    }
    b
}

/// Whether the line in `r`, whose value ends at `k`, names the content
/// length.
fn content_length_line(r: &[u8], k: usize) -> (b: bool)
    ensures
        b == is_content_length_line(r@, k as int),
{
    if k < 13 || r.len() < 14 {
        return false;
    }
    let upper: [u8; 14] = [67, 79, 78, 84, 69, 78, 84, 45, 76, 69, 78, 71, 84, 72];
    let lower: [u8; 14] = [99, 111, 110, 116, 101, 110, 116, 45, 108, 101, 110, 103, 116, 104];
    assert(upper@ =~= content_length_upper());
    assert(lower@ =~= content_length_lower());
    let mut i: usize = 0;
    while i < 14
        invariant
            i <= 14,
            r@.len() >= 14,
            upper@ == content_length_upper(),
            lower@ == content_length_lower(),
            forall|t: int| 0 <= t < i ==> r@[t] == #[trigger] content_length_upper()[t] || r@[t] == content_length_lower()[t],
        decreases 14 - i,
    {
        if r[i] != upper[i] && r[i] != lower[i] {
            assert(!(r@[i as int] == content_length_upper()[i as int] || r@[i as int] == content_length_lower()[i as int]));
            return false;
        }
        i = i + 1;
    }
    true
}

/// A number can only grow as digits are appended to the bytes it is read
/// from.
proof fn lemma_digits_value_prefix(s: Seq<u8>, i: int)
    requires
        0 <= i <= s.len(),
    ensures
        digits_value(s.subrange(0, i)) <= digits_value(s),
    decreases s.len() - i,
{
    if i < s.len() {
        lemma_digits_value_prefix(s, i + 1);
        let t = s.subrange(0, i + 1);
        assert(t.drop_last() =~= s.subrange(0, i));
    } else {
        assert(s.subrange(0, i) =~= s);
    }
}

/// The number that the ASCII digits of `buffer` write, other bytes
/// skipped.
pub fn byte_array_to_i32(buffer: &[u8]) -> (n: usize)
    requires
        digits_value(buffer@) <= usize::MAX,
    ensures
        n == digits_value(buffer@),
{
    let mut acc: usize = 0;
    let mut i: usize = 0;
    while i < buffer.len()
        invariant
            i <= buffer@.len(),
            acc == digits_value(buffer@.subrange(0, i as int)),
            digits_value(buffer@) <= usize::MAX,
        decreases buffer@.len() - i,
    {
        let x = buffer[i];
        proof {
            let t = buffer@.subrange(0, i + 1);
            assert(t.drop_last() =~= buffer@.subrange(0, i as int));
            assert(t.last() == x);
            lemma_digits_value_prefix(buffer@, i + 1);
        }
        if x >= 48 && x <= 57 {
            acc = acc * 10 + (x - 48) as usize;
        }
        i = i + 1;
    }
    assert(buffer@.subrange(0, i as int) =~= buffer@);
    acc
}

/// Whether the number that the digits of `buffer` write exceeds `usize`.
fn digits_overflow(buffer: &[u8]) -> (b: bool)
    ensures
        b == (digits_value(buffer@) > usize::MAX),
{
    let mut acc: usize = 0;
    let mut i: usize = 0;
    while i < buffer.len()
        invariant
            i <= buffer@.len(),
            acc == digits_value(buffer@.subrange(0, i as int)),
        decreases buffer@.len() - i,
    {
        let x = buffer[i];
        proof {
            let t = buffer@.subrange(0, i + 1);
            assert(t.drop_last() =~= buffer@.subrange(0, i as int));
            assert(t.last() == x);
            lemma_digits_value_prefix(buffer@, i + 1);
        }
        if x >= 48 && x <= 57 {
            let d = (x - 48) as usize;
            if acc > (usize::MAX - d) / 10 {
                return true;
            }
            acc = acc * 10 + d;
        }
        i = i + 1;
    }
    assert(buffer@.subrange(0, i as int) =~= buffer@);
    false
}

/// For a positive step, overshooting zero is a matter of divisibility.
#[verifier::spinoff_prover]
proof fn lemma_body_overshoots(left: int, rs: int)
    requires
        left > 0,
        rs > 0,
    ensures
        body_overshoots(left, rs) == (left % rs != 0),
    decreases left,
{
    if left < rs {
        vstd::arithmetic::div_mod::lemma_small_mod(left as nat, rs as nat);
        assert(body_overshoots(left, rs));
    } else if left == rs {
        vstd::arithmetic::div_mod::lemma_mod_self_0(rs);
        assert(!body_overshoots(left - rs, rs));
        assert(!body_overshoots(left, rs));
    } else {
        lemma_body_overshoots(left - rs, rs);
        vstd::arithmetic::div_mod::lemma_mod_sub_multiples_vanish(left, rs);
        assert(body_overshoots(left, rs) == body_overshoots(left - rs, rs));
    }
}

impl View for HttpReader {
    type V = ReaderView;

    closed spec fn view(&self) -> ReaderView {
        ReaderView {
            buffer: self.buffer@,
            pos: self.pos as int,
            read_size: self.read_size as int,
            content_length: self.content_length as int,
            has_body: self.has_body,
            state: self.state,
            awaiting: self.awaiting,
            body: bytes_mut_seq(self.body),
            left: self.left_to_read as int,
        }
    }
}

impl HttpReader {
    /// The reader's well-formedness.
    pub open spec fn wf(&self) -> bool {
        self@.wf()
    }

    /// A reader over the given page buffer, before any page was read.
    pub fn new(buffer: Vec<u8>) -> (r: HttpReader)
        requires
            buffer@.len() <= isize::MAX,
        ensures
            r.wf(),
            r@ == (ReaderView {
                buffer: buffer@,
                pos: buffer@.len() as int,
                read_size: 0,
                content_length: 0,
                has_body: false,
                state: State::Method,
                awaiting: Awaiting::Idle,
                body: Seq::empty(),
                left: 0,
            }),
    {
        let len = buffer.len();
        HttpReader {
            buffer,
            pos: len,
            read_size: 0,
            content_length: 0,
            has_body: false,
            state: State::Method,
            awaiting: Awaiting::Idle,
            body: bytes_mut_with_capacity(0),
            left_to_read: 0,
        }
    }

    /// The size of the pages that the reader takes.
    pub fn page_size(&self) -> (n: usize)
        ensures
            n == self@.buffer.len(),
    {
        self.buffer.len()
    }

    /// Whether the reader waits for a page.
    pub fn awaiting_page(&self) -> (b: bool)
        ensures
            b == (self@.awaiting != Awaiting::Idle),
    {
        self.awaiting != Awaiting::Idle
    }

    fn read_method(&mut self) -> (ev: Option<Event>)
        requires
            old(self)@.wf(),
            old(self)@.pos <= old(self)@.read_size,
            old(self)@.state == State::Method,
            old(self)@.pos == 0,
            old(self)@.awaiting == Awaiting::Idle,
        ensures
            (final(self)@, opt_event_view(ev)) == old(self)@.method_step(),
    {
        let runner = &self.buffer[self.pos..self.read_size];
        let j = find_of(runner, 0, SP, SP);
        proof { lemma_first_of(runner@, 0, SP, SP); }
        if j >= runner.len() {
            return None;
        }
        let m = &runner[0..j];
        let ev = if known_method(m) { Event::Method(bytes_copy(m)) } else { Event::Error(1) };
        self.state = State::Uri;
        self.pos = self.pos + j + 1;
        Some(ev)
    }

    fn read_uri(&mut self) -> (ev: Option<Event>)
        requires
            old(self)@.wf(),
            old(self)@.pos <= old(self)@.read_size,
            old(self)@.state == State::Uri,
            old(self)@.awaiting == Awaiting::Idle,
        ensures
            (final(self)@, opt_event_view(ev)) == old(self)@.uri_step(),
    {
        let runner = &self.buffer[self.pos..self.read_size];
        let j = find_of(runner, 0, QMARK, SP);
        proof { lemma_first_of(runner@, 0, QMARK, SP); }
        if j >= runner.len() {
            return None;
        }
        let ev = Event::Uri(bytes_copy(&runner[0..j]));
        self.state = if runner[j] == QMARK { State::QueryStringParamName } else { State::Version };
        self.pos = self.pos + j + 1;
        Some(ev)
    }

    fn read_query_string(&mut self) -> (ev: Option<Event>)
        requires
            old(self)@.wf(),
            old(self)@.pos <= old(self)@.read_size,
            old(self)@.state == State::QueryStringParamName,
            old(self)@.awaiting == Awaiting::Idle,
        ensures
            (final(self)@, opt_event_view(ev)) == old(self)@.query_step(),
    {
        let runner = &self.buffer[self.pos..self.read_size];
        let j = find_of(runner, 0, EQ, SP);
        proof { lemma_first_of(runner@, 0, EQ, SP); }
        if j >= runner.len() {
            return None;
        }
        if runner[j] == SP {
            let ev = Event::QueryStringParam(bytes_copy(&runner[0..j]), bytes_empty());
            self.state = State::Version;
            self.pos = self.pos + j + 1;
            return Some(ev);
        }
        let k = find_of(runner, j + 1, AMP, SP);
        proof { lemma_first_of(runner@, j + 1, AMP, SP); }
        if k >= runner.len() {
            self.state = State::QueryStringParamValue;
            return None;
        }
        let ev = Event::QueryStringParam(bytes_copy(&runner[0..j]), bytes_copy(&runner[j + 1..k]));
        self.state = if runner[k] == AMP { State::QueryStringParamName } else { State::Version };
        self.pos = self.pos + k + 1;
        Some(ev)
    }

    fn read_version(&mut self) -> (ev: Option<Event>)
        requires
            old(self)@.wf(),
            old(self)@.pos <= old(self)@.read_size,
            old(self)@.state == State::Version,
            old(self)@.awaiting == Awaiting::Idle,
            !old(self)@.dispatch_panics(),
        ensures
            (final(self)@, opt_event_view(ev)) == old(self)@.version_step(),
    {
        let runner = &self.buffer[self.pos..self.read_size];
        let j = find_of(runner, 0, LF, LF);
        proof { lemma_first_of(runner@, 0, LF, LF); }
        if j >= runner.len() {
            return None;
        }
        let end = if runner[j - 1] == CR { j - 1 } else { j };
        let ev = Event::Version(bytes_copy(&runner[0..end]));
        self.state = State::HeaderName;
        self.pos = self.pos + j + 1;
        Some(ev)
    }

    fn read_header(&mut self) -> (ev: Option<Event>)
        requires
            old(self)@.wf(),
            old(self)@.pos <= old(self)@.read_size,
            old(self)@.state == State::HeaderName,
            old(self)@.awaiting == Awaiting::Idle,
            !old(self)@.dispatch_panics(),
        ensures
            (final(self)@, opt_event_view(ev)) == old(self)@.header_step(),
    {
        let runner = &self.buffer[self.pos..self.read_size];
        let j = find_of(runner, 0, COLON, LF);
        proof { lemma_first_of(runner@, 0, COLON, LF); }
        if j >= runner.len() {
            return None;
        }
        if runner[j] == LF {
            if runner[0] == CR || j == 0 {
                self.state = State::Body;
                self.pos = self.pos + j + 1;
                return Some(Event::EndOfHeaders);
            } else {
                self.pos = self.pos + j + 1;
                return Some(Event::Error(2));
            }
        }
        let k = find_of(runner, j + 1, LF, LF);
        proof { lemma_first_of(runner@, j + 1, LF, LF); }
        if k >= runner.len() {
            self.state = State::HeaderValue;
            return None;
        }
        let end = if runner[k - 1] == CR { k - 1 } else { k };
        let value = &runner[j + 1..end];
        let ev = if content_length_line(runner, k) {
            let n = byte_array_to_i32(value);
            self.has_body = true;
            self.content_length = n;
            Event::ContentLength(n)
        } else {
            Event::Header(bytes_copy(&runner[0..j]), bytes_copy(value))
        };
        self.state = State::HeaderName;
        self.pos = self.pos + k + 1;
        Some(ev)
    }

    /// The body loop from the current page.
    fn body_loop(&mut self) -> (step: ReadStep)
        requires
            old(self)@.wf(),
            old(self)@.pos <= old(self)@.read_size,
            old(self)@.state == State::Body,
            old(self)@.awaiting == Awaiting::Idle,
            old(self)@.left > 0,
            old(self)@.body.len() + old(self)@.left + 1 == old(self)@.content_length,
            old(self)@.content_length <= isize::MAX,
            !old(self)@.body_loop_panics(),
        ensures
            (final(self)@, step@) == old(self)@.body_loop(),
            final(self)@.wf(),
    {
        let rs = self.read_size;
        if rs == 0 {
            return ReadStep::Emit(Some(Event::Error(4)));
        }
        let ghost page = self.buffer@.subrange(0, rs as int);
        let ghost target = body_fill(bytes_mut_seq(self.body), self.left_to_read as int, page);
        loop
            invariant
                self@.wf(),
                self.read_size == rs,
                rs > 0,
                page == self.buffer@.subrange(0, rs as int),
                self.left_to_read > 0,
                bytes_mut_seq(self.body).len() + self.left_to_read + 1 == self.content_length,
                self.content_length <= isize::MAX,
                !body_overshoots(self.left_to_read as int, rs as int),
                body_fill(bytes_mut_seq(self.body), self.left_to_read as int, page) == target,
                target == body_fill(bytes_mut_seq(old(self).body), old(self).left_to_read as int, page),
                rs == old(self).read_size,
                self.state == State::Body,
                self.awaiting == Awaiting::Idle,
                self.awaiting == old(self).awaiting,
                self.pos == old(self).pos,
                self.buffer == old(self).buffer,
                self.has_body == old(self).has_body,
                self.content_length == old(self).content_length,
            decreases self.left_to_read,
        {
            let ghost b0 = bytes_mut_seq(self.body);
            let ghost l0 = self.left_to_read as int;
            bytes_mut_put(&mut self.body, &self.buffer[0..rs]);
            self.left_to_read = self.left_to_read - rs;
            assert(body_fill(b0, l0, page) == body_fill(b0 + page, l0 - rs, page) || l0 == rs);
            if self.left_to_read == 0 {
                assert(target == b0 + page);
                self.state = State::End;
                let mut body = bytes_mut_with_capacity(0);
                std::mem::swap(&mut body, &mut self.body);
                let frozen = bytes_mut_freeze(body);
                assert(bytes_seq(frozen) == target);
                assert(target == old(self)@.body_loop().1->Emit_0->Some_0->Body_0);
                assert(self@ == old(self)@.body_loop().0);
                return ReadStep::Emit(Some(Event::Body(frozen)));
            }
        }
    }

    /// The body step on entry.
    fn read_body(&mut self) -> (step: ReadStep)
        requires
            old(self)@.wf(),
            old(self)@.pos <= old(self)@.read_size,
            old(self)@.state == State::Body,
            old(self)@.awaiting == Awaiting::Idle,
            !old(self)@.dispatch_panics(),
        ensures
            (final(self)@, step@) == old(self)@.body_step(),
            final(self)@.wf(),
    {
        if self.content_length > 0 {
            if self.content_length <= self.read_size - self.pos + 1 {
                self.state = State::End;
                let b = bytes_copy(&self.buffer[self.pos..self.read_size]);
                return ReadStep::Emit(Some(Event::Body(b)));
            } else {
                let left = self.content_length - (self.read_size - self.pos + 1);
                let mut res = bytes_mut_with_capacity(self.content_length);
                bytes_mut_put(&mut res, &self.buffer[self.pos..self.read_size]);
                self.body = res;
                self.left_to_read = left;
                if self.pos == self.buffer.len() {
                    self.awaiting = Awaiting::Body;
                    return ReadStep::Fill;
                }
                return self.body_loop();
            }
        }
        ReadStep::Emit(None)
    }

    /// A dispatch on the current state, the page holding unread bytes.
    fn dispatch(&mut self) -> (step: ReadStep)
        requires
            old(self)@.wf(),
            old(self)@.pos <= old(self)@.read_size,
            old(self)@.state == State::Method ==> old(self)@.pos == 0,
            old(self)@.awaiting == Awaiting::Idle,
            !old(self)@.dispatch_panics(),
        ensures
            (final(self)@, step@) == old(self)@.dispatch(),
            final(self)@.wf(),
    {
        match self.state {
            State::Method => ReadStep::Emit(self.read_method()),
            State::Uri => ReadStep::Emit(self.read_uri()),
            State::QueryStringParamName => ReadStep::Emit(self.read_query_string()),
            State::Version => ReadStep::Emit(self.read_version()),
            State::HeaderName => ReadStep::Emit(self.read_header()),
            State::Body => self.read_body(),
            State::End => ReadStep::Emit(None),
            _ => ReadStep::Emit(Some(Event::Error(6))),
        }
    }

    /// One step of the reader: the next event, `None` when the current page
    /// holds no more, or a request for the next page.
    pub fn next(&mut self) -> (step: ReadStep)
        requires
            old(self).wf(),
            old(self)@.awaiting == Awaiting::Idle,
            !old(self)@.next_panics(),
        ensures
            (final(self)@, step@) == old(self)@.next_step(),
            final(self).wf(),
    {
        if self.pos == self.buffer.len() {
            self.awaiting = Awaiting::Next;
            return ReadStep::Fill;
        }
        self.dispatch()
    }

    /// The continuation of the step that asked for a page: `Some` with the
    /// bytes that were read, or `None` when the read failed.
    pub fn fill(&mut self, page: Option<&[u8]>) -> (step: ReadStep)
        requires
            old(self).wf(),
            old(self)@.awaiting != Awaiting::Idle,
            page matches Some(p) ==> p@.len() <= old(self)@.buffer.len(),
            !old(self)@.fill_panics(opt_page_view(page)),
        ensures
            (final(self)@, step@) == old(self)@.fill_step(opt_page_view(page)),
            final(self).wf(),
    {
        let waiting = self.awaiting;
        self.awaiting = Awaiting::Idle;
        match page {
            None => {
                let e: u8 = if waiting == Awaiting::Body { 3 } else { 5 };
                ReadStep::Emit(Some(Event::Error(e)))
            },
            Some(p) => {
                let mut i: usize = 0;
                while i < p.len()
                    invariant
                        i <= p@.len() <= self.buffer@.len(),
                        self.buffer@.len() == old(self).buffer@.len(),
                        forall|t: int| 0 <= t < i ==> self.buffer@[t] == p@[t],
                        forall|t: int| i <= t < self.buffer@.len() ==> self.buffer@[t] == old(self).buffer@[t],
                        self.pos == old(self).pos,
                        self.read_size == old(self).read_size,
                        self.content_length == old(self).content_length,
                        self.has_body == old(self).has_body,
                        self.state == old(self).state,
                        self.awaiting == Awaiting::Idle,
                        self.body == old(self).body,
                        self.left_to_read == old(self).left_to_read,
                    decreases p@.len() - i,
                {
                    self.buffer[i] = p[i];
                    i = i + 1;
                }
                self.read_size = p.len();
                self.pos = 0;
                assert(self@ == old(self)@.with_page(p@)) by {
                    assert(self.buffer@ =~= p@ + old(self).buffer@.subrange(p@.len() as int, old(self).buffer@.len() as int));
                }
                if waiting == Awaiting::Body {
                    self.body_loop()
                } else {
                    self.dispatch()
                }
            },
        }
    }

    /// Whether the reader, with unread bytes in its page, would panic on
    /// its state.
    fn dispatch_would_panic(&self) -> (b: bool)
        requires
            self.wf(),
            self@.pos <= self@.read_size,
        ensures
            b == self@.dispatch_panics(),
    {
        let runner = &self.buffer[self.pos..self.read_size];
        match self.state {
            State::Version => runner.len() > 0 && runner[0] == LF,
            State::HeaderName => {
                let j = find_of(runner, 0, COLON, LF);
                if j >= runner.len() || runner[j] != COLON {
                    return false;
                }
                let k = find_of(runner, j + 1, LF, LF);
                proof { lemma_first_of(runner@, j + 1, LF, LF); }
                if k >= runner.len() || !content_length_line(runner, k) {
                    return false;
                }
                let end = if runner[k - 1] == CR { k - 1 } else { k };
                digits_overflow(&runner[j + 1..end])
            },
            State::Body => {
                let avail = self.read_size - self.pos + 1;
                if self.content_length == 0 || self.content_length <= avail {
                    return false;
                }
                if self.content_length > isize::MAX as usize {
                    return true;
                }
                if self.pos == self.buffer.len() || self.read_size == 0 {
                    return false;
                }
                let left = self.content_length - avail;
                proof { lemma_body_overshoots(left as int, self.read_size as int); }
                left % self.read_size != 0
            },
            _ => false,
        }
    }

    /// Whether `next` would fail here: its indexing would run past the
    /// page, or the body's arithmetic overflow (its requirement fails).
    pub fn next_would_panic(&self) -> (b: bool)
        requires
            self.wf(),
        ensures
            b == self@.next_panics(),
    {
        if self.pos == self.buffer.len() {
            return false;
        }
        self.dispatch_would_panic()
    }

    /// Whether `fill` with the given page would panic (its requirement
    /// fails).
    pub fn fill_would_panic(&self, page: Option<&[u8]>) -> (b: bool)
        requires
            self.wf(),
            page matches Some(p) ==> p@.len() <= self@.buffer.len(),
        ensures
            b == self@.fill_panics(opt_page_view(page)),
    {
        match page {
            None => false,
            Some(p) => {
                let n = p.len();
                if self.awaiting == Awaiting::Body {
                    if n == 0 {
                        return false;
                    }
                    proof { lemma_body_overshoots(self.left_to_read as int, n as int); }
                    self.left_to_read > 0 && self.left_to_read % n != 0
                } else {
                    let mut buf = slice_to_vec(self.buffer.as_slice());
                    let mut i: usize = 0;
                    while i < n
                        invariant
                            i <= p@.len() <= buf@.len(),
                            buf@.len() == self.buffer@.len(),
                            forall|t: int| 0 <= t < i ==> buf@[t] == p@[t],
                            forall|t: int| i <= t < buf@.len() ==> buf@[t] == self.buffer@[t],
                            n == p@.len(),
                        decreases p@.len() - i,
                    {
                        buf[i] = p[i];
                        i = i + 1;
                    }
                    assert(buf@ =~= p@ + self.buffer@.subrange(n as int, self.buffer@.len() as int));
                    let copy = HttpReader {
                        buffer: buf,
                        pos: 0,
                        read_size: n,
                        content_length: self.content_length,
                        has_body: self.has_body,
                        state: self.state,
                        awaiting: Awaiting::Idle,
                        body: bytes_mut_with_capacity(0),
                        left_to_read: self.left_to_read,
                    };
                    assert(copy@ == ReaderView { body: Seq::empty(), ..self@.with_page(p@) });
                    assert(copy@.dispatch_panics() == self@.with_page(p@).dispatch_panics());
                    copy.dispatch_would_panic()
                }
            },
        }
    }
}

} // verus!
