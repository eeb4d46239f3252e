//! Reading a route pattern such as `/users/:id/posts` into its segments
//! (`users`, `posts`) and variables (`id`).

use vstd::prelude::*;
use bytes::Bytes;
use crate::buffers::{bytes_seq, bytes_slice, bytes_copy};
use crate::scan::{first_of, lemma_first_of, find_of};

verus! {

/// '/'
pub const SLASH: u8 = 47;
/// ':'
pub const COLON: u8 = 58;

/// Whether the reader is inside a segment or a variable.
#[derive(Clone, Copy, PartialEq, Eq, Structural)]
pub enum State {
    Segment,
    Variable,
}

/// A piece of a route pattern.
pub enum Event {
    Segment(Bytes),
    Variable(Bytes),
}

/// A piece of a route pattern as a mathematical value.
pub ghost enum Token {
    Segment(Seq<u8>),
    Variable(Seq<u8>),
}

impl View for Event {
    type V = Token;

    open spec fn view(&self) -> Token {
        match self {
            Event::Segment(b) => Token::Segment(bytes_seq(*b)),
            Event::Variable(b) => Token::Variable(bytes_seq(*b)),
        }
    }
}

/// Reads a route pattern piece by piece.
pub struct RouteReader {
    buffer: Bytes,
    pos: usize,
    state: State,
}

/// One step of the reader over `b` from `pos` in `state`: the position and
/// state after it, and the piece it gives.
pub open spec fn route_step(b: Seq<u8>, pos: int, state: State) -> (int, State, Option<Token>) {
    let r = b.subrange(pos, b.len() as int);
    if state == State::Segment && r.len() > 0 && r[0] == COLON {
        let k = first_of(r, 1, SLASH, SLASH);
        if k < r.len() {
            (pos + k + 1, State::Segment, Some(Token::Variable(r.subrange(1, k))))
        } else {
            (b.len() as int, State::Variable, Some(Token::Variable(r.subrange(1, r.len() as int))))
        }
    } else {
        let k = first_of(r, 0, SLASH, SLASH);
        let piece = |s: Seq<u8>| if state == State::Segment { Token::Segment(s) } else { Token::Variable(s) };
        if k < r.len() {
            (pos + k + 1, State::Segment, Some(piece(r.subrange(0, k))))
        } else if r.len() > 0 {
            (b.len() as int, state, Some(piece(r)))
        } else {
            (b.len() as int, state, None)
        }
    }
}

/// The pieces that the reader gives from `pos` in `state` until it stops.
pub open spec fn tokens_from(b: Seq<u8>, pos: int, state: State) -> Seq<Token>
    decreases b.len() - pos,
{
    if pos < 0 || pos > b.len() {
        Seq::empty()
    } else {
        let (p2, s2, t) = route_step(b, pos, state);
        proof {
            lemma_route_step(b, pos, state);
        }
        match t {
            Some(tok) => seq![tok] + tokens_from(b, p2, s2),
            None => Seq::empty(),
        }
    }
}

/// The pieces of a whole route pattern.
pub open spec fn route_tokens(b: Seq<u8>) -> Seq<Token> {
    tokens_from(b, 0, State::Segment)
}

/// A step that gives a piece moves forward; one that gives none is at the
/// end.
pub proof fn lemma_route_step(b: Seq<u8>, pos: int, state: State)
    requires
        0 <= pos <= b.len(),
    ensures
        ({
            let (p2, s2, t) = route_step(b, pos, state);
            &&& pos <= p2 <= b.len()
            &&& t is Some ==> pos < p2
            &&& t is None ==> p2 == b.len() && pos == b.len() && s2 == state
        }),
{
    let r = b.subrange(pos, b.len() as int);
    if r.len() > 0 {
        lemma_first_of(r, 1, SLASH, SLASH);
    }
    lemma_first_of(r, 0, SLASH, SLASH);
}

impl RouteReader {
    /// The pattern being read.
    pub closed spec fn pattern(&self) -> Seq<u8> {
        bytes_seq(self.buffer)
    }

    /// How far the reader has read.
    pub closed spec fn position(&self) -> int {
        self.pos as int
    }

    /// Whether the reader is inside a segment or a variable.
    pub closed spec fn reading(&self) -> State {
        self.state
    }

    /// The pieces that are still to come.
    pub open spec fn remaining(&self) -> Seq<Token> {
        tokens_from(self.pattern(), self.position(), self.reading())
    }

    pub closed spec fn wf(&self) -> bool {
        self.pos <= bytes_seq(self.buffer).len()
    }

    /// The reader's position lies within its pattern.
    pub proof fn lemma_position(&self)
        requires
            self.wf(),
        ensures
            0 <= self.position() <= self.pattern().len(),
    {
    }

    /// A reader at the start of the pattern.
    pub fn new(buffer: Bytes) -> (r: RouteReader)
        ensures
            r.wf(),
            r.pattern() == bytes_seq(buffer),
            r.remaining() == route_tokens(bytes_seq(buffer)),
    {
        RouteReader { buffer, pos: 0, state: State::Segment }
    }

    /// The next piece of the pattern, `None` at its end.
    pub fn next(&mut self) -> (e: Option<Event>)
        requires
            old(self).wf(),
        ensures
            final(self).wf(),
            final(self).pattern() == old(self).pattern(),
            ({
                let (p2, s2, t) = route_step(old(self).pattern(), old(self).position(), old(self).reading());
                &&& final(self).position() == p2
                &&& final(self).reading() == s2
                &&& match e { Some(ev) => t == Some(ev@), None => t is None }
            }),
            match e {
                Some(ev) => old(self).remaining() == seq![ev@] + final(self).remaining(),
                None => old(self).remaining() == Seq::<Token>::empty(),
            },
    {
        proof { lemma_route_step(bytes_seq(self.buffer), self.pos as int, self.state); }
        let all = bytes_slice(&self.buffer);
        let runner = &all[self.pos..all.len()];
        let n = runner.len();
        if self.state == State::Segment && n > 0 && runner[0] == COLON {
            let k = find_of(runner, 1, SLASH, SLASH);
            if k < n {
                let ev = Event::Variable(bytes_copy(&runner[1..k]));
                self.pos = self.pos + k + 1;
                return Some(ev);
            } else {
                let ev = Event::Variable(bytes_copy(&runner[1..n]));
                self.pos = self.pos + n;
                self.state = State::Variable;
                return Some(ev);
            }
        }
        let k = find_of(runner, 0, SLASH, SLASH);
        let segment = self.state == State::Segment;
        if k < n {
            let piece = bytes_copy(&runner[0..k]);
            self.pos = self.pos + k + 1;
            self.state = State::Segment;
            return Some(if segment { Event::Segment(piece) } else { Event::Variable(piece) });
        }
        self.pos = self.pos + n;
        if n > 0 {
            let piece = bytes_copy(runner);
            Some(if segment { Event::Segment(piece) } else { Event::Variable(piece) })
        } else {
            None
        }
    }
}

} // verus!
