//! The routes of one method: a trie keyed by path segments, with one shared
//! child for variable segments, and the actions registered at its nodes.

use vstd::prelude::*;
use bytes::Bytes;
use crate::buffers::{bytes_seq, bytes_slice, bytes_static, bytes_empty, bytes_clone, bytes_copy};
use crate::bytemap::ByteMap;
use crate::scan::{first_of, lemma_first_of, find_of, split, split_from};
use crate::http::request::{RequestBuilder, Request, RequestView, bytes_map_view};
use crate::http::response::Response;
use super::reader::{RouteReader, Event, Token, route_tokens, route_step, lemma_route_step, State, SLASH, COLON};

verus! {

/// What a route does with a matched request and a fresh response.
pub trait RouteAction {
    fn action(&self, req: Request, res: Response) -> Response;
}

/// The result of running the routes on a request: the action's response,
/// or `Err(())` when no route matches.
pub type RouterResult = Result<Response, ()>;

/// The key under which the variable child of a node is kept: ":".
pub open spec fn colon_key() -> Seq<u8> {
    seq![58u8]
}

/// The trie key of a route piece: the segment itself, or ":" for a
/// variable.
pub open spec fn token_key(t: Token) -> Seq<u8> {
    match t {
        Token::Segment(s) => s,
        Token::Variable(_) => colon_key(),
    }
}

/// The trie keys of a route pattern.
pub open spec fn route_keys(uri: Seq<u8>) -> Seq<Seq<u8>> {
    route_tokens(uri).map_values(|t: Token| token_key(t))
}

/// The name kept at the node reached by a key path: its last segment, or
/// the empty name for the root and for variable nodes.
pub open spec fn name_of(path: Seq<Seq<u8>>) -> Seq<u8> {
    if path.len() == 0 || path.last() == colon_key() {
        Seq::empty()
    } else {
        path.last()
    }
}

/// The routes as mathematical values: the key paths of the trie's nodes and
/// the actions registered at them.
pub ghost struct RoutesView<A> {
    pub nodes: Set<Seq<Seq<u8>>>,
    pub actions: Map<Seq<Seq<u8>>, A>,
}

/// The walk of a request's uri slices down the trie: a literal child
/// first, else the variable child (recording the slice under the
/// variable's name), else no match.
pub open spec fn walk(
    nodes: Set<Seq<Seq<u8>>>,
    cur: Seq<Seq<u8>>,
    slices: Seq<Seq<u8>>,
    params: Map<Seq<u8>, Seq<u8>>,
) -> Option<(Seq<Seq<u8>>, Map<Seq<u8>, Seq<u8>>)>
    decreases slices.len(),
{
    if slices.len() == 0 {
        Some((cur, params))
    } else {
        let s = slices[0];
        if nodes.contains(cur.push(s)) {
            walk(nodes, cur.push(s), slices.drop_first(), params)
        } else if nodes.contains(cur.push(colon_key())) {
            walk(nodes, cur.push(colon_key()), slices.drop_first(), params.insert(name_of(cur.push(colon_key())), s))
        } else {
            None
        }
    }
}

/// The route that a uri reaches: the key path of the node and the
/// parameters, when the walk ends at a node with an action.
pub open spec fn lookup<A>(v: RoutesView<A>, uri: Seq<u8>) -> Option<(Seq<Seq<u8>>, Map<Seq<u8>, Seq<u8>>)> {
    match walk(v.nodes, Seq::empty(), split(uri, SLASH), Map::empty()) {
        Some((p, params)) => if v.actions.dom().contains(p) { Some((p, params)) } else { None },
        None => None,
    }
}

/// All prefixes of a key path.
pub open spec fn prefixes(p: Seq<Seq<u8>>) -> Set<Seq<Seq<u8>>> {
    Set::new(|q: Seq<Seq<u8>>| q.len() <= p.len() && q == p.take(q.len() as int))
}

/// The trie keys of a list of route pieces.
pub open spec fn keys_of(ts: Seq<Token>) -> Seq<Seq<u8>> {
    ts.map_values(|t: Token| token_key(t))
}

proof fn lemma_prefixes_empty()
    ensures
        prefixes(Seq::<Seq<u8>>::empty()) == Set::<Seq<Seq<u8>>>::empty().insert(Seq::empty()),
{
    let e = Seq::<Seq<u8>>::empty();
    assert forall|q: Seq<Seq<u8>>| #![auto] prefixes(e).contains(q) implies q == e by {
        assert(q.len() == 0);
        assert(q =~= e);
    }
    assert(e.take(0) =~= e);
    assert(prefixes(e).contains(e));
    assert(prefixes(e) =~= Set::<Seq<Seq<u8>>>::empty().insert(e));
}

proof fn lemma_prefixes_push(p: Seq<Seq<u8>>, k: Seq<u8>)
    ensures
        prefixes(p.push(k)) == prefixes(p).insert(p.push(k)),
{
    assert forall|q: Seq<Seq<u8>>| #![auto] prefixes(p.push(k)).contains(q) implies prefixes(p).insert(p.push(k)).contains(q) by {
        if q.len() <= p.len() {
            assert(p.push(k).take(q.len() as int) =~= p.take(q.len() as int));
        } else {
            assert(q =~= p.push(k));
        }
    }
    assert forall|q: Seq<Seq<u8>>| #![auto] prefixes(p).insert(p.push(k)).contains(q) implies prefixes(p.push(k)).contains(q) by {
        if q != p.push(k) {
            assert(p.push(k).take(q.len() as int) =~= p.take(q.len() as int));
        } else {
            assert(p.push(k).take(q.len() as int) =~= p.push(k));
        }
    }
    assert(prefixes(p.push(k)) =~= prefixes(p).insert(p.push(k)));
}

/// A segment of a route pattern is never ":" (that begins a variable).
proof fn lemma_segment_not_colon(b: Seq<u8>, pos: int, state: State)
    requires
        0 <= pos <= b.len(),
    ensures
        route_step(b, pos, state).2 matches Some(Token::Segment(s)) ==> s != colon_key(),
{
    let r = b.subrange(pos, b.len() as int);
    match route_step(b, pos, state).2 {
        Some(Token::Segment(s)) => {
            lemma_first_of(r, 0, SLASH, SLASH);
            if s == colon_key() {
                assert(s.len() == 1 && s[0] == COLON);
                let k = first_of(r, 0, SLASH, SLASH);
                if k < r.len() {
                    assert(s == r.subrange(0, k));
                } else {
                    assert(s == r);
                }
                assert(r.len() > 0 && r[0] == COLON);
            }
        },
        _ => {},
    }
}

/// Two tries with the same paths, children and names have the same shape
/// and the same nodes.
proof fn lemma_same_shape<A>(a: Routes<A>, b: Routes<A>)
    requires
        a.wf(),
        a.nodes@.len() == b.nodes@.len(),
        a.paths@ == b.paths@,
        forall|t: int| 0 <= t < a.nodes@.len() ==> (#[trigger] b.nodes@[t]).nested == a.nodes@[t].nested && b.nodes@[t].key_name == a.nodes@[t].key_name,
    ensures
        b.wf(),
        b.view().nodes == a.view().nodes,
{
    assert forall|i: int, k: Seq<u8>|
        #![trigger b.children(i).dom().contains(k)]
        0 <= i < b.count() && b.children(i).dom().contains(k) implies {
            &&& b.children(i)[k] < b.count()
            &&& b.path(b.children(i)[k] as int) == b.path(i).push(k)
        } by {
        assert(b.nodes@[i].nested == a.nodes@[i].nested);
        assert(a.children(i).dom().contains(k));
    }
    assert forall|j: int| #![trigger b.path(j)] 0 < j < b.count() implies {
        let p = b.index_of(b.path(j).drop_last());
        &&& b.path(j).len() > 0
        &&& 0 <= p < b.count()
        &&& b.path(p) == b.path(j).drop_last()
        &&& b.children(p).dom().contains(b.path(j).last())
        &&& b.children(p)[b.path(j).last()] == j
    } by {
        assert(a.path(j) == b.path(j));
        let q = a.path(j).drop_last();
        let p = a.index_of(q);
        assert(b.nodes@[p].nested == a.nodes@[p].nested);
        assert(b.path(p) == q);
        let pb = b.index_of(q);
        assert(0 <= pb < b.count() && b.path(pb) == q);
        assert(a.path(pb) == a.path(p));
        assert(pb == p);
    }
    assert forall|i: int, j: int|
        #![trigger b.path(i), b.path(j)]
        0 <= i < b.count() && 0 <= j < b.count() && b.path(i) == b.path(j) implies i == j by {
        assert(a.path(i) == a.path(j));
    }
    assert forall|i: int| #![trigger b.name_at(i)] 0 <= i < b.count() implies b.name_at(i) == name_of(b.path(i)) by {
        assert(b.nodes@[i].key_name == a.nodes@[i].key_name);
        assert(a.name_at(i) == name_of(a.path(i)));
    }
    assert forall|p: Seq<Seq<u8>>| #![auto] b.view().nodes.contains(p) implies a.view().nodes.contains(p) by {
        let t = choose|t: int| 0 <= t < b.count() && b.path(t) == p;
        assert(a.path(t) == p);
    }
    assert forall|p: Seq<Seq<u8>>| #![auto] a.view().nodes.contains(p) implies b.view().nodes.contains(p) by {
        let t = choose|t: int| 0 <= t < a.count() && a.path(t) == p;
        assert(b.path(t) == p);
    }
    assert(b.view().nodes =~= a.view().nodes);
}

struct Handler<A> {
    key_name: Bytes,
    nested: ByteMap<usize>,
    cb: Option<A>,
}

/// The routes of one method.
pub struct Routes<A> {
    nodes: Vec<Handler<A>>,
    paths: Ghost<Seq<Seq<Seq<u8>>>>,
}

impl<A> Routes<A> {
    pub closed spec fn count(self) -> int {
        self.nodes@.len() as int
    }

    pub closed spec fn path(self, i: int) -> Seq<Seq<u8>> {
        self.paths@[i]
    }

    pub closed spec fn children(self, i: int) -> Map<Seq<u8>, usize> {
        self.nodes@[i].nested.as_map()
    }

    pub closed spec fn action_at(self, i: int) -> Option<A> {
        self.nodes@[i].cb
    }

    pub closed spec fn name_at(self, i: int) -> Seq<u8> {
        bytes_seq(self.nodes@[i].key_name)
    }

    /// The index of the node with key path `p`.
    pub closed spec fn index_of(self, p: Seq<Seq<u8>>) -> int {
        choose|i: int| 0 <= i < self.count() && self.path(i) == p
    }

    /// The trie's shape: every child sits one key below its parent, every
    /// node but the root has its parent, and no two nodes share a path.
    pub closed spec fn wf(self) -> bool {
        &&& self.count() >= 1
        &&& self.paths@.len() == self.count()
        &&& self.path(0) == Seq::<Seq<u8>>::empty()
        &&& forall|i: int, k: Seq<u8>|
            #![trigger self.children(i).dom().contains(k)]
            0 <= i < self.count() && self.children(i).dom().contains(k) ==> {
                &&& self.children(i)[k] < self.count()
                &&& self.path(self.children(i)[k] as int) == self.path(i).push(k)
            }
        &&& forall|j: int| #![trigger self.path(j)] 0 < j < self.count() ==> {
            let p = self.index_of(self.path(j).drop_last());
            &&& self.path(j).len() > 0
            &&& 0 <= p < self.count()
            &&& self.path(p) == self.path(j).drop_last()
            &&& self.children(p).dom().contains(self.path(j).last())
            &&& self.children(p)[self.path(j).last()] == j
        }
        &&& forall|i: int, j: int|
            #![trigger self.path(i), self.path(j)]
            0 <= i < self.count() && 0 <= j < self.count() && self.path(i) == self.path(j) ==> i == j
        &&& forall|i: int| #![trigger self.name_at(i)] 0 <= i < self.count() ==> self.name_at(i) == name_of(self.path(i))
    }

    /// The routes as mathematical values.
    pub closed spec fn view(self) -> RoutesView<A> {
        RoutesView {
            nodes: Set::new(|p: Seq<Seq<u8>>| exists|i: int| 0 <= i < self.count() && self.path(i) == p),
            actions: Map::new(
                |p: Seq<Seq<u8>>| exists|i: int| 0 <= i < self.count() && self.path(i) == p && self.action_at(i) is Some,
                |p: Seq<Seq<u8>>| self.action_at(self.index_of(p))->Some_0,
            ),
        }
    }

    /// The node of a path in the view is the node that `index_of` names.
    proof fn lemma_index_of(self, i: int)
        requires
            self.wf(),
            0 <= i < self.count(),
        ensures
            self.index_of(self.path(i)) == i,
            self.view().nodes.contains(self.path(i)),
    {
        let c = self.index_of(self.path(i));
        assert(0 <= c < self.count() && self.path(c) == self.path(i));
    }

    /// A child that is not kept under a node is no node of the trie.
    proof fn lemma_absent_child(self, i: int, k: Seq<u8>)
        requires
            self.wf(),
            0 <= i < self.count(),
            !self.children(i).dom().contains(k),
        ensures
            !self.view().nodes.contains(self.path(i).push(k)),
    {
        if self.view().nodes.contains(self.path(i).push(k)) {
            let j = choose|j: int| 0 <= j < self.count() && self.path(j) == self.path(i).push(k);
            assert(self.path(j).len() > 0);
            assert(j != 0);
            let p = self.index_of(self.path(j).drop_last());
            assert(self.path(j).drop_last() =~= self.path(i));
            assert(self.path(p) == self.path(i));
            assert(p == i);
            assert(self.path(j).last() == k);
        }
    }

    /// Routes with no route: the trie holds only its root.
    pub fn new() -> (r: Routes<A>)
        ensures
            r.wf(),
            r.view().nodes == Set::<Seq<Seq<u8>>>::empty().insert(Seq::empty()),
            r.view().actions == Map::<Seq<Seq<u8>>, A>::empty(),
    {
        let mut nodes: Vec<Handler<A>> = Vec::new();
        nodes.push(Handler { key_name: bytes_empty(), nested: ByteMap::new(), cb: None });
        let ghost ps: Seq<Seq<Seq<u8>>> = seq![Seq::<Seq<u8>>::empty()];
        let r = Routes { nodes, paths: Ghost(ps) };
        proof {
            assert(r.path(0) == Seq::<Seq<u8>>::empty());
            assert forall|j: int| #![trigger r.path(j)] 0 < j < r.count() implies false by {}
            assert(r.view().nodes =~= Set::<Seq<Seq<u8>>>::empty().insert(Seq::empty())) by {
                assert forall|p: Seq<Seq<u8>>| #![auto] r.view().nodes.contains(p) implies p == Seq::<Seq<u8>>::empty() by {}
                assert(r.view().nodes.contains(r.path(0)));
            }
            assert(r.view().actions =~= Map::<Seq<Seq<u8>>, A>::empty());
        }
        r
    }

    /// The walk of the uri's slices down the trie: the node it ends at and
    /// the parameters it gathered, or `None` when a slice has no child.
    fn walk_uri(&self, uri: &[u8]) -> (r: Option<(usize, ByteMap<Bytes>)>)
        requires
            self.wf(),
        ensures
            match r {
                None => walk(self.view().nodes, Seq::empty(), split(uri@, SLASH), Map::empty()) is None,
                Some((i, params)) => {
                    &&& i < self.count()
                    &&& walk(self.view().nodes, Seq::empty(), split(uri@, SLASH), Map::empty())
                        == Some((self.path(i as int), bytes_map_view(params)))
                },
            },
    {
        let ghost nodes = self.view().nodes;
        let mut node: usize = 0;
        let mut params: ByteMap<Bytes> = ByteMap::new();
        let mut start: usize = 0;
        proof {
            assert(bytes_map_view(params) =~= Map::empty());
        }
        loop
            invariant
                self.wf(),
                nodes == self.view().nodes,
                node < self.count(),
                start <= uri@.len(),
                walk(nodes, Seq::empty(), split(uri@, SLASH), Map::empty())
                    == walk(nodes, self.path(node as int), split_from(uri@, start as int, SLASH), bytes_map_view(params)),
            decreases uri@.len() - start,
        {
            let k = find_of(uri, start, SLASH, SLASH);
            proof { lemma_first_of(uri@, start as int, SLASH, SLASH); }
            let slice = &uri[start..k];
            let ghost rest = if k < uri@.len() { split_from(uri@, k + 1, SLASH) } else { Seq::empty() };
            let ghost cur = self.path(node as int);
            let ghost pv = bytes_map_view(params);
            proof {
                assert(split_from(uri@, start as int, SLASH) =~= seq![slice@] + rest);
                assert((seq![slice@] + rest)[0] == slice@);
                assert((seq![slice@] + rest).drop_first() =~= rest);
            }
            let colon: &[u8] = &[58u8];
            match self.nodes[node].nested.get(slice) {
                Some(j) => {
                    proof {
                        assert(self.children(node as int).dom().contains(slice@));
                        self.lemma_index_of(*j as int);
                        assert(nodes.contains(cur.push(slice@)));
                    }
                    node = *j;
                },
                None => {
                    proof { self.lemma_absent_child(node as int, slice@); }
                    match self.nodes[node].nested.get(colon) {
                        Some(j) => {
                            proof {
                                assert(colon@ == colon_key());
                                assert(self.children(node as int).dom().contains(colon_key()));
                                self.lemma_index_of(*j as int);
                                assert(nodes.contains(cur.push(colon_key())));
                                assert(self.name_at(*j as int) == name_of(self.path(*j as int)));
                            }
                            let name = bytes_clone(&self.nodes[*j].key_name);
                            params.insert(name, bytes_copy(slice));
                            proof {
                                assert(bytes_map_view(params) =~= pv.insert(name_of(cur.push(colon_key())), slice@));
                            }
                            node = *j;
                        },
                        None => {
                            proof {
                                assert(colon@ == colon_key());
                                self.lemma_absent_child(node as int, colon_key());
                            }
                            return None;
                        },
                    }
                },
            }
            assert(walk(nodes, self.path(node as int), rest, bytes_map_view(params))
                == walk(nodes, cur, split_from(uri@, start as int, SLASH), pv));
            if k >= uri.len() {
                assert(rest == Seq::<Seq<u8>>::empty());
                return Some((node, params));
            }
            start = k + 1;
        }
    }

    /// The action for a request and the request as it is handed to the
    /// action: with the parameters that the uri's variable segments took.
    pub fn route(&self, request: RequestBuilder) -> (r: Option<(&A, Request)>)
        requires
            self.wf(),
        ensures
            match r {
                None => lookup(self.view(), request@.uri) is None,
                Some((a, req)) => {
                    &&& lookup(self.view(), request@.uri) is Some
                    &&& req@ == (RequestView { uri_params: lookup(self.view(), request@.uri)->Some_0.1, ..request@ })
                    &&& *a == self.view().actions[lookup(self.view(), request@.uri)->Some_0.0]
                },
            },
    {
        let uri = request.uri();
        match self.walk_uri(bytes_slice(&uri)) {
            None => None,
            Some((i, params)) => {
                proof {
                    self.lemma_index_of(i as int);
                }
                match &self.nodes[i].cb {
                    Some(a) => {
                        let mut request = request;
                        request.add_uri_params(params);
                        Some((a, request.build()))
                    },
                    None => {
                        proof {
                            if self.view().actions.dom().contains(self.path(i as int)) {
                                let t = choose|t: int| 0 <= t < self.count() && self.path(t) == self.path(i as int) && self.action_at(t) is Some;
                                assert(self.path(t) == self.path(i as int));
                            }
                        }
                        None
                    },
                }
            },
        }
    }

    /// Runs the action of the route that the request's uri reaches, with
    /// the response; `Err(())` when no route is reached. What comes back is
    /// what the action registered at the reached route gave, called on the
    /// request with the uri's parameters and on the very response given.
    pub fn run_callback(&self, request: RequestBuilder, response: Response) -> (r: RouterResult)
        where A: RouteAction
        requires
            self.wf(),
        ensures
            r is Ok <==> lookup(self.view(), request@.uri) is Some,
            r matches Ok(x) ==> exists|req: Request| {
                &&& req@ == (RequestView { uri_params: lookup(self.view(), request@.uri)->Some_0.1, ..request@ })
                &&& call_ensures(A::action, (&self.view().actions[lookup(self.view(), request@.uri)->Some_0.0], req, response), x)
            },
    {
        match self.route(request) {
            Some((handler, req)) => Ok(handler.action(req, response)),
            None => Err(()),
        }
    }

    /// The child of node `i` under `key`, created (with the given name and
    /// no action) when there is none.
    fn child_or_insert(&mut self, i: usize, key: Bytes, name: Bytes) -> (j: usize)
        requires
            old(self).wf(),
            i < old(self).count(),
            bytes_seq(name) == name_of(old(self).path(i as int).push(bytes_seq(key))),
        ensures
            final(self).wf(),
            j < final(self).count(),
            final(self).path(j as int) == old(self).path(i as int).push(bytes_seq(key)),
            final(self).count() >= old(self).count(),
            forall|t: int| 0 <= t < old(self).count() ==> #[trigger] final(self).path(t) == old(self).path(t),
            final(self).view().nodes == old(self).view().nodes.insert(old(self).path(i as int).push(bytes_seq(key))),
            final(self).view().actions == old(self).view().actions,
    {
        let ghost k = bytes_seq(key);
        let ghost old_routes = *self;
        match self.nodes[i].nested.get(bytes_slice(&key)) {
            Some(j) => {
                proof {
                    assert(self.children(i as int).dom().contains(k));
                    self.lemma_index_of(*j as int);
                    assert(self.view().nodes.insert(self.path(i as int).push(k)) =~= self.view().nodes);
                }
                *j
            },
            None => {
                proof {
                    self.lemma_absent_child(i as int, k);
                }
                let n = self.nodes.len();
                self.nodes.push(Handler { key_name: name, nested: ByteMap::new(), cb: None });
                let ghost ps = self.paths@.push(self.paths@[i as int].push(k));
                self.paths = Ghost(ps);
                self.nodes[i].nested.insert(key, n);
                proof {
                    let o = old_routes;
                    let nn = n as int;
                    assert(self.count() == nn + 1);
                    assert forall|t: int| 0 <= t < nn implies #[trigger] self.path(t) == o.path(t) by {}
                    assert(self.path(nn) == o.path(i as int).push(k));
                    assert forall|t: int| 0 <= t < nn && t != i implies #[trigger] self.children(t) == o.children(t) by {}
                    assert(self.children(i as int) == o.children(i as int).insert(k, n));
                    assert(self.children(nn) =~= Map::<Seq<u8>, usize>::empty());
                    // paths stay pairwise distinct
                    assert forall|a: int, b: int|
                        #![trigger self.path(a), self.path(b)]
                        0 <= a < self.count() && 0 <= b < self.count() && self.path(a) == self.path(b) implies a == b by {
                        if a < nn && b < nn {
                            assert(o.path(a) == o.path(b));
                        } else if a < nn {
                            assert(o.view().nodes.contains(o.path(a)));
                        } else if b < nn {
                            assert(o.view().nodes.contains(o.path(b)));
                        }
                    }
                    // children sit one key below
                    assert forall|t: int, q: Seq<u8>|
                        #![trigger self.children(t).dom().contains(q)]
                        0 <= t < self.count() && self.children(t).dom().contains(q) implies {
                            &&& self.children(t)[q] < self.count()
                            &&& self.path(self.children(t)[q] as int) == self.path(t).push(q)
                        } by {
                        if t == i as int {
                            if q != k {
                                assert(o.children(t).dom().contains(q));
                            }
                        } else if t < nn {
                            assert(o.children(t).dom().contains(q));
                        }
                    }
                    // every node but the root has its parent
                    assert forall|j: int| #![trigger self.path(j)] 0 < j < self.count() implies {
                        let p = self.index_of(self.path(j).drop_last());
                        &&& self.path(j).len() > 0
                        &&& 0 <= p < self.count()
                        &&& self.path(p) == self.path(j).drop_last()
                        &&& self.children(p).dom().contains(self.path(j).last())
                        &&& self.children(p)[self.path(j).last()] == j
                    } by {
                        if j < nn {
                            let p0 = o.index_of(o.path(j).drop_last());
                            assert(o.path(j) == self.path(j));
                            assert(0 <= p0 < nn && o.path(p0) == o.path(j).drop_last());
                            assert(self.path(p0) == self.path(j).drop_last());
                            let p = self.index_of(self.path(j).drop_last());
                            assert(0 <= p < self.count() && self.path(p) == self.path(j).drop_last());
                            assert(p == p0);
                            if p0 == i as int && o.path(j).last() == k {
                                assert(o.path(j) =~= o.path(i as int).push(k));
                                assert(o.view().nodes.contains(o.path(j)));
                            }
                        } else {
                            assert(self.path(j).drop_last() =~= o.path(i as int));
                            assert(self.path(i as int) == o.path(i as int));
                            let p = self.index_of(self.path(j).drop_last());
                            assert(0 <= p < self.count() && self.path(p) == self.path(j).drop_last());
                            assert(p == i as int);
                        }
                    }
                    assert forall|t: int| #![trigger self.name_at(t)] 0 <= t < self.count() implies self.name_at(t) == name_of(self.path(t)) by {
                        if t < nn {
                            assert(o.name_at(t) == name_of(o.path(t)));
                        }
                    }
                    assert(self.view().nodes =~= o.view().nodes.insert(o.path(i as int).push(k))) by {
                        assert forall|p: Seq<Seq<u8>>| #![auto] self.view().nodes.contains(p) implies o.view().nodes.insert(o.path(i as int).push(k)).contains(p) by {
                            let t = choose|t: int| 0 <= t < self.count() && self.path(t) == p;
                            if t < nn {
                                assert(o.path(t) == p);
                            }
                        }
                        assert forall|p: Seq<Seq<u8>>| #![auto] o.view().nodes.insert(o.path(i as int).push(k)).contains(p) implies self.view().nodes.contains(p) by {
                            if p != o.path(i as int).push(k) {
                                let t = choose|t: int| 0 <= t < o.count() && o.path(t) == p;
                                assert(self.path(t) == p);
                            } else {
                                assert(self.path(nn) == p);
                            }
                        }
                    }
                    assert(self.view().actions =~= o.view().actions) by {
                        assert forall|p: Seq<Seq<u8>>| #![auto] self.view().actions.dom().contains(p) implies
                            o.view().actions.dom().contains(p) && self.view().actions[p] == o.view().actions[p] by {
                            let t = choose|t: int| 0 <= t < self.count() && self.path(t) == p && self.action_at(t) is Some;
                            assert(t < nn);
                            assert(o.path(t) == p && o.action_at(t) is Some);
                            self.lemma_index_of(t);
                            o.lemma_index_of(t);
                        }
                        assert forall|p: Seq<Seq<u8>>| #![auto] o.view().actions.dom().contains(p) implies
                            self.view().actions.dom().contains(p) by {
                            let t = choose|t: int| 0 <= t < o.count() && o.path(t) == p && o.action_at(t) is Some;
                            assert(self.path(t) == p && self.action_at(t) is Some);
                        }
                    }
                }
                n
            },
        }
    }

    /// Registers the action at node `i`, replacing any action there.
    fn set_action(&mut self, i: usize, cb: A)
        requires
            old(self).wf(),
            i < old(self).count(),
        ensures
            final(self).wf(),
            final(self).view().nodes == old(self).view().nodes,
            final(self).view().actions == old(self).view().actions.insert(old(self).path(i as int), cb),
    {
        let ghost o = *self;
        self.nodes[i].cb = Some(cb);
        proof {
            let s2 = *self;
            assert forall|t: int| 0 <= t < s2.nodes@.len() implies (#[trigger] s2.nodes@[t]).nested == o.nodes@[t].nested && s2.nodes@[t].key_name == o.nodes@[t].key_name by {}
            assert forall|t: int| 0 <= t < s2.nodes@.len() && t != i implies #[trigger] s2.action_at(t) == o.action_at(t) by {}
            assert(s2.action_at(i as int) == Some(cb));
            lemma_same_shape(o, s2);
            o.lemma_index_of(i as int);
            s2.lemma_index_of(i as int);
            let m2 = s2.view().actions;
            let m1 = o.view().actions.insert(o.path(i as int), cb);
            assert forall|p: Seq<Seq<u8>>| #[trigger] m2.dom().contains(p) implies m1.dom().contains(p) && m2[p] == m1[p] by {
                let t = choose|t: int| 0 <= t < s2.count() && s2.path(t) == p && s2.action_at(t) is Some;
                s2.lemma_index_of(t);
                if t != i as int {
                    assert(o.path(t) == p && o.action_at(t) is Some);
                    o.lemma_index_of(t);
                    assert(o.path(t) != o.path(i as int));
                }
            }
            assert forall|p: Seq<Seq<u8>>| #[trigger] m1.dom().contains(p) implies m2.dom().contains(p) by {
                if p != o.path(i as int) {
                    let t = choose|t: int| 0 <= t < o.count() && o.path(t) == p && o.action_at(t) is Some;
                    assert(t != i as int);
                    assert(s2.path(t) == p && s2.action_at(t) is Some);
                } else {
                    assert(s2.path(i as int) == p && s2.action_at(i as int) is Some);
                }
            }
            assert(m2 =~= m1);
        }
    }

    /// Registers an action for a route pattern: the pattern's segments and
    /// variables become a path of the trie, and the action is kept at its
    /// end, replacing any action that was there.
    pub fn set_route(&mut self, uri: &'static [u8], cb: A)
        requires
            old(self).wf(),
        ensures
            final(self).wf(),
            final(self).view().nodes == old(self).view().nodes.union(prefixes(route_keys(uri@))),
            final(self).view().actions == old(self).view().actions.insert(route_keys(uri@), cb),
    {
        let mut reader = RouteReader::new(bytes_static(uri));
        let mut node: usize = 0;
        let ghost toks = route_tokens(uri@);
        let ghost mut consumed: Seq<Token> = Seq::empty();
        proof {
            assert(toks =~= consumed + reader.remaining());
            assert(keys_of(consumed) =~= Seq::<Seq<u8>>::empty());
            lemma_prefixes_empty();
            self.lemma_index_of(0);
            assert(self.view().nodes.union(prefixes(keys_of(consumed))) =~= self.view().nodes);
        }
        loop
            invariant
                self.wf(),
                reader.wf(),
                reader.pattern() == uri@,
                toks == route_tokens(uri@),
                toks == consumed + reader.remaining(),
                node < self.count(),
                self.path(node as int) == keys_of(consumed),
                self.view().nodes == old(self).view().nodes.union(prefixes(keys_of(consumed))),
                self.view().actions == old(self).view().actions,
            ensures
                self.wf(),
                node < self.count(),
                self.path(node as int) == keys_of(consumed),
                consumed == toks,
                self.view().nodes == old(self).view().nodes.union(prefixes(keys_of(consumed))),
                self.view().actions == old(self).view().actions,
            decreases reader.remaining().len(),
        {
            let ghost before = reader;
            match reader.next() {
                None => {
                    proof {
                        before.lemma_position();
                        lemma_route_step(before.pattern(), before.position(), before.reading());
                        assert(reader.remaining() == before.remaining());
                        assert(consumed =~= toks);
                    }
                    break;
                },
                Some(ev) => {
                    let ghost t = ev@;
                    proof {
                        before.lemma_position();
                        lemma_segment_not_colon(before.pattern(), before.position(), before.reading());
                    }
                    let ghost prev = *self;
                    let ghost path = self.path(node as int);
                    let next = match ev {
                        Event::Segment(seg) => {
                            let key = bytes_clone(&seg);
                            self.child_or_insert(node, key, seg)
                        },
                        Event::Variable(_) => {
                            let colon: &'static [u8] = &[58u8];
                            assert(colon@ == colon_key());
                            self.child_or_insert(node, bytes_static(colon), bytes_empty())
                        },
                    };
                    proof {
                        assert(self.view().nodes == prev.view().nodes.insert(path.push(token_key(t))));
                        assert(toks =~= consumed.push(t) + reader.remaining());
                        assert(keys_of(consumed.push(t)) =~= keys_of(consumed).push(token_key(t)));
                        lemma_prefixes_push(keys_of(consumed), token_key(t));
                        consumed = consumed.push(t);
                        assert(self.view().nodes =~= old(self).view().nodes.union(prefixes(keys_of(consumed))));
                    }
                    node = next;
                },
            }
        }
        self.set_action(node, cb);
    }
}

/// The identity: hands a value on unchanged.
pub fn moving<T>(t: T) -> (r: T)
    ensures
        r == t,
{
    t
}

/// The walk down a trie that holds every prefix of `keys` follows `keys`
/// literally, whatever else the trie holds.
proof fn lemma_walk_follows_keys(nodes: Set<Seq<Seq<u8>>>, keys: Seq<Seq<u8>>, t: int, params: Map<Seq<u8>, Seq<u8>>)
    requires
        0 <= t <= keys.len(),
        prefixes(keys).subset_of(nodes),
    ensures
        walk(nodes, keys.take(t), keys.skip(t), params) == Some((keys, params)),
    decreases keys.len() - t,
{
    if t < keys.len() {
        assert(keys.take(t).push(keys.skip(t)[0]) =~= keys.take(t + 1));
        assert(keys.skip(t).drop_first() =~= keys.skip(t + 1));
        assert(keys.take(t + 1) == keys.take((keys.take(t + 1).len()) as int));
        assert(prefixes(keys).contains(keys.take(t + 1)));
        lemma_walk_follows_keys(nodes, keys, t + 1, params);
    } else {
        assert(keys.take(t) =~= keys);
        assert(keys.skip(t) =~= Seq::<Seq<u8>>::empty());
    }
}

/// A walk that succeeds goes down one level for each slice it is given.
proof fn lemma_walk_depth(
    nodes: Set<Seq<Seq<u8>>>,
    cur: Seq<Seq<u8>>,
    slices: Seq<Seq<u8>>,
    params: Map<Seq<u8>, Seq<u8>>,
)
    ensures
        walk(nodes, cur, slices, params) matches Some((p, _)) ==> p.len() == cur.len() + slices.len(),
    decreases slices.len(),
{
    if slices.len() > 0 {
        let s = slices[0];
        lemma_walk_depth(nodes, cur.push(s), slices.drop_first(), params);
        lemma_walk_depth(nodes, cur.push(colon_key()), slices.drop_first(), params.insert(name_of(cur.push(colon_key())), s));
    }
}

/// Every slice of the uri is matched: a route that a uri reaches lies as
/// many levels down the trie as the uri has '/'-separated slices, so no
/// slice is left over and none is skipped.
pub proof fn law_lookup_consumes_every_slice<A>(v: RoutesView<A>, uri: Seq<u8>)
    ensures
        lookup(v, uri) matches Some((p, _)) ==> p.len() == split(uri, SLASH).len(),
{
    lemma_walk_depth(v.nodes, Seq::empty(), split(uri, SLASH), Map::empty());
}

/// The walk from level `t` follows `keys` when each slice is the key at
/// its level, or, where the key is a variable, a slice that no literal
/// child takes.
proof fn lemma_walk_follows_pattern(
    nodes: Set<Seq<Seq<u8>>>,
    keys: Seq<Seq<u8>>,
    slices: Seq<Seq<u8>>,
    t: int,
    params: Map<Seq<u8>, Seq<u8>>,
)
    requires
        0 <= t <= keys.len(),
        slices.len() == keys.len(),
        prefixes(keys).subset_of(nodes),
        forall|i: int| 0 <= i < keys.len() && keys[i] != colon_key() ==> #[trigger] slices[i] == keys[i],
        forall|i: int| 0 <= i < keys.len() && keys[i] == colon_key() ==> !nodes.contains(#[trigger] keys.take(i).push(slices[i])),
    ensures
        walk(nodes, keys.take(t), slices.skip(t), params) matches Some((p, _)) && p == keys,
    decreases keys.len() - t,
{
    if t < keys.len() {
        let s = slices[t];
        assert(slices.skip(t)[0] == s);
        assert(slices.skip(t).drop_first() =~= slices.skip(t + 1));
        assert(keys.take(t).push(keys[t]) =~= keys.take(t + 1));
        assert(keys.take(t + 1) == keys.take((keys.take(t + 1).len()) as int));
        assert(prefixes(keys).contains(keys.take(t + 1)));
        if keys[t] != colon_key() {
            assert(keys.take(t).push(s) == keys.take(t + 1));
            lemma_walk_follows_pattern(nodes, keys, slices, t + 1, params);
        } else {
            assert(!nodes.contains(keys.take(t).push(s)));
            assert(keys.take(t).push(colon_key()) == keys.take(t + 1));
            lemma_walk_follows_pattern(nodes, keys, slices, t + 1,
                params.insert(name_of(keys.take(t).push(colon_key())), s));
        }
    } else {
        assert(keys.take(t) =~= keys);
        assert(slices.skip(t) =~= Seq::<Seq<u8>>::empty());
    }
}

/// A registered pattern with variables is reached by every uri that puts
/// a slice at each variable's place (one that no literal route at that
/// level takes) and the pattern's own segments elsewhere.
pub proof fn law_variables_take_any_slice<A>(v: RoutesView<A>, keys: Seq<Seq<u8>>, uri: Seq<u8>)
    requires
        prefixes(keys).subset_of(v.nodes),
        v.actions.dom().contains(keys),
        split(uri, SLASH).len() == keys.len(),
        forall|i: int| 0 <= i < keys.len() && keys[i] != colon_key() ==> #[trigger] split(uri, SLASH)[i] == keys[i],
        forall|i: int| 0 <= i < keys.len() && keys[i] == colon_key()
            ==> !v.nodes.contains(#[trigger] keys.take(i).push(split(uri, SLASH)[i])),
    ensures
        lookup(v, uri) matches Some((p, _)) && p == keys,
{
    let slices = split(uri, SLASH);
    lemma_walk_follows_pattern(v.nodes, keys, slices, 0, Map::empty());
    assert(keys.take(0) =~= Seq::<Seq<u8>>::empty());
    assert(slices.skip(0) =~= slices);
}

/// Registering a route keeps the others: when a route whose uri's slices
/// are its keys was registered before, registering a pattern with other
/// keys leaves that uri reaching the same node, with no parameters, and
/// the action there unchanged. (A pattern that differs only by a trailing
/// '/' has the same keys, and replaces the action.)
pub proof fn law_other_routes_are_kept<A>(
    before: RoutesView<A>,
    after: RoutesView<A>,
    pattern: Seq<u8>,
    cb: A,
    kept: Seq<Seq<u8>>,
    uri: Seq<u8>,
)
    requires
        after.nodes == before.nodes.union(prefixes(route_keys(pattern))),
        after.actions == before.actions.insert(route_keys(pattern), cb),
        prefixes(kept).subset_of(before.nodes),
        before.actions.dom().contains(kept),
        split(uri, SLASH) == kept,
        kept != route_keys(pattern),
    ensures
        lookup(after, uri) == Some((kept, Map::<Seq<u8>, Seq<u8>>::empty())),
        after.actions[kept] == before.actions[kept],
{
    assert(prefixes(kept).subset_of(after.nodes));
    lemma_walk_follows_keys(after.nodes, kept, 0, Map::empty());
    assert(kept.take(0) =~= Seq::<Seq<u8>>::empty());
    assert(kept.skip(0) =~= kept);
}

/// A registered route is found: once an action is registered for a
/// pattern, a uri whose slices are the pattern's keys reaches that action,
/// with no parameters, whatever routes were registered before.
pub proof fn law_registered_route_is_found<A>(
    before: RoutesView<A>,
    after: RoutesView<A>,
    pattern: Seq<u8>,
    cb: A,
    uri: Seq<u8>,
)
    requires
        after.nodes == before.nodes.union(prefixes(route_keys(pattern))),
        after.actions == before.actions.insert(route_keys(pattern), cb),
        split(uri, SLASH) == route_keys(pattern),
    ensures
        lookup(after, uri) == Some((route_keys(pattern), Map::<Seq<u8>, Seq<u8>>::empty())),
        after.actions[route_keys(pattern)] == cb,
{
    let keys = route_keys(pattern);
    assert(prefixes(keys).subset_of(after.nodes));
    lemma_walk_follows_keys(after.nodes, keys, 0, Map::empty());
    assert(keys.take(0) =~= Seq::<Seq<u8>>::empty());
    assert(keys.skip(0) =~= keys);
}

} // verus!
