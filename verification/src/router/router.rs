//! The router: one trie of routes per method, the recording of a request's
//! events, and the dispatch of a request to the routes of its method.

use vstd::prelude::*;
use crate::buffers::bytes_slice;
use crate::http::method::MethodKind;
use crate::http::reader::{Event, EventView};
use crate::http::request::{RequestBuilder, Request, RequestView, method_of, query_after, query_name_readable};
use crate::http::response::{Response, ResponseView};
use crate::http::status::Status;
use super::route::{Routes, RoutesView, RouteAction, RouterResult, lookup};

verus! {

/// The routes of the four methods.
pub struct InnerRouter<A> {
    get: Routes<A>,
    post: Routes<A>,
    put: Routes<A>,
    delete: Routes<A>,
}

/// The routes of the four methods as mathematical values.
pub ghost struct RouterView<A> {
    pub get: RoutesView<A>,
    pub post: RoutesView<A>,
    pub put: RoutesView<A>,
    pub delete: RoutesView<A>,
}

impl<A> InnerRouter<A> {
    pub open spec fn wf(&self) -> bool {
        self.get_routes().wf() && self.post_routes().wf() && self.put_routes().wf() && self.delete_routes().wf()
    }

    pub closed spec fn get_routes(&self) -> Routes<A> { self.get }
    pub closed spec fn post_routes(&self) -> Routes<A> { self.post }
    pub closed spec fn put_routes(&self) -> Routes<A> { self.put }
    pub closed spec fn delete_routes(&self) -> Routes<A> { self.delete }

    pub open spec fn view(&self) -> RouterView<A> {
        RouterView {
            get: self.get_routes().view(),
            post: self.post_routes().view(),
            put: self.put_routes().view(),
            delete: self.delete_routes().view(),
        }
    }
}

/// The routes that serve a method, if any do.
pub open spec fn routes_for<A>(v: RouterView<A>, m: MethodKind) -> Option<RoutesView<A>> {
    match m {
        MethodKind::Get => Some(v.get),
        MethodKind::Post => Some(v.post),
        MethodKind::Put => Some(v.put),
        MethodKind::Delete => Some(v.delete),
        MethodKind::Unknown => None,
    }
}

/// Whether a request is served: its method has routes and its uri reaches
/// one of them.
pub open spec fn is_served<A>(v: RouterView<A>, r: RequestView) -> bool {
    match routes_for(v, r.method) {
        Some(routes) => lookup(routes, r.uri) is Some,
        None => false,
    }
}

/// Each request is served from the routes of its own method only: a GET
/// request from those registered by `get`, a POST one from `post`, a PUT
/// one from `put`, a DELETE one from `delete`; a request of any other
/// method is never served.
pub proof fn law_requests_use_their_methods_routes<A>(v: RouterView<A>, r: RequestView)
    ensures
        r.method == MethodKind::Get ==> (is_served(v, r) <==> lookup(v.get, r.uri) is Some)
            && routes_for(v, r.method) == Some(v.get),
        r.method == MethodKind::Post ==> (is_served(v, r) <==> lookup(v.post, r.uri) is Some)
            && routes_for(v, r.method) == Some(v.post),
        r.method == MethodKind::Put ==> (is_served(v, r) <==> lookup(v.put, r.uri) is Some)
            && routes_for(v, r.method) == Some(v.put),
        r.method == MethodKind::Delete ==> (is_served(v, r) <==> lookup(v.delete, r.uri) is Some)
            && routes_for(v, r.method) == Some(v.delete),
        r.method == MethodKind::Unknown ==> !is_served(v, r),
{
}

/// A router: routes registered per method.
pub struct Router<A> {
    inner: InnerRouter<A>,
}

impl<A> Router<A> {
    pub closed spec fn inner_spec(&self) -> InnerRouter<A> {
        self.inner
    }

    pub open spec fn wf(&self) -> bool {
        self.inner_spec().wf()
    }

    pub open spec fn view(&self) -> RouterView<A> {
        self.inner_spec().view()
    }

    /// A router with no route.
    pub fn new() -> (r: Router<A>)
        ensures
            r.wf(),
            r.view().get.actions == Map::<Seq<Seq<u8>>, A>::empty(),
            r.view().post.actions == Map::<Seq<Seq<u8>>, A>::empty(),
            r.view().put.actions == Map::<Seq<Seq<u8>>, A>::empty(),
            r.view().delete.actions == Map::<Seq<Seq<u8>>, A>::empty(),
    {
        Router {
            inner: InnerRouter {
                get: Routes::new(),
                post: Routes::new(),
                put: Routes::new(),
                delete: Routes::new(),
            },
        }
    }

    /// Registers an action for GET requests whose uri matches the pattern.
    pub fn get(&mut self, uri: &'static [u8], cb: A) -> (r: &mut Self)
        requires
            old(self).wf(),
        ensures
            *final(self) == *final(r),
            r.wf(),
            r.view() == (RouterView {
                get: RoutesView {
                    nodes: old(self).view().get.nodes.union(super::route::prefixes(super::route::route_keys(uri@))),
                    actions: old(self).view().get.actions.insert(super::route::route_keys(uri@), cb),
                },
                ..old(self).view()
            }),
    {
        self.inner.get.set_route(uri, cb);
        self
    }

    /// Registers an action for POST requests whose uri matches the pattern.
    pub fn post(&mut self, uri: &'static [u8], cb: A) -> (r: &mut Self)
        requires
            old(self).wf(),
        ensures
            *final(self) == *final(r),
            r.wf(),
            r.view() == (RouterView {
                post: RoutesView {
                    nodes: old(self).view().post.nodes.union(super::route::prefixes(super::route::route_keys(uri@))),
                    actions: old(self).view().post.actions.insert(super::route::route_keys(uri@), cb),
                },
                ..old(self).view()
            }),
    {
        self.inner.post.set_route(uri, cb);
        self
    }

    /// Registers an action for PUT requests whose uri matches the pattern.
    pub fn put(&mut self, uri: &'static [u8], cb: A) -> (r: &mut Self)
        requires
            old(self).wf(),
        ensures
            *final(self) == *final(r),
            r.wf(),
            r.view() == (RouterView {
                put: RoutesView {
                    nodes: old(self).view().put.nodes.union(super::route::prefixes(super::route::route_keys(uri@))),
                    actions: old(self).view().put.actions.insert(super::route::route_keys(uri@), cb),
                },
                ..old(self).view()
            }),
    {
        self.inner.put.set_route(uri, cb);
        self
    }

    /// Registers an action for DELETE requests whose uri matches the
    /// pattern.
    pub fn delete(&mut self, uri: &'static [u8], cb: A) -> (r: &mut Self)
        requires
            old(self).wf(),
        ensures
            *final(self) == *final(r),
            r.wf(),
            r.view() == (RouterView {
                delete: RoutesView {
                    nodes: old(self).view().delete.nodes.union(super::route::prefixes(super::route::route_keys(uri@))),
                    actions: old(self).view().delete.actions.insert(super::route::route_keys(uri@), cb),
                },
                ..old(self).view()
            }),
    {
        self.inner.delete.set_route(uri, cb);
        self
    }

    /// The routes, to be shared by the connections that serve them.
    pub fn into_inner(self) -> (inner: InnerRouter<A>)
        ensures
            inner == self.inner_spec(),
    {
        self.inner
    }
}

/// The request after one of the reader's events is recorded in it.
pub open spec fn request_after_event(r: RequestView, e: EventView) -> RequestView {
    match e {
        EventView::Header(name, value) => RequestView { headers: r.headers.insert(name, value), ..r },
        EventView::Method(m) => RequestView { method: method_of(m), ..r },
        EventView::Uri(u) => RequestView { uri: u, ..r },
        EventView::QueryStringParam(name, value) => RequestView { query: query_after(r.query, name, value), ..r },
        EventView::Body(b) => RequestView { body: b, ..r },
        _ => r,
    }
}

/// Whether an event can be recorded: a query parameter's name must be one
/// whose last two bytes can be looked at.
pub open spec fn is_recordable(e: EventView) -> bool {
    match e {
        EventView::QueryStringParam(name, _) => query_name_readable(name),
        _ => true,
    }
}

/// Whether an event can be recorded (see `is_recordable`).
pub fn event_recordable(event: &Event) -> (b: bool)
    ensures
        b == is_recordable(event@),
{
    match event {
        Event::QueryStringParam(name, _) => {
            let s = bytes_slice(name);
            s.len() >= 2 || (s.len() == 1 && s[0] != 93)
        },
        _ => true,
    }
}

/// Records one of the reader's events in the request: headers, method,
/// uri, query parameters and body are set; the reader's error code is
/// handed back; other events change nothing.
pub fn record_event(request: &mut RequestBuilder, event: Event) -> (err: Option<u8>)
    requires
        is_recordable(event@),
    ensures
        final(request)@ == request_after_event(old(request)@, event@),
        err == (match event@ { EventView::Error(e) => Some(e), _ => None }),
{
    match event {
        Event::Header(name, value) => { request.add_header(name, value); None },
        Event::Method(name) => { request.add_method(name); None },
        Event::Uri(uri) => { request.add_uri(uri); None },
        Event::QueryStringParam(name, value) => { request.add_query_param(name, value); None },
        Event::Body(body) => { request.add_body(body); None },
        Event::Error(e) => Some(e),
        _ => None,
    }
}

/// Runs the action that the request's method and uri reach, with a fresh
/// response; `Err(())` for an unknown method or a uri that reaches no
/// route. What comes back is what the action registered in the routes of
/// the request's method gave, called on the request with the uri's
/// parameters and on an empty response.
pub fn run_request_callback<A: RouteAction>(request: RequestBuilder, inner: &InnerRouter<A>) -> (r: RouterResult)
    requires
        inner.wf(),
    ensures
        r is Ok <==> is_served(inner.view(), request@),
        r matches Ok(x) ==> exists|req: Request, res: Response| #![trigger req.view(), res.view()] {
            let routes = routes_for(inner.view(), request@.method)->Some_0;
            &&& res@ == (ResponseView { protocol: Seq::empty(), status: Status::OK, headers: Seq::empty(), body: Seq::empty() })
            &&& req@ == (RequestView { uri_params: lookup(routes, request@.uri)->Some_0.1, ..request@ })
            &&& call_ensures(A::action, (&routes.actions[lookup(routes, request@.uri)->Some_0.0], req, res), x)
        },
{
    let response = Response::new();
    match request.method() {
        MethodKind::Get => inner.get.run_callback(request, response),
        MethodKind::Post => inner.post.run_callback(request, response),
        MethodKind::Put => inner.put.run_callback(request, response),
        MethodKind::Delete => inner.delete.run_callback(request, response),
        _ => Err(()),
    }
}

} // verus!
