//! The status service: what it is set up with, and what it does with a
//! request before a handler sees it.

use vstd::prelude::*;
use crate::bytes::opt_view;
use crate::status::cert::{SecurityConfig, SecurityView, check_cert};
use crate::status::handlers::{
    forbidden_response, gone_answer, gone_response, json_list_response, list_answer,
    not_found_response, status_response,
};
use crate::status::profile::{
    CpuProfilePlan, cpu_profile_answer, cpu_profile_response, header_view, result_view,
};
use crate::status::region::{RegionQuery, region_answer};
use crate::status::response::{FORBIDDEN, NOT_FOUND, OK, Response, ResponseView, make_response, plain};
use crate::status::route::{Method, Route, checks_cert, route, route_of, should_check_cert};
use crate::status::text::ascii;

verus! {

/// How the service talks to its clients.
#[derive(Clone, Copy, Debug, PartialEq, Eq, Structural)]
pub enum Transport {
    Plain,
    Tls,
}

/// What becomes of a request.
#[derive(Debug)]
pub enum Handling {
    /// It is answered at once.
    Respond(Response),
    /// It goes to the handler of the route.
    Serve(Route),
}

/// The mathematical value of a `Handling`.
pub enum HandlingView {
    Respond(ResponseView),
    Serve(Route),
}

impl View for Handling {
    type V = HandlingView;

    open spec fn view(&self) -> HandlingView {
        match self {
            Handling::Respond(r) => HandlingView::Respond(r@),
            Handling::Serve(route) => HandlingView::Serve(*route),
        }
    }
}

/// The mathematical value of a `StatusServer`.
pub struct ServerView {
    pub security: SecurityView,
    /// Whether fail points are built in.
    pub fail_points: bool,
    /// The address that the service listens on, once it has started.
    pub addr: Option<Seq<u8>>,
}

impl ServerView {
    /// What becomes of a request with this method and path, from a client
    /// whose certificate bears the common name `name`, if it showed one.
    /// Fail point requests go to their handler unchecked. Else a request
    /// that must be allowed and is not is refused. Else the status is
    /// answered at once, as are the handlers that are gone and the paths
    /// that no handler serves; the rest goes to its handler.
    pub open spec fn handling_of(self, method: Method, path: Seq<u8>, name: Option<Seq<u8>>) -> HandlingView {
        let route = route_of(method, path, self.fail_points);
        if route == Route::FailPoints {
            HandlingView::Serve(route)
        } else if checks_cert(method, path) && !self.security.allows(name) {
            HandlingView::Respond(plain(FORBIDDEN, ascii("certificate role error"@)))
        } else if route == Route::Status {
            HandlingView::Respond(plain(OK, Seq::empty()))
        } else if route == Route::Unknown {
            HandlingView::Respond(plain(NOT_FOUND, ascii("path not found"@)))
        } else {
            match gone_answer(route) {
                Some(r) => HandlingView::Respond(r),
                None => HandlingView::Serve(route),
            }
        }
    }
}

/// The status service of a node.
#[derive(Debug)]
pub struct StatusServer {
    security: SecurityConfig,
    fail_points: bool,
    addr: Option<Vec<u8>>,
}

impl View for StatusServer {
    type V = ServerView;

    closed spec fn view(&self) -> ServerView {
        ServerView {
            security: self.security@,
            fail_points: self.fail_points,
            addr: opt_view(self.addr),
        }
    }
}

impl StatusServer {
    /// A service that has not started, with the node's settings for TLS
    /// and with or without fail points.
    pub fn new(security: SecurityConfig, fail_points: bool) -> (s: StatusServer)
        ensures
            s@ == (ServerView { security: security@, fail_points, addr: None }),
    {
        StatusServer { security, fail_points, addr: None }
    }

    /// Starts the service on the address that the caller has bound, and
    /// says how to talk to clients there: over TLS where the node has a
    /// certificate, a key and a certificate authority.
    pub fn start(&mut self, bound_addr: Vec<u8>) -> (t: Transport)
        ensures
            final(self)@ == (ServerView { addr: Some(bound_addr@), ..old(self)@ }),
            t == if old(self)@.security.uses_tls() { Transport::Tls } else { Transport::Plain },
    {
        self.addr = Some(bound_addr);
        if self.security.uses_tls() { Transport::Tls } else { Transport::Plain }
    }

    /// The address that the service listens on. Only a service that has
    /// started has one.
    pub fn listening_addr(&self) -> (addr: &Vec<u8>)
        requires
            self@.addr is Some,
        ensures
            Some(addr@) == self@.addr,
    {
        self.addr.as_ref().unwrap()
    }

    /// Whether the service has started.
    pub fn is_started(&self) -> (r: bool)
        ensures
            r == self@.addr is Some,
    {
        self.addr.is_some()
    }

    /// Stops the service and returns the address that it listened on, if
    /// it had started.
    pub fn stop(self) -> (addr: Option<Vec<u8>>)
        ensures
            opt_view(addr) == self@.addr,
    {
        self.addr
    }

    /// The node's settings for TLS.
    pub fn security(&self) -> (s: &SecurityConfig)
        ensures
            s@ == self@.security,
    {
        &self.security
    }

    /// Decides what becomes of a request. `peer_name` is the common name
    /// that the client's certificate bears, if it showed one with a name.
    pub fn dispatch(&self, method: Method, path: &[u8], peer_name: Option<&[u8]>) -> (h: Handling)
        ensures
            h@ == self@.handling_of(method, path@, header_view(peer_name)),
    {
        let r = route(method, path, self.fail_points);
        match r {
            Route::FailPoints => {
                return Handling::Serve(r);
            },
            _ => {},
        }
        if should_check_cert(method, path) && !check_cert(&self.security, peer_name) {
            return Handling::Respond(forbidden_response());
        }
        match r {
            Route::Status => Handling::Respond(status_response()),
            Route::Unknown => Handling::Respond(not_found_response()),
            _ => match gone_response(r) {
                Some(answer) => Handling::Respond(answer),
                None => Handling::Serve(r),
            },
        }
    }

    /// The answer to a request for a CPU profile, from what the profiler gave.
    pub fn dump_cpu_prof_to_resp(plan: CpuProfilePlan, result: Result<Vec<u8>, Vec<u8>>) -> (r: Response)
        ensures
            r@ == cpu_profile_answer(plan.protobuf, result_view(result)),
    {
        cpu_profile_response(plan.protobuf, result)
    }

    /// The answer with the tree of the tasks under way, as text.
    pub fn dump_async_trace(tree: Vec<u8>) -> (r: Response)
        ensures
            r@ == plain(OK, tree@),
    {
        make_response(OK, tree)
    }

    /// The answer to a request for the metadata of region `id`, from what
    /// the replication layer said.
    pub fn dump_region_meta(id: u64, outcome: RegionQuery) -> (r: Response)
        ensures
            r@ == region_answer(id, outcome@),
    {
        crate::status::region::dump_region_meta(id, outcome)
    }

    /// The answer with the resource groups as JSON, or with the failure to
    /// write them as JSON.
    pub fn handle_get_all_resource_groups(encoded: Result<Vec<u8>, Vec<u8>>) -> (r: Response)
        ensures
            r@ == list_answer(result_view(encoded)),
    {
        json_list_response(encoded)
    }
}

} // verus!
