//! Setting, removing and listing fail points over the status service.

use vstd::prelude::*;
use crate::bytes::{bytes_eq, copy_bytes};
use crate::status::response::{
    BAD_REQUEST, METHOD_NOT_ALLOWED, NOT_FOUND, OK, Response, ResponseView, UNPROCESSABLE_ENTITY,
    make_response, plain, text_response,
};
use crate::status::route::Method;
use crate::status::text::{append, ascii, has_prefix, is_utf8, piece, starts_with, text};

verus! {

/// A fail point and the actions set for it.
#[derive(Debug)]
pub struct FailPoint {
    pub name: Vec<u8>,
    pub actions: Vec<u8>,
}

/// The mathematical value of a `FailPoint`.
pub struct FailPointView {
    pub name: Seq<u8>,
    pub actions: Seq<u8>,
}

impl View for FailPoint {
    type V = FailPointView;

    open spec fn view(&self) -> FailPointView {
        FailPointView { name: self.name@, actions: self.actions@ }
    }
}

/// What a fail point request asks for.
#[derive(Debug)]
pub enum FailPointPlan {
    /// Nothing is to be done but to answer.
    Respond(Response),
    /// The actions of a fail point are to be set.
    Configure { name: Vec<u8>, actions: Vec<u8> },
    /// A fail point is to be removed.
    Remove { name: Vec<u8> },
    /// The fail points are to be listed.
    List,
}

/// The mathematical value of a `FailPointPlan`.
pub enum PlanView {
    Respond(ResponseView),
    Configure { name: Seq<u8>, actions: Seq<u8> },
    Remove { name: Seq<u8> },
    List,
}

impl View for FailPointPlan {
    type V = PlanView;

    open spec fn view(&self) -> PlanView {
        match self {
            FailPointPlan::Respond(r) => PlanView::Respond(r@),
            FailPointPlan::Configure { name, actions } => PlanView::Configure {
                name: name@,
                actions: actions@,
            },
            FailPointPlan::Remove { name } => PlanView::Remove { name: name@ },
            FailPointPlan::List => PlanView::List,
        }
    }
}

/// The name of the fail point in a path that begins with `/fail/`.
pub open spec fn name_in(path: Seq<u8>) -> Seq<u8> {
    path.subrange(6, path.len() as int)
}

/// The actions in the body of a request: the body, if it is text.
pub open spec fn actions_in(body: Seq<u8>) -> Seq<u8> {
    if vstd::utf8::valid_utf8(body) { body } else { Seq::empty() }
}

/// What a request asks for. `PUT /fail/<name>` sets the actions in the body,
/// `DELETE /fail/<name>` removes the fail point, and both need a name, the
/// first also actions. `GET /fail` and `GET /fail/` list the fail points;
/// any other path is not found under `GET`. Any other method is not allowed.
pub open spec fn plan_of(method: Method, path: Seq<u8>, body: Seq<u8>) -> PlanView {
    let named = has_prefix(path, ascii("/fail/"@));
    if method == Method::Put && named {
        if name_in(path).len() == 0 {
            PlanView::Respond(plain(UNPROCESSABLE_ENTITY, ascii("Missing param name"@)))
        } else if actions_in(body).len() == 0 {
            PlanView::Respond(plain(UNPROCESSABLE_ENTITY, ascii("Missing param actions"@)))
        } else {
            PlanView::Configure { name: name_in(path), actions: actions_in(body) }
        }
    } else if method == Method::Delete && named {
        if name_in(path).len() == 0 {
            PlanView::Respond(plain(UNPROCESSABLE_ENTITY, ascii("Missing param name"@)))
        } else {
            PlanView::Remove { name: name_in(path) }
        }
    } else if method == Method::Get {
        if path != ascii("/fail"@) && path != ascii("/fail/"@) {
            PlanView::Respond(plain(NOT_FOUND, Seq::empty()))
        } else {
            PlanView::List
        }
    } else {
        PlanView::Respond(plain(METHOD_NOT_ALLOWED, Seq::empty()))
    }
}

/// The answer after the actions of a fail point were set, or refused with `error`.
pub open spec fn configured(name: Seq<u8>, actions: Seq<u8>, error: Option<Seq<u8>>) -> ResponseView {
    match error {
        Some(e) => plain(BAD_REQUEST, e),
        None => plain(
            OK,
            ascii("Added fail point with name: "@) + name + ascii(", actions: "@) + actions,
        ),
    }
}

/// The answer after a fail point was removed.
pub open spec fn removed(name: Seq<u8>) -> ResponseView {
    plain(OK, ascii("Deleted fail point with name: "@) + name)
}

/// The lines of a list of fail points: `name=actions`, one line each, with
/// a line feed between two lines.
pub open spec fn lines_of(points: Seq<FailPointView>) -> Seq<u8>
    decreases points.len(),
{
    if points.len() == 0 {
        Seq::empty()
    } else if points.len() == 1 {
        points[0].name + seq![61u8] + points[0].actions
    } else {
        lines_of(points.drop_last()) + seq![10u8] + points.last().name + seq![61u8]
            + points.last().actions
    }
}

/// The answer that lists the fail points.
pub open spec fn listed(points: Seq<FailPointView>) -> ResponseView {
    plain(OK, lines_of(points))
}

/// Whether `r` is an answer to the request: the one that the request alone
/// decides, or one that fits what the registry of fail points said.
pub open spec fn answers(method: Method, path: Seq<u8>, body: Seq<u8>, r: ResponseView) -> bool {
    match plan_of(method, path, body) {
        PlanView::Respond(answer) => r == answer,
        PlanView::Configure { name, actions } => exists|error: Option<Seq<u8>>|
            r == configured(name, actions, error),
        PlanView::Remove { name } => r == removed(name),
        PlanView::List => exists|points: Seq<FailPointView>| r == listed(points),
    }
}

/// What a fail point request asks for.
pub fn plan_fail_points(method: Method, path: &[u8], body: &[u8]) -> (plan: FailPointPlan)
    ensures
        plan@ == plan_of(method, path@, body@),
{
    proof {
        reveal_strlit("/fail/");
        reveal_strlit("/fail");
        reveal_strlit("Missing param name");
        reveal_strlit("Missing param actions");
    }
    let named = starts_with(path, text("/fail/"));
    match (method, named) {
        (Method::Put, true) => {
            let name = piece(path, 6, path.len());
            if name.len() == 0 {
                return FailPointPlan::Respond(text_response(UNPROCESSABLE_ENTITY, "Missing param name"));
            }
            let actions = if is_utf8(body) { copy_bytes(body) } else { Vec::new() };
            if actions.len() == 0 {
                return FailPointPlan::Respond(
                    text_response(UNPROCESSABLE_ENTITY, "Missing param actions"),
                );
            }
            FailPointPlan::Configure { name, actions }
        },
        (Method::Delete, true) => {
            let name = piece(path, 6, path.len());
            if name.len() == 0 {
                return FailPointPlan::Respond(text_response(UNPROCESSABLE_ENTITY, "Missing param name"));
            }
            FailPointPlan::Remove { name }
        },
        (Method::Get, _) => {
            if !bytes_eq(path, text("/fail")) && !bytes_eq(path, text("/fail/")) {
                return FailPointPlan::Respond(make_response(NOT_FOUND, Vec::new()));
            }
            FailPointPlan::List
        },
        _ => FailPointPlan::Respond(make_response(METHOD_NOT_ALLOWED, Vec::new())),
    }
}

/// The answer after the actions of a fail point were set, or refused.
pub fn configure_reply(name: &[u8], actions: &[u8], result: Result<(), Vec<u8>>) -> (r: Response)
    ensures
        r@ == configured(
            name@,
            actions@,
            match result {
                Ok(_) => None,
                Err(e) => Some(e@),
            },
        ),
{
    proof {
        reveal_strlit("Added fail point with name: ");
        reveal_strlit(", actions: ");
    }
    match result {
        Err(e) => make_response(BAD_REQUEST, e),
        Ok(_) => {
            let mut body = copy_bytes(text("Added fail point with name: "));
            append(&mut body, name);
            append(&mut body, text(", actions: "));
            append(&mut body, actions);
            make_response(OK, body)
        },
    }
}

/// The answer after a fail point was removed.
pub fn remove_reply(name: &[u8]) -> (r: Response)
    ensures
        r@ == removed(name@),
{
    proof {
        reveal_strlit("Deleted fail point with name: ");
    }
    let mut body = copy_bytes(text("Deleted fail point with name: "));
    append(&mut body, name);
    make_response(OK, body)
}

/// The answer that lists the fail points.
pub fn list_reply(points: &Vec<FailPoint>) -> (r: Response)
    ensures
        r@ == listed(crate::event::views(points@)),
{
    let ghost all = crate::event::views(points@);
    let mut body: Vec<u8> = Vec::new();
    let mut i: usize = 0;
    proof {
        assert(all.take(0) =~= Seq::empty());
    }
    while i < points.len()
        invariant
            i <= points.len(),
            all == crate::event::views(points@),
            body@ == lines_of(all.take(i as int)),
        decreases points.len() - i,
    {
        proof {
            assert(all.take(i + 1).drop_last() =~= all.take(i as int));
            assert(all.take(i + 1).last() == all[i as int]);
            assert(all.take(i + 1)[0] == all[0]);
        }
        if i > 0 {
            body.push(10u8);
        }
        append(&mut body, points[i].name.as_slice());
        body.push(61u8);
        append(&mut body, points[i].actions.as_slice());
        proof {
            let p = all[i as int];
            if i == 0 {
                assert(body@ =~= p.name + seq![61u8] + p.actions);
            } else {
                assert(body@ =~= lines_of(all.take(i as int)) + seq![10u8] + p.name + seq![61u8]
                    + p.actions);
            }
        }
        i = i + 1;
    }
    proof {
        assert(all.take(all.len() as int) =~= all);
    }
    make_response(OK, body)
}

/// Sets the actions of a fail point in the registry of the process. The
/// call is `fail::cfg`, which refuses actions that it cannot read; nothing
/// is claimed of what it answers.
#[verifier::external_body]
fn fail_cfg(name: &[u8], actions: &[u8]) -> (r: Result<(), Vec<u8>>) {
    fail::cfg(String::from_utf8_lossy(name).into_owned(), &String::from_utf8_lossy(actions))
        .map_err(|e| e.into_bytes())
}

/// Removes a fail point from the registry of the process. The call is
/// `fail::remove`.
#[verifier::external_body]
fn fail_remove(name: &[u8]) {
    fail::remove(String::from_utf8_lossy(name).as_ref())
}

/// The fail points in the registry of the process, in no stated order. The
/// call is `fail::list`.
#[verifier::external_body]
fn fail_list() -> (r: Vec<FailPoint>) {
    fail::list()
        .into_iter()
        .map(|(name, actions)| FailPoint { name: name.into_bytes(), actions: actions.into_bytes() })
        .collect()
}

/// Serves a fail point request: does what it asks for in the registry of
/// fail points and answers. What the request alone decides is answered as
/// `plan_of` says; else the answer fits what the registry said.
pub fn handle_fail_points_request(method: Method, path: &[u8], body: &[u8]) -> (r: Response)
    ensures
        answers(method, path@, body@, r@),
{
    match plan_fail_points(method, path, body) {
        FailPointPlan::Respond(r) => r,
        FailPointPlan::Configure { name, actions } => {
            let result = fail_cfg(name.as_slice(), actions.as_slice());
            configure_reply(name.as_slice(), actions.as_slice(), result)
        },
        FailPointPlan::Remove { name } => {
            fail_remove(name.as_slice());
            remove_reply(name.as_slice())
        },
        FailPointPlan::List => {
            let points = fail_list();
            list_reply(&points)
        },
    }
}

} // verus!
