//! The answers of the handlers that need no more than a result to report.

use vstd::prelude::*;
use crate::bytes::copy_bytes;
use crate::status::region::json_response;
use crate::status::response::{
    Attachment, ContentType, FORBIDDEN, GONE, INTERNAL_SERVER_ERROR, NOT_FOUND, OK, Response,
    ResponseView, make_response, plain, text_response,
};
use crate::status::route::Route;
use crate::status::text::{append, ascii, contains, has_part, text};

verus! {

/// The answer to a handler that is gone, if `route` is one.
pub open spec fn gone_answer(route: Route) -> Option<ResponseView> {
    match route {
        Route::HeapList => Some(
            plain(
                GONE,
                ascii(
                    "Deprecated, heap profiling is always enabled by default, just use /debug/pprof/heap to get the heap profile when needed"@,
                ),
            ),
        ),
        Route::HeapActivate | Route::HeapDeactivate => Some(
            plain(GONE, ascii("Deprecated, use config `memory.enable_heap_profiling` to toggle"@)),
        ),
        _ => None,
    }
}

/// The answer to a handler that is gone, if `route` is one.
pub fn gone_response(route: Route) -> (r: Option<Response>)
    ensures
        match r {
            Some(r) => gone_answer(route) == Some(r@),
            None => gone_answer(route) is None,
        },
{
    proof {
        reveal_strlit(
            "Deprecated, heap profiling is always enabled by default, just use /debug/pprof/heap to get the heap profile when needed",
        );
        reveal_strlit("Deprecated, use config `memory.enable_heap_profiling` to toggle");
    }
    match route {
        Route::HeapList => Some(
            text_response(
                GONE,
                "Deprecated, heap profiling is always enabled by default, just use /debug/pprof/heap to get the heap profile when needed",
            ),
        ),
        Route::HeapActivate | Route::HeapDeactivate => Some(
            text_response(GONE, "Deprecated, use config `memory.enable_heap_profiling` to toggle"),
        ),
        _ => None,
    }
}

/// The answer to a path that no handler serves.
pub fn not_found_response() -> (r: Response)
    ensures
        r@ == plain(NOT_FOUND, ascii("path not found"@)),
{
    proof {
        reveal_strlit("path not found");
    }
    text_response(NOT_FOUND, "path not found")
}

/// The answer to a client whose certificate does not allow the request.
pub fn forbidden_response() -> (r: Response)
    ensures
        r@ == plain(FORBIDDEN, ascii("certificate role error"@)),
{
    proof {
        reveal_strlit("certificate role error");
    }
    text_response(FORBIDDEN, "certificate role error")
}

/// The empty answer that says the node is up.
pub fn status_response() -> (r: Response)
    ensures
        r@ == plain(OK, Seq::empty()),
{
    make_response(OK, Vec::new())
}

/// The answer to the question whether the node is ready: the status says
/// so, and with `verbose` in the query the body gives the details.
pub open spec fn ready_answer(query: Option<Seq<u8>>, ready: bool, details: Seq<u8>) -> ResponseView {
    let verbose = match query {
        Some(q) => has_part(q, ascii("verbose"@)),
        None => false,
    };
    plain(
        if ready { OK } else { INTERNAL_SERVER_ERROR },
        if verbose { details } else { Seq::empty() },
    )
}

/// The answer to the question whether the node is ready.
pub fn handle_ready_request(query: Option<&[u8]>, ready: bool, details: Vec<u8>) -> (r: Response)
    ensures
        r@ == ready_answer(crate::status::profile::header_view(query), ready, details@),
{
    proof {
        reveal_strlit("verbose");
    }
    let verbose = match query {
        Some(q) => contains(q, text("verbose")),
        None => false,
    };
    let status = if ready { OK } else { INTERNAL_SERVER_ERROR };
    make_response(status, if verbose { details } else { Vec::new() })
}

/// The answer after the gRPC service was paused, or could not be.
pub fn handle_pause_grpc(result: Result<(), Vec<u8>>) -> (r: Response)
    ensures
        r@ == match result {
            Ok(_) => plain(OK, ascii("Successfully pause grpc service"@)),
            Err(e) => plain(INTERNAL_SERVER_ERROR, ascii("fails to pause grpc: "@) + e@),
        },
{
    proof {
        reveal_strlit("Successfully pause grpc service");
        reveal_strlit("fails to pause grpc: ");
    }
    match result {
        Ok(_) => text_response(OK, "Successfully pause grpc service"),
        Err(e) => {
            let mut body = copy_bytes(text("fails to pause grpc: "));
            append(&mut body, e.as_slice());
            make_response(INTERNAL_SERVER_ERROR, body)
        },
    }
}

/// The answer after the gRPC service was resumed, or could not be.
pub fn handle_resume_grpc(result: Result<(), Vec<u8>>) -> (r: Response)
    ensures
        r@ == match result {
            Ok(_) => plain(OK, ascii("Successfully resume grpc service"@)),
            Err(e) => plain(INTERNAL_SERVER_ERROR, ascii("fails to resume grpc: "@) + e@),
        },
{
    proof {
        reveal_strlit("Successfully resume grpc service");
        reveal_strlit("fails to resume grpc: ");
    }
    match result {
        Ok(_) => text_response(OK, "Successfully resume grpc service"),
        Err(e) => {
            let mut body = copy_bytes(text("fails to resume grpc: "));
            append(&mut body, e.as_slice());
            make_response(INTERNAL_SERVER_ERROR, body)
        },
    }
}

/// The answer with a list as JSON, or with the failure to write it as JSON.
pub open spec fn list_answer(encoded: Result<Seq<u8>, Seq<u8>>) -> ResponseView {
    match encoded {
        Ok(body) => ResponseView {
            status: OK,
            content_type: ContentType::Json,
            attachment: Attachment::Inline,
            gzip: false,
            nosniff: false,
            content_length: false,
            body,
        },
        Err(e) => plain(INTERNAL_SERVER_ERROR, ascii("fails to json: "@) + e),
    }
}

/// The answer with a list as JSON, or with the failure to write it as JSON.
pub fn json_list_response(encoded: Result<Vec<u8>, Vec<u8>>) -> (r: Response)
    ensures
        r@ == list_answer(crate::status::profile::result_view(encoded)),
{
    proof {
        reveal_strlit("fails to json: ");
    }
    match encoded {
        Ok(body) => json_response(body),
        Err(e) => {
            let mut body = copy_bytes(text("fails to json: "));
            append(&mut body, e.as_slice());
            make_response(INTERNAL_SERVER_ERROR, body)
        },
    }
}

/// The answer where the regions cached in memory are asked for and the
/// in-memory engine is off.
pub fn engine_disabled_response() -> (r: Response)
    ensures
        r@ == plain(crate::status::response::BAD_REQUEST, ascii("In memory engine is not enabled"@)),
{
    proof {
        reveal_strlit("In memory engine is not enabled");
    }
    text_response(crate::status::response::BAD_REQUEST, "In memory engine is not enabled")
}

/// A resource group, as the resource manager reports it.
#[derive(Debug)]
pub struct ResourceGroup {
    pub name: Vec<u8>,
    /// The request units that the group may use per second.
    pub fill_rate: u64,
    pub priority: u32,
    pub burst_limit: i64,
    /// The kinds of background jobs of the group, if it has settings for
    /// background work.
    pub job_types: Option<Vec<Vec<u8>>>,
}

/// What the status service shows of a resource group.
#[derive(Debug)]
pub struct ResourceGroupSetting {
    pub name: Vec<u8>,
    pub ru: u64,
    pub priority: u32,
    pub burst_limit: i64,
    pub background: BackgroundSetting,
}

/// What the status service shows of a group's background work.
#[derive(Debug)]
pub struct BackgroundSetting {
    pub task_types: Vec<Vec<u8>>,
}

/// What the status service shows of a resource group: a group without
/// settings for background work shows no kinds of jobs.
pub fn into_debug_request_group(rg: ResourceGroup) -> (r: ResourceGroupSetting)
    ensures
        r.name@ == rg.name@,
        r.ru == rg.fill_rate,
        r.priority == rg.priority,
        r.burst_limit == rg.burst_limit,
        r.background.task_types@ == match rg.job_types {
            Some(types) => types@,
            None => Seq::empty(),
        },
{
    ResourceGroupSetting {
        name: rg.name,
        ru: rg.fill_rate,
        priority: rg.priority,
        burst_limit: rg.burst_limit,
        background: BackgroundSetting {
            task_types: match rg.job_types {
                Some(types) => types,
                None => Vec::new(),
            },
        },
    }
}

} // verus!
