//! Requests for CPU and heap profiles: what is asked of the profiler and
//! how its result is answered.

use vstd::prelude::*;
use crate::bytes::bytes_eq;
use crate::event::views;
use crate::status::number::{IntError, parse_i32, parse_u64, signed_of, unsigned_of};
use crate::status::query::{Pair, form_urlencoded_pairs, last_value, parse_query, value_of};
use crate::status::response::{
    Attachment, BAD_REQUEST, ContentType, INTERNAL_SERVER_ERROR, OK, Response, ResponseView,
    make_response, plain,
};
use crate::status::text::{ascii, text};

verus! {

/// What a request for a CPU profile asks of the profiler.
#[derive(Clone, Copy, Debug, PartialEq, Eq, Structural)]
pub struct CpuProfilePlan {
    /// How long to sample, in seconds.
    pub seconds: u64,
    /// How often to sample, per second.
    pub frequency: i32,
    /// Whether the profile is wanted as protobuf, not as a flame graph.
    pub protobuf: bool,
}

/// The seconds to sample: the parameter `seconds`, 10 without it. A value
/// that is no number of 64 bits is refused with the reason.
pub open spec fn seconds_of(pairs: Seq<(Seq<u8>, Seq<u8>)>) -> Result<u64, ResponseView> {
    match value_of(pairs, ascii("seconds"@)) {
        Some(v) => match unsigned_of(v, false, u64::MAX as nat) {
            Ok(n) => Ok(n as u64),
            Err(e) => Err(plain(BAD_REQUEST, e.message())),
        },
        None => Ok(10),
    }
}

/// The samples per second: the parameter `frequency`, 99 without it, so
/// that the samples do not fall in step with periodic work. A value that
/// is no number of 32 bits is refused with the reason.
pub open spec fn frequency_of(pairs: Seq<(Seq<u8>, Seq<u8>)>) -> Result<i32, ResponseView> {
    match value_of(pairs, ascii("frequency"@)) {
        Some(v) => match signed_of(v, 2147483648, i32::MAX as nat) {
            Ok(n) => Ok(n as i32),
            Err(e) => Err(plain(BAD_REQUEST, e.message())),
        },
        None => Ok(99),
    }
}

/// What a request for a CPU profile asks for, or the refusal of a
/// parameter that is no number; `seconds` is looked at first. The profile
/// is wanted as protobuf where the request's content type says so.
pub open spec fn cpu_plan_of(pairs: Seq<(Seq<u8>, Seq<u8>)>, content_type: Option<Seq<u8>>) -> Result<
    CpuProfilePlan,
    ResponseView,
> {
    match seconds_of(pairs) {
        Err(e) => Err(e),
        Ok(seconds) => match frequency_of(pairs) {
            Err(e) => Err(e),
            Ok(frequency) => Ok(
                CpuProfilePlan {
                    seconds,
                    frequency,
                    protobuf: content_type == Some(ascii("application/protobuf"@)),
                },
            ),
        },
    }
}

/// The view of a plan or its refusal.
pub open spec fn plan_view(r: Result<CpuProfilePlan, Response>) -> Result<CpuProfilePlan, ResponseView> {
    match r {
        Ok(p) => Ok(p),
        Err(e) => Err(e@),
    }
}

/// The view of the content type of a request.
pub open spec fn header_view(h: Option<&[u8]>) -> Option<Seq<u8>> {
    match h {
        Some(v) => Some(v@),
        None => None,
    }
}

/// What a request for a CPU profile with these parameters asks for.
pub fn cpu_plan_in(pairs: &Vec<Pair>, content_type: Option<&[u8]>) -> (r: Result<
    CpuProfilePlan,
    Response,
>)
    ensures
        plan_view(r) == cpu_plan_of(views(pairs@), header_view(content_type)),
{
    proof {
        reveal_strlit("seconds");
        reveal_strlit("frequency");
        reveal_strlit("application/protobuf");
    }
    let seconds: u64 = match last_value(pairs, text("seconds")) {
        Some(v) => match parse_u64(v.as_slice()) {
            Ok(n) => n,
            Err(e) => {
                return Err(make_response(BAD_REQUEST, e.text()));
            },
        },
        None => 10,
    };
    let frequency: i32 = match last_value(pairs, text("frequency")) {
        Some(v) => match parse_i32(v.as_slice()) {
            Ok(n) => n,
            Err(e) => {
                return Err(make_response(BAD_REQUEST, e.text()));
            },
        },
        None => 99,
    };
    let protobuf = match content_type {
        Some(v) => bytes_eq(v, text("application/protobuf")),
        None => false,
    };
    Ok(CpuProfilePlan { seconds, frequency, protobuf })
}

/// What a request for a CPU profile asks for. `query` is the query of the
/// request, empty without one; `content_type` its `Content-Type` header.
pub fn plan_cpu_profile(query: &[u8], content_type: Option<&[u8]>) -> (r: Result<
    CpuProfilePlan,
    Response,
>)
    ensures
        plan_view(r) == cpu_plan_of(form_urlencoded_pairs(query@), header_view(content_type)),
{
    let pairs = parse_query(query);
    cpu_plan_in(&pairs, content_type)
}

/// The answer with a CPU profile, or with the profiler's failure.
pub open spec fn cpu_profile_answer(protobuf: bool, result: Result<Seq<u8>, Seq<u8>>) -> ResponseView {
    match result {
        Ok(body) => ResponseView {
            status: OK,
            content_type: if protobuf { ContentType::OctetStream } else { ContentType::Svg },
            attachment: Attachment::CpuProfile,
            gzip: false,
            nosniff: false,
            content_length: true,
            body,
        },
        Err(e) => plain(INTERNAL_SERVER_ERROR, e),
    }
}

/// The answer with a heap profile, or with the profiler's failure.
pub open spec fn heap_profile_answer(jeprof: bool, result: Result<Seq<u8>, Seq<u8>>) -> ResponseView {
    match result {
        Ok(body) => ResponseView {
            status: OK,
            content_type: if jeprof { ContentType::Svg } else { ContentType::OctetStream },
            attachment: Attachment::Profile,
            gzip: false,
            nosniff: true,
            content_length: true,
            body,
        },
        Err(e) => plain(INTERNAL_SERVER_ERROR, e),
    }
}

/// The view of a profiler's result.
pub open spec fn result_view(r: Result<Vec<u8>, Vec<u8>>) -> Result<Seq<u8>, Seq<u8>> {
    match r {
        Ok(v) => Ok(v@),
        Err(e) => Err(e@),
    }
}

/// The answer to a request for a CPU profile, from what the profiler gave.
pub fn cpu_profile_response(protobuf: bool, result: Result<Vec<u8>, Vec<u8>>) -> (r: Response)
    ensures
        r@ == cpu_profile_answer(protobuf, result_view(result)),
{
    match result {
        Ok(body) => Response {
            status: OK,
            content_type: if protobuf { ContentType::OctetStream } else { ContentType::Svg },
            attachment: Attachment::CpuProfile,
            gzip: false,
            nosniff: false,
            content_length: true,
            body,
        },
        Err(e) => make_response(INTERNAL_SERVER_ERROR, e),
    }
}

/// Whether the heap profile is wanted as a drawing made by `jeprof`: the
/// parameter `jeprof` says `true`.
pub open spec fn jeprof_of(pairs: Seq<(Seq<u8>, Seq<u8>)>) -> bool {
    value_of(pairs, ascii("jeprof"@)) == Some(ascii("true"@))
}

/// Whether a request with these parameters wants a drawing made by `jeprof`.
pub fn jeprof_in(pairs: &Vec<Pair>) -> (r: bool)
    ensures
        r == jeprof_of(views(pairs@)),
{
    proof {
        reveal_strlit("jeprof");
        reveal_strlit("true");
    }
    match last_value(pairs, text("jeprof")) {
        Some(v) => bytes_eq(v.as_slice(), text("true")),
        None => false,
    }
}

/// Whether a request for a heap profile wants a drawing made by `jeprof`.
/// `query` is the query of the request, empty without one.
pub fn uses_jeprof(query: &[u8]) -> (r: bool)
    ensures
        r == jeprof_of(form_urlencoded_pairs(query@)),
{
    let pairs = parse_query(query);
    jeprof_in(&pairs)
}

/// The answer to a request for a heap profile, from what the profiler gave.
pub fn dump_heap_prof_to_resp(jeprof: bool, result: Result<Vec<u8>, Vec<u8>>) -> (r: Response)
    ensures
        r@ == heap_profile_answer(jeprof, result_view(result)),
{
    match result {
        Ok(body) => Response {
            status: OK,
            content_type: if jeprof { ContentType::Svg } else { ContentType::OctetStream },
            attachment: Attachment::Profile,
            gzip: false,
            nosniff: true,
            content_length: true,
            body,
        },
        Err(e) => make_response(INTERNAL_SERVER_ERROR, e),
    }
}

} // verus!
