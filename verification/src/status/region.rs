//! Requests for the metadata of a region.

use vstd::prelude::*;
use vstd::string::StringSliceAdditionalSpecFns;
use crate::bytes::copy_bytes;
use crate::status::number::{parse_u64, unsigned_of};
use crate::status::response::{
    Attachment, BAD_REQUEST, ContentType, INTERNAL_SERVER_ERROR, NOT_FOUND, OK, Response,
    ResponseView, make_response, plain,
};
use crate::status::text::{append, ascii, decimal, decimal_of, text};

verus! {

/// What `regex::Regex::captures` finds in `haystack` for the capture group
/// `group` of `pattern`: the text of the group in the leftmost match, if the
/// pattern is sound and matches.
pub uninterp spec fn regex_capture(pattern: Seq<char>, group: Seq<char>, haystack: Seq<char>) -> Option<
    Seq<u8>,
>;

/// The text that a named capture group of a pattern matches in a text. The
/// calls are `regex::Regex::new`, `Regex::captures` and `Captures::name`;
/// what they give is a function of the three texts alone.
#[verifier::external_body]
fn capture(pattern: &str, group: &str, haystack: &str) -> (r: Option<Vec<u8>>)
    ensures
        crate::bytes::opt_view(r) == regex_capture(pattern@, group@, haystack@),
{
    regex::Regex::new(pattern)
        .ok()
        .and_then(|re| re.captures(haystack).and_then(|c| c.name(group).map(|m| m.as_str().as_bytes().to_vec())))
}

/// What a request for the metadata of a region asks for.
#[derive(Debug)]
pub enum RegionPlan {
    /// Nothing is to be done but to answer.
    Respond(Response),
    /// The region with this id is to be looked up.
    Query(u64),
}

/// The mathematical value of a `RegionPlan`.
pub enum RegionPlanView {
    Respond(ResponseView),
    Query(u64),
}

impl View for RegionPlan {
    type V = RegionPlanView;

    open spec fn view(&self) -> RegionPlanView {
        match self {
            RegionPlan::Respond(r) => RegionPlanView::Respond(r@),
            RegionPlan::Query(id) => RegionPlanView::Query(*id),
        }
    }
}

/// What the replication layer said of a region.
#[derive(Debug)]
pub enum RegionQuery {
    /// The metadata as JSON, or the failure to write them as JSON.
    Found(Result<Vec<u8>, Vec<u8>>),
    /// This node has no such region.
    NotFound,
    /// The lookup failed, with this message.
    Failed(Vec<u8>),
}

/// The mathematical value of a `RegionQuery`.
pub enum RegionQueryView {
    Found(Result<Seq<u8>, Seq<u8>>),
    NotFound,
    Failed(Seq<u8>),
}

impl View for RegionQuery {
    type V = RegionQueryView;

    open spec fn view(&self) -> RegionQueryView {
        match self {
            RegionQuery::Found(r) => RegionQueryView::Found(crate::status::profile::result_view(*r)),
            RegionQuery::NotFound => RegionQueryView::NotFound,
            RegionQuery::Failed(e) => RegionQueryView::Failed(e@),
        }
    }
}

/// What a request asks for, where `id` is the text that stands for the
/// region's id in the path, if the path holds one: without it the path is
/// not found; an id that is no number of 64 bits is refused.
pub open spec fn region_plan_of(path: Seq<u8>, id: Option<Seq<u8>>) -> RegionPlanView {
    match id {
        None => RegionPlanView::Respond(
            plain(NOT_FOUND, ascii("path "@) + path + ascii(" not found"@)),
        ),
        Some(digits) => match unsigned_of(digits, false, u64::MAX as nat) {
            Ok(n) => RegionPlanView::Query(n as u64),
            Err(e) => RegionPlanView::Respond(
                plain(BAD_REQUEST, ascii("invalid region id: "@) + e.message()),
            ),
        },
    }
}

/// What a request asks for, from the id found in its path.
pub fn region_plan_for(path: &[u8], id: Option<Vec<u8>>) -> (plan: RegionPlan)
    ensures
        plan@ == region_plan_of(path@, crate::bytes::opt_view(id)),
{
    proof {
        reveal_strlit("path ");
        reveal_strlit(" not found");
        reveal_strlit("invalid region id: ");
    }
    match id {
        None => {
            let mut body = copy_bytes(text("path "));
            append(&mut body, path);
            append(&mut body, text(" not found"));
            RegionPlan::Respond(make_response(NOT_FOUND, body))
        },
        Some(digits) => match parse_u64(digits.as_slice()) {
            Ok(n) => RegionPlan::Query(n),
            Err(e) => {
                let mut body = copy_bytes(text("invalid region id: "));
                let reason = e.text();
                append(&mut body, reason.as_slice());
                RegionPlan::Respond(make_response(BAD_REQUEST, body))
            },
        },
    }
}

/// What a request for the metadata of a region asks for. The id is the run
/// of digits after the first `/region/` in the path that digits follow.
pub fn plan_region_meta(path: &str) -> (plan: RegionPlan)
    ensures
        plan@ == region_plan_of(
            path.spec_bytes(),
            regex_capture(r"/region/(?P<id>\d+)"@, "id"@, path@),
        ),
{
    let id = capture(r"/region/(?P<id>\d+)", "id", path);
    region_plan_for(path.as_bytes(), id)
}

/// The answer to a request for the metadata of region `id`, from what the
/// replication layer said.
pub open spec fn region_answer(id: u64, outcome: RegionQueryView) -> ResponseView {
    match outcome {
        RegionQueryView::Found(Ok(body)) => ResponseView {
            status: OK,
            content_type: ContentType::Json,
            attachment: Attachment::Inline,
            gzip: false,
            nosniff: false,
            content_length: false,
            body,
        },
        RegionQueryView::Found(Err(e)) => plain(INTERNAL_SERVER_ERROR, ascii("fails to json: "@) + e),
        RegionQueryView::NotFound => plain(
            NOT_FOUND,
            ascii("region("@) + decimal_of(id as nat) + ascii(") not found"@),
        ),
        RegionQueryView::Failed(e) => plain(INTERNAL_SERVER_ERROR, ascii("query failed: "@) + e),
    }
}

/// An answer with a body of JSON.
pub fn json_response(body: Vec<u8>) -> (r: Response)
    ensures
        r@ == (ResponseView {
            status: OK,
            content_type: ContentType::Json,
            attachment: Attachment::Inline,
            gzip: false,
            nosniff: false,
            content_length: false,
            body: body@,
        }),
{
    Response {
        status: OK,
        content_type: ContentType::Json,
        attachment: Attachment::Inline,
        gzip: false,
        nosniff: false,
        content_length: false,
        body,
    }
}

/// The answer to a request for the metadata of region `id`, from what the
/// replication layer said.
pub fn dump_region_meta(id: u64, outcome: RegionQuery) -> (r: Response)
    ensures
        r@ == region_answer(id, outcome@),
{
    proof {
        reveal_strlit("fails to json: ");
        reveal_strlit("region(");
        reveal_strlit(") not found");
        reveal_strlit("query failed: ");
    }
    match outcome {
        RegionQuery::Found(Ok(body)) => json_response(body),
        RegionQuery::Found(Err(e)) => {
            let mut body = copy_bytes(text("fails to json: "));
            append(&mut body, e.as_slice());
            make_response(INTERNAL_SERVER_ERROR, body)
        },
        RegionQuery::NotFound => {
            let mut body = copy_bytes(text("region("));
            let digits = decimal(id);
            append(&mut body, digits.as_slice());
            append(&mut body, text(") not found"));
            make_response(NOT_FOUND, body)
        },
        RegionQuery::Failed(e) => {
            let mut body = copy_bytes(text("query failed: "));
            append(&mut body, e.as_slice());
            make_response(INTERNAL_SERVER_ERROR, body)
        },
    }
}

} // verus!
