//! The answer to a status request, in plain values.

use vstd::prelude::*;

verus! {

/// What the `Content-Type` header says.
#[derive(Clone, Copy, Debug, PartialEq, Eq, Structural)]
pub enum ContentType {
    /// No `Content-Type` header.
    Unset,
    /// `application/json`.
    Json,
    /// `text/plain`.
    TextPlain,
    /// `application/octet-stream`.
    OctetStream,
    /// `image/svg+xml`.
    Svg,
    /// The text format of the metrics library.
    Metrics,
}

/// What the `Content-Disposition` header offers the body as.
#[derive(Clone, Copy, Debug, PartialEq, Eq, Structural)]
pub enum Attachment {
    /// No `Content-Disposition` header.
    Inline,
    /// An attachment named `profile`.
    Profile,
    /// An attachment named `cpu_profile`.
    CpuProfile,
}

/// The answer to a request.
#[derive(Debug)]
pub struct Response {
    /// The HTTP status code.
    pub status: u16,
    pub content_type: ContentType,
    pub attachment: Attachment,
    /// Whether `Content-Encoding: gzip` is set.
    pub gzip: bool,
    /// Whether `X-Content-Type-Options: nosniff` is set.
    pub nosniff: bool,
    /// Whether `Content-Length` is set, to the length of the body.
    pub content_length: bool,
    pub body: Vec<u8>,
}

/// The mathematical value of a `Response`.
pub struct ResponseView {
    pub status: u16,
    pub content_type: ContentType,
    pub attachment: Attachment,
    pub gzip: bool,
    pub nosniff: bool,
    pub content_length: bool,
    pub body: Seq<u8>,
}

impl View for Response {
    type V = ResponseView;

    open spec fn view(&self) -> ResponseView {
        ResponseView {
            status: self.status,
            content_type: self.content_type,
            attachment: self.attachment,
            gzip: self.gzip,
            nosniff: self.nosniff,
            content_length: self.content_length,
            body: self.body@,
        }
    }
}

/// 200 OK.
pub const OK: u16 = 200;

/// 400 Bad Request.
pub const BAD_REQUEST: u16 = 400;

/// 403 Forbidden.
pub const FORBIDDEN: u16 = 403;

/// 404 Not Found.
pub const NOT_FOUND: u16 = 404;

/// 405 Method Not Allowed.
pub const METHOD_NOT_ALLOWED: u16 = 405;

/// 410 Gone.
pub const GONE: u16 = 410;

/// 422 Unprocessable Entity.
pub const UNPROCESSABLE_ENTITY: u16 = 422;

/// 500 Internal Server Error.
pub const INTERNAL_SERVER_ERROR: u16 = 500;

/// An answer with a status and a body and no header.
pub open spec fn plain(status: u16, body: Seq<u8>) -> ResponseView {
    ResponseView {
        status,
        content_type: ContentType::Unset,
        attachment: Attachment::Inline,
        gzip: false,
        nosniff: false,
        content_length: false,
        body,
    }
}

/// An answer with a status and a message and no header.
pub fn make_response(status_code: u16, message: Vec<u8>) -> (r: Response)
    ensures
        r@ == plain(status_code, message@),
{
    Response {
        status: status_code,
        content_type: ContentType::Unset,
        attachment: Attachment::Inline,
        gzip: false,
        nosniff: false,
        content_length: false,
        body: message,
    }
}

/// An answer with a status and a text of ASCII characters.
pub fn text_response(status_code: u16, message: &str) -> (r: Response)
    requires
        message.is_ascii(),
    ensures
        r@ == plain(status_code, crate::status::text::ascii(message@)),
{
    make_response(status_code, crate::bytes::copy_bytes(crate::status::text::text(message)))
}

} // verus!
