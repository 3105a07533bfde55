//! The answer with the node's metrics, compressed where the client takes it.

use vstd::prelude::*;
use crate::status::response::{Attachment, ContentType, OK, Response, ResponseView};
use crate::status::text::{ascii, has_prefix, item_end, lemma_item_end, piece, starts_with, text};
use crate::bytes::bytes_eq;

verus! {

/// Whether the byte may stand in the text of a header: a visible ASCII
/// character, a space or a tab.
pub open spec fn is_header_byte(b: u8) -> bool {
    b == 9 || (32 <= b && b < 127)
}

/// Whether the bytes are the text of a header.
pub open spec fn is_header_text(h: Seq<u8>) -> bool {
    forall|i: int| 0 <= i < h.len() ==> is_header_byte(#[trigger] h[i])
}

/// Whether the byte is blank: a space or a tab.
pub open spec fn is_blank(b: u8) -> bool {
    b == 32 || b == 9
}

/// The place after the blanks that begin at `from` and end before `to`.
pub open spec fn skip_blanks(h: Seq<u8>, from: int, to: int) -> int
    decreases to - from,
{
    if from < to && 0 <= from < h.len() && is_blank(h[from]) {
        skip_blanks(h, from + 1, to)
    } else {
        from
    }
}

/// The place before the blanks that end at `to` and begin after `from`.
pub open spec fn drop_blanks(h: Seq<u8>, from: int, to: int) -> int
    decreases to - from,
{
    if from < to && 0 < to <= h.len() && is_blank(h[to - 1]) {
        drop_blanks(h, from, to - 1)
    } else {
        to
    }
}

/// The item between `from` and `to` without the blanks around it.
pub open spec fn trimmed(h: Seq<u8>, from: int, to: int) -> Seq<u8> {
    let start = skip_blanks(h, from, to);
    let end = drop_blanks(h, start, to);
    h.subrange(start, end)
}

/// Whether an encoding names gzip: `gzip` alone or with parameters.
pub open spec fn names_gzip(item: Seq<u8>) -> bool {
    item == ascii("gzip"@) || has_prefix(item, ascii("gzip;"@))
}

/// Whether an item of the list that begins at `from` names gzip.
pub open spec fn any_item_names_gzip(h: Seq<u8>, from: int) -> bool
    decreases h.len() - from,
{
    if from > h.len() || from < 0 {
        false
    } else {
        let end = item_end(h, from, 44);
        names_gzip(trimmed(h, from, end)) || (from <= end < h.len() && any_item_names_gzip(
            h,
            end + 1,
        ))
    }
}

/// Whether a client that sent this `Accept-Encoding` header takes gzip: the
/// header is text and one item of its list names gzip.
pub open spec fn accepts_gzip(header: Option<Seq<u8>>) -> bool {
    match header {
        Some(h) => is_header_text(h) && any_item_names_gzip(h, 0),
        None => false,
    }
}

/// Whether the bytes are the text of a header.
fn header_text(h: &[u8]) -> (r: bool)
    ensures
        r == is_header_text(h@),
{
    let mut i: usize = 0;
    while i < h.len()
        invariant
            i <= h.len(),
            forall|j: int| 0 <= j < i ==> is_header_byte(#[trigger] h@[j]),
        decreases h.len() - i,
    {
        let b = h[i];
        if !(b == 9 || (32 <= b && b < 127)) {
            return false;
        }
        i = i + 1;
    }
    true
}

/// Whether a client that sent this `Accept-Encoding` header takes gzip.
pub fn client_accept_gzip(header: Option<&[u8]>) -> (r: bool)
    ensures
        r == accepts_gzip(crate::status::profile::header_view(header)),
{
    let h = match header {
        Some(h) => h,
        None => {
            return false;
        },
    };
    if !header_text(h) {
        return false;
    }
    let mut from: usize = 0;
    loop
        invariant
            from <= h.len(),
            is_header_text(h@),
            crate::status::profile::header_view(header) == Some(h@),
            any_item_names_gzip(h@, 0) == any_item_names_gzip(h@, from as int),
        decreases h.len() - from,
    {
        let mut end: usize = from;
        while end < h.len() && h[end] != 44
            invariant
                from <= end <= h.len(),
                item_end(h@, from as int, 44) == item_end(h@, end as int, 44),
            decreases h.len() - end,
        {
            end = end + 1;
        }
        let mut start: usize = from;
        while start < end && (h[start] == 32 || h[start] == 9)
            invariant
                from <= start <= end,
                end <= h.len(),
                skip_blanks(h@, from as int, end as int) == skip_blanks(h@, start as int, end as int),
            decreases end - start,
        {
            start = start + 1;
        }
        let mut stop: usize = end;
        while start < stop && (h[stop - 1] == 32 || h[stop - 1] == 9)
            invariant
                start <= stop <= end,
                end <= h.len(),
                drop_blanks(h@, start as int, end as int) == drop_blanks(h@, start as int, stop as int),
            decreases stop - start,
        {
            stop = stop - 1;
        }
        let item = piece(h, start, stop);
        proof {
            reveal_strlit("gzip");
            reveal_strlit("gzip;");
            lemma_item_end(h@, from as int, 44);
            assert(end as int == item_end(h@, from as int, 44));
            assert(start as int == skip_blanks(h@, from as int, end as int));
            assert(stop as int == drop_blanks(h@, start as int, end as int));
            assert(item@ == trimmed(h@, from as int, end as int));
        }
        if bytes_eq(item.as_slice(), text("gzip")) || starts_with(item.as_slice(), text("gzip;")) {
            return true;
        }
        if end >= h.len() {
            return false;
        }
        from = end + 1;
    }
}

/// What `flate2` makes of a text when it compresses it as gzip at its
/// default level, with the header it writes by default.
pub uninterp spec fn gzip_of(data: Seq<u8>) -> Seq<u8>;

/// Compresses a text as gzip. The calls are `flate2::write::GzEncoder::new`
/// with `Compression::default()`, `write_all` and `finish`; writing to a
/// vector does not fail, and the result is a function of the text alone.
#[verifier::external_body]
pub(crate) fn gzip(data: &[u8]) -> (r: Vec<u8>)
    ensures
        r@ == gzip_of(data@),
{
    let mut encoder = flate2::write::GzEncoder::new(Vec::new(), flate2::Compression::default());
    let _ = std::io::Write::write_all(&mut encoder, data);
    encoder.finish().unwrap_or_default()
}

/// The answer with the metrics, where `body` is what is sent.
pub open spec fn metrics_answer(gzip: bool, body: Seq<u8>) -> ResponseView {
    ResponseView {
        status: OK,
        content_type: ContentType::Metrics,
        attachment: Attachment::Inline,
        gzip,
        nosniff: false,
        content_length: false,
        body,
    }
}

/// The answer with the metrics, compressed or not.
pub fn metrics_response(compress: bool, metrics: Vec<u8>) -> (r: Response)
    ensures
        r@ == metrics_answer(compress, if compress { gzip_of(metrics@) } else { metrics@ }),
{
    let body = if compress { gzip(metrics.as_slice()) } else { metrics };
    Response {
        status: OK,
        content_type: ContentType::Metrics,
        attachment: Attachment::Inline,
        gzip: compress,
        nosniff: false,
        content_length: false,
        body,
    }
}

/// The answer with the metrics in their text format. They are compressed
/// as gzip, which makes them a tenth as long, where the client's
/// `Accept-Encoding` header takes gzip.
pub fn metrics_to_resp(accept_encoding: Option<&[u8]>, metrics: Vec<u8>) -> (r: Response)
    ensures
        r@ == metrics_answer(
            accepts_gzip(crate::status::profile::header_view(accept_encoding)),
            if accepts_gzip(crate::status::profile::header_view(accept_encoding)) {
                gzip_of(metrics@)
            } else {
                metrics@
            },
        ),
{
    let compress = client_accept_gzip(accept_encoding);
    metrics_response(compress, metrics)
}

} // verus!
