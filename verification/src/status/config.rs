//! Requests that read or change the configuration.

use vstd::prelude::*;
use crate::bytes::copy_bytes;
use crate::event::{lemma_views_push, views};
use crate::status::query::{Pair, flag_of, flag_view, form_urlencoded_pairs, wants_persist};
use crate::status::region::json_response;
use crate::status::response::{
    Attachment, BAD_REQUEST, ContentType, INTERNAL_SERVER_ERROR, OK, Response, ResponseView,
    make_response, plain, text_response,
};
use crate::status::text::{append, ascii, text};

verus! {

/// The value of a member of a JSON object, as far as a change of the
/// configuration looks at it.
#[derive(Debug)]
pub enum JsonField {
    Bool(bool),
    /// A number, as JSON text.
    Number(Vec<u8>),
    Text(Vec<u8>),
    Array,
    /// Null or an object.
    Other,
}

/// A member of a JSON object.
#[derive(Debug)]
pub struct JsonEntry {
    pub name: Vec<u8>,
    pub field: JsonField,
}

/// A JSON text, as far as a change of the configuration looks at it.
#[derive(Debug)]
pub enum JsonDocument {
    /// No JSON; the field is the parser's error, as it shows in debug output.
    Invalid(Vec<u8>),
    /// An object, with its members in the order in which the parser keeps them.
    Object(Vec<JsonEntry>),
    /// Any other JSON value.
    Other,
}

/// The mathematical value of a `JsonField`.
pub enum JsonFieldView {
    Bool(bool),
    Number(Seq<u8>),
    Text(Seq<u8>),
    Array,
    Other,
}

/// The mathematical value of a `JsonEntry`.
pub struct JsonEntryView {
    pub name: Seq<u8>,
    pub field: JsonFieldView,
}

/// The mathematical value of a `JsonDocument`.
pub enum JsonDocumentView {
    Invalid(Seq<u8>),
    Object(Seq<JsonEntryView>),
    Other,
}

impl View for JsonField {
    type V = JsonFieldView;

    open spec fn view(&self) -> JsonFieldView {
        match self {
            JsonField::Bool(b) => JsonFieldView::Bool(*b),
            JsonField::Number(n) => JsonFieldView::Number(n@),
            JsonField::Text(t) => JsonFieldView::Text(t@),
            JsonField::Array => JsonFieldView::Array,
            JsonField::Other => JsonFieldView::Other,
        }
    }
}

impl View for JsonEntry {
    type V = JsonEntryView;

    open spec fn view(&self) -> JsonEntryView {
        JsonEntryView { name: self.name@, field: self.field@ }
    }
}

impl View for JsonDocument {
    type V = JsonDocumentView;

    open spec fn view(&self) -> JsonDocumentView {
        match self {
            JsonDocument::Invalid(e) => JsonDocumentView::Invalid(e@),
            JsonDocument::Object(entries) => JsonDocumentView::Object(views(entries@)),
            JsonDocument::Other => JsonDocumentView::Other,
        }
    }
}

/// What `serde_json::from_slice` reads from a text as a JSON value.
pub uninterp spec fn json_document(data: Seq<u8>) -> JsonDocumentView;

/// Reads a JSON text. The call is `serde_json::from_slice`, for a value of
/// any shape; what it returns is a function of the text alone. The body
/// only tells the variants of the value apart.
#[verifier::external_body]
pub(crate) fn parse_json(data: &[u8]) -> (doc: JsonDocument)
    ensures
        doc@ == json_document(data@),
{
    match serde_json::from_slice::<serde_json::Value>(data) {
        Ok(serde_json::Value::Object(map)) => JsonDocument::Object(map.into_iter().map(|(k, v)| JsonEntry {
            name: k.into_bytes(),
            field: match v {
                serde_json::Value::Bool(b) => JsonField::Bool(b),
                serde_json::Value::Number(n) => JsonField::Number(format!("{}", n).into_bytes()),
                serde_json::Value::String(s) => JsonField::Text(s.into_bytes()),
                serde_json::Value::Array(_) => JsonField::Array,
                _ => JsonField::Other,
            },
        }).collect()),
        Ok(_) => JsonDocument::Other,
        Err(e) => JsonDocument::Invalid(format!("{:?}", e).into_bytes()),
    }
}

/// Why a text is no change of the configuration.
#[derive(Debug)]
pub enum DecodeError {
    /// The text is no JSON; the field is the parser's error.
    Invalid(Vec<u8>),
    /// A member is an array.
    ArrayNotSupported,
    /// The text is no object, or a member is null or an object.
    WrongFormat,
}

/// The mathematical value of a `DecodeError`.
pub enum DecodeErrorView {
    Invalid(Seq<u8>),
    ArrayNotSupported,
    WrongFormat,
}

impl View for DecodeError {
    type V = DecodeErrorView;

    open spec fn view(&self) -> DecodeErrorView {
        match self {
            DecodeError::Invalid(e) => DecodeErrorView::Invalid(e@),
            DecodeError::ArrayNotSupported => DecodeErrorView::ArrayNotSupported,
            DecodeError::WrongFormat => DecodeErrorView::WrongFormat,
        }
    }
}

impl DecodeErrorView {
    /// The error as it shows in debug output.
    pub open spec fn debug_text(self) -> Seq<u8> {
        match self {
            DecodeErrorView::Invalid(e) => e,
            DecodeErrorView::ArrayNotSupported => ascii("\"array type are not supported\""@),
            DecodeErrorView::WrongFormat => ascii("\"wrong format\""@),
        }
    }
}

/// The text that a member's value is set to: a truth value or a number as
/// it is written, a string as it is. Arrays, objects and null are refused.
pub open spec fn field_text(f: JsonFieldView) -> Result<Seq<u8>, DecodeErrorView> {
    match f {
        JsonFieldView::Bool(b) => Ok(if b { ascii("true"@) } else { ascii("false"@) }),
        JsonFieldView::Number(n) => Ok(n),
        JsonFieldView::Text(t) => Ok(t),
        JsonFieldView::Array => Err(DecodeErrorView::ArrayNotSupported),
        JsonFieldView::Other => Err(DecodeErrorView::WrongFormat),
    }
}

/// The items that the members of an object set, in their order, or the
/// refusal of the first member that cannot be set.
pub open spec fn entries_decoded(entries: Seq<JsonEntryView>) -> Result<
    Seq<(Seq<u8>, Seq<u8>)>,
    DecodeErrorView,
>
    decreases entries.len(),
{
    if entries.len() == 0 {
        Ok(Seq::empty())
    } else {
        match entries_decoded(entries.drop_last()) {
            Err(e) => Err(e),
            Ok(items) => match field_text(entries.last().field) {
                Err(e) => Err(e),
                Ok(t) => Ok(items.push((entries.last().name, t))),
            },
        }
    }
}

/// The change of the configuration that a JSON text stands for: the
/// members of an object, each with its value as text.
pub open spec fn decoded(doc: JsonDocumentView) -> Result<Seq<(Seq<u8>, Seq<u8>)>, DecodeErrorView> {
    match doc {
        JsonDocumentView::Invalid(e) => Err(DecodeErrorView::Invalid(e)),
        JsonDocumentView::Object(entries) => entries_decoded(entries),
        JsonDocumentView::Other => Err(DecodeErrorView::WrongFormat),
    }
}

/// The view of a change or its refusal.
pub open spec fn change_view(r: Result<Vec<Pair>, DecodeError>) -> Result<
    Seq<(Seq<u8>, Seq<u8>)>,
    DecodeErrorView,
> {
    match r {
        Ok(items) => Ok(views(items@)),
        Err(e) => Err(e@),
    }
}

/// The change of the configuration that a JSON document stands for.
pub fn decode_document(doc: &JsonDocument) -> (r: Result<Vec<Pair>, DecodeError>)
    ensures
        change_view(r) == decoded(doc@),
{
    match doc {
        JsonDocument::Invalid(e) => Err(DecodeError::Invalid(copy_bytes(e.as_slice()))),
        JsonDocument::Other => Err(DecodeError::WrongFormat),
        JsonDocument::Object(entries) => {
            let ghost all = views(entries@);
            let mut items: Vec<Pair> = Vec::new();
            let mut i: usize = 0;
            proof {
                assert(all.take(0) =~= Seq::empty());
                assert(views(items@) =~= Seq::empty());
            }
            while i < entries.len()
                invariant
                    i <= entries.len(),
                    all == views(entries@),
                    decoded(doc@) == entries_decoded(all),
                    entries_decoded(all.take(i as int)) == Ok::<
                        Seq<(Seq<u8>, Seq<u8>)>,
                        DecodeErrorView,
                    >(views(items@)),
                decreases entries.len() - i,
            {
                proof {
                    reveal_strlit("true");
                    reveal_strlit("false");
                    assert(all.take(i + 1).drop_last() =~= all.take(i as int));
                    assert(all.take(i + 1).last() == all[i as int]);
                }
                let value = match &entries[i].field {
                    JsonField::Bool(b) => copy_bytes(if *b { text("true") } else { text("false") }),
                    JsonField::Number(n) => copy_bytes(n.as_slice()),
                    JsonField::Text(t) => copy_bytes(t.as_slice()),
                    JsonField::Array => {
                        proof {
                            lemma_first_refusal(all, i + 1);
                        }
                        return Err(DecodeError::ArrayNotSupported);
                    },
                    JsonField::Other => {
                        proof {
                            lemma_first_refusal(all, i + 1);
                        }
                        return Err(DecodeError::WrongFormat);
                    },
                };
                let item = Pair { name: copy_bytes(entries[i].name.as_slice()), value };
                proof {
                    lemma_views_push(items@, item);
                }
                items.push(item);
                i = i + 1;
            }
            proof {
                assert(all.take(all.len() as int) =~= all);
            }
            Ok(items)
        },
    }
}

/// A refusal among the first `k` members is the refusal of the whole object.
proof fn lemma_first_refusal(entries: Seq<JsonEntryView>, k: int)
    requires
        0 <= k <= entries.len(),
        entries_decoded(entries.take(k)) is Err,
    ensures
        entries_decoded(entries) == entries_decoded(entries.take(k)),
    decreases entries.len(),
{
    if k < entries.len() {
        assert(entries.drop_last().take(k) =~= entries.take(k));
        lemma_first_refusal(entries.drop_last(), k);
    } else {
        assert(entries.take(k) =~= entries);
    }
}

/// The change of the configuration that a JSON text stands for.
pub fn decode_json(data: &[u8]) -> (r: Result<Vec<Pair>, DecodeError>)
    ensures
        change_view(r) == decoded(json_document(data@)),
{
    let doc = parse_json(data);
    decode_document(&doc)
}

/// The answer to a change that cannot be read.
pub open spec fn not_decoded(e: DecodeErrorView) -> ResponseView {
    plain(INTERNAL_SERVER_ERROR, ascii("failed to decode, error: "@) + e.debug_text())
}

/// The answer to a change that cannot be read.
pub fn decode_error_response(e: &DecodeError) -> (r: Response)
    ensures
        r@ == not_decoded(e@),
{
    proof {
        reveal_strlit("failed to decode, error: ");
        reveal_strlit("\"array type are not supported\"");
        reveal_strlit("\"wrong format\"");
    }
    let mut body = copy_bytes(text("failed to decode, error: "));
    match e {
        DecodeError::Invalid(msg) => append(&mut body, msg.as_slice()),
        DecodeError::ArrayNotSupported => append(&mut body, text("\"array type are not supported\"")),
        DecodeError::WrongFormat => append(&mut body, text("\"wrong format\"")),
    }
    make_response(INTERNAL_SERVER_ERROR, body)
}

/// A change of the configuration that a request asks for.
#[derive(Debug)]
pub struct ConfigChange {
    /// Whether the change is to be written to the configuration file.
    pub persist: bool,
    /// The items to set, as names and values.
    pub change: Vec<Pair>,
}

/// The mathematical value of a `ConfigChange`.
pub struct ConfigChangeView {
    pub persist: bool,
    pub change: Seq<(Seq<u8>, Seq<u8>)>,
}

/// The view of a change of the configuration or its refusal.
pub open spec fn update_view(r: Result<ConfigChange, Response>) -> Result<ConfigChangeView, ResponseView> {
    match r {
        Ok(c) => Ok(ConfigChangeView { persist: c.persist, change: views(c.change@) }),
        Err(e) => Err(e@),
    }
}

/// What a request to change the configuration asks for, from the switch
/// `persist` of its query and the JSON text in its body. A switch that is no
/// truth value is refused before the body is looked at.
pub open spec fn update_of(persist: Result<bool, ResponseView>, doc: JsonDocumentView) -> Result<
    ConfigChangeView,
    ResponseView,
> {
    match persist {
        Err(e) => Err(e),
        Ok(persist) => match decoded(doc) {
            Ok(change) => Ok(ConfigChangeView { persist, change }),
            Err(e) => Err(not_decoded(e)),
        },
    }
}

/// What a request to change the configuration asks for, from its switch and
/// the JSON document in its body.
pub fn update_for(persist: Result<bool, Response>, doc: &JsonDocument) -> (r: Result<
    ConfigChange,
    Response,
>)
    ensures
        update_view(r) == update_of(flag_view(persist), doc@),
{
    match persist {
        Err(e) => Err(e),
        Ok(persist) => match decode_document(doc) {
            Ok(change) => Ok(ConfigChange { persist, change }),
            Err(e) => Err(decode_error_response(&e)),
        },
    }
}

/// What a request to change the configuration asks for. `query` is the
/// query of the request, if it has one, `body` its body.
pub fn update_config(query: Option<&[u8]>, body: &[u8]) -> (r: Result<ConfigChange, Response>)
    ensures
        update_view(r) == update_of(
            match query {
                Some(q) => flag_of(form_urlencoded_pairs(q@), ascii("persist"@), true),
                None => Ok(true),
            },
            json_document(body@),
        ),
{
    let persist = wants_persist(query);
    match persist {
        Err(e) => Err(e),
        Ok(p) => {
            let doc = parse_json(body);
            update_for(Ok(p), &doc)
        },
    }
}

/// How a change of the configuration went.
#[derive(Debug)]
pub enum UpdateOutcome {
    Done,
    /// The change is in force but could not be written to the file.
    NotPersisted(Vec<u8>),
    Failed(Vec<u8>),
}

/// The mathematical value of an `UpdateOutcome`.
pub enum UpdateOutcomeView {
    Done,
    NotPersisted(Seq<u8>),
    Failed(Seq<u8>),
}

impl View for UpdateOutcome {
    type V = UpdateOutcomeView;

    open spec fn view(&self) -> UpdateOutcomeView {
        match self {
            UpdateOutcome::Done => UpdateOutcomeView::Done,
            UpdateOutcome::NotPersisted(e) => UpdateOutcomeView::NotPersisted(e@),
            UpdateOutcome::Failed(e) => UpdateOutcomeView::Failed(e@),
        }
    }
}

/// The answer to a change of the configuration, from how it went.
pub open spec fn update_answer(outcome: UpdateOutcomeView) -> ResponseView {
    match outcome {
        UpdateOutcomeView::Done => plain(OK, Seq::empty()),
        UpdateOutcomeView::NotPersisted(e) => plain(
            INTERNAL_SERVER_ERROR,
            ascii("config changed, but failed to persist change due to err: "@) + e,
        ),
        UpdateOutcomeView::Failed(e) => plain(
            INTERNAL_SERVER_ERROR,
            ascii("failed to update, error: "@) + e,
        ),
    }
}

/// The answer to a change of the configuration, from how it went.
pub fn update_config_response(outcome: UpdateOutcome) -> (r: Response)
    ensures
        r@ == update_answer(outcome@),
{
    proof {
        reveal_strlit("config changed, but failed to persist change due to err: ");
        reveal_strlit("failed to update, error: ");
    }
    match outcome {
        UpdateOutcome::Done => make_response(OK, Vec::new()),
        UpdateOutcome::NotPersisted(e) => {
            let mut body = copy_bytes(
                text("config changed, but failed to persist change due to err: "),
            );
            append(&mut body, e.as_slice());
            make_response(INTERNAL_SERVER_ERROR, body)
        },
        UpdateOutcome::Failed(e) => {
            let mut body = copy_bytes(text("failed to update, error: "));
            append(&mut body, e.as_slice());
            make_response(INTERNAL_SERVER_ERROR, body)
        },
    }
}

/// The answer to a reload of the configuration from its file: empty where
/// it went well, else the failure.
pub fn update_config_from_toml_file(result: Result<(), Vec<u8>>) -> (r: Response)
    ensures
        r@ == match result {
            Ok(_) => plain(OK, Seq::empty()),
            Err(e) => plain(INTERNAL_SERVER_ERROR, ascii("failed to update, error: "@) + e@),
        },
{
    match result {
        Ok(_) => update_config_response(UpdateOutcome::Done),
        Err(e) => update_config_response(UpdateOutcome::Failed(e)),
    }
}

/// The answer with the configuration as JSON, or the failure to write it.
pub fn get_config(encoded: Option<Vec<u8>>) -> (r: Response)
    ensures
        r@ == match encoded {
            Some(json) => ResponseView {
                status: OK,
                content_type: ContentType::Json,
                attachment: Attachment::Inline,
                gzip: false,
                nosniff: false,
                content_length: false,
                body: json@,
            },
            None => plain(INTERNAL_SERVER_ERROR, ascii("Internal Server Error"@)),
        },
{
    proof {
        reveal_strlit("Internal Server Error");
    }
    match encoded {
        Some(json) => json_response(json),
        None => text_response(INTERNAL_SERVER_ERROR, "Internal Server Error"),
    }
}

/// The answer to a change of the log level: empty where the request could
/// be read, else the reader's error.
pub fn change_log_level(read: Result<(), Vec<u8>>) -> (r: Response)
    ensures
        r@ == match read {
            Ok(_) => plain(OK, Seq::empty()),
            Err(e) => plain(BAD_REQUEST, e@),
        },
{
    match read {
        Ok(_) => make_response(OK, Vec::new()),
        Err(e) => make_response(BAD_REQUEST, e),
    }
}

} // verus!
