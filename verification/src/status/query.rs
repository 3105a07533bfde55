//! The parameters in the query of a request.

use vstd::prelude::*;
use crate::bytes::{bytes_eq, copy_bytes};
use crate::event::views;
use crate::status::response::{BAD_REQUEST, Response, ResponseView, plain, text_response};
use crate::status::text::{ascii, text};

verus! {

/// A parameter of a query.
#[derive(Debug)]
pub struct Pair {
    pub name: Vec<u8>,
    pub value: Vec<u8>,
}

impl View for Pair {
    type V = (Seq<u8>, Seq<u8>);

    open spec fn view(&self) -> (Seq<u8>, Seq<u8>) {
        (self.name@, self.value@)
    }
}

/// The parameters that `url::form_urlencoded::parse` reads from a query, as
/// names and values in the order of the query.
pub uninterp spec fn form_urlencoded_pairs(query: Seq<u8>) -> Seq<(Seq<u8>, Seq<u8>)>;

/// The parameters of a query. The call is `url::form_urlencoded::parse`,
/// which splits the query at `&` and `=` and decodes `+` and `%` escapes;
/// what it returns is a function of the query alone.
#[verifier::external_body]
pub(crate) fn parse_query(query: &[u8]) -> (pairs: Vec<Pair>)
    ensures
        views(pairs@) == form_urlencoded_pairs(query@),
{
    url::form_urlencoded::parse(query)
        .map(|(n, v)| Pair { name: n.into_owned().into_bytes(), value: v.into_owned().into_bytes() })
        .collect()
}

/// The value of the parameter `name`: that of its last occurrence.
pub open spec fn value_of(pairs: Seq<(Seq<u8>, Seq<u8>)>, name: Seq<u8>) -> Option<Seq<u8>>
    decreases pairs.len(),
{
    if pairs.len() == 0 {
        None
    } else if pairs.last().0 == name {
        Some(pairs.last().1)
    } else {
        value_of(pairs.drop_last(), name)
    }
}

/// What `value_of` is when `at` is the last place of `name`, or none is.
proof fn lemma_value_of(pairs: Seq<(Seq<u8>, Seq<u8>)>, name: Seq<u8>, at: int)
    requires
        -1 <= at < pairs.len(),
        at >= 0 ==> pairs[at].0 == name,
        forall|j: int| at < j < pairs.len() ==> pairs[j].0 != name,
    ensures
        value_of(pairs, name) == if at >= 0 { Some(pairs[at].1) } else { None },
    decreases pairs.len(),
{
    if pairs.len() > 0 && at < pairs.len() - 1 {
        lemma_value_of(pairs.drop_last(), name, at);
    }
}

/// The value of the parameter `name` among `pairs`.
pub fn last_value(pairs: &Vec<Pair>, name: &[u8]) -> (r: Option<Vec<u8>>)
    ensures
        crate::bytes::opt_view(r) == value_of(views(pairs@), name@),
{
    let mut i: usize = pairs.len();
    while i > 0
        invariant
            i <= pairs.len(),
            forall|j: int| i <= j < pairs.len() ==> views(pairs@)[j].0 != name@,
        decreases i,
    {
        i = i - 1;
        if bytes_eq(pairs[i].name.as_slice(), name) {
            proof {
                lemma_value_of(views(pairs@), name@, i as int);
            }
            return Some(copy_bytes(pairs[i].value.as_slice()));
        }
    }
    proof {
        lemma_value_of(views(pairs@), name@, -1);
    }
    None
}

/// The truth value that a text stands for: `true` or `false`, and no other.
pub open spec fn bool_of(s: Seq<u8>) -> Option<bool> {
    if s == ascii("true"@) {
        Some(true)
    } else if s == ascii("false"@) {
        Some(false)
    } else {
        None
    }
}

/// The truth value that a text stands for.
pub fn parse_bool(s: &[u8]) -> (r: Option<bool>)
    ensures
        r == bool_of(s@),
{
    proof {
        reveal_strlit("true");
        reveal_strlit("false");
    }
    if bytes_eq(s, text("true")) {
        Some(true)
    } else if bytes_eq(s, text("false")) {
        Some(false)
    } else {
        None
    }
}

/// The answer to a parameter that is no truth value.
pub open spec fn not_a_bool() -> ResponseView {
    plain(BAD_REQUEST, ascii("provided string was not `true` or `false`"@))
}

/// A switch among the parameters: its value where the parameter is given
/// and is a truth value, `default` where it is not given, and the refusal
/// where it is given and is none.
pub open spec fn flag_of(pairs: Seq<(Seq<u8>, Seq<u8>)>, name: Seq<u8>, default: bool) -> Result<
    bool,
    ResponseView,
> {
    match value_of(pairs, name) {
        Some(v) => match bool_of(v) {
            Some(b) => Ok(b),
            None => Err(not_a_bool()),
        },
        None => Ok(default),
    }
}

/// The view of a switch or its refusal.
pub open spec fn flag_view(r: Result<bool, Response>) -> Result<bool, ResponseView> {
    match r {
        Ok(b) => Ok(b),
        Err(e) => Err(e@),
    }
}

/// A switch among the parameters.
pub fn flag_in(pairs: &Vec<Pair>, name: &[u8], default: bool) -> (r: Result<bool, Response>)
    ensures
        flag_view(r) == flag_of(views(pairs@), name@, default),
{
    proof {
        reveal_strlit("provided string was not `true` or `false`");
    }
    match last_value(pairs, name) {
        Some(v) => match parse_bool(v.as_slice()) {
            Some(b) => Ok(b),
            None => Err(text_response(BAD_REQUEST, "provided string was not `true` or `false`")),
        },
        None => Ok(default),
    }
}

/// A switch in the query of a request: `default` without a query.
pub fn flag(query: Option<&[u8]>, name: &[u8], default: bool) -> (r: Result<bool, Response>)
    ensures
        flag_view(r) == match query {
            Some(q) => flag_of(form_urlencoded_pairs(q@), name@, default),
            None => Ok(default),
        },
{
    match query {
        Some(q) => {
            let pairs = parse_query(q);
            flag_in(&pairs, name, default)
        },
        None => Ok(default),
    }
}

/// Whether the whole configuration is asked for, hidden items included:
/// the switch `full` of the query, off by default.
pub fn wants_full_config(query: Option<&[u8]>) -> (r: Result<bool, Response>)
    ensures
        flag_view(r) == match query {
            Some(q) => flag_of(form_urlencoded_pairs(q@), ascii("full"@), false),
            None => Ok(false),
        },
{
    proof {
        reveal_strlit("full");
    }
    flag(query, text("full"), false)
}

/// Whether a change of the configuration is to be written to the
/// configuration file: the switch `persist` of the query, on by default.
pub fn wants_persist(query: Option<&[u8]>) -> (r: Result<bool, Response>)
    ensures
        flag_view(r) == match query {
            Some(q) => flag_of(form_urlencoded_pairs(q@), ascii("persist"@), true),
            None => Ok(true),
        },
{
    proof {
        reveal_strlit("persist");
    }
    flag(query, text("persist"), true)
}

} // verus!
