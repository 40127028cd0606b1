//! What every HTTP driver shares: where a request goes, which headers it
//! carries, how a failure is classified, and which payloads of a stream are
//! events.

use vstd::prelude::*;
use vstd::utf8::encode_utf8;

use crate::drivers::sse::{chunking_does_not_matter, complete_lines, lines_read, partial_line,
    payloads_in, payloads_of, SseDecoder, FEED};
use crate::json::{json_print, members_view, print_json, put, put_member, Json, JsonView};
use crate::members::{member_of_one, setting_a_member};
use crate::message::{ChatRequest, Error, LlmErrorKind};
use crate::text::{cat2, cat3, cat5, clone_pairs, same, text_pairs, texts};

verus! {

/// The class of an HTTP status that is no success.
pub open spec fn status_kind(status: int) -> LlmErrorKind {
    if status == 401 || status == 403 {
        LlmErrorKind::Authentication
    } else if status == 429 {
        LlmErrorKind::RateLimited
    } else if status == 503 {
        LlmErrorKind::Overloaded
    } else if 500 <= status <= 599 {
        LlmErrorKind::ServerError
    } else if 400 <= status <= 499 {
        LlmErrorKind::InvalidRequest
    } else {
        LlmErrorKind::Unknown
    }
}

/// A status that says the service is busy or broken is worth another try, and
/// no other is: too many requests, and everything from 500 to 599. A refused
/// credential is told apart from any other request that is wrong.
pub proof fn statuses_are_told_apart(status: int)
    ensures
        status_kind(status).retryable() <==> status == 429 || 500 <= status <= 599,
        status_kind(status) is RateLimited <==> status == 429,
        status_kind(status) is Overloaded <==> status == 503,
        status_kind(status) is Authentication <==> status == 401 || status == 403,
        status_kind(status) is InvalidRequest <==> 400 <= status <= 499 && status != 401 && status
            != 403 && status != 429,
        status_kind(status) is Unknown <==> status < 400 || status > 599,
{
}

/// The classification of a status that every provider starts from.
pub fn classify_status(status: u16) -> (r: LlmErrorKind)
    ensures
        r == status_kind(status as int),
{
    match status {
        401 | 403 => LlmErrorKind::Authentication,
        429 => LlmErrorKind::RateLimited,
        503 => LlmErrorKind::Overloaded,
        500..=599 => LlmErrorKind::ServerError,
        400..=499 => LlmErrorKind::InvalidRequest,
        _ => LlmErrorKind::Unknown,
    }
}

/// Classify a failure of the transport: the request never got a response, so
/// there is no status to read.
pub fn network_error(label: &str, context: &str, timed_out: bool, detail: &str) -> (r: Error)
    ensures
        r.is_driver(
            if timed_out {
                LlmErrorKind::Timeout
            } else {
                LlmErrorKind::Network
            },
            label@ + " "@ + context@ + ": "@ + detail@,
        ),
{
    let kind = if timed_out {
        LlmErrorKind::Timeout
    } else {
        LlmErrorKind::Network
    };
    Error::driver(kind, cat5(label, " ", context, ": ", detail))
}

/// The failure to read a body that does not have the expected shape. The body
/// itself is not repeated: it holds the conversation.
pub fn decode_error(label: &str, detail: &str) -> (r: Error)
    ensures
        r.is_driver(
            LlmErrorKind::Unknown,
            label@ + " response did not match the expected shape: "@ + detail@,
        ),
{
    Error::driver(
        LlmErrorKind::Unknown,
        cat3(label, " response did not match the expected shape: ", detail),
    )
}

/// The failure that a response of another status than success stands for. It
/// names the service, and repeats the body that came with it.
pub fn status_error(service: &str, kind: LlmErrorKind, status: &str, payload: &Json) -> (r: Error)
    ensures
        r.is_driver(kind, service@ + " http "@ + status@ + ": "@ + json_print(payload@)),
{
    let body = print_json(payload);
    Error::driver(kind, cat5(service, " http ", status, ": ", body.as_str()))
}

/// Where a request goes: the provider's base url and the protocol's path. A
/// missing base url is a wiring mistake that names the provider.
pub fn endpoint_url(label: &str, path: &str, request: &ChatRequest) -> (r: Result<String, Error>)
    ensures
        match request.endpoint.base_url {
            Some(base) => r matches Ok(url) && url@ == base@ + path@,
            None => r matches Err(e) && e.is_driver(
                LlmErrorKind::InvalidRequest,
                "provider `"@ + request.model.provider@ + "` has no base url, which the "@ + label@
                    + " protocol needs — set it with Provider::base_url"@,
            ),
        },
{
    match &request.endpoint.base_url {
        Some(base) => Ok(cat2(base.as_str(), path)),
        None => Err(
            Error::driver(
                LlmErrorKind::InvalidRequest,
                cat5(
                    "provider `",
                    request.model.provider.as_str(),
                    "` has no base url, which the ",
                    label,
                    " protocol needs — set it with Provider::base_url",
                ),
            ),
        ),
    }
}

/// The headers of a request, in the order they are applied: those of the
/// protocol first, so that a service can override one.
pub fn request_headers(protocol: &Vec<(String, String)>, request: &ChatRequest) -> (r: Vec<
    (String, String),
>)
    ensures
        text_pairs(r@) == text_pairs(protocol@) + text_pairs(request.endpoint.headers@),
{
    let mut r = clone_pairs(protocol);
    let mut rest = clone_pairs(&request.endpoint.headers);
    let ghost first = r@;
    let ghost second = rest@;
    r.append(&mut rest);
    assert(text_pairs(r@) =~= text_pairs(first) + text_pairs(second));
    r
}

/// A value with one more member: an object gets it, and so does nothing at all,
/// which becomes an object. Anything else stays as it is.
pub open spec fn member_set(body: JsonView, key: Seq<char>, value: JsonView) -> JsonView {
    match body {
        JsonView::Object(members) => JsonView::Object(put(members, key, value)),
        JsonView::Null => JsonView::Object(seq![(key, value)]),
        other => other,
    }
}

/// A body that gets a member has it, and keeps every other it had.
pub proof fn a_member_is_added(body: JsonView, key: Seq<char>, value: JsonView, other: Seq<char>)
    requires
        body is Object || body is Null,
    ensures
        member_set(body, key, value).get(key) == Some(value),
        other != key ==> member_set(body, key, value).get(other) == body.get(other),
{
    match body {
        JsonView::Object(members) => {
            setting_a_member(members, key, value);
        },
        _ => {
            member_of_one(key, value);
        },
    }
}

/// A body with one more member.
pub fn with_member(body: Json, key: &str, value: Json) -> (r: Json)
    ensures
        r@ == member_set(body@, key@, value@),
{
    match body {
        Json::Null => Json::object1(key, value),
        Json::Object(members) => {
            let mut members = members;
            assert(body@->Object_0 =~= members_view(members@));
            put_member(&mut members, key, value);
            Json::object(members)
        },
        other => other,
    }
}

/// The payloads that are events: all but the one that closes a stream.
pub open spec fn events_among(payloads: Seq<Seq<char>>, closing: Option<Seq<char>>) -> Seq<
    Seq<char>,
> {
    payloads.filter(|p: Seq<char>| closing != Some(p))
}

/// What closes a stream, as a text.
pub open spec fn mark_of(closing: Option<&str>) -> Option<Seq<char>> {
    match closing {
        Some(c) => Some(c@),
        None => None,
    }
}

/// One chunk of a streaming body as it comes off the wire: the payloads it
/// completes that are events, in order.
pub fn pump_bytes(decoder: &mut SseDecoder, chunk: &Vec<u8>, closing: Option<&str>) -> (events:
    Vec<String>)
    ensures
        texts(events@) == events_among(payloads_in(old(decoder)@ + chunk@), mark_of(closing)),
        final(decoder)@ == partial_line(old(decoder)@ + chunk@, FEED),
{
    keep_events(decoder.push_bytes(chunk.as_slice()), closing)
}

/// One text of a streaming body: the payloads it completes that are events, in
/// order. Where text alone is pumped, they are those of the lines of that text.
pub fn pump(decoder: &mut SseDecoder, chunk: &str, closing: Option<&str>) -> (events: Vec<String>)
    ensures
        texts(events@) == events_among(
            payloads_in(old(decoder)@ + encode_utf8(chunk@)),
            mark_of(closing),
        ),
        final(decoder)@ == partial_line(old(decoder)@ + encode_utf8(chunk@), FEED),
        forall|text: Seq<char>| #[trigger]
            encode_utf8(text) == old(decoder)@ ==> {
                &&& texts(events@) == events_among(
                    payloads_of(complete_lines(text + chunk@, '\n')),
                    mark_of(closing),
                )
                &&& final(decoder)@ == encode_utf8(partial_line(text + chunk@, '\n'))
            },
{
    keep_events(decoder.push(chunk), closing)
}

/// What the chunks of a body come to, one after the other: their events, and
/// the bytes that are held at the end.
pub open spec fn pumped(held: Seq<u8>, chunks: Seq<Seq<u8>>, closing: Option<Seq<char>>) -> (
    Seq<Seq<char>>,
    Seq<u8>,
)
    decreases chunks.len(),
{
    if chunks.len() == 0 {
        (Seq::empty(), held)
    } else {
        let before = pumped(held, chunks.drop_last(), closing);
        (
            before.0 + events_among(payloads_in(before.1 + chunks.last()), closing),
            partial_line(before.1 + chunks.last(), FEED),
        )
    }
}

/// The chunks of a body, put together.
pub open spec fn body_of(chunks: Seq<Seq<u8>>) -> Seq<u8>
    decreases chunks.len(),
{
    if chunks.len() == 0 {
        Seq::empty()
    } else {
        body_of(chunks.drop_last()) + chunks.last()
    }
}

proof fn lemma_pumped(chunks: Seq<Seq<u8>>, closing: Option<Seq<char>>)
    ensures
        pumped(Seq::empty(), chunks, closing) == (
            events_among(payloads_in(body_of(chunks)), closing),
            partial_line(body_of(chunks), FEED),
        ),
    decreases chunks.len(),
{
    let none = Seq::<u8>::empty();
    if chunks.len() == 0 {
        assert(lines_read(none) =~= Seq::<Seq<char>>::empty());
        assert(events_among(payloads_in(none), closing) =~= Seq::<Seq<char>>::empty()) by {
            reveal(Seq::filter);
        }
    } else {
        let a = body_of(chunks.drop_last());
        let b = chunks.last();
        lemma_pumped(chunks.drop_last(), closing);
        chunking_does_not_matter(none, a, b);
        assert(none + (a + b) =~= a + b);
        assert(none + a =~= a);
        Seq::filter_distributes_over_add(
            payloads_in(a),
            payloads_in(partial_line(a, FEED) + b),
            |p: Seq<char>| closing != Some(p),
        );
    }
}

/// The same body streams alike however it is cut: two runs over the same bytes
/// get the same events, in the same order, wherever their chunks end.
pub proof fn same_body_streams_alike(
    a: Seq<Seq<u8>>,
    b: Seq<Seq<u8>>,
    closing: Option<Seq<char>>,
)
    requires
        body_of(a) == body_of(b),
    ensures
        pumped(Seq::empty(), a, closing) == pumped(Seq::empty(), b, closing),
{
    lemma_pumped(a, closing);
    lemma_pumped(b, closing);
}

/// A stream is closed by the payload that is given for it, and by none where
/// none is.
pub proof fn a_stream_is_closed_by_its_mark(closing: Option<&str>)
    ensures
        closing matches Some(mark) ==> mark_of(closing) == Some(mark@),
        closing is None ==> mark_of(closing) is None,
{
}

/// Every payload of a body is pumped, once and in order, but the one that closes
/// the stream, which never is. A body is its chunks, one after the other.
pub proof fn every_event_is_pumped(
    chunks: Seq<Seq<u8>>,
    more: Seq<Seq<u8>>,
    chunk: Seq<u8>,
    mark: Seq<char>,
)
    ensures
        pumped(Seq::empty(), chunks, None).0 == payloads_in(body_of(chunks)),
        pumped(Seq::empty(), chunks, Some(mark)).0 == payloads_in(body_of(chunks)).filter(
            |p: Seq<char>| p != mark,
        ),
        !pumped(Seq::empty(), chunks, Some(mark)).0.contains(mark),
        body_of(chunks + more) == body_of(chunks) + body_of(more),
        body_of(seq![chunk]) == chunk,
    decreases more.len(),
{
    let all = payloads_in(body_of(chunks));
    lemma_pumped(chunks, None);
    lemma_pumped(chunks, Some(mark));
    let open: Option<Seq<char>> = None;
    lemma_filter_all(all, |p: Seq<char>| open != Some(p));
    let a = |p: Seq<char>| Some(mark) != Some(p);
    let b = |p: Seq<char>| p != mark;
    assert(a =~= b);
    let events = all.filter(b);
    assert forall|k: int| 0 <= k < events.len() implies events[k] != mark by {
        all.lemma_filter_pred(b, k);
    }
    assert(seq![chunk].drop_last() =~= Seq::empty());
    assert(body_of(seq![chunk].drop_last()) =~= Seq::empty());
    assert(body_of(seq![chunk]) =~= chunk);
    if more.len() == 0 {
        assert(chunks + more =~= chunks);
        assert(body_of(chunks) + body_of(more) =~= body_of(chunks));
    } else {
        every_event_is_pumped(chunks, more.drop_last(), chunk, mark);
        assert((chunks + more).drop_last() =~= chunks + more.drop_last());
        assert((chunks + more).last() == more.last());
        assert(body_of(chunks + more) =~= body_of(chunks) + body_of(more));
    }
}

proof fn lemma_filter_all(all: Seq<Seq<char>>, keep: spec_fn(Seq<char>) -> bool)
    requires
        forall|p: Seq<char>| #[trigger] keep(p),
    ensures
        all.filter(keep) == all,
    decreases all.len(),
{
    reveal(Seq::filter);
    if all.len() > 0 {
        lemma_filter_all(all.drop_last(), keep);
        assert(keep(all.last()));
        assert(all =~= all.drop_last().push(all.last()));
    }
}

/// The payloads that are events. The one that closes the stream is left out,
/// for it is no event and must not be read as one.
fn keep_events(payloads: Vec<String>, closing: Option<&str>) -> (events: Vec<String>)
    ensures
        texts(events@) == events_among(texts(payloads@), mark_of(closing)),
{
    let ghost all = texts(payloads@);
    let ghost mark = mark_of(closing);
    let ghost keep = |p: Seq<char>| mark != Some(p);
    let mut events: Vec<String> = Vec::new();
    let mut i: usize = 0;
    assert(texts(events@) =~= all.take(0).filter(keep)) by {
        reveal(Seq::filter);
    }
    while i < payloads.len()
        invariant
            i <= payloads@.len(),
            all == texts(payloads@),
            mark == mark_of(closing),
            keep == (|p: Seq<char>| mark != Some(p)),
            texts(events@) == all.take(i as int).filter(keep),
        decreases payloads.len() - i,
    {
        let ghost before = texts(events@);
        proof {
            assert(all.take(i as int + 1).drop_last() =~= all.take(i as int));
            reveal(Seq::filter);
        }
        let closes = match closing {
            Some(c) => same(payloads[i].as_str(), c),
            None => false,
        };
        if !closes {
            events.push(payloads[i].clone());
            assert(texts(events@) =~= before.push(all[i as int]));
        }
        i += 1;
    }
    assert(all.take(i as int) =~= all);
    events
}

} // verus!
