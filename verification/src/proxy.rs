//! What the gateway does with one request: which provider gets it, what is
//! sent upstream, what is answered, and what is metered. The decisions are
//! here; whoever holds the connections performs them and reports what
//! happened.
use std::sync::Arc;

use vstd::prelude::*;
use vstd::string::*;
use vstd::utf8::*;

use crate::headers;
use crate::headers::{Field, Fields};
use crate::json;
use crate::json::Json;
use crate::names;
use crate::provider;
use crate::provider::{Kind, Provider, Registry};
use crate::sniffer;
use crate::sniffer::{Sniffed, Sniffer};
use crate::sse;
use crate::usage::Tokens;

verus! {

/// Cap on a buffered request body, in bytes.
pub const MAX_REQUEST_BODY: usize = 67_108_864;

/// The JSON document that an error is answered with.
pub open spec fn error_document(kind: Seq<char>, message: Seq<char>) -> Json {
    Json::Object(
        map!["error"@ => Json::Object(
            map!["type"@ => Json::Text(kind), "message"@ => Json::Text(message)],
        )],
    )
}

/// A response that the gateway makes itself.
#[derive(Debug)]
pub struct Reply {
    pub status: u16,
    pub content_type: String,
    pub body: String,
}

impl Reply {
    /// Whether the response reports the error `kind` with these words: a JSON
    /// body from which they can be read back.
    pub open spec fn reports(self, status: u16, kind: Seq<char>, message: Seq<char>) -> bool {
        &&& self.status == status
        &&& self.content_type@ == "application/json"@
        &&& self.body@ == json::json_text(error_document(kind, message))
        &&& json::json_document(encode_utf8(self.body@)) == Some(error_document(kind, message))
    }
}

/// The response that reports an error.
pub fn error_response(status: u16, kind: &str, message: &str) -> (r: Reply)
    ensures
        r.reports(status, kind@, message@),
{
    proof {
        reveal_strlit("type");
        reveal_strlit("message");
        reveal_strlit("error");
        reveal_with_fuel(json::members_of, 3);
        reveal_with_fuel(json::only_text, 4);
        assert("type"@.len() == 4);
        assert("message"@.len() == 7);
        assert("type"@[0] == 't' && "message"@[0] == 'm' && "error"@[0] == 'e');
    }
    let mut fields: Vec<(String, serde_json::Value)> = Vec::new();
    fields.push(("type".to_string(), json::string(kind)));
    fields.push(("message".to_string(), json::string(message)));
    assert(fields@.drop_last().drop_last() =~= Seq::empty());
    let ghost inner = fields@;
    let error = json::object(fields);
    assert(json::members_of(inner) =~= map![
        "type"@ => Json::Text(kind@),
        "message"@ => Json::Text(message@),
    ]);
    let mut fields: Vec<(String, serde_json::Value)> = Vec::new();
    fields.push(("error".to_string(), error));
    assert(fields@.drop_last() =~= Seq::empty());
    let ghost outer = fields@;
    let document = json::object(fields);
    assert(json::members_of(outer) =~= map!["error"@ => json::json_view(error)]);
    assert(json::only_text(json::json_view(document), 100));
    Reply {
        status,
        content_type: "application/json".to_string(),
        body: json::write(&document),
    }
}

/// The names of a listing, with a comma and a space between them.
pub open spec fn names_text<V>(listing: Seq<(Seq<char>, V)>) -> Seq<char>
    decreases listing.len(),
{
    if listing.len() == 0 {
        seq![]
    } else if listing.len() == 1 {
        listing[0].0
    } else {
        names_text(listing.drop_last()) + ", "@ + listing.last().0
    }
}

/// What a client is told whose path names no provider.
pub open spec fn unknown_provider_text(
    registry: Map<Seq<char>, Provider>,
    path: Seq<char>,
) -> Seq<char> {
    "no provider matches "@ + path + "; configured: "@ + names_text(names::listing_of(registry))
}

/// The words for a path that names no provider.
fn unknown_provider_message(registry: &Registry, path: &str) -> (r: String)
    ensures
        r@ == unknown_provider_text(registry@, path@),
{
    let providers = registry.providers();
    let ghost listing = provider::with_names(providers@);
    proof {
        names::lemma_listing_of(listing);
    }
    let mut joined = String::new();
    let mut i: usize = 0;
    assert(listing.take(0) =~= Seq::empty());
    while i < providers.len()
        invariant
            i <= providers@.len(),
            listing == provider::with_names(providers@),
            joined@ == names_text(listing.take(i as int)),
        decreases providers@.len() - i,
    {
        if i > 0 {
            joined.append(", ");
        }
        joined.append(providers[i].name.as_str());
        proof {
            let next = listing.take(i + 1);
            assert(next.drop_last() =~= listing.take(i as int));
            assert(next.last() == listing[i as int]);
            assert(joined@ =~= names_text(next));
        }
        i = i + 1;
    }
    assert(listing.take(providers@.len() as int) =~= listing);
    let mut r = "no provider matches ".to_string();
    r.append(path);
    r.append("; configured: ");
    r.append(joined.as_str());
    r
}

/// Whether a response is metered: a successful one, of a kind whose responses
/// can be read.
pub open spec fn metered(kind: Kind, status: u16) -> bool {
    200 <= status < 300 && kind == Kind::Anthropic
}

/// The sniffer for a response, where it is metered.
pub fn sniffer_for(provider: &Provider, status: u16, content_type: &str) -> (r: Option<Sniffer>)
    ensures
        match r {
            Some(s) => metered(provider.kind, status) && s@ == sniffer::nothing_sniffed(
                content_type@,
            ),
            None => !metered(provider.kind, status),
        },
{
    if status < 200 || status >= 300 {
        return None;
    }
    match provider.kind {
        Kind::Anthropic => Some(Sniffer::new(content_type)),
        Kind::Xai | Kind::Azure => None,
    }
}

/// How far a request has come.
pub enum Stage {
    /// Its body is being read.
    Reading { method: Seq<char>, provider: Provider, url: Seq<char> },
    /// It has been sent upstream.
    Waiting { provider: Provider },
    /// The response passes through; a metered one is sniffed.
    Streaming { provider: Provider, sniffed: Option<Sniffed> },
    /// Nothing is left to do.
    Over,
}

/// What can happen to a request.
pub enum Happening {
    /// The body has been read; these are the headers that came with it.
    BodyRead { fields: Fields, body: Seq<u8> },
    /// The body could not be read, or is larger than the cap.
    BodyRefused { error: Seq<char> },
    /// The upstream has answered.
    Answered { status: u16, fields: Fields },
    /// The upstream could not be reached.
    SendFailed { error: Seq<char> },
    /// The next bytes of the response have come.
    Chunk { bytes: Seq<u8> },
    /// Reading the response has failed.
    Broken,
    /// The response has ended, or the client has gone.
    Ended,
}

/// What is to be done next.
pub enum Deed {
    /// Read the body of the request.
    ReadBody,
    /// Send the request upstream.
    Send { method: Seq<char>, url: Seq<char>, fields: Fields, body: Seq<u8> },
    /// Answer with the head of the upstream response.
    Respond { status: u16, fields: Fields },
    /// Answer with an error.
    Reply { status: u16, kind: Seq<char>, message: Seq<char> },
    /// Hand the client what has come, as it came.
    PassOn,
    /// Record the usage of the response.
    Record { provider: Seq<char>, model: Seq<char>, tokens: Tokens },
    /// Nothing.
    Nothing,
}

/// Where a request for `path` starts, and what is done first.
pub open spec fn opened(
    registry: Map<Seq<char>, Provider>,
    method: Seq<char>,
    path: Seq<char>,
    query: Option<Seq<char>>,
) -> (Stage, Deed) {
    let name = provider::first_segment(path);
    if registry.dom().contains(name) {
        let chosen = registry[name];
        let url = provider::url_of(chosen.base_url@, provider::rest_of_path(path), query);
        (Stage::Reading { method, provider: chosen, url }, Deed::ReadBody)
    } else {
        (
            Stage::Over,
            Deed::Reply {
                status: 404,
                kind: "unknown_provider"@,
                message: unknown_provider_text(registry, path),
            },
        )
    }
}

/// Where a request gets by what happens to it, and what is done then. What
/// cannot happen at a stage changes nothing.
pub open spec fn stepped(stage: Stage, happening: Happening) -> (Stage, Deed) {
    match (stage, happening) {
        (Stage::Reading { method, provider, url }, Happening::BodyRead { fields, body }) => (
            Stage::Waiting { provider },
            Deed::Send {
                method,
                url,
                fields: provider::upstream_fields(
                    provider.kind,
                    provider.auth.slot(),
                    provider.auth.field(),
                    fields,
                ),
                body,
            },
        ),
        (Stage::Reading { .. }, Happening::BodyRefused { error }) => (
            Stage::Over,
            Deed::Reply {
                status: 413,
                kind: "invalid_request"@,
                message: "reading request body: "@ + error,
            },
        ),
        (Stage::Waiting { provider }, Happening::Answered { status, fields }) => (
            Stage::Streaming {
                provider,
                sniffed: if metered(provider.kind, status) {
                    Some(
                        sniffer::nothing_sniffed(
                            headers::first_text(fields, "content-type"@),
                        ),
                    )
                } else {
                    None
                },
            },
            Deed::Respond { status, fields: provider::downstream_fields(fields) },
        ),
        (Stage::Waiting { .. }, Happening::SendFailed { error }) => (
            Stage::Over,
            Deed::Reply {
                status: 502,
                kind: "upstream_error"@,
                message: "sending upstream: "@ + error,
            },
        ),
        (Stage::Streaming { provider, sniffed }, Happening::Chunk { bytes }) => (
            Stage::Streaming {
                provider,
                sniffed: match sniffed {
                    Some(s) => Some(s.fed(bytes)),
                    None => None,
                },
            },
            Deed::PassOn,
        ),
        (Stage::Streaming { .. }, Happening::Broken) => (stage, Deed::PassOn),
        (Stage::Streaming { provider, sniffed }, Happening::Ended) => (
            Stage::Over,
            match sniffed {
                Some(s) => match s.outcome() {
                    Some((model, tokens)) => Deed::Record {
                        provider: provider.name@,
                        model,
                        tokens,
                    },
                    None => Deed::Nothing,
                },
                None => Deed::Nothing,
            },
        ),
        (_, Happening::Ended) => (Stage::Over, Deed::Nothing),
        _ => (stage, Deed::Nothing),
    }
}

/// What is reported of a request.
pub enum Event<'a> {
    /// The body has been read; these are the headers that came with it.
    BodyRead { headers: http::HeaderMap<http::HeaderValue>, body: Vec<u8> },
    /// The body could not be read, or is larger than the cap.
    BodyRefused { error: String },
    /// The upstream has answered.
    Answered { status: u16, headers: http::HeaderMap<http::HeaderValue> },
    /// The upstream could not be reached.
    SendFailed { error: String },
    /// The next bytes of the response have come.
    Chunk { bytes: &'a [u8] },
    /// Reading the response has failed.
    Broken,
    /// The response has ended, or the client has gone.
    Ended,
}

impl<'a> View for Event<'a> {
    type V = Happening;

    open spec fn view(&self) -> Happening {
        match *self {
            Event::BodyRead { headers, body } => Happening::BodyRead {
                fields: headers::fields_of(headers),
                body: body@,
            },
            Event::BodyRefused { error } => Happening::BodyRefused { error: error@ },
            Event::Answered { status, headers } => Happening::Answered {
                status,
                fields: headers::fields_of(headers),
            },
            Event::SendFailed { error } => Happening::SendFailed { error: error@ },
            Event::Chunk { bytes } => Happening::Chunk { bytes: bytes@ },
            Event::Broken => Happening::Broken,
            Event::Ended => Happening::Ended,
        }
    }
}

/// What is to be done for a request.
pub enum Action {
    /// Read the body of the request, up to this many bytes.
    ReadBody { limit: usize },
    /// Send the request upstream.
    Send {
        method: String,
        url: String,
        headers: http::HeaderMap<http::HeaderValue>,
        body: Vec<u8>,
    },
    /// Answer with this status and these headers, and then with what comes.
    Respond { status: u16, headers: http::HeaderMap<http::HeaderValue> },
    /// Answer with an error.
    Reply { reply: Reply },
    /// Hand the client what has come, as it came.
    PassOn,
    /// Add to the totals.
    Record { provider: String, model: String, tokens: Tokens },
    /// Nothing.
    Nothing,
}

impl Action {
    /// Whether this is the action for `deed`.
    pub open spec fn performs(self, deed: Deed) -> bool {
        match (self, deed) {
            (Action::ReadBody { limit }, Deed::ReadBody) => limit == MAX_REQUEST_BODY,
            (
                Action::Send { method, url, headers, body },
                Deed::Send { method: verb, url: to, fields, body: bytes },
            ) => {
                &&& method@ == verb
                &&& url@ == to
                &&& headers::fields_of(headers) == fields
                &&& body@ == bytes
            },
            (Action::Respond { status, headers }, Deed::Respond { status: code, fields }) => {
                status == code && headers::fields_of(headers) == fields
            },
            (Action::Reply { reply }, Deed::Reply { status, kind, message }) => reply.reports(
                status,
                kind,
                message,
            ),
            (Action::PassOn, Deed::PassOn) => true,
            (
                Action::Record { provider, model, tokens },
                Deed::Record { provider: name, model: used, tokens: counts },
            ) => provider@ == name && model@ == used && tokens == counts,
            (Action::Nothing, Deed::Nothing) => true,
            _ => false,
        }
    }
}

/// How far a request has come, with what is needed to go on.
enum Phase {
    Reading { method: String, provider: Arc<Provider>, url: String },
    Waiting { provider: Arc<Provider> },
    Streaming { provider: Arc<Provider>, sniffer: Option<Sniffer> },
    Over,
}

/// One request on its way through the gateway.
pub struct Exchange {
    phase: Phase,
}

impl View for Exchange {
    type V = Stage;

    closed spec fn view(&self) -> Stage {
        match self.phase {
            Phase::Reading { method, provider, url } => Stage::Reading {
                method: method@,
                provider: *provider,
                url: url@,
            },
            Phase::Waiting { provider } => Stage::Waiting { provider: *provider },
            Phase::Streaming { provider, sniffer } => Stage::Streaming {
                provider: *provider,
                sniffed: match sniffer {
                    Some(s) => Some(s@),
                    None => None,
                },
            },
            Phase::Over => Stage::Over,
        }
    }
}

impl Exchange {
    /// Starts with a request for `path`.
    pub fn open(registry: &Registry, method: &str, path: &str, query: Option<&str>) -> (r: (
        Exchange,
        Action,
    ))
        ensures
            ({
                let (stage, deed) = opened(
                    registry@,
                    method@,
                    path@,
                    match query {
                        Some(q) => Some(q@),
                        None => None,
                    },
                );
                r.0@ == stage && r.1.performs(deed)
            }),
    {
        match registry.route(path) {
            Some((provider, rest)) => {
                let url = provider.upstream_url(rest.as_str(), query);
                let method = method.to_string();
                (
                    Exchange { phase: Phase::Reading { method, provider, url } },
                    Action::ReadBody { limit: MAX_REQUEST_BODY },
                )
            },
            None => {
                let message = unknown_provider_message(registry, path);
                let reply = error_response(404, "unknown_provider", message.as_str());
                (Exchange { phase: Phase::Over }, Action::Reply { reply })
            },
        }
    }

    /// The URL to which the request will be sent, until it is sent.
    pub fn url(&self) -> (r: Option<&String>)
        ensures
            match (r, self@) {
                (Some(u), Stage::Reading { url, .. }) => u@ == url,
                (Some(_), _) => false,
                (None, stage) => !(stage is Reading),
            },
    {
        match &self.phase {
            Phase::Reading { url, .. } => Some(url),
            _ => None,
        }
    }

    /// Goes on with what has happened. `None` where the request is about to be
    /// sent and a header map refuses to hold its headers, which it does not as
    /// long as there are fewer than `SAFE_NAMES` names.
    pub fn step(self, event: Event) -> (r: Option<(Exchange, Action)>)
        ensures
            match r {
                Some((next, action)) => {
                    let (stage, deed) = stepped(self@, event@);
                    next@ == stage && action.performs(deed)
                },
                None => {
                    &&& self@ is Reading
                    &&& event matches Event::BodyRead { headers, .. } && !headers::has_at_most(
                        headers::fields_of(headers),
                        headers::SAFE_NAMES - 1,
                    )
                },
            },
    {
        let next = match (self.phase, event) {
            (Phase::Reading { method, provider, url }, Event::BodyRead { headers, body }) => {
                match provider.upstream_headers(&headers) {
                    Some(headers) => (
                        Exchange { phase: Phase::Waiting { provider } },
                        Action::Send { method, url, headers, body },
                    ),
                    None => {
                        return None;
                    },
                }
            },
            (Phase::Reading { .. }, Event::BodyRefused { error }) => {
                let mut message = "reading request body: ".to_string();
                message.append(error.as_str());
                let reply = error_response(413, "invalid_request", message.as_str());
                (Exchange { phase: Phase::Over }, Action::Reply { reply })
            },
            (Phase::Waiting { provider }, Event::Answered { status, headers }) => {
                let content_type = headers::content_type(&headers);
                let mut headers = headers;
                provider::strip_response_headers(&mut headers);
                let sniffer = sniffer_for(&provider, status, content_type.as_str());
                (
                    Exchange { phase: Phase::Streaming { provider, sniffer } },
                    Action::Respond { status, headers },
                )
            },
            (Phase::Waiting { .. }, Event::SendFailed { error }) => {
                let mut message = "sending upstream: ".to_string();
                message.append(error.as_str());
                let reply = error_response(502, "upstream_error", message.as_str());
                (Exchange { phase: Phase::Over }, Action::Reply { reply })
            },
            (Phase::Streaming { provider, sniffer }, Event::Chunk { bytes }) => {
                let sniffer = match sniffer {
                    Some(s) => {
                        let mut s = s;
                        s.feed(bytes);
                        Some(s)
                    },
                    None => None,
                };
                (Exchange { phase: Phase::Streaming { provider, sniffer } }, Action::PassOn)
            },
            (Phase::Streaming { provider, sniffer }, Event::Broken) => {
                (Exchange { phase: Phase::Streaming { provider, sniffer } }, Action::PassOn)
            },
            (Phase::Streaming { provider, sniffer }, Event::Ended) => {
                let action = match sniffer {
                    Some(s) => match s.finalize() {
                        Some((model, tokens)) => Action::Record {
                            provider: provider.name.clone(),
                            model,
                            tokens,
                        },
                        None => Action::Nothing,
                    },
                    None => Action::Nothing,
                };
                (Exchange { phase: Phase::Over }, action)
            },
            (_, Event::Ended) => (Exchange { phase: Phase::Over }, Action::Nothing),
            (phase, _) => (Exchange { phase }, Action::Nothing),
        };
        Some(next)
    }
}

/// The stage that a request reaches by what happens to it.
pub open spec fn reached(stage: Stage, happenings: Seq<Happening>) -> Stage
    decreases happenings.len(),
{
    if happenings.len() == 0 {
        stage
    } else {
        stepped(reached(stage, happenings.drop_last()), happenings.last()).0
    }
}

/// What is done for a request by what happens to it.
pub open spec fn deeds(stage: Stage, happenings: Seq<Happening>) -> Seq<Deed>
    decreases happenings.len(),
{
    if happenings.len() == 0 {
        seq![]
    } else {
        deeds(stage, happenings.drop_last()).push(
            stepped(reached(stage, happenings.drop_last()), happenings.last()).1,
        )
    }
}

/// How often a request is sent upstream.
pub open spec fn upstream_calls(deeds: Seq<Deed>) -> nat
    decreases deeds.len(),
{
    if deeds.len() == 0 {
        0
    } else {
        upstream_calls(deeds.drop_last()) + (if deeds.last() is Send {
            1nat
        } else {
            0nat
        })
    }
}

/// How often the usage of a response is recorded.
pub open spec fn recordings(deeds: Seq<Deed>) -> nat
    decreases deeds.len(),
{
    if deeds.len() == 0 {
        0
    } else {
        recordings(deeds.drop_last()) + (if deeds.last() is Record {
            1nat
        } else {
            0nat
        })
    }
}

/// The chunks of a response as they come in.
pub open spec fn coming(chunks: Seq<Seq<u8>>) -> Seq<Happening> {
    chunks.map_values(|bytes: Seq<u8>| Happening::Chunk { bytes })
}

proof fn lemma_counts(stage: Stage, happenings: Seq<Happening>)
    ensures
        upstream_calls(deeds(stage, happenings)) <= 1,
        recordings(deeds(stage, happenings)) <= 1,
        !(stage is Reading) ==> upstream_calls(deeds(stage, happenings)) == 0,
        !(stage is Reading) ==> !(reached(stage, happenings) is Reading),
        reached(stage, happenings) is Reading ==> upstream_calls(deeds(stage, happenings)) == 0,
        !(reached(stage, happenings) is Over) ==> recordings(deeds(stage, happenings)) == 0,
        stage is Over ==> reached(stage, happenings) is Over && recordings(
            deeds(stage, happenings),
        ) == 0,
    decreases happenings.len(),
{
    if happenings.len() > 0 {
        lemma_counts(stage, happenings.drop_last());
        let before = deeds(stage, happenings.drop_last());
        assert(deeds(stage, happenings).drop_last() =~= before);
    }
}

/// One request in, at most one call upstream, whatever happens; and its usage
/// is recorded at most once.
pub proof fn law_one_upstream_call(
    registry: Map<Seq<char>, Provider>,
    method: Seq<char>,
    path: Seq<char>,
    query: Option<Seq<char>>,
    happenings: Seq<Happening>,
)
    ensures
        upstream_calls(deeds(opened(registry, method, path, query).0, happenings)) <= 1,
        recordings(deeds(opened(registry, method, path, query).0, happenings)) <= 1,
{
    lemma_counts(opened(registry, method, path, query).0, happenings);
}

/// A request whose first path segment names no provider is refused, and nothing
/// is sent upstream or recorded for it, whatever happens.
pub proof fn law_unknown_provider_is_refused(
    registry: Map<Seq<char>, Provider>,
    method: Seq<char>,
    path: Seq<char>,
    query: Option<Seq<char>>,
    happenings: Seq<Happening>,
)
    requires
        !registry.dom().contains(provider::first_segment(path)),
    ensures
        opened(registry, method, path, query).1 == (Deed::Reply {
            status: 404,
            kind: "unknown_provider"@,
            message: unknown_provider_text(registry, path),
        }),
        upstream_calls(deeds(opened(registry, method, path, query).0, happenings)) == 0,
        recordings(deeds(opened(registry, method, path, query).0, happenings)) == 0,
{
    lemma_counts(opened(registry, method, path, query).0, happenings);
}

/// A request for a provider is sent with its method and its body as they came,
/// to the provider's root URL with the rest of the path and the query as they
/// came, and with the headers that the provider is due.
pub proof fn law_request_is_forwarded(
    registry: Map<Seq<char>, Provider>,
    method: Seq<char>,
    path: Seq<char>,
    query: Option<Seq<char>>,
    fields: Fields,
    body: Seq<u8>,
)
    requires
        registry.dom().contains(provider::first_segment(path)),
    ensures
        ({
            let chosen = registry[provider::first_segment(path)];
            let (stage, deed) = opened(registry, method, path, query);
            &&& deed == Deed::ReadBody
            &&& stepped(stage, Happening::BodyRead { fields, body }).1 == (Deed::Send {
                method,
                url: provider::url_of(chosen.base_url@, provider::rest_of_path(path), query),
                fields: provider::upstream_fields(
                    chosen.kind,
                    chosen.auth.slot(),
                    chosen.auth.field(),
                    fields,
                ),
                body,
            })
        }),
{
}

/// A request whose body is refused is answered and never sent.
pub proof fn law_refused_body_is_not_sent(
    registry: Map<Seq<char>, Provider>,
    method: Seq<char>,
    path: Seq<char>,
    query: Option<Seq<char>>,
    error: Seq<char>,
    happenings: Seq<Happening>,
)
    requires
        registry.dom().contains(provider::first_segment(path)),
    ensures
        ({
            let (stage, deed) = stepped(
                opened(registry, method, path, query).0,
                Happening::BodyRefused { error },
            );
            &&& deed == (Deed::Reply {
                status: 413,
                kind: "invalid_request"@,
                message: "reading request body: "@ + error,
            })
            &&& upstream_calls(deeds(stage, happenings)) == 0
            &&& recordings(deeds(stage, happenings)) == 0
        }),
{
    let stage = stepped(
        opened(registry, method, path, query).0,
        Happening::BodyRefused { error },
    ).0;
    lemma_counts(stage, happenings);
}

proof fn lemma_unmetered(provider: Provider, happenings: Seq<Happening>)
    ensures
        ({
            let stage = Stage::Streaming { provider, sniffed: None };
            &&& recordings(deeds(stage, happenings)) == 0
            &&& reached(stage, happenings) == stage || reached(stage, happenings) is Over
        }),
    decreases happenings.len(),
{
    let stage = Stage::Streaming { provider, sniffed: None };
    if happenings.len() > 0 {
        lemma_unmetered(provider, happenings.drop_last());
        assert(deeds(stage, happenings).drop_last() =~= deeds(stage, happenings.drop_last()));
    }
}

/// Only successful responses are metered, and only of providers whose dialect
/// can be read: nothing else is ever recorded.
pub proof fn law_only_metered_responses_are_recorded(
    provider: Provider,
    status: u16,
    fields: Fields,
    happenings: Seq<Happening>,
)
    requires
        !(200 <= status < 300) || provider.kind != Kind::Anthropic,
    ensures
        ({
            let stage = stepped(
                Stage::Waiting { provider },
                Happening::Answered { status, fields },
            ).0;
            recordings(deeds(stage, happenings)) == 0
        }),
{
    lemma_unmetered(provider, happenings);
}

proof fn lemma_chunks(provider: Provider, sniffed: Option<Sniffed>, chunks: Seq<Seq<u8>>)
    ensures
        reached(Stage::Streaming { provider, sniffed }, coming(chunks)) == (Stage::Streaming {
            provider,
            sniffed: match sniffed {
                Some(s) => Some(sniffer::fed_all(s, chunks)),
                None => None,
            },
        }),
        forall|i: int|
            0 <= i < chunks.len() ==> (#[trigger] deeds(
                Stage::Streaming { provider, sniffed },
                coming(chunks),
            )[i]) == Deed::PassOn,
        deeds(Stage::Streaming { provider, sniffed }, coming(chunks)).len() == chunks.len(),
    decreases chunks.len(),
{
    if chunks.len() > 0 {
        lemma_chunks(provider, sniffed, chunks.drop_last());
        assert(coming(chunks).drop_last() =~= coming(chunks.drop_last()));
    }
}

/// Every chunk of a response is passed on to the client, metered or not.
pub proof fn law_response_passes_through(
    provider: Provider,
    sniffed: Option<Sniffed>,
    chunks: Seq<Seq<u8>>,
)
    ensures
        ({
            let done = deeds(Stage::Streaming { provider, sniffed }, coming(chunks));
            &&& done.len() == chunks.len()
            &&& forall|i: int| 0 <= i < done.len() ==> (#[trigger] done[i]) == Deed::PassOn
        }),
{
    lemma_chunks(provider, sniffed, chunks);
}

/// What is recorded of a metered response depends on the bytes that came until
/// it ended or the client left, not on how they were cut into chunks.
pub proof fn law_usage_is_that_of_the_bytes(
    provider: Provider,
    content_type: Seq<char>,
    chunks: Seq<Seq<u8>>,
)
    ensures
        ({
            let fresh = sniffer::nothing_sniffed(content_type);
            let stage = reached(
                Stage::Streaming { provider, sniffed: Some(fresh) },
                coming(chunks),
            );
            stepped(stage, Happening::Ended).1 == (match fresh.fed(
                sniffer::joined(chunks),
            ).outcome() {
                Some((model, tokens)) => Deed::Record { provider: provider.name@, model, tokens },
                None => Deed::Nothing,
            })
        }),
{
    let fresh = sniffer::nothing_sniffed(content_type);
    lemma_chunks(provider, Some(fresh), chunks);
    if chunks.len() > 0 {
        sniffer::law_feeding_in_chunks(fresh, chunks);
    } else {
        sse::lemma_boundary_in_range(fresh.leftover, 0);
        assert(fresh.leftover + sniffer::joined(chunks) =~= fresh.leftover);
        assert(fresh.json_buf + sniffer::joined(chunks) =~= fresh.json_buf);
    }
}

/// The head of an upstream response reaches the client with the status that the
/// upstream gave, whatever it is, and with all headers but five, each with
/// exactly its values.
pub proof fn law_response_head_is_handed_back(
    provider: Provider,
    status: u16,
    fields: Fields,
    name: Seq<char>,
)
    ensures
        ({
            let deed = stepped(
                Stage::Waiting { provider },
                Happening::Answered { status, fields },
            ).1;
            let got = deed->Respond_fields;
            &&& deed is Respond
            &&& deed->Respond_status == status
            &&& {
                let owned = {
                    ||| name == "connection"@
                    ||| name == "content-length"@
                    ||| name == "keep-alive"@
                    ||| name == "transfer-encoding"@
                    ||| name == "upgrade"@
                };
                &&& got.dom().contains(name) <==> fields.dom().contains(name) && !owned
                &&& got.dom().contains(name) ==> got[name] == fields[name]
            }
        }),
{
    provider::law_headers_handed_back(fields, name);
}

/// A request for `/name/rest` goes to the provider `name` with its own method
/// and body, to the root URL with the rest of the path and the query behind it.
/// Of the client's headers fourteen stay behind, and every other one is sent
/// with exactly its values; the credential is the provider's key. However many
/// slashes lead the path.
pub proof fn law_what_is_sent_upstream(
    registry: Map<Seq<char>, Provider>,
    method: Seq<char>,
    lead: Seq<char>,
    segment: Seq<char>,
    rest: Seq<char>,
    query: Seq<char>,
    fields: Fields,
    body: Seq<u8>,
    api_key: Seq<char>,
    name: Seq<char>,
)
    requires
        forall|i: int| 0 <= i < lead.len() ==> #[trigger] lead[i] == '/',
        segment.len() > 0,
        !segment.contains('/'),
        registry.dom().contains(segment),
        registry[segment].auth.slot() == registry[segment].kind.slot(),
        registry[segment].auth.field() == (Field {
            bytes: encode_utf8(registry[segment].kind.credential(api_key)),
            sensitive: true,
        }),
    ensures
        ({
            let p = registry[segment];
            let path = lead + segment + seq!['/'] + rest;
            let read = Happening::BodyRead { fields, body };
            let deed = stepped(opened(registry, method, path, Some(query)).0, read).1;
            let plain = stepped(opened(registry, method, path, None).0, read).1;
            let bare = stepped(opened(registry, method, lead + segment, None).0, read).1;
            let sent = deed->Send_fields;
            &&& opened(registry, method, path, Some(query)).1 is ReadBody
            &&& deed is Send
            &&& deed->Send_method == method
            &&& deed->Send_url == p.base_url@ + "/"@ + rest + "?"@ + query
            &&& deed->Send_body == body
            &&& plain == (Deed::Send {
                method,
                url: p.base_url@ + "/"@ + rest,
                fields: sent,
                body,
            })
            &&& bare == (Deed::Send { method, url: p.base_url@ + "/"@, fields: sent, body })
            &&& {
                let listed = {
                    ||| name == "host"@
                    ||| name == "x-api-key"@
                    ||| name == "authorization"@
                    ||| name == "api-key"@
                    ||| name == "content-length"@
                    ||| name == "connection"@
                    ||| name == "keep-alive"@
                    ||| name == "proxy-authenticate"@
                    ||| name == "proxy-authorization"@
                    ||| name == "te"@
                    ||| name == "trailer"@
                    ||| name == "transfer-encoding"@
                    ||| name == "upgrade"@
                    ||| name == "accept-encoding"@
                };
                &&& p.kind == Kind::Anthropic ==> sent.dom().contains("x-api-key"@)
                    && sent["x-api-key"@] == seq![
                    Field { bytes: encode_utf8(api_key), sensitive: true },
                ]
                &&& p.kind == Kind::Xai ==> sent.dom().contains("authorization"@)
                    && sent["authorization"@] == seq![
                    Field { bytes: encode_utf8("Bearer "@ + api_key), sensitive: true },
                ]
                &&& p.kind == Kind::Azure ==> sent.dom().contains("api-key"@) && sent["api-key"@]
                    == seq![Field { bytes: encode_utf8(api_key), sensitive: true }]
                &&& p.kind == Kind::Anthropic && !fields.dom().contains("anthropic-version"@)
                    ==> sent.dom().contains("anthropic-version"@) && sent["anthropic-version"@]
                    == seq![Field { bytes: encode_utf8("2023-06-01"@), sensitive: false }]
                &&& !listed && fields.dom().contains(name) ==> sent.dom().contains(name)
                    && sent[name] == fields[name]
                &&& !listed && !fields.dom().contains(name) ==> (sent.dom().contains(name) <==> name
                    == "anthropic-version"@ && p.kind == Kind::Anthropic)
                &&& listed ==> (sent.dom().contains(name) <==> (name == "x-api-key"@ && p.kind
                    == Kind::Anthropic) || (name == "authorization"@ && p.kind == Kind::Xai) || (
                name == "api-key"@ && p.kind == Kind::Azure))
            }
        }),
{
    let p = registry[segment];
    provider::law_path_with_leading_slashes(lead, segment, rest);
    provider::law_headers_sent(p, api_key, fields, name);
    assert(p.base_url@ + "/"@ + Seq::<char>::empty() =~= p.base_url@ + "/"@);
}

/// After a request has been sent, the provider is waited for; once it answers,
/// its response passes through.
pub proof fn law_stages_follow_each_other(
    method: Seq<char>,
    provider: Provider,
    url: Seq<char>,
    fields: Fields,
    body: Seq<u8>,
    status: u16,
)
    ensures
        stepped(
            Stage::Reading { method, provider, url },
            Happening::BodyRead { fields, body },
        ).0 == (Stage::Waiting { provider }),
        stepped(Stage::Waiting { provider }, Happening::Answered { status, fields }).0
            matches Stage::Streaming { provider: q, .. } && q == provider,
{
}

/// What is metered: a response with a status from 200 to 299, of a provider of
/// the Anthropic kind.
pub proof fn law_what_is_metered(kind: Kind, status: u16)
    ensures
        metered(kind, status) <==> status >= 200 && status <= 299 && kind == Kind::Anthropic,
{
}

/// A successful response of a provider of the Anthropic kind is recorded under
/// the provider's name when it ends, as what its bytes give, read as its content
/// type says.
pub proof fn law_successful_responses_are_recorded(
    provider: Provider,
    status: u16,
    fields: Fields,
    chunks: Seq<Seq<u8>>,
)
    requires
        200 <= status <= 299,
        provider.kind == Kind::Anthropic,
    ensures
        ({
            let answered = stepped(
                Stage::Waiting { provider },
                Happening::Answered { status, fields },
            ).0;
            let content_type = headers::first_text(fields, "content-type"@);
            let (stage, deed) = stepped(reached(answered, coming(chunks)), Happening::Ended);
            &&& stage is Over
            &&& match sniffer::nothing_sniffed(content_type).fed(
                sniffer::joined(chunks),
            ).outcome() {
                Some((model, tokens)) => deed == (Deed::Record {
                    provider: provider.name@,
                    model,
                    tokens,
                }),
                None => deed is Nothing,
            }
        }),
{
    let content_type = headers::first_text(fields, "content-type"@);
    law_usage_is_that_of_the_bytes(provider, content_type, chunks);
    lemma_chunks(provider, Some(sniffer::nothing_sniffed(content_type)), chunks);
}

/// A response that breaks off in between is passed on as it is, and what was
/// sniffed of it stays.
pub proof fn law_broken_response(provider: Provider, sniffed: Option<Sniffed>)
    ensures
        stepped(Stage::Streaming { provider, sniffed }, Happening::Broken) == (
            Stage::Streaming { provider, sniffed },
            Deed::PassOn,
        ),
{
}

/// A request that could not be sent is answered with 502 and the error.
pub proof fn law_unreachable_upstream(provider: Provider, error: Seq<char>)
    ensures
        stepped(Stage::Waiting { provider }, Happening::SendFailed { error }) == (
            Stage::Over,
            (Deed::Reply {
                status: 502,
                kind: "upstream_error"@,
                message: "sending upstream: "@ + error,
            }),
        ),
{
}

/// What cannot happen at a stage changes nothing, and a client that leaves
/// before the response has started ends the request.
pub proof fn law_other_happenings(stage: Stage, happening: Happening)
    ensures
        stage is Reading && !(happening is BodyRead || happening is BodyRefused || happening
            is Ended) ==> stepped(stage, happening) == (stage, Deed::Nothing),
        stage is Waiting && !(happening is Answered || happening is SendFailed || happening
            is Ended) ==> stepped(stage, happening) == (stage, Deed::Nothing),
        stage is Streaming && !(happening is Chunk || happening is Broken || happening is Ended)
            ==> stepped(stage, happening) == (stage, Deed::Nothing),
        stage is Over ==> stepped(stage, happening) == (Stage::Over, Deed::Nothing),
        (stage is Reading || stage is Waiting) && happening is Ended ==> stepped(stage, happening)
            == (Stage::Over, Deed::Nothing),
{
}

/// The names that a client is told are those of the registry in their order,
/// with a comma and a space between each two.
pub proof fn law_names_are_joined<V>(listing: Seq<(Seq<char>, V)>, name: Seq<char>, value: V)
    ensures
        names_text(Seq::<(Seq<char>, V)>::empty()) == Seq::<char>::empty(),
        names_text(seq![(name, value)]) == name,
        listing.len() > 0 ==> names_text(listing.push((name, value))) == names_text(listing)
            + ", "@ + name,
{
    assert(listing.push((name, value)).drop_last() =~= listing);
}

/// What a client is told whose path names no provider: the path as it came, and
/// the names that there are.
pub proof fn law_words_for_an_unknown_provider(
    registry: Map<Seq<char>, Provider>,
    listing: Seq<(Seq<char>, Provider)>,
    path: Seq<char>,
)
    requires
        names::ascending(listing),
        names::map_of(listing) == registry,
    ensures
        unknown_provider_text(registry, path) == "no provider matches "@ + path
            + "; configured: "@ + names_text(listing),
{
    names::lemma_listing_of(listing);
}

/// An error is reported as a JSON object whose one member `error` is an object
/// with the members `type` and `message` and no other.
pub proof fn law_error_document(kind: Seq<char>, message: Seq<char>)
    ensures
        error_document(kind, message) matches Json::Object(document) && {
            &&& document.dom() == set!["error"@]
            &&& document["error"@] matches Json::Object(error) && {
                &&& error.dom() == set!["type"@, "message"@]
                &&& error["type"@] == Json::Text(kind)
                &&& error["message"@] == Json::Text(message)
            }
        },
{
    reveal_strlit("type");
    reveal_strlit("message");
    assert("type"@.len() == 4);
    assert("message"@.len() == 7);
    let inner = map!["type"@ => Json::Text(kind), "message"@ => Json::Text(message)];
    assert(inner.dom() =~= set!["type"@, "message"@]);
    let outer = map!["error"@ => Json::Object(inner)];
    assert(outer.dom() =~= set!["error"@]);
    assert(error_document(kind, message) == Json::Object(outer));
}

/// A reply that reports an error has the status of the error, is JSON, and reads
/// back as the document of the error.
pub proof fn law_reply(reply: Reply, status: u16, kind: Seq<char>, message: Seq<char>)
    requires
        reply.reports(status, kind, message),
    ensures
        reply.status == status,
        reply.content_type@ == "application/json"@,
        json::json_document(encode_utf8(reply.body@)) == Some(error_document(kind, message)),
{
}

/// An action does what the deed says: it reads up to 64 MiB, it sends, answers
/// and records what the deed gives and nothing else.
pub proof fn law_actions(action: Action, deed: Deed)
    requires
        action.performs(deed),
    ensures
        match deed {
            Deed::ReadBody => action matches Action::ReadBody { limit } && limit == 64 * 1024
                * 1024,
            Deed::Send { method, url, fields, body } => {
                action matches Action::Send { method: m, url: u, headers: h, body: b } && m@
                    == method && u@ == url && headers::fields_of(h) == fields && b@ == body
            },
            Deed::Respond { status, fields } => {
                action matches Action::Respond { status: s, headers: h } && s == status
                    && headers::fields_of(h) == fields
            },
            Deed::Reply { status, kind, message } => {
                action matches Action::Reply { reply } && reply.reports(status, kind, message)
            },
            Deed::PassOn => action is PassOn,
            Deed::Record { provider, model, tokens } => {
                action matches Action::Record { provider: p, model: m, tokens: t } && p@ == provider
                    && m@ == model && t == tokens
            },
            Deed::Nothing => action is Nothing,
        },
{
}

/// An event is what happened, with all that it brings.
pub proof fn law_events(
    headers: http::HeaderMap<http::HeaderValue>,
    body: Vec<u8>,
    error: String,
    status: u16,
    bytes: &[u8],
)
    ensures
        (Event::BodyRead { headers, body })@ == (Happening::BodyRead {
            fields: headers::fields_of(headers),
            body: body@,
        }),
        (Event::BodyRefused { error })@ == (Happening::BodyRefused { error: error@ }),
        (Event::Answered { status, headers })@ == (Happening::Answered {
            status,
            fields: headers::fields_of(headers),
        }),
        (Event::SendFailed { error })@ == (Happening::SendFailed { error: error@ }),
        (Event::Chunk { bytes })@ == (Happening::Chunk { bytes: bytes@ }),
        Event::Broken@ == Happening::Broken,
        Event::Ended@ == Happening::Ended,
{
}

} // verus!
