//! Requests on their way through the gateway.
use clavem::provider::{Kind, Provider, Registry};
use clavem::proxy::{error_response, sniffer_for, Action, Event, Exchange, Reply};
use clavem::usage::Totals;
use http::{HeaderMap, HeaderValue};
use serde_json::Value;

const DOCUMENT: &[u8] = br#"{"model":"haiku-4-5","usage":{"input_tokens":11,"output_tokens":7,"cache_creation_input_tokens":3,"cache_read_input_tokens":5}}"#;

const STREAM: &[u8] = b"event: message_start\ndata: {\"type\":\"message_start\",\"message\":{\"model\":\"sonnet-5\",\"usage\":{\"input_tokens\":100,\"output_tokens\":1,\"cache_read_input_tokens\":40}}}\n\nevent: content_block_delta\ndata: {\"type\":\"content_block_delta\",\"delta\":{\"type\":\"text_delta\",\"text\":\"hi\"}}\n\nevent: message_delta\ndata: {\"type\":\"message_delta\",\"usage\":{\"output_tokens\":25}}\n\n";

fn provider(name: &str, kind: Kind, api_key: &str) -> Provider {
    Provider::new(name, kind, "http://127.0.0.1:9", api_key).ok().unwrap()
}

fn registry() -> Registry {
    Registry::new(vec![
        provider("anthropic", Kind::Anthropic, "sk-ant-real"),
        provider("xai", Kind::Xai, "xai-real"),
        provider("azure-eu", Kind::Azure, "azure-real"),
    ])
}

fn client_headers() -> HeaderMap {
    let mut headers = HeaderMap::new();
    headers.insert("content-type", HeaderValue::from_static("application/json"));
    headers.insert("x-api-key", HeaderValue::from_static("client-placeholder"));
    headers.insert("authorization", HeaderValue::from_static("Bearer client-placeholder"));
    headers
}

fn step(x: Exchange, event: Event) -> (Exchange, Action) {
    x.step(event).unwrap()
}

/// Opens an exchange and reads its body: what is sent upstream.
fn sent(path: &str, query: Option<&str>, body: &str) -> (Exchange, (String, HeaderMap, Vec<u8>)) {
    let (x, action) = Exchange::open(&registry(), "POST", path, query);
    assert!(matches!(action, Action::ReadBody { limit: 67108864 }));
    let event = Event::BodyRead { headers: client_headers(), body: body.as_bytes().to_vec() };
    match step(x, event) {
        (x, Action::Send { method, url, headers, body }) => {
            assert_eq!(method, "POST");
            (x, (url, headers, body))
        }
        _ => panic!("not sent"),
    }
}

fn answered(content_type: &str) -> Event<'static> {
    let mut headers = HeaderMap::new();
    headers.insert("content-type", HeaderValue::from_str(content_type).unwrap());
    headers.insert("transfer-encoding", HeaderValue::from_static("chunked"));
    Event::Answered { status: 200, headers }
}

/// Feeds a response and ends it, and adds what is to be recorded.
fn finish(x: Exchange, body: &[u8], size: usize, totals: &mut Totals) {
    let mut x = x;
    for chunk in body.chunks(size) {
        let (next, action) = step(x, Event::Chunk { bytes: chunk });
        assert!(matches!(action, Action::PassOn));
        x = next;
    }
    let (_, action) = step(x, Event::Ended);
    match action {
        Action::Record { provider, model, tokens } => {
            assert!(totals.can_record(&provider, &model, &tokens));
            totals.record(&provider, &model, &tokens);
        }
        Action::Nothing => {}
        _ => panic!("unexpected"),
    }
}

fn respond(x: Exchange, event: Event) -> Exchange {
    match step(x, event) {
        (x, Action::Respond { .. }) => x,
        _ => panic!("no response"),
    }
}

fn listed(totals: &Totals) -> Vec<(String, u64, u64)> {
    totals.by_model.entries().iter().map(|(k, v)| (k.clone(), v.input, v.output)).collect()
}

fn refused(action: Action) -> (Reply, Value) {
    match action {
        Action::Reply { reply } => {
            let body = serde_json::from_str(&reply.body).unwrap();
            (reply, body)
        }
        _ => panic!("no reply"),
    }
}

#[test]
fn forwards_rest_of_path_and_query_verbatim() {
    let (_, (url, _, body)) =
        sent("/anthropic/v1/messages", Some("beta=tools"), r#"{"model":"x"}"#);
    assert_eq!(url, "http://127.0.0.1:9/v1/messages?beta=tools");
    assert_eq!(body, br#"{"model":"x"}"#);
}

#[test]
fn substitutes_the_real_credential_per_kind() {
    let (_, (_, headers, _)) = sent("/anthropic/v1/messages", None, "{}");
    assert_eq!(headers["x-api-key"], "sk-ant-real");
    assert_eq!(headers["anthropic-version"], "2023-06-01");
    assert!(headers.get("authorization").is_none());

    let (_, (_, headers, _)) = sent("/xai/v1/chat/completions", None, "{}");
    assert_eq!(headers["authorization"], "Bearer xai-real");
    assert!(headers.get("x-api-key").is_none());

    let (_, (_, headers, _)) = sent("/azure-eu/openai/deployments/gpt/chat", None, "{}");
    assert_eq!(headers["api-key"], "azure-real");
    assert!(headers.get("authorization").is_none());
}

#[test]
fn unknown_prefix_is_rejected_before_any_upstream_call() {
    let (x, action) = Exchange::open(&registry(), "POST", "/openai/v1/chat/completions", None);
    let (reply, got) = refused(action);
    assert_eq!(reply.status, 404);
    assert_eq!(got["error"]["type"], "unknown_provider");
    assert_eq!(
        got["error"]["message"],
        "no provider matches /openai/v1/chat/completions; configured: anthropic, azure-eu, xai"
    );
    let event = Event::BodyRead { headers: client_headers(), body: vec![] };
    let (_, action) = step(x, event);
    assert!(matches!(action, Action::Nothing));
}

#[test]
fn json_responses_are_metered_by_provider_and_model() {
    let mut totals = Totals::default();
    for _ in 0..2 {
        let (x, _) = sent("/anthropic/v1/messages", None, "{}");
        finish(respond(x, answered("application/json")), DOCUMENT, 20, &mut totals);
    }
    assert_eq!(listed(&totals), vec![("anthropic/haiku-4-5".to_string(), 22, 14)]);
    assert_eq!(totals.requests, 2);
}

#[test]
fn streaming_responses_are_metered() {
    let mut totals = Totals::default();
    let (x, _) = sent("/anthropic/sse", None, "");
    let (x, action) = step(x, answered("text/event-stream"));
    match action {
        Action::Respond { status, headers } => {
            assert_eq!(status, 200);
            assert_eq!(headers["content-type"], "text/event-stream");
            assert!(headers.get("transfer-encoding").is_none());
        }
        _ => panic!("no response"),
    }
    finish(x, STREAM, 17, &mut totals);

    // output_tokens comes from message_delta, the rest from message_start.
    assert_eq!(listed(&totals), vec![("anthropic/sonnet-5".to_string(), 100, 25)]);
    assert_eq!(totals.by_model.get("anthropic/sonnet-5").unwrap().cache_read, 40);
}

#[test]
fn openai_shaped_kinds_are_not_metered_yet() {
    let mut totals = Totals::default();
    let (x, _) = sent("/xai/v1/chat/completions", None, "{}");
    finish(respond(x, answered("application/json")), DOCUMENT, 20, &mut totals);
    assert!(listed(&totals).is_empty());
}

#[test]
fn failed_responses_are_not_metered() {
    for status in [199, 300, 404, 529] {
        let mut totals = Totals::default();
        let (x, _) = sent("/anthropic/v1/messages", None, "{}");
        let x = respond(x, Event::Answered { status, headers: HeaderMap::new() });
        finish(x, DOCUMENT, 20, &mut totals);
        assert!(listed(&totals).is_empty());
    }
    let p = provider("a", Kind::Anthropic, "k");
    assert!(sniffer_for(&p, 200, "").is_some());
    assert!(sniffer_for(&p, 299, "").is_some());
    assert!(sniffer_for(&p, 300, "").is_none());
    assert!(sniffer_for(&provider("a", Kind::Azure, "k"), 200, "").is_none());
}

#[test]
fn client_that_leaves_midway_is_metered() {
    let mut totals = Totals::default();
    let (x, _) = sent("/anthropic/v1/messages", None, "{}");
    let x = respond(x, answered("text/event-stream"));
    finish(x, &STREAM[..STREAM.len() - 10], 1000, &mut totals);
    assert_eq!(listed(&totals), vec![("anthropic/sonnet-5".to_string(), 100, 1)]);

    // One that leaves before the response starts is not.
    let (x, _) = sent("/anthropic/v1/messages", None, "{}");
    assert!(matches!(step(x, Event::Ended).1, Action::Nothing));
}

#[test]
fn broken_response_keeps_what_was_seen() {
    let mut totals = Totals::default();
    let (x, _) = sent("/anthropic/v1/messages", None, "{}");
    let x = respond(x, answered("application/json"));
    let (x, action) = step(x, Event::Chunk { bytes: DOCUMENT });
    assert!(matches!(action, Action::PassOn));
    let (x, action) = step(x, Event::Broken);
    assert!(matches!(action, Action::PassOn));
    finish(x, b"", 1, &mut totals);
    assert_eq!(totals.requests, 1);
}

#[test]
fn refused_body_is_answered_and_not_sent() {
    let (x, _) = Exchange::open(&registry(), "POST", "/xai", None);
    assert_eq!(x.url().unwrap(), "http://127.0.0.1:9/");
    let (x, action) = step(x, Event::BodyRefused { error: "length limit exceeded".to_string() });
    let (reply, got) = refused(action);
    assert_eq!(reply.status, 413);
    assert_eq!(got["error"]["type"], "invalid_request");
    assert_eq!(got["error"]["message"], "reading request body: length limit exceeded");
    assert!(x.url().is_none());
    let event = Event::BodyRead { headers: client_headers(), body: vec![] };
    assert!(matches!(step(x, event).1, Action::Nothing));
}

#[test]
fn upstream_failure_is_answered() {
    let (x, _) = sent("/xai/v1", None, "{}");
    assert!(x.url().is_none());
    let (_, action) = step(x, Event::SendFailed { error: "no route".to_string() });
    let (reply, got) = refused(action);
    assert_eq!(reply.status, 502);
    assert_eq!(got["error"]["type"], "upstream_error");
    assert_eq!(got["error"]["message"], "sending upstream: no route");
}

#[test]
fn request_is_sent_once() {
    let (x, _) = sent("/xai/v1", None, "{}");
    let event = Event::BodyRead { headers: client_headers(), body: vec![] };
    assert!(matches!(step(x, event).1, Action::Nothing));
}

#[test]
fn too_many_headers_stop_a_request() {
    let many = |n: usize| {
        let mut headers: HeaderMap = HeaderMap::new();
        for i in 0..n {
            let name = http::HeaderName::from_bytes(format!("x-{i}").as_bytes()).unwrap();
            headers.insert(name, HeaderValue::from_static("v"));
        }
        headers
    };
    let event = |n: usize| Event::BodyRead { headers: many(n), body: vec![] };
    let (x, _) = Exchange::open(&registry(), "PUT", "/xai", None);
    assert!(matches!(x.step(event(7000)).unwrap().1, Action::Send { method, .. } if method == "PUT"));
    let (x, _) = Exchange::open(&registry(), "PUT", "/xai", None);
    assert!(x.step(event(24576)).is_none());
    // Once it is sent, headers do not matter any more.
    let (x, _) = sent("/xai", None, "");
    assert!(matches!(x.step(event(24576)).unwrap().1, Action::Nothing));
}

#[test]
fn error_body_reads_back() {
    let reply = error_response(418, "a \"kind\"", "line\none \u{1} é");
    assert_eq!(reply.status, 418);
    assert_eq!(reply.content_type, "application/json");
    let got: Value = serde_json::from_str(&reply.body).unwrap();
    assert_eq!(got["error"]["type"], "a \"kind\"");
    assert_eq!(got["error"]["message"], "line\none \u{1} é");
    assert_eq!(got.as_object().unwrap().len(), 1);
    assert_eq!(got["error"].as_object().unwrap().len(), 2);
    assert_eq!(
        error_response(500, "k", "m").body,
        r#"{"error":{"message":"m","type":"k"}}"#
    );
}

#[test]
fn registry_without_providers_says_so() {
    let (_, action) = Exchange::open(&Registry::new(vec![]), "GET", "/x", None);
    let (_, got) = refused(action);
    assert_eq!(got["error"]["message"], "no provider matches /x; configured: ");
}
