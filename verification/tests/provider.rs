//! Providers and the registry.
use clavem::config::{Config, ProviderConfig, Server, UserPath};
use clavem::headers::content_type;
use clavem::provider::{strip_response_headers, Kind, Provider, Registry, StartError};
use http::{HeaderMap, HeaderName, HeaderValue};

fn provider(name: &str, kind: Kind, base_url: &str, api_key: &str) -> Provider {
    Provider::new(name, kind, base_url, api_key).ok().unwrap()
}

fn registry() -> Registry {
    Registry::new(vec![
        provider("anthropic", Kind::Anthropic, "https://api.anthropic.com", "sk-ant-real"),
        provider("xai", Kind::Xai, "https://api.x.ai", "xai-real"),
        provider("azure-eu", Kind::Azure, "https://eu.openai.azure.com/", "azure-real"),
    ])
}

fn header_value(s: &str) -> HeaderValue {
    HeaderValue::from_str(s).unwrap()
}

fn get(headers: &HeaderMap, name: &str) -> Option<String> {
    headers.get(name).map(|v| v.to_str().unwrap_or_default().to_string())
}

#[test]
fn rejects_a_key_that_cannot_be_a_header_value() {
    let err = Provider::new("anthropic", Kind::Anthropic, "https://x", "bad\nkey")
        .err()
        .unwrap()
        .message();
    assert!(err.contains("not a valid header value"), "{err}");
    assert_eq!(err, "provider \"anthropic\": api key is not a valid header value");
}

#[test]
fn routes_prefix_to_provider_and_rest() {
    let r = registry();
    let (p, rest) = r.route("/anthropic/v1/messages").unwrap();
    assert_eq!(p.name, "anthropic");
    assert_eq!(rest, "v1/messages");
    assert_eq!(
        p.upstream_url(&rest, Some("beta=true")),
        "https://api.anthropic.com/v1/messages?beta=true"
    );
}

#[test]
fn routes_bare_prefix_to_empty_rest() {
    let r = registry();
    let (p, rest) = r.route("/xai").unwrap();
    assert_eq!(p.name, "xai");
    assert_eq!(rest, "");
    assert_eq!(p.upstream_url(&rest, None), "https://api.x.ai/");
}

#[test]
fn unknown_prefix_does_not_route() {
    assert!(registry().route("/openai/v1/chat/completions").is_none());
    assert!(registry().route("/").is_none());
}

#[test]
fn anthropic_swaps_key_and_defaults_version() {
    let mut client = HeaderMap::new();
    client.insert("x-api-key", header_value("client-placeholder"));
    client.insert("content-type", header_value("application/json"));
    client.insert("host", header_value("127.0.0.1:4567"));

    let (p, _) = registry().route("/anthropic/v1/messages").unwrap();
    let out = p.upstream_headers(&client).unwrap();
    assert_eq!(get(&out, "x-api-key").as_deref(), Some("sk-ant-real"));
    assert_eq!(get(&out, "anthropic-version").as_deref(), Some("2023-06-01"));
    assert_eq!(get(&out, "content-type").as_deref(), Some("application/json"));
    assert!(out.get("host").is_none());
}

#[test]
fn anthropic_keeps_client_supplied_version() {
    let mut client = HeaderMap::new();
    client.insert("anthropic-version", header_value("2024-10-22"));
    let (p, _) = registry().route("/anthropic").unwrap();
    let out = p.upstream_headers(&client).unwrap();
    assert_eq!(get(&out, "anthropic-version").as_deref(), Some("2024-10-22"));
}

#[test]
fn xai_gets_bearer_and_azure_gets_api_key() {
    let mut client = HeaderMap::new();
    client.insert("authorization", header_value("Bearer client-placeholder"));

    let (xai, _) = registry().route("/xai/v1/chat/completions").unwrap();
    let out = xai.upstream_headers(&client).unwrap();
    assert_eq!(get(&out, "authorization").as_deref(), Some("Bearer xai-real"));
    assert!(out.get("anthropic-version").is_none());

    let (azure, _) = registry().route("/azure-eu/openai/deployments/x").unwrap();
    let out = azure.upstream_headers(&client).unwrap();
    assert_eq!(get(&out, "api-key").as_deref(), Some("azure-real"));
    // The client's placeholder bearer must not reach Azure.
    assert!(out.get("authorization").is_none());
}

#[test]
fn credential_is_marked_as_sensitive() {
    let (p, _) = registry().route("/xai").unwrap();
    let out = p.upstream_headers(&HeaderMap::new()).unwrap();
    assert!(out["authorization"].is_sensitive());
    assert_eq!(out.len(), 1);
}

#[test]
fn withheld_headers_stay_behind_and_others_pass() {
    let mut client = HeaderMap::new();
    for name in [
        "host",
        "x-api-key",
        "authorization",
        "api-key",
        "content-length",
        "connection",
        "keep-alive",
        "proxy-authenticate",
        "proxy-authorization",
        "te",
        "trailer",
        "transfer-encoding",
        "upgrade",
        "accept-encoding",
    ] {
        client.append(name, header_value("theirs"));
    }
    client.append("x-tag", header_value("one"));
    client.append("accept", header_value("*/*"));
    client.append("x-tag", header_value("two"));
    client.append("X-Tag", header_value("one"));
    client.append("x-raw", HeaderValue::from_bytes(&[200, 201]).unwrap());
    let (p, _) = registry().route("/azure-eu").unwrap();
    let out = p.upstream_headers(&client).unwrap();
    let mut names: Vec<&str> = out.keys().map(|n| n.as_str()).collect();
    names.sort();
    assert_eq!(names, vec!["accept", "api-key", "x-raw", "x-tag"]);
    let tags: Vec<&HeaderValue> = out.get_all("x-tag").iter().collect();
    assert_eq!(tags, vec!["one", "two", "one"]);
    assert_eq!(out["x-raw"].as_bytes(), &[200, 201]);
    assert_eq!(out["api-key"], "azure-real");
}

fn many_headers(n: usize) -> HeaderMap {
    let mut headers = HeaderMap::new();
    for i in 0..n {
        let name = HeaderName::from_bytes(format!("x-{i}").as_bytes()).unwrap();
        headers.insert(name, header_value("v"));
    }
    headers
}

#[test]
fn headers_are_sent_as_long_as_a_map_holds_them() {
    let (p, _) = registry().route("/anthropic").unwrap();
    assert_eq!(p.upstream_headers(&many_headers(6552)).unwrap().len(), 6554);
    assert_eq!(p.upstream_headers(&many_headers(7000)).unwrap().len(), 7002);
    assert_eq!(p.upstream_headers(&many_headers(24574)).unwrap().len(), 24576);
    assert!(p.upstream_headers(&many_headers(24575)).is_none());
    assert!(p.upstream_headers(&many_headers(24576)).is_none());
}

#[test]
fn response_loses_connection_headers_only() {
    let mut headers = HeaderMap::new();
    for name in
        ["connection", "content-length", "keep-alive", "transfer-encoding", "upgrade", "te", "date"]
    {
        headers.append(name, header_value("a"));
        headers.append(name, header_value("b"));
    }
    strip_response_headers(&mut headers);
    let once: Vec<(String, HeaderValue)> =
        headers.iter().map(|(n, v)| (n.to_string(), v.clone())).collect();
    assert_eq!(once.len(), 4);
    assert_eq!(headers.get_all("te").iter().count(), 2);
    assert_eq!(headers.get_all("date").iter().count(), 2);
    strip_response_headers(&mut headers);
    assert_eq!(headers.len(), 4);
}

#[test]
fn content_type_is_the_first_readable_one() {
    let mut headers = HeaderMap::new();
    assert_eq!(content_type(&headers), "");
    headers.append("content-type", header_value("text/event-stream; charset=utf-8"));
    headers.append("content-type", header_value("application/json"));
    assert_eq!(content_type(&headers), "text/event-stream; charset=utf-8");
    headers.insert("content-type", HeaderValue::from_bytes(&[b'a', 0xe9]).unwrap());
    assert_eq!(content_type(&headers), "");
    headers.insert("content-type", header_value("a\tb"));
    assert_eq!(content_type(&headers), "a\tb");
}

#[test]
fn routes_split_at_the_first_slash_after_the_leading_ones() {
    let r = registry();
    let (p, rest) = r.route("//xai//v1/").unwrap();
    assert_eq!(p.name, "xai");
    assert_eq!(rest, "/v1/");
    let (p, rest) = r.route("xai/").unwrap();
    assert_eq!(p.name, "xai");
    assert_eq!(rest, "");
    assert!(r.route("").is_none());
    assert!(r.route("/XAI").is_none());
    assert!(r.route("/xai2/v1").is_none());
}

#[test]
fn later_provider_of_a_name_counts() {
    let r = Registry::new(vec![
        provider("a", Kind::Xai, "http://one", "k"),
        provider("b", Kind::Azure, "http://b", "k"),
        provider("a", Kind::Azure, "http://two//", "k"),
    ]);
    let (p, _) = r.route("/a").unwrap();
    assert_eq!(p.base_url, "http://two");
    assert_eq!(p.kind, Kind::Azure);
    assert_eq!(r.providers().len(), 2);
}

#[test]
fn providers_come_in_the_order_of_their_names() {
    let names: Vec<String> = registry().providers().iter().map(|p| p.name.clone()).collect();
    assert_eq!(names, vec!["anthropic", "azure-eu", "xai"]);
    assert!(Registry::new(vec![]).providers().is_empty());
}

#[test]
fn debug_text_does_not_show_the_credential() {
    let p = provider("an\"thropic", Kind::Anthropic, "https://x/", "sk-ant-real");
    assert_eq!(
        p.debug_text(),
        "Provider { name: \"an\\\"thropic\", kind: Anthropic, base_url: \"https://x\", .. }"
    );
    let q = provider("an\"thropic", Kind::Anthropic, "https://x/", "another");
    assert_eq!(p.debug_text(), q.debug_text());
    assert!(provider("a", Kind::Xai, "x", "k").debug_text().contains("kind: Xai,"));
    assert!(provider("a", Kind::Azure, "x", "k").debug_text().contains("kind: Azure,"));
}

#[test]
fn keys_that_can_be_header_values() {
    for key in ["", "a\tb", "é", "~"] {
        assert!(Provider::new("a", Kind::Azure, "x", key).is_ok(), "{key:?}");
    }
    for key in ["\u{7f}", "\r", "a\0b"] {
        assert!(Provider::new("a", Kind::Azure, "x", key).is_err(), "{key:?}");
    }
}

fn config() -> Config {
    let entry = |name: &str, kind: Kind| ProviderConfig {
        name: name.to_string(),
        kind,
        base_url: format!("https://{name}.example"),
        key_file: UserPath::Plain(format!("/keys/{name}")),
    };
    Config {
        server: Server::default(),
        providers: vec![entry("one", Kind::Anthropic), entry("two", Kind::Xai)],
    }
}

fn texts(one: Option<&str>, two: Option<&str>) -> Vec<Option<String>> {
    vec![one.map(str::to_string), two.map(str::to_string)]
}

#[test]
fn registry_of_a_configuration() {
    let c = Config::parse(config(), true).unwrap();
    let r = Registry::from_config(&c, &texts(Some("key-1\n"), Some(" key-2 "))).ok().unwrap();
    let (p, rest) = r.route("/two/v1/x").unwrap();
    assert_eq!(p.upstream_url(&rest, Some("a=b")), "https://two.example/v1/x?a=b");
    let out = p.upstream_headers(&HeaderMap::new()).unwrap();
    assert_eq!(out["authorization"], "Bearer key-2");
    let (p, _) = r.route("/one").unwrap();
    assert_eq!(p.upstream_headers(&HeaderMap::new()).unwrap()["x-api-key"], "key-1");
}

#[test]
fn first_key_that_is_not_in_order_is_reported() {
    let c = config();
    let unreadable = Registry::from_config(&c, &texts(Some("k"), None)).err().unwrap();
    assert_eq!(unreadable.message("/k"), "provider \"two\": reading key from /k");
    assert_eq!(unreadable.cause(), None);
    assert!(matches!(unreadable, StartError::KeyUnreadable { at: 1, .. }));
    let empty = Registry::from_config(&c, &texts(Some(" \n"), None)).err().unwrap();
    assert_eq!(empty.message("/k"), "provider \"one\": reading key from /k");
    assert_eq!(empty.cause().as_deref(), Some("key file is empty"));
    assert!(matches!(&empty, StartError::KeyEmpty { at: 0, .. }));
    let invalid = Registry::from_config(&c, &texts(Some("k"), Some("a\nb"))).err().unwrap();
    assert_eq!(invalid.message("/k"), "provider \"two\": api key is not a valid header value");
    assert_eq!(invalid.message_with("'two'", "/k"), "provider 'two': api key is not a valid header value");
    assert_eq!(empty.message_with("'one'", "/k"), "provider 'one': reading key from /k");
    assert_eq!(invalid.cause(), None);
    match invalid {
        StartError::KeyInvalid { at, error } => {
            assert_eq!(at, 1);
            assert_eq!(error.provider, "two");
            assert_eq!(error.cause.to_string(), "failed to parse header value");
        }
        other => panic!("{other:?}"),
    }
}
