//! Token counts: totals, events and responses.
use clavem::sniffer::{read_document, read_usage};
use clavem::sse::{find_event_boundary, read_event};
use clavem::usage::{report_request, Sniffer, Tokens, Totals};
use serde_json::Value;

fn tokens(input: u64, output: u64, cache_create: u64, cache_read: u64) -> Tokens {
    Tokens { input, output, cache_create, cache_read }
}

fn counts(t: &Tokens) -> (u64, u64, u64, u64) {
    (t.input, t.output, t.cache_create, t.cache_read)
}

fn json(text: &str) -> Value {
    serde_json::from_str(text).unwrap()
}

const STREAM: &str = "event: message_start\ndata: {\"type\":\"message_start\",\"message\":{\"model\":\"sonnet-5\",\"usage\":{\"input_tokens\":100,\"output_tokens\":1,\"cache_read_input_tokens\":40}}}\n\nevent: content_block_delta\ndata: {\"type\":\"content_block_delta\",\"delta\":{\"type\":\"text_delta\",\"text\":\"hi\"}}\n\nevent: message_delta\ndata: {\"type\":\"message_delta\",\"usage\":{\"output_tokens\":25}}\n\n";

fn sniffed(content_type: &str, body: &[u8], size: usize) -> Option<(String, (u64, u64, u64, u64))> {
    let mut s = Sniffer::new(content_type);
    for chunk in body.chunks(size) {
        s.feed(chunk);
    }
    s.finalize().map(|(model, t)| (model, counts(&t)))
}

#[test]
fn adds_counts() {
    let mut t = tokens(1, 2, 3, 4);
    t.add(&tokens(10, 20, 30, 40));
    assert_eq!(counts(&t), (11, 22, 33, 44));
    assert_eq!(counts(&Tokens::default()), (0, 0, 0, 0));
    assert!(t.can_add(&tokens(u64::MAX - 11, 0, 0, 0)));
    assert!(!t.can_add(&tokens(u64::MAX - 10, 0, 0, 0)));
    assert!(!t.can_add(&tokens(0, u64::MAX, 0, 0)));
    assert!(!t.can_add(&tokens(0, 0, u64::MAX, 0)));
    assert!(!t.can_add(&tokens(0, 0, 0, u64::MAX)));
}

#[test]
fn totals_are_kept_per_provider_and_model() {
    let mut totals = Totals::default();
    let first = totals.record("one", "m", &tokens(1, 2, 3, 4));
    assert_eq!(counts(&first), (1, 2, 3, 4));
    totals.record("two", "m", &tokens(10, 20, 30, 40));
    let grand = totals.record("one", "m", &tokens(100, 200, 300, 400));
    assert_eq!(counts(&grand), (111, 222, 333, 444));
    assert_eq!(totals.requests, 3);
    let by_model: Vec<(String, (u64, u64, u64, u64))> =
        totals.by_model.entries().iter().map(|(k, v)| (k.clone(), counts(v))).collect();
    assert_eq!(
        by_model,
        vec![
            ("one/m".to_string(), (101, 202, 303, 404)),
            ("two/m".to_string(), (10, 20, 30, 40)),
        ]
    );
    assert_eq!(counts(totals.by_model.get("two/m").unwrap()), (10, 20, 30, 40));
    assert!(totals.by_model.get("three/m").is_none());
    assert!(totals.can_record("one", "m", &tokens(0, 0, 0, 0)));
    assert!(!totals.can_record("one", "m", &tokens(u64::MAX, 0, 0, 0)));
}

#[test]
fn grand_total_is_the_sum_of_the_totals() {
    let mut totals = Totals::default();
    for (i, model) in ["b", "a", "c", "a", "b", "aa", "B"].iter().enumerate() {
        totals.record("p", model, &tokens(i as u64, 2, 3 * i as u64, 1));
    }
    let mut sum = Tokens::default();
    let mut names = Vec::new();
    for (name, t) in totals.by_model.entries() {
        sum.add(t);
        names.push(name.as_str());
    }
    assert_eq!(counts(&sum), counts(&totals.grand));
    assert_eq!(names, vec!["p/B", "p/a", "p/aa", "p/b", "p/c"]);
}

#[test]
fn prints_no_usage() {
    let totals = Totals::default();
    assert!(totals.by_model.is_empty());
    assert_eq!(totals.print(), vec!["clavem: no usage recorded"]);
}

#[test]
fn prints_a_table() {
    let mut totals = Totals::default();
    totals.record("xai", "grok-é", &tokens(7, 0, 12345678901234567890, 10));
    totals.record("anthropic", "a-model-with-quite-a-long-name-indeed", &tokens(1, 20, 0, 4));
    let expected: Vec<String> = vec![
        "clavem totals (2 requests):".to_string(),
        format!(
            "  {:<32} {:>10} {:>10} {:>14} {:>12}",
            "model", "input", "output", "cache_create", "cache_read"
        ),
        format!(
            "  {:<32} {:>10} {:>10} {:>14} {:>12}",
            "anthropic/a-model-with-quite-a-long-name-indeed", 1, 20, 0, 4
        ),
        format!(
            "  {:<32} {:>10} {:>10} {:>14} {:>12}",
            "xai/grok-é", 7, 0, 12345678901234567890u64, 10
        ),
        format!(
            "  {:<32} {:>10} {:>10} {:>14} {:>12}",
            "TOTAL", 8, 20, 12345678901234567890u64, 14
        ),
    ];
    assert_eq!(totals.print(), expected);
    assert_eq!(
        expected[4],
        "  TOTAL                                     8         20 12345678901234567890           14"
    );
}

#[test]
fn reports_one_request() {
    assert_eq!(
        report_request("p", "m", &tokens(1, 2, 3, 4), &tokens(10, 20, 30, 18446744073709551615)),
        "[p/m] in=1 out=2 cache_create=3 cache_read=4 | total in=10 out=20 cache_create=30 cache_read=18446744073709551615"
    );
}

#[test]
fn finds_the_end_of_an_event() {
    assert_eq!(find_event_boundary(b""), None);
    assert_eq!(find_event_boundary(b"\n"), None);
    assert_eq!(find_event_boundary(b"a\n\nb\n\n"), Some(3));
    assert_eq!(find_event_boundary(b"\n\n"), Some(2));
    assert_eq!(find_event_boundary(b"a\r\n\r\nb"), Some(5));
    assert_eq!(find_event_boundary(b"a\r\n\r"), None);
    assert_eq!(find_event_boundary(b"a\n\r\nb"), None);
    assert_eq!(find_event_boundary(b"a\r\n\n"), Some(4));
    assert_eq!(find_event_boundary(b"a\rb\r\n\r\n\n\n"), Some(7));
}

#[test]
fn reads_the_fields_of_an_event() {
    let read = |raw: &[u8]| read_event(raw);
    assert_eq!(
        read(b"event: x \ndata:  {} \n\n"),
        Some(("x".to_string(), "{} ".to_string()))
    );
    assert_eq!(
        read(b"event:a\r\nevent:b\r\nid: 1\r\ndata:1\r\ndata: 2\r\n\r\n"),
        Some(("b".to_string(), "2".to_string()))
    );
    assert_eq!(read(b"data: 1\n\n"), None);
    assert_eq!(read(b"event: a\n\n"), None);
    assert_eq!(read(b" event: a\ndata: 1\n\n"), None);
    assert_eq!(read(b"event: \xff\ndata: 1\n\n"), None);
    assert_eq!(read("event: é\ndata: ü\r".as_bytes()), Some(("é".to_string(), "ü\r".to_string())));
}

#[test]
fn reads_usage_objects() {
    let t = read_usage(&json(
        r#"{"input_tokens":1,"output_tokens":2,"cache_creation_input_tokens":3,"cache_read_input_tokens":4}"#,
    ));
    assert_eq!(counts(&t), (1, 2, 3, 4));
    let t = read_usage(&json(
        r#"{"input_tokens":-1,"output_tokens":2.5,"cache_creation_input_tokens":"3","cache_read_input_tokens":null}"#,
    ));
    assert_eq!(counts(&t), (0, 0, 0, 0));
    assert_eq!(counts(&read_usage(&json("[1]"))), (0, 0, 0, 0));
    assert_eq!(counts(&read_usage(&json(r#"{"input_tokens":18446744073709551615}"#))), (u64::MAX, 0, 0, 0));
}

#[test]
fn documents_give_model_and_usage_or_nothing() {
    let full = read_document(&json(r#"{"model":"m","usage":{"input_tokens":5}}"#));
    let (model, t) = full.unwrap();
    assert_eq!(model, "m");
    assert_eq!(counts(&t), (5, 0, 0, 0));
    assert!(read_document(&json(r#"{"model":"m"}"#)).is_none());
    assert!(read_document(&json(r#"{"usage":{}}"#)).is_none());
    assert!(read_document(&json(r#"{"model":1,"usage":{}}"#)).is_none());
    assert!(read_document(&json("null")).is_none());
}

#[test]
fn sniffs_documents() {
    let body = br#"{"model":"haiku-4-5","usage":{"input_tokens":11,"output_tokens":7}}"#;
    let expected = Some(("haiku-4-5".to_string(), (11, 7, 0, 0)));
    assert_eq!(sniffed("application/json", body, 1000), expected);
    assert_eq!(sniffed("application/json", body, 1), expected);
    assert_eq!(sniffed("", body, 10), expected);
    assert_eq!(sniffed("application/json", &body[..30], 10), None);
    assert_eq!(sniffed("application/json", b"", 10), None);
}

#[test]
fn sniffs_streams_however_they_are_cut() {
    let expected = Some(("sonnet-5".to_string(), (100, 25, 0, 40)));
    for size in [1, 2, 3, 7, 64, 1000] {
        assert_eq!(sniffed("text/event-stream; charset=utf-8", STREAM.as_bytes(), size), expected);
    }
    let crlf = STREAM.replace('\n', "\r\n");
    for size in [1, 5, 1000] {
        assert_eq!(sniffed("text/event-stream", crlf.as_bytes(), size), expected);
    }
}

#[test]
fn partial_streams_count_what_was_seen() {
    let cut = STREAM.find("event: message_delta").unwrap();
    assert_eq!(
        sniffed("text/event-stream", &STREAM.as_bytes()[..cut], 11),
        Some(("sonnet-5".to_string(), (100, 1, 0, 40)))
    );
    // The last event lacks its blank line.
    assert_eq!(
        sniffed("text/event-stream", &STREAM.as_bytes()[..STREAM.len() - 1], 11),
        Some(("sonnet-5".to_string(), (100, 1, 0, 40)))
    );
    assert_eq!(
        sniffed("text/event-stream", b"event: mess", 1),
        Some(("unknown".to_string(), (0, 0, 0, 0)))
    );
}

#[test]
fn events_that_cannot_be_read_do_not_count() {
    let body = [
        "event: message_start\ndata: {not json}\n\n",
        "event: message_start\ndata: {\"message\":{\"model\":7}}\n\n",
        "event: ping\ndata: {\"usage\":{\"output_tokens\":9}}\n\n",
        "event: message_delta\ndata: {\"usage\":{\"output_tokens\":3,\"input_tokens\":2}}\n\n",
    ]
    .join("");
    assert_eq!(
        sniffed("text/event-stream", body.as_bytes(), 13),
        Some(("unknown".to_string(), (2, 3, 0, 0)))
    );
}

#[test]
fn delta_gives_counts_anew() {
    let mut s = Sniffer::new("text/event-stream");
    s.start(Some("m".to_string()), Some(tokens(1, 2, 3, 4)));
    s.start(None, None);
    s.delta(Some(tokens(10, 0, 0, 40)));
    s.delta(None);
    let (model, t) = s.finalize().unwrap();
    assert_eq!(model, "m");
    assert_eq!(counts(&t), (10, 0, 3, 40));

    let mut s = Sniffer::new("text/event-stream");
    s.apply("message_start", &json(r#"{"message":{"model":"m","usage":{"input_tokens":1}}}"#));
    s.apply("message_stop", &json(r#"{"usage":{"output_tokens":5}}"#));
    s.apply("message_delta", &json(r#"{"usage":{"output_tokens":6}}"#));
    assert_eq!(counts(&s.finalize().unwrap().1), (1, 6, 0, 0));
}

#[test]
fn nothing_fed() {
    assert_eq!(sniffed("application/json", b"", 1), None);
    assert_eq!(sniffed("TEXT/EVENT-STREAM", b"", 1), None);
    assert_eq!(
        sniffed("text/event-stream; charset=utf-8", b"", 1),
        Some(("unknown".to_string(), (0, 0, 0, 0)))
    );
}

#[test]
fn crlf_streams_count_as_their_plain_form() {
    let plain = format!("id: 1\nx\n\nevent: ping\n{}\n\n\nevent: message_delta\ndata: é\n\n{}", STREAM, &STREAM[..40]);
    let crlf = plain.replace('\n', "\r\n");
    assert_eq!(
        sniffed("text/event-stream", crlf.as_bytes(), 9),
        sniffed("text/event-stream", plain.as_bytes(), 9)
    );
    assert_eq!(
        sniffed("text/event-stream", b"event: message_start\r\ndata: \xff\r\n\r\n", 9),
        sniffed("text/event-stream", b"event: message_start\ndata: \xff\n\n", 9)
    );
}
