//! The sniffer: it reads model and token counts out of an Anthropic Messages
//! API response while the response passes through.
use vstd::prelude::*;
use vstd::string::*;
use vstd::utf8::*;

use crate::json;
use crate::line_endings;
use crate::sse;
use crate::text;
use crate::usage;
use crate::usage::Tokens;

verus! {

/// What a sniffer has taken in and learned.
#[verifier::ext_equal]
pub struct Sniffed {
    /// Whether the response is a stream of events; else it is one JSON document.
    pub is_sse: bool,
    /// The bytes of the stream that do not make up an event yet.
    pub leftover: Seq<u8>,
    /// The bytes of the document.
    pub json_buf: Seq<u8>,
    /// The model that the stream has named.
    pub model: Option<Seq<char>>,
    /// The counts that the stream has given.
    pub tokens: Tokens,
}

/// What is known of a response of this content type before its first byte.
pub open spec fn nothing_sniffed(content_type: Seq<char>) -> Sniffed {
    Sniffed {
        is_sse: text::contains(content_type, "text/event-stream"@),
        leftover: Seq::empty(),
        json_buf: Seq::empty(),
        model: None,
        tokens: usage::no_tokens(),
    }
}

/// The count `key` of a usage object: zero where it is missing or no count.
pub open spec fn count_in(usage: json::Json, key: Seq<char>) -> u64 {
    match json::member(usage, key) {
        Some(count) => match json::integer_of(count) {
            Some(n) => n,
            None => 0,
        },
        None => 0,
    }
}

/// The counts that a usage object gives.
pub open spec fn usage_in(usage: json::Json) -> Tokens {
    Tokens {
        input: count_in(usage, "input_tokens"@),
        output: count_in(usage, "output_tokens"@),
        cache_create: count_in(usage, "cache_creation_input_tokens"@),
        cache_read: count_in(usage, "cache_read_input_tokens"@),
    }
}

/// The counts that the member `usage` of a value gives, where it has one.
pub open spec fn usage_member(j: json::Json) -> Option<Tokens> {
    match json::member(j, "usage"@) {
        Some(usage) => Some(usage_in(usage)),
        None => None,
    }
}

/// The string that the member `model` of a value holds, where it has one.
pub open spec fn model_member(j: json::Json) -> Option<Seq<char>> {
    match json::member(j, "model"@) {
        Some(model) => json::text_of(model),
        None => None,
    }
}

/// The counts after a `message_delta`. The output count is the one that the
/// event gives; of the others, those that are not zero.
pub open spec fn updated(tokens: Tokens, delta: Tokens) -> Tokens {
    Tokens {
        input: if delta.input > 0 {
            delta.input
        } else {
            tokens.input
        },
        output: delta.output,
        cache_create: if delta.cache_create > 0 {
            delta.cache_create
        } else {
            tokens.cache_create
        },
        cache_read: if delta.cache_read > 0 {
            delta.cache_read
        } else {
            tokens.cache_read
        },
    }
}

impl Sniffed {
    /// The state after a `message_start` that names `model` and gives `usage`,
    /// each where it is there.
    pub open spec fn after_start(self, model: Option<Seq<char>>, usage: Option<Tokens>) -> Sniffed {
        Sniffed {
            model: if model is Some {
                model
            } else {
                self.model
            },
            tokens: match usage {
                Some(t) => t,
                None => self.tokens,
            },
            ..self
        }
    }

    /// The state after a `message_delta` that gives `usage`, where it is there.
    pub open spec fn after_delta(self, usage: Option<Tokens>) -> Sniffed {
        match usage {
            Some(t) => Sniffed { tokens: updated(self.tokens, t), ..self },
            None => self,
        }
    }

    /// The state after the event `name` with the data `j`.
    pub open spec fn after_data(self, name: Seq<char>, j: json::Json) -> Sniffed {
        if name == "message_start"@ {
            match json::member(j, "message"@) {
                Some(message) => self.after_start(model_member(message), usage_member(message)),
                None => self,
            }
        } else if name == "message_delta"@ {
            self.after_delta(usage_member(j))
        } else {
            self
        }
    }

    /// The state after the event whose bytes are `raw`.
    pub open spec fn after_event(self, raw: Seq<u8>) -> Sniffed {
        match sse::named_event(raw) {
            Some((name, data)) => match json::json_document(encode_utf8(data)) {
                Some(j) => self.after_data(name, j),
                None => self,
            },
            None => self,
        }
    }

    /// The state after all whole events in the leftover bytes.
    pub open spec fn drained(self) -> Sniffed
        decreases self.leftover.len(),
    {
        proof {
            sse::lemma_boundary_in_range(self.leftover, 0);
        }
        match sse::boundary(self.leftover) {
            Some(n) => Sniffed { leftover: self.leftover.skip(n), ..self }.after_event(
                self.leftover.take(n),
            ).drained(),
            None => self,
        }
    }

    /// The state after `chunk`.
    pub open spec fn fed(self, chunk: Seq<u8>) -> Sniffed {
        if self.is_sse {
            Sniffed { leftover: self.leftover + chunk, ..self }.drained()
        } else {
            Sniffed { json_buf: self.json_buf + chunk, ..self }
        }
    }

    /// The document that the bytes make up. Without any bytes there is none.
    pub open spec fn document(self) -> Option<json::Json> {
        if self.json_buf.len() == 0 {
            None
        } else {
            json::json_document(self.json_buf)
        }
    }

    /// What the response has used, as far as it has been fed: the model and its
    /// counts. A document gives them only where it names both.
    pub open spec fn outcome(self) -> Option<(Seq<char>, Tokens)> {
        if self.is_sse {
            match self.model {
                Some(model) => Some((model, self.tokens)),
                None => Some(("unknown"@, self.tokens)),
            }
        } else {
            match self.document() {
                Some(j) => document_usage(j),
                None => None,
            }
        }
    }
}

/// The model and the counts that a response document gives.
pub open spec fn document_usage(j: json::Json) -> Option<(Seq<char>, Tokens)> {
    match (model_member(j), usage_member(j)) {
        (Some(model), Some(tokens)) => Some((model, tokens)),
        _ => None,
    }
}

/// Sniffs an Anthropic Messages API response, either a stream of server-sent
/// events or a single JSON document.
pub struct Sniffer {
    is_sse: bool,
    leftover: Vec<u8>,
    json_buf: Vec<u8>,
    model: Option<String>,
    tokens: Tokens,
}

impl View for Sniffer {
    type V = Sniffed;

    closed spec fn view(&self) -> Sniffed {
        Sniffed {
            is_sse: self.is_sse,
            leftover: self.leftover@,
            json_buf: self.json_buf@,
            model: match self.model {
                Some(model) => Some(model@),
                None => None,
            },
            tokens: self.tokens,
        }
    }
}

impl Sniffer {
    /// A sniffer for a response of this content type.
    pub fn new(content_type: &str) -> (r: Sniffer)
        ensures
            r@ == nothing_sniffed(content_type@),
    {
        Sniffer {
            is_sse: text::includes(content_type, "text/event-stream"),
            leftover: Vec::new(),
            json_buf: Vec::new(),
            model: None,
            tokens: Tokens::default(),
        }
    }

    /// Takes in the next bytes of the response.
    pub fn feed(&mut self, chunk: &[u8])
        ensures
            final(self)@ == old(self)@.fed(chunk@),
    {
        if !self.is_sse {
            self.json_buf.extend_from_slice(chunk);
            return ;
        }
        self.leftover.extend_from_slice(chunk);
        let ghost whole = self@;
        assert(whole == (Sniffed { leftover: old(self)@.leftover + chunk@, ..old(self)@ }));
        loop
            invariant
                self@.drained() == whole.drained(),
            ensures
                self@.drained() == whole.drained(),
                sse::boundary(self@.leftover) is None,
            decreases self.leftover@.len(),
        {
            let ghost before = self@;
            let end = match sse::find_event_boundary(self.leftover.as_slice()) {
                Some(end) => end,
                None => {
                    break ;
                },
            };
            let mut event = self.leftover.split_off(end);
            std::mem::swap(&mut event, &mut self.leftover);
            assert(event@ =~= before.leftover.take(end as int));
            assert(self@ =~= (Sniffed { leftover: before.leftover.skip(end as int), ..before }));
            self.process_event(event.as_slice());
        }
    }

    /// What the response has used: the model and its counts. Feeding may have
    /// ended anywhere; what was seen until then counts.
    pub fn finalize(self) -> (r: Option<(String, Tokens)>)
        ensures
            match r {
                Some((model, tokens)) => self@.outcome() == Some((model@, tokens)),
                None => self@.outcome() is None,
            },
    {
        if !self.is_sse {
            return match json::parse(self.json_buf.as_slice()) {
                Some(document) => read_document(&document),
                None => None,
            };
        }
        let model = match self.model {
            Some(model) => model,
            None => "unknown".to_string(),
        };
        Some((model, self.tokens))
    }

    /// Takes in one event of the stream.
    fn process_event(&mut self, raw: &[u8])
        ensures
            final(self)@ == old(self)@.after_event(raw@),
    {
        if let Some((name, data)) = sse::read_event(raw) {
            if let Some(value) = json::parse(data.as_str().as_bytes()) {
                self.apply(name.as_str(), &value);
            }
        }
    }

    /// Takes in the event `name` with the data `value`.
    pub fn apply(&mut self, name: &str, value: &serde_json::Value)
        ensures
            final(self)@ == old(self)@.after_data(name@, json::json_view(*value)),
    {
        if text::same(name, "message_start") {
            if let Some(message) = json::get(value, "message") {
                self.start(read_model(message), read_usage_member(message));
            }
        } else if text::same(name, "message_delta") {
            self.delta(read_usage_member(value));
        }
    }

    /// Takes in what a `message_start` says: the model that it names and the
    /// usage that it gives.
    pub fn start(&mut self, model: Option<String>, usage: Option<Tokens>)
        ensures
            final(self)@ == old(self)@.after_start(
                match model {
                    Some(model) => Some(model@),
                    None => None,
                },
                usage,
            ),
    {
        if let Some(model) = model {
            self.model = Some(model);
        }
        if let Some(t) = usage {
            self.tokens = t;
        }
    }

    /// Takes in the usage that a `message_delta` gives.
    pub fn delta(&mut self, usage: Option<Tokens>)
        ensures
            final(self)@ == old(self)@.after_delta(usage),
    {
        if let Some(t) = usage {
            if t.input > 0 {
                self.tokens.input = t.input;
            }
            if t.cache_create > 0 {
                self.tokens.cache_create = t.cache_create;
            }
            if t.cache_read > 0 {
                self.tokens.cache_read = t.cache_read;
            }
            self.tokens.output = t.output;
        }
    }
}

/// The model and the counts that a response document gives.
pub fn read_document(document: &serde_json::Value) -> (r: Option<(String, Tokens)>)
    ensures
        match r {
            Some((model, tokens)) => document_usage(json::json_view(*document)) == Some(
                (model@, tokens),
            ),
            None => document_usage(json::json_view(*document)) is None,
        },
{
    match (read_model(document), read_usage_member(document)) {
        (Some(model), Some(tokens)) => Some((model, tokens)),
        _ => None,
    }
}

/// The string that the member `model` of a value holds.
fn read_model(value: &serde_json::Value) -> (r: Option<String>)
    ensures
        match r {
            Some(model) => model_member(json::json_view(*value)) == Some(model@),
            None => model_member(json::json_view(*value)) is None,
        },
{
    match json::get(value, "model") {
        Some(model) => match model.as_str() {
            Some(s) => Some(s.to_string()),
            None => None,
        },
        None => None,
    }
}

/// The counts that the member `usage` of a value gives.
fn read_usage_member(value: &serde_json::Value) -> (r: Option<Tokens>)
    ensures
        r == usage_member(json::json_view(*value)),
{
    match json::get(value, "usage") {
        Some(usage) => Some(read_usage(usage)),
        None => None,
    }
}

/// The counts that a usage object gives; a count that is missing is zero.
pub fn read_usage(value: &serde_json::Value) -> (r: Tokens)
    ensures
        r == usage_in(json::json_view(*value)),
{
    Tokens {
        input: read_count(value, "input_tokens"),
        output: read_count(value, "output_tokens"),
        cache_create: read_count(value, "cache_creation_input_tokens"),
        cache_read: read_count(value, "cache_read_input_tokens"),
    }
}

fn read_count(value: &serde_json::Value, key: &str) -> (r: u64)
    ensures
        r == count_in(json::json_view(*value), key@),
{
    match json::get(value, key) {
        Some(count) => match count.as_u64() {
            Some(n) => n,
            None => 0,
        },
        None => 0,
    }
}

/// The state after `chunks`, one after the other.
pub open spec fn fed_all(state: Sniffed, chunks: Seq<Seq<u8>>) -> Sniffed
    decreases chunks.len(),
{
    if chunks.len() == 0 {
        state
    } else {
        fed_all(state, chunks.drop_last()).fed(chunks.last())
    }
}

/// `chunks` joined.
pub open spec fn joined(chunks: Seq<Seq<u8>>) -> Seq<u8>
    decreases chunks.len(),
{
    if chunks.len() == 0 {
        seq![]
    } else {
        joined(chunks.drop_last()) + chunks.last()
    }
}

proof fn lemma_drained_in_steps(state: Sniffed, more: Seq<u8>)
    ensures
        ({
            let first = state.drained();
            Sniffed { leftover: first.leftover + more, ..first }.drained() == Sniffed {
                leftover: state.leftover + more,
                ..state
            }.drained()
        }),
    decreases state.leftover.len(),
{
    let whole = Sniffed { leftover: state.leftover + more, ..state };
    match sse::boundary(state.leftover) {
        Some(n) => {
            sse::lemma_boundary_in_range(state.leftover, 0);
            sse::lemma_boundary_is_stable(state.leftover, more, 0);
            let next = Sniffed { leftover: state.leftover.skip(n), ..state }.after_event(
                state.leftover.take(n),
            );
            lemma_drained_in_steps(next, more);
            assert(whole.leftover.take(n) =~= state.leftover.take(n));
            assert(whole.leftover.skip(n) =~= state.leftover.skip(n) + more);
            assert(Sniffed { leftover: whole.leftover.skip(n), ..whole }.after_event(
                whole.leftover.take(n),
            ) =~= Sniffed { leftover: next.leftover + more, ..next });
        },
        None => {},
    }
}

proof fn lemma_drained(state: Sniffed)
    ensures
        state.drained().is_sse == state.is_sse,
        sse::boundary(state.drained().leftover) is None,
    decreases state.leftover.len(),
{
    match sse::boundary(state.leftover) {
        Some(n) => {
            sse::lemma_boundary_in_range(state.leftover, 0);
            lemma_drained(
                Sniffed { leftover: state.leftover.skip(n), ..state }.after_event(
                    state.leftover.take(n),
                ),
            );
        },
        None => {},
    }
}

/// Where a response is cut in two does not matter to what is sniffed of it.
pub proof fn law_feeding_in_two_steps(state: Sniffed, first: Seq<u8>, second: Seq<u8>)
    ensures
        state.fed(first).fed(second) == state.fed(first + second),
{
    if state.is_sse {
        let start = Sniffed { leftover: state.leftover + first, ..state };
        lemma_drained(start);
        lemma_drained_in_steps(start, second);
        assert((state.leftover + first) + second =~= state.leftover + (first + second));
    } else {
        assert((state.json_buf + first) + second =~= state.json_buf + (first + second));
    }
}

/// However a response is cut into chunks, what is sniffed of it is what is
/// sniffed of the whole.
pub proof fn law_feeding_in_chunks(state: Sniffed, chunks: Seq<Seq<u8>>)
    requires
        chunks.len() > 0,
    ensures
        fed_all(state, chunks) == state.fed(joined(chunks)),
    decreases chunks.len(),
{
    let front = chunks.drop_last();
    if front.len() == 0 {
        assert(joined(chunks) =~= chunks.last());
        assert(fed_all(state, front) == state);
    } else {
        law_feeding_in_chunks(state, front);
        law_feeding_in_two_steps(state, joined(front), chunks.last());
    }
}

/// After any number of bytes of a stream, what is kept back holds no whole
/// event, and the usage seen so far is there to be recorded.
pub proof fn law_partial_stream_counts(state: Sniffed, chunk: Seq<u8>)
    requires
        state.is_sse,
    ensures
        sse::boundary(state.fed(chunk).leftover) is None,
        state.fed(chunk).outcome() is Some,
{
    lemma_drained(Sniffed { leftover: state.leftover + chunk, ..state });
}

/// Of a stream that starts with a usage and ends with one, the output count is
/// that of the end. The other counts are those of the start, unless the end
/// gives them anew.
pub proof fn law_output_comes_from_the_delta(
    state: Sniffed,
    model: Seq<char>,
    start: Tokens,
    end: Tokens,
)
    requires
        state.is_sse,
    ensures
        ({
            let outcome = state.after_start(Some(model), Some(start)).after_delta(
                Some(end),
            ).outcome();
            &&& outcome == Some((model, updated(start, end)))
            &&& updated(start, end).output == end.output
            &&& end.input == 0 && end.cache_create == 0 && end.cache_read == 0 ==> updated(
                start,
                end,
            ) == (Tokens { output: end.output, ..start })
        }),
{
}

/// Events other than `message_start` and `message_delta` do not count.
pub proof fn law_other_events_do_not_count(state: Sniffed, name: Seq<char>, j: json::Json)
    requires
        name != "message_start"@,
        name != "message_delta"@,
    ensures
        state.after_data(name, j) == state,
{
}

/// Of a response of which nothing has come, a stream counts as one of an
/// unknown model that used nothing, and a document does not count.
pub proof fn law_nothing_fed(content_type: Seq<char>)
    ensures
        nothing_sniffed(content_type).outcome() == (if text::contains(
            content_type,
            "text/event-stream"@,
        ) {
            Some(("unknown"@, usage::no_tokens()))
        } else {
            None
        }),
{
}

proof fn lemma_crlf_drained(state: Sniffed)
    requires
        line_endings::no_return(state.leftover),
    ensures
        ({
            let plain = state.drained();
            Sniffed { leftover: line_endings::crlf(state.leftover), ..state }.drained() == Sniffed {
                leftover: line_endings::crlf(plain.leftover),
                ..plain
            }
        }),
    decreases state.leftover.len(),
{
    let b = state.leftover;
    let c = line_endings::crlf(b);
    line_endings::lemma_crlf_boundary(b);
    if let Some(n) = sse::boundary(b) {
        sse::lemma_boundary_in_range(b, 0);
        let event = b.take(n);
        let rest = b.skip(n);
        assert forall|i: int| 0 <= i < event.len() implies #[trigger] event[i] != 13 by {
            assert(b[i] != 13);
        }
        assert forall|i: int| 0 <= i < rest.len() implies #[trigger] rest[i] != 13 by {
            assert(b[i + n] != 13);
        }
        line_endings::lemma_crlf_parts(event, rest);
        line_endings::lemma_crlf_event(event);
        assert(b =~= event + rest);
        let m = line_endings::crlf(event).len() as int;
        assert(c.take(m) =~= line_endings::crlf(event));
        assert(c.skip(m) =~= line_endings::crlf(rest));
        let next = Sniffed { leftover: rest, ..state }.after_event(event);
        lemma_crlf_drained(next);
        assert(Sniffed { leftover: c.skip(m), ..state }.after_event(c.take(m)) =~= Sniffed {
            leftover: line_endings::crlf(next.leftover),
            ..next
        });
    }
}

/// A stream whose lines end in a carriage return and a line feed counts as the
/// stream whose lines end in a line feed alone.
pub proof fn law_crlf_streams_count_the_same(content_type: Seq<char>, stream: Seq<u8>)
    requires
        text::contains(content_type, "text/event-stream"@),
        !stream.contains(13),
    ensures
        nothing_sniffed(content_type).fed(line_endings::crlf(stream)).outcome()
            == nothing_sniffed(content_type).fed(stream).outcome(),
{
    let fresh = nothing_sniffed(content_type);
    assert forall|i: int| 0 <= i < stream.len() implies #[trigger] stream[i] != 13 by {
        assert(stream.contains(stream[i]));
    }
    assert(fresh.leftover + stream =~= stream);
    assert(fresh.leftover + line_endings::crlf(stream) =~= line_endings::crlf(stream));
    lemma_crlf_drained(Sniffed { leftover: stream, ..fresh });
    lemma_drained(Sniffed { leftover: stream, ..fresh });
}

/// Each of the four counts is the integer that the usage object has under its
/// name, and zero where it has none.
pub proof fn law_counts_of_a_usage_object(usage: json::Json)
    ensures
        match usage {
            json::Json::Object(members) => if members.dom().contains("input_tokens"@) {
                match members["input_tokens"@] {
                    json::Json::Number(Some(n)) => usage_in(usage).input == n,
                    _ => usage_in(usage).input == 0,
                }
            } else {
                usage_in(usage).input == 0
            },
            _ => usage_in(usage).input == 0,
        },
        match usage {
            json::Json::Object(members) => if members.dom().contains("output_tokens"@) {
                match members["output_tokens"@] {
                    json::Json::Number(Some(n)) => usage_in(usage).output == n,
                    _ => usage_in(usage).output == 0,
                }
            } else {
                usage_in(usage).output == 0
            },
            _ => usage_in(usage).output == 0,
        },
        match usage {
            json::Json::Object(members) => if members.dom().contains(
                "cache_creation_input_tokens"@,
            ) {
                match members["cache_creation_input_tokens"@] {
                    json::Json::Number(Some(n)) => usage_in(usage).cache_create == n,
                    _ => usage_in(usage).cache_create == 0,
                }
            } else {
                usage_in(usage).cache_create == 0
            },
            _ => usage_in(usage).cache_create == 0,
        },
        match usage {
            json::Json::Object(members) => if members.dom().contains("cache_read_input_tokens"@) {
                match members["cache_read_input_tokens"@] {
                    json::Json::Number(Some(n)) => usage_in(usage).cache_read == n,
                    _ => usage_in(usage).cache_read == 0,
                }
            } else {
                usage_in(usage).cache_read == 0
            },
            _ => usage_in(usage).cache_read == 0,
        },
{
}

/// After a `message_start` with one usage and a `message_delta` with another,
/// the output count is that of the delta, and each of the other counts is that
/// of the delta where it is above zero, and that of the start where it is not.
pub proof fn law_counts_after_start_and_delta(
    state: Sniffed,
    model: Seq<char>,
    start: Tokens,
    end: Tokens,
)
    requires
        state.is_sse,
    ensures
        state.after_start(Some(model), Some(start)).after_delta(Some(end)).outcome() == Some(
            (
                model,
                Tokens {
                    input: if end.input > 0 {
                        end.input
                    } else {
                        start.input
                    },
                    output: end.output,
                    cache_create: if end.cache_create > 0 {
                        end.cache_create
                    } else {
                        start.cache_create
                    },
                    cache_read: if end.cache_read > 0 {
                        end.cache_read
                    } else {
                        start.cache_read
                    },
                },
            ),
        ),
{
}

/// A `message_start` sets the model and the counts to those of its message, and
/// nothing else.
pub proof fn law_message_start(
    state: Sniffed,
    event: Map<Seq<char>, json::Json>,
    message: Map<Seq<char>, json::Json>,
    used: Map<Seq<char>, json::Json>,
    model: Seq<char>,
    t: Tokens,
)
    requires
        event.dom().contains("message"@),
        event["message"@] == json::Json::Object(message),
        message.dom().contains("model"@),
        message["model"@] == json::Json::Text(model),
        message.dom().contains("usage"@),
        message["usage"@] == json::Json::Object(used),
        used.dom().contains("input_tokens"@),
        used["input_tokens"@] == json::Json::Number(Some(t.input)),
        used.dom().contains("output_tokens"@),
        used["output_tokens"@] == json::Json::Number(Some(t.output)),
        used.dom().contains("cache_creation_input_tokens"@),
        used["cache_creation_input_tokens"@] == json::Json::Number(Some(t.cache_create)),
        used.dom().contains("cache_read_input_tokens"@),
        used["cache_read_input_tokens"@] == json::Json::Number(Some(t.cache_read)),
    ensures
        state.after_data("message_start"@, json::Json::Object(event)) == (Sniffed {
            is_sse: state.is_sse,
            leftover: state.leftover,
            json_buf: state.json_buf,
            model: Some(model),
            tokens: t,
        }),
{
}

/// A `message_start` leaves the model as it was where it names none, and the
/// counts where it gives no usage.
pub proof fn law_message_start_without(state: Sniffed, event: json::Json)
    ensures
        ({
            let after = state.after_data("message_start"@, event);
            let message = match event {
                json::Json::Object(members) => if members.dom().contains("message"@) {
                    members["message"@]
                } else {
                    json::Json::Other
                },
                _ => json::Json::Other,
            };
            &&& after.is_sse == state.is_sse
            &&& after.leftover == state.leftover
            &&& after.json_buf == state.json_buf
            &&& !(message matches json::Json::Object(m) && m.dom().contains("usage"@))
                ==> after.tokens == state.tokens
            &&& !(message matches json::Json::Object(m) && m.dom().contains("model"@)
                && m["model"@] is Text) ==> after.model == state.model
        }),
{
}

/// A `message_delta` sets the counts as its usage says, and nothing else.
pub proof fn law_message_delta(
    state: Sniffed,
    event: Map<Seq<char>, json::Json>,
    used: Map<Seq<char>, json::Json>,
    end: Tokens,
)
    requires
        event.dom().contains("usage"@),
        event["usage"@] == json::Json::Object(used),
        used.dom().contains("input_tokens"@),
        used["input_tokens"@] == json::Json::Number(Some(end.input)),
        used.dom().contains("output_tokens"@),
        used["output_tokens"@] == json::Json::Number(Some(end.output)),
        used.dom().contains("cache_creation_input_tokens"@),
        used["cache_creation_input_tokens"@] == json::Json::Number(Some(end.cache_create)),
        used.dom().contains("cache_read_input_tokens"@),
        used["cache_read_input_tokens"@] == json::Json::Number(Some(end.cache_read)),
    ensures
        ({
            let start = state.tokens;
            state.after_data("message_delta"@, json::Json::Object(event)) == Sniffed {
                is_sse: state.is_sse,
                leftover: state.leftover,
                json_buf: state.json_buf,
                model: state.model,
                tokens: Tokens {
                    input: if end.input > 0 {
                        end.input
                    } else {
                        start.input
                    },
                    output: end.output,
                    cache_create: if end.cache_create > 0 {
                        end.cache_create
                    } else {
                        start.cache_create
                    },
                    cache_read: if end.cache_read > 0 {
                        end.cache_read
                    } else {
                        start.cache_read
                    },
                },
            }
        }),
{
    reveal_strlit("message_start");
    reveal_strlit("message_delta");
    assert("message_start"@[8] == 's' && "message_delta"@[8] == 'd');
}

/// A `message_delta` without a usage changes nothing.
pub proof fn law_message_delta_without_usage(state: Sniffed, event: json::Json)
    requires
        !(event matches json::Json::Object(members) && members.dom().contains("usage"@)),
    ensures
        state.after_data("message_delta"@, event) == state,
{
    reveal_strlit("message_start");
    reveal_strlit("message_delta");
    assert("message_start"@[8] == 's' && "message_delta"@[8] == 'd');
}

/// A stream counts as its model, or as an unknown one, with the counts that it
/// has given.
pub proof fn law_outcome_of_a_stream(state: Sniffed)
    requires
        state.is_sse,
    ensures
        state.model matches Some(model) ==> state.outcome() == Some((model, state.tokens)),
        state.model is None ==> state.outcome() == Some(("unknown"@, state.tokens)),
{
}

/// A response document that names its model and gives the four counts counts as
/// that model with these counts, however it comes.
pub proof fn law_document_is_metered(
    content_type: Seq<char>,
    body: Seq<u8>,
    document: Map<Seq<char>, json::Json>,
    used: Map<Seq<char>, json::Json>,
    model: Seq<char>,
    t: Tokens,
)
    requires
        !text::contains(content_type, "text/event-stream"@),
        body.len() > 0,
        json::json_document(body) == Some(json::Json::Object(document)),
        document.dom().contains("model"@),
        document["model"@] == json::Json::Text(model),
        document.dom().contains("usage"@),
        document["usage"@] == json::Json::Object(used),
        used.dom().contains("input_tokens"@),
        used["input_tokens"@] == json::Json::Number(Some(t.input)),
        used.dom().contains("output_tokens"@),
        used["output_tokens"@] == json::Json::Number(Some(t.output)),
        used.dom().contains("cache_creation_input_tokens"@),
        used["cache_creation_input_tokens"@] == json::Json::Number(Some(t.cache_create)),
        used.dom().contains("cache_read_input_tokens"@),
        used["cache_read_input_tokens"@] == json::Json::Number(Some(t.cache_read)),
    ensures
        nothing_sniffed(content_type).fed(body).outcome() == Some((model, t)),
{
    assert(nothing_sniffed(content_type).fed(body).json_buf =~= body);
}

/// Of any response document, the outcome is the text of its member `model` and
/// the counts of its member `usage`; without either there is none.
pub proof fn law_outcome_of_a_document(content_type: Seq<char>, body: Seq<u8>)
    requires
        !text::contains(content_type, "text/event-stream"@),
        body.len() > 0,
    ensures
        match json::json_document(body) {
            Some(json::Json::Object(document)) => {
                if document.dom().contains("model"@) && document["model"@] is Text
                    && document.dom().contains("usage"@) {
                    nothing_sniffed(content_type).fed(body).outcome() == Some(
                        (document["model"@]->Text_0, usage_in(document["usage"@])),
                    )
                } else {
                    nothing_sniffed(content_type).fed(body).outcome() is None
                }
            },
            _ => nothing_sniffed(content_type).fed(body).outcome() is None,
        },
{
    assert(nothing_sniffed(content_type).fed(body).json_buf =~= body);
}

/// An event as it is sent is taken in as soon as it is there, before what
/// follows: by its name and the JSON value of its data, or not at all where the
/// data is no JSON text.
pub proof fn law_event_is_taken_in(
    state: Sniffed,
    name: Seq<char>,
    data: Seq<char>,
    rest: Seq<u8>,
)
    requires
        state.is_sse,
        state.leftover.len() == 0,
        forall|i: int| 0 <= i < name.len() ==> #[trigger] name[i] != '\n' && name[i] != '\r',
        name.len() > 0 ==> !text::white_space(name[0]) && !text::white_space(name.last()),
        forall|i: int| 0 <= i < data.len() ==> #[trigger] data[i] != '\n' && data[i] != '\r',
        data.len() > 0 ==> !text::white_space(data[0]),
    ensures
        ({
            let raw = encode_utf8("event: "@ + name + "\ndata: "@ + data + "\n\n"@);
            state.fed(raw + rest) == (match json::json_document(encode_utf8(data)) {
                Some(j) => state.after_data(name, j),
                None => state,
            }).fed(rest)
        }),
{
    let raw = encode_utf8("event: "@ + name + "\ndata: "@ + data + "\n\n"@);
    let buf = raw + rest;
    sse::law_written_event_reads_back(name, data);
    sse::law_written_event_is_one_event(name, data, rest);
    assert(state.leftover + buf =~= buf);
    assert(buf.take(raw.len() as int) =~= raw);
    assert(buf.skip(raw.len() as int) =~= rest);
    let whole = Sniffed { leftover: buf, ..state };
    let next = match json::json_document(encode_utf8(data)) {
        Some(j) => state.after_data(name, j),
        None => state,
    };
    assert(next.leftover + rest =~= rest);
    assert(Sniffed { leftover: rest, ..whole }.after_event(raw) =~= Sniffed {
        leftover: next.leftover + rest,
        ..next
    });
}

/// A stream of a `message_start` and a `message_delta` counts as the model that
/// the start names. The output count is that of the delta, and each of the
/// other counts is that of the delta where it is above zero, and that of the
/// start where it is not.
pub proof fn law_stream_is_metered(
    content_type: Seq<char>,
    start_data: Seq<char>,
    start_event: Map<Seq<char>, json::Json>,
    message: Map<Seq<char>, json::Json>,
    start_used: Map<Seq<char>, json::Json>,
    model: Seq<char>,
    start: Tokens,
    end_data: Seq<char>,
    end_event: Map<Seq<char>, json::Json>,
    end_used: Map<Seq<char>, json::Json>,
    end: Tokens,
)
    requires
        text::contains(content_type, "text/event-stream"@),
        forall|i: int|
            0 <= i < start_data.len() ==> #[trigger] start_data[i] != '\n' && start_data[i] != '\r',
        start_data.len() > 0 ==> !text::white_space(start_data[0]),
        forall|i: int|
            0 <= i < end_data.len() ==> #[trigger] end_data[i] != '\n' && end_data[i] != '\r',
        end_data.len() > 0 ==> !text::white_space(end_data[0]),
        json::json_document(encode_utf8(start_data)) == Some(json::Json::Object(start_event)),
        start_event.dom().contains("message"@),
        start_event["message"@] == json::Json::Object(message),
        message.dom().contains("model"@),
        message["model"@] == json::Json::Text(model),
        message.dom().contains("usage"@),
        message["usage"@] == json::Json::Object(start_used),
        start_used.dom().contains("input_tokens"@),
        start_used["input_tokens"@] == json::Json::Number(Some(start.input)),
        start_used.dom().contains("output_tokens"@),
        start_used["output_tokens"@] == json::Json::Number(Some(start.output)),
        start_used.dom().contains("cache_creation_input_tokens"@),
        start_used["cache_creation_input_tokens"@] == json::Json::Number(Some(start.cache_create)),
        start_used.dom().contains("cache_read_input_tokens"@),
        start_used["cache_read_input_tokens"@] == json::Json::Number(Some(start.cache_read)),
        json::json_document(encode_utf8(end_data)) == Some(json::Json::Object(end_event)),
        end_event.dom().contains("usage"@),
        end_event["usage"@] == json::Json::Object(end_used),
        end_used.dom().contains("input_tokens"@),
        end_used["input_tokens"@] == json::Json::Number(Some(end.input)),
        end_used.dom().contains("output_tokens"@),
        end_used["output_tokens"@] == json::Json::Number(Some(end.output)),
        end_used.dom().contains("cache_creation_input_tokens"@),
        end_used["cache_creation_input_tokens"@] == json::Json::Number(Some(end.cache_create)),
        end_used.dom().contains("cache_read_input_tokens"@),
        end_used["cache_read_input_tokens"@] == json::Json::Number(Some(end.cache_read)),
    ensures
        nothing_sniffed(content_type).fed(
            encode_utf8("event: "@ + "message_start"@ + "\ndata: "@ + start_data + "\n\n"@)
                + encode_utf8("event: "@ + "message_delta"@ + "\ndata: "@ + end_data + "\n\n"@),
        ).outcome() == Some(
            (
                model,
                Tokens {
                    input: if end.input > 0 {
                        end.input
                    } else {
                        start.input
                    },
                    output: end.output,
                    cache_create: if end.cache_create > 0 {
                        end.cache_create
                    } else {
                        start.cache_create
                    },
                    cache_read: if end.cache_read > 0 {
                        end.cache_read
                    } else {
                        start.cache_read
                    },
                },
            ),
        ),
{
    reveal_strlit("message_start");
    reveal_strlit("message_delta");
    let fresh = nothing_sniffed(content_type);
    let second = encode_utf8("event: "@ + "message_delta"@ + "\ndata: "@ + end_data + "\n\n"@);
    law_event_is_taken_in(fresh, "message_start"@, start_data, second);
    law_message_start(fresh, start_event, message, start_used, model, start);
    let started = fresh.after_data("message_start"@, json::Json::Object(start_event));
    let none = Seq::<u8>::empty();
    law_event_is_taken_in(started, "message_delta"@, end_data, none);
    assert(second + none =~= second);
    law_message_delta(started, end_event, end_used, end);
    let ended = started.after_data("message_delta"@, json::Json::Object(end_event));
    assert(ended.leftover + none =~= none);
    sse::lemma_boundary_in_range(none, 0);
    assert(ended.fed(none) =~= ended);
}

/// A response is streamed exactly where its content type says so.
pub proof fn law_streams_are_told_by_their_content_type(
    before: Seq<char>,
    after: Seq<char>,
    s: Seq<char>,
)
    ensures
        nothing_sniffed(before + "text/event-stream"@ + after).is_sse,
        nothing_sniffed(s).is_sse ==> exists|a: Seq<char>, b: Seq<char>|
            s == #[trigger] (a + "text/event-stream"@ + b),
{
    text::law_containing(before + "text/event-stream"@ + after, "text/event-stream"@);
    text::law_containing(s, "text/event-stream"@);
}

/// The bytes of a response are its chunks, one behind the other.
pub proof fn law_joining_chunks(chunks: Seq<Seq<u8>>, last: Seq<u8>)
    ensures
        joined(chunks.push(last)) == joined(chunks) + last,
        joined(Seq::<Seq<u8>>::empty()) == Seq::<u8>::empty(),
{
    assert(chunks.push(last).drop_last() =~= chunks);
}

/// What a start names and gives replaces what was known, and what it does not
/// name or give stays.
pub proof fn law_start(state: Sniffed, model: Option<Seq<char>>, usage: Option<Tokens>)
    ensures
        state.after_start(model, usage).is_sse == state.is_sse,
        state.after_start(model, usage).leftover == state.leftover,
        state.after_start(model, usage).json_buf == state.json_buf,
        model is Some ==> state.after_start(model, usage).model == model,
        model is None ==> state.after_start(model, usage).model == state.model,
        usage matches Some(t) ==> state.after_start(model, usage).tokens == t,
        usage is None ==> state.after_start(model, usage).tokens == state.tokens,
{
}

/// A delta replaces the output count, and each of the other counts where its own
/// is above zero. Nothing else changes, and without a usage nothing at all.
pub proof fn law_delta(state: Sniffed, t: Tokens)
    ensures
        ({
            let after = state.after_delta(Some(t));
            &&& after.is_sse == state.is_sse
            &&& after.leftover == state.leftover
            &&& after.json_buf == state.json_buf
            &&& after.model == state.model
            &&& after.tokens.output == t.output
            &&& t.input > 0 ==> after.tokens.input == t.input
            &&& t.input == 0 ==> after.tokens.input == state.tokens.input
            &&& t.cache_create > 0 ==> after.tokens.cache_create == t.cache_create
            &&& t.cache_create == 0 ==> after.tokens.cache_create == state.tokens.cache_create
            &&& t.cache_read > 0 ==> after.tokens.cache_read == t.cache_read
            &&& t.cache_read == 0 ==> after.tokens.cache_read == state.tokens.cache_read
        }),
        state.after_delta(None) == state,
{
}

/// Any bytes that make up one event, whatever their lines, are taken in before
/// what follows, by the name and the data that they say, or not at all.
pub proof fn law_any_event_is_taken_in(state: Sniffed, raw: Seq<u8>, rest: Seq<u8>)
    requires
        state.is_sse,
        state.leftover.len() == 0,
        sse::boundary(raw) == Some(raw.len() as int),
    ensures
        ({
            let next = match sse::named_event(raw) {
                Some((name, data)) => match json::json_document(encode_utf8(data)) {
                    Some(j) => state.after_data(name, j),
                    None => state,
                },
                None => state,
            };
            state.fed(raw + rest) == next.fed(rest)
        }),
{
    let buf = raw + rest;
    sse::lemma_boundary_is_stable(raw, rest, 0);
    sse::lemma_boundary_in_range(buf, 0);
    assert(state.leftover + buf =~= buf);
    assert(buf.take(raw.len() as int) =~= raw);
    assert(buf.skip(raw.len() as int) =~= rest);
    let whole = Sniffed { leftover: buf, ..state };
    let next = match sse::named_event(raw) {
        Some((name, data)) => match json::json_document(encode_utf8(data)) {
            Some(j) => state.after_data(name, j),
            None => state,
        },
        None => state,
    };
    assert(next.leftover + rest =~= rest);
    assert(Sniffed { leftover: rest, ..whole }.after_event(raw) =~= Sniffed {
        leftover: next.leftover + rest,
        ..next
    });
}

/// Bytes of a stream that make up no event yet are kept back and change nothing
/// else, and those of a document are all kept.
pub proof fn law_bytes_kept_back(state: Sniffed, chunk: Seq<u8>)
    ensures
        state.is_sse && sse::boundary(state.leftover + chunk) is None ==> state.fed(chunk) == (
        Sniffed {
            is_sse: state.is_sse,
            leftover: state.leftover + chunk,
            json_buf: state.json_buf,
            model: state.model,
            tokens: state.tokens,
        }),
        !state.is_sse ==> state.fed(chunk) == (Sniffed {
            is_sse: state.is_sse,
            leftover: state.leftover,
            json_buf: state.json_buf + chunk,
            model: state.model,
            tokens: state.tokens,
        }),
{
}

/// Before its first byte nothing is known of a response.
pub proof fn law_fresh_sniffer(content_type: Seq<char>)
    ensures
        nothing_sniffed(content_type).leftover.len() == 0,
        nothing_sniffed(content_type).json_buf.len() == 0,
        nothing_sniffed(content_type).model is None,
        nothing_sniffed(content_type).tokens == (Tokens {
            input: 0,
            output: 0,
            cache_create: 0,
            cache_read: 0,
        }),
{
}

} // verus!
