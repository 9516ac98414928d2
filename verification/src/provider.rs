//! Providers: where a request goes, with which headers and which credential,
//! and the registry that picks the provider by the first path segment.
use std::sync::Arc;

use vstd::prelude::*;
use vstd::string::*;
use vstd::utf8::*;

use crate::config;
use crate::config::{Config, ProviderConfig};
use crate::headers;
use crate::headers::{Field, Fields};
use crate::names;
use crate::names::NameMap;
use crate::text;

verus! {

/// Wire dialect of a provider. It decides which header carries the upstream
/// credential, and whether responses are metered.
#[derive(Debug, Clone, Copy, PartialEq, Eq, Structural)]
pub enum Kind {
    Anthropic,
    Xai,
    Azure,
}

impl Kind {
    /// The header that carries the credential.
    pub open spec fn slot(self) -> Seq<char> {
        match self {
            Kind::Anthropic => "x-api-key"@,
            Kind::Xai => "authorization"@,
            Kind::Azure => "api-key"@,
        }
    }

    /// The credential that the header carries for `api_key`.
    pub open spec fn credential(self, api_key: Seq<char>) -> Seq<char> {
        match self {
            Kind::Xai => "Bearer "@ + api_key,
            _ => api_key,
        }
    }

    /// The name of the dialect in code.
    pub open spec fn label(self) -> Seq<char> {
        match self {
            Kind::Anthropic => "Anthropic"@,
            Kind::Xai => "Xai"@,
            Kind::Azure => "Azure"@,
        }
    }
}

/// Headers of a request that are never forwarded: the client's own credential
/// slots, for which the real credential is substituted, the headers that
/// belong to one connection or give a length, and the compression that a
/// client accepts, since bodies are passed on as they come.
pub open spec fn withheld(name: Seq<char>) -> bool {
    ||| name == "host"@
    ||| name == "x-api-key"@
    ||| name == "authorization"@
    ||| name == "api-key"@
    ||| name == "content-length"@
    ||| name == "connection"@
    ||| name == "keep-alive"@
    ||| name == "proxy-authenticate"@
    ||| name == "proxy-authorization"@
    ||| name == "te"@
    ||| name == "trailer"@
    ||| name == "transfer-encoding"@
    ||| name == "upgrade"@
    ||| name == "accept-encoding"@
}

/// Headers of a response that belong to the connection to the upstream.
pub open spec fn connection_owned(name: Seq<char>) -> bool {
    ||| name == "connection"@
    ||| name == "content-length"@
    ||| name == "keep-alive"@
    ||| name == "transfer-encoding"@
    ||| name == "upgrade"@
}

/// The fields of a request that are forwarded as they are.
pub open spec fn forwardable(client: Fields) -> Fields {
    Map::new(|name: Seq<char>| client.dom().contains(name) && !withheld(name), |name: Seq<char>|
        client[name])
}

/// The version header that an Anthropic request carries where the client gives none.
pub open spec fn default_version() -> Field {
    Field { bytes: encode_utf8("2023-06-01"@), sensitive: false }
}

/// The fields that are sent upstream: what can be forwarded, the credential in
/// its slot, and for Anthropic a version where the client gives none.
pub open spec fn upstream_fields(
    kind: Kind,
    slot: Seq<char>,
    credential: Field,
    client: Fields,
) -> Fields {
    let sent = forwardable(client).insert(slot, seq![credential]);
    if kind == Kind::Anthropic && !sent.dom().contains("anthropic-version"@) {
        sent.insert("anthropic-version"@, seq![default_version()])
    } else {
        sent
    }
}

/// The fields of a response that are handed to the client.
pub open spec fn downstream_fields(upstream: Fields) -> Fields {
    Map::new(
        |name: Seq<char>| upstream.dom().contains(name) && !connection_owned(name),
        |name: Seq<char>| upstream[name],
    )
}

/// The upstream URL for the rest of a path and an optional query.
pub open spec fn url_of(
    base_url: Seq<char>,
    rest: Seq<char>,
    query: Option<Seq<char>>,
) -> Seq<char> {
    match query {
        Some(q) => base_url + "/"@ + rest + "?"@ + q,
        None => base_url + "/"@ + rest,
    }
}

/// That a key cannot be sent, with the name of its provider as it is quoted.
pub open spec fn invalid_key_words(provider: Seq<char>) -> Seq<char> {
    "provider "@ + provider + ": api key is not a valid header value"@
}

/// An API key that cannot be sent in a header.
#[derive(Debug)]
pub struct InvalidKey {
    /// The provider whose key it is.
    pub provider: String,
    /// What the header value is refused with.
    pub cause: http::header::InvalidHeaderValue,
}

impl InvalidKey {
    /// The error in words.
    pub fn message(&self) -> (r: String)
        ensures
            r@ == invalid_key_words(text::quotation(self.provider@)),
    {
        Self::message_with(text::quoted(self.provider.as_str()).as_str())
    }

    /// The error in words, with the name of the provider as it is quoted.
    pub fn message_with(provider: &str) -> (r: String)
        ensures
            r@ == invalid_key_words(provider@),
    {
        let mut r = "provider ".to_string();
        r.append(provider);
        r.append(": api key is not a valid header value");
        r
    }
}

/// The header that carries a provider's credential. What it holds cannot be
/// read outside this module.
pub struct Credential {
    header: http::HeaderName,
    value: http::HeaderValue,
}

impl Credential {
    /// The name of the header.
    pub closed spec fn slot(self) -> Seq<char> {
        headers::name_text(self.header)
    }

    /// The value of the header.
    pub closed spec fn field(self) -> Field {
        headers::field(self.value)
    }
}

/// One upstream: a name that clients use, a dialect, a root URL, a credential.
pub struct Provider {
    pub name: String,
    pub kind: Kind,
    /// Upstream root, no trailing slash.
    pub base_url: String,
    /// The credential for this kind, built once at startup.
    pub auth: Credential,
}

impl Provider {
    /// Whether the credential is in the slot of the provider's dialect, and is
    /// marked as sensitive.
    pub open spec fn well_formed(self) -> bool {
        self.auth.slot() == self.kind.slot() && self.auth.field().sensitive
    }

    /// Whether this is the provider of that name and kind, with that root URL and
    /// that key.
    pub open spec fn describes(
        self,
        name: Seq<char>,
        kind: Kind,
        base_url: Seq<char>,
        api_key: Seq<char>,
    ) -> bool {
        &&& self.name@ == name
        &&& self.kind == kind
        &&& self.base_url@ == text::trim_end_matches(base_url, '/')
        &&& self.auth.slot() == kind.slot()
        &&& self.auth.field() == (Field {
            bytes: encode_utf8(kind.credential(api_key)),
            sensitive: true,
        })
    }

    /// Fails if the credential cannot be a header value, so that a mangled key
    /// file is an error at startup and not a puzzling refusal later.
    pub fn new(name: &str, kind: Kind, base_url: &str, api_key: &str) -> (r: Result<
        Provider,
        InvalidKey,
    >)
        ensures
            match r {
                Ok(p) => {
                    &&& headers::valid_value(encode_utf8(kind.credential(api_key@)))
                    &&& p.describes(name@, kind, base_url@, api_key@)
                    &&& p.well_formed()
                },
                Err(e) => {
                    &&& !headers::valid_value(encode_utf8(kind.credential(api_key@)))
                    &&& e.provider@ == name@
                },
            },
    {
        let credential = match kind {
            Kind::Xai => {
                let mut bearer = "Bearer ".to_string();
                bearer.append(api_key);
                bearer
            },
            _ => api_key.to_string(),
        };
        let mut value = match http::HeaderValue::from_str(credential.as_str()) {
            Ok(value) => value,
            Err(cause) => {
                return Err(InvalidKey { provider: name.to_string(), cause });
            },
        };
        value.set_sensitive(true);
        proof {
            reveal_strlit("x-api-key");
            reveal_strlit("authorization");
            reveal_strlit("api-key");
        }
        let slot = match kind {
            Kind::Anthropic => http::HeaderName::from_static("x-api-key"),
            Kind::Xai => http::HeaderName::from_static("authorization"),
            Kind::Azure => http::HeaderName::from_static("api-key"),
        };
        Ok(
            Provider {
                name: name.to_string(),
                kind,
                base_url: text::without_trailing(base_url, '/'),
                auth: Credential { header: slot, value },
            },
        )
    }

    /// The upstream URL for the rest of a path (no leading slash) and an
    /// optional query.
    pub fn upstream_url(&self, rest: &str, query: Option<&str>) -> (r: String)
        ensures
            r@ == url_of(
                self.base_url@,
                rest@,
                match query {
                    Some(q) => Some(q@),
                    None => None,
                },
            ),
    {
        let mut url = self.base_url.clone();
        url.append("/");
        url.append(rest);
        if let Some(q) = query {
            url.append("?");
            url.append(q);
        }
        url
    }

    /// The headers to send upstream: the client's, without those that must not
    /// be forwarded, and with the real credential. `None` where a header map
    /// refuses to hold them, which it does not as long as the client sends
    /// fewer than `SAFE_NAMES` names.
    pub fn upstream_headers(&self, from_client: &http::HeaderMap<http::HeaderValue>) -> (r: Option<
        http::HeaderMap<http::HeaderValue>,
    >)
        ensures
            headers::has_at_most(headers::fields_of(*from_client), headers::SAFE_NAMES - 1)
                ==> r is Some,
            r matches Some(sent) ==> headers::fields_of(sent) == upstream_fields(
                self.kind,
                self.auth.slot(),
                self.auth.field(),
                headers::fields_of(*from_client),
            ),
    {
        let ghost client = headers::fields_of(*from_client);
        let mut sent = headers::new_map();
        let pairs = headers::pairs(from_client);
        let mut i: usize = 0;
        assert(pairs@.take(0) =~= Seq::empty());
        assert(headers::fields_of(sent) =~= forwardable(headers::grouped(pairs@.take(0))));
        assert(pairs@.take(pairs@.len() as int) =~= pairs@);
        while i < pairs.len()
            invariant
                i <= pairs@.len(),
                pairs@.take(pairs@.len() as int) == pairs@,
                client == headers::grouped(pairs@),
                client == headers::fields_of(*from_client),
                headers::fields_of(sent) == forwardable(headers::grouped(pairs@.take(i as int))),
            decreases pairs@.len() - i,
        {
            let (name, value) = pairs[i];
            proof {
                lemma_few_fields(pairs@, i as int, headers::fields_of(sent));
                assert(pairs@.take(i + 1).drop_last() =~= pairs@.take(i as int));
            }
            let ghost before = headers::grouped(pairs@.take(i as int));
            let ghost after = headers::grouped(pairs@.take(i + 1));
            if is_withheld(name.as_str()) {
                assert(forwardable(after) =~= forwardable(before));
            } else {
                if headers::append(&mut sent, name.clone(), value.clone()).is_err() {
                    return None;
                }
                assert(forwardable(after) =~= headers::appended(
                    forwardable(before),
                    headers::name_text(*name),
                    headers::field(*value),
                ));
            }
            i = i + 1;
        }
        proof {
            lemma_few_fields(pairs@, i as int, headers::fields_of(sent));
        }
        let (slot, credential) = (self.auth.header.clone(), self.auth.value.clone());
        if headers::insert(&mut sent, slot, credential).is_err() {
            return None;
        }
        proof {
            reveal_strlit("anthropic-version");
            reveal_strlit("2023-06-01");
            is_ascii_chars_encode_utf8("2023-06-01"@);
        }
        if self.kind == Kind::Anthropic && !headers::has(&sent, "anthropic-version") {
            let version = http::HeaderName::from_static("anthropic-version");
            let value = http::HeaderValue::from_static("2023-06-01");
            if headers::insert(&mut sent, version, value).is_err() {
                return None;
            }
        }
        Some(sent)
    }

    /// What a log may show of the provider, with its name and its root URL as
    /// they are quoted.
    pub open spec fn shown_with(self, name: Seq<char>, base_url: Seq<char>) -> Seq<char> {
        "Provider { name: "@ + name + ", kind: "@ + self.kind.label() + ", base_url: "@ + base_url
            + ", .. }"@
    }

    /// What a log may show of the provider.
    pub open spec fn shown(self) -> Seq<char> {
        self.shown_with(text::quotation(self.name@), text::quotation(self.base_url@))
    }

    /// The provider in words, without its credential, so that the credential
    /// cannot reach a log line.
    pub fn debug_text(&self) -> (r: String)
        ensures
            r@ == self.shown(),
    {
        self.debug_text_with(
            text::quoted(self.name.as_str()).as_str(),
            text::quoted(self.base_url.as_str()).as_str(),
        )
    }

    /// The provider in words, with its name and its root URL as they are quoted.
    pub fn debug_text_with(&self, name: &str, base_url: &str) -> (r: String)
        ensures
            r@ == self.shown_with(name@, base_url@),
    {
        let mut r = "Provider { name: ".to_string();
        r.append(name);
        r.append(", kind: ");
        r.append(
            match self.kind {
                Kind::Anthropic => "Anthropic",
                Kind::Xai => "Xai",
                Kind::Azure => "Azure",
            },
        );
        r.append(", base_url: ");
        r.append(base_url);
        r.append(", .. }");
        r
    }
}

/// Takes the headers out of a response that belong to the connection to the
/// upstream.
pub fn strip_response_headers(headers: &mut http::HeaderMap<http::HeaderValue>)
    ensures
        headers::fields_of(*final(headers)) == downstream_fields(
            headers::fields_of(*old(headers)),
        ),
{
    proof {
        reveal_strlit("connection");
        reveal_strlit("content-length");
        reveal_strlit("keep-alive");
        reveal_strlit("transfer-encoding");
        reveal_strlit("upgrade");
    }
    headers::remove(headers, "connection");
    headers::remove(headers, "content-length");
    headers::remove(headers, "keep-alive");
    headers::remove(headers, "transfer-encoding");
    headers::remove(headers, "upgrade");
    assert(headers::fields_of(*headers) =~= downstream_fields(
        headers::fields_of(*old(headers)),
    ));
}

/// Whether a header of a request is never forwarded.
fn is_withheld(name: &str) -> (r: bool)
    ensures
        r == withheld(name@),
{
    text::same(name, "host") || text::same(name, "x-api-key") || text::same(name, "authorization")
        || text::same(name, "api-key") || text::same(name, "content-length") || text::same(
        name,
        "connection",
    ) || text::same(name, "keep-alive") || text::same(name, "proxy-authenticate") || text::same(
        name,
        "proxy-authorization",
    ) || text::same(name, "te") || text::same(name, "trailer") || text::same(
        name,
        "transfer-encoding",
    ) || text::same(name, "upgrade") || text::same(name, "accept-encoding")
}

/// The first fields of a list name no header that the whole list does not.
proof fn lemma_grouped_names(pairs: Seq<(&http::HeaderName, &http::HeaderValue)>, n: int)
    requires
        0 <= n <= pairs.len(),
    ensures
        headers::grouped(pairs.take(n)).dom().subset_of(headers::grouped(pairs).dom()),
    decreases pairs.len() - n,
{
    if n < pairs.len() {
        lemma_grouped_names(pairs, n + 1);
        assert(pairs.take(n + 1).drop_last() =~= pairs.take(n));
    } else {
        assert(pairs.take(n) =~= pairs);
    }
}

/// What can be forwarded of the first fields of a list has no more names than
/// the whole list.
proof fn lemma_few_fields(
    pairs: Seq<(&http::HeaderName, &http::HeaderValue)>,
    n: int,
    sent: Fields,
)
    requires
        0 <= n <= pairs.len(),
        sent == forwardable(headers::grouped(pairs.take(n))),
    ensures
        forall|most: int| #[trigger]
            headers::has_at_most(headers::grouped(pairs), most) ==> headers::has_at_most(
                sent,
                most,
            ),
{
    lemma_grouped_names(pairs, n);
    let all = headers::grouped(pairs).dom();
    if all.finite() {
        vstd::set_lib::lemma_len_subset(sent.dom(), all);
    }
}

/// The first segment of a path: what stands between its leading slashes and the
/// next slash.
pub open spec fn first_segment(path: Seq<char>) -> Seq<char> {
    let trimmed = text::trim_start_matches(path, '/');
    trimmed.take(segment_len(trimmed))
}

/// What follows the first segment and the slash after it.
pub open spec fn rest_of_path(path: Seq<char>) -> Seq<char> {
    let trimmed = text::trim_start_matches(path, '/');
    if segment_len(trimmed) < trimmed.len() {
        trimmed.skip(segment_len(trimmed) + 1)
    } else {
        seq![]
    }
}

/// The number of characters before the first slash, or all of them.
pub open spec fn segment_len(s: Seq<char>) -> int
    decreases s.len(),
{
    if s.len() == 0 || s[0] == '/' {
        0
    } else {
        1 + segment_len(s.drop_first())
    }
}

/// The providers by name; of two that share a name, the later one.
pub open spec fn registered(providers: Seq<Provider>) -> Map<Seq<char>, Provider>
    decreases providers.len(),
{
    if providers.len() == 0 {
        Map::empty()
    } else {
        registered(providers.drop_last()).insert(providers.last().name@, providers.last())
    }
}

/// What was being done when a key could not be taken from a file, with the
/// name of its provider as it is quoted.
pub open spec fn reading_key_words(provider: Seq<char>, path: Seq<char>) -> Seq<char> {
    "provider "@ + provider + ": reading key from "@ + path
}

/// Why a registry could not be built. `at` is the place of the provider in the
/// configuration.
#[derive(Debug)]
pub enum StartError {
    /// The key file could not be read.
    KeyUnreadable { at: usize, provider: String },
    /// The key file is empty.
    KeyEmpty { at: usize, provider: String },
    /// The key cannot be sent in a header.
    KeyInvalid { at: usize, error: InvalidKey },
}

impl StartError {
    /// The place of the provider in the configuration.
    pub open spec fn at(self) -> int {
        match self {
            StartError::KeyUnreadable { at, .. } => at as int,
            StartError::KeyEmpty { at, .. } => at as int,
            StartError::KeyInvalid { at, .. } => at as int,
        }
    }

    /// The name of the provider.
    pub open spec fn provider(self) -> Seq<char> {
        match self {
            StartError::KeyUnreadable { provider, .. } => provider@,
            StartError::KeyEmpty { provider, .. } => provider@,
            StartError::KeyInvalid { error, .. } => error.provider@,
        }
    }

    /// What is wrong with the key.
    pub open spec fn fault(self) -> KeyFault {
        match self {
            StartError::KeyUnreadable { .. } => KeyFault::Unreadable,
            StartError::KeyEmpty { .. } => KeyFault::Empty,
            StartError::KeyInvalid { .. } => KeyFault::Invalid,
        }
    }

    /// The error in words. `path` is the path of the key file.
    pub fn message(&self, path: &str) -> (r: String)
        ensures
            r@ == self.fault().words(text::quotation(self.provider()), path@),
    {
        let name = match self {
            StartError::KeyUnreadable { provider, .. } => provider,
            StartError::KeyEmpty { provider, .. } => provider,
            StartError::KeyInvalid { error, .. } => &error.provider,
        };
        self.message_with(text::quoted(name.as_str()).as_str(), path)
    }

    /// The error in words, with the name of the provider as it is quoted.
    pub fn message_with(&self, provider: &str, path: &str) -> (r: String)
        ensures
            r@ == self.fault().words(provider@, path@),
    {
        match self {
            StartError::KeyInvalid { .. } => InvalidKey::message_with(provider),
            _ => {
                let mut r = "provider ".to_string();
                r.append(provider);
                r.append(": reading key from ");
                r.append(path);
                r
            },
        }
    }

    /// The cause in words, where no other error caused this one.
    pub fn cause(&self) -> (r: Option<String>)
        ensures
            match r {
                Some(words) => self.fault().cause() == Some(words@),
                None => self.fault().cause() is None,
            },
    {
        match self {
            StartError::KeyEmpty { .. } => Some("key file is empty".to_string()),
            _ => None,
        }
    }
}

/// What is wrong with the text of a key file, if the file could be read.
pub enum KeyFault {
    Unreadable,
    Empty,
    Invalid,
}

impl KeyFault {
    /// The cause in words, where no other error is the cause.
    pub open spec fn cause(self) -> Option<Seq<char>> {
        match self {
            KeyFault::Empty => Some("key file is empty"@),
            _ => None,
        }
    }

    /// The fault in words, with the name of the provider as it is quoted.
    pub open spec fn words(self, provider: Seq<char>, path: Seq<char>) -> Seq<char> {
        match self {
            KeyFault::Unreadable => reading_key_words(provider, path),
            KeyFault::Empty => reading_key_words(provider, path),
            KeyFault::Invalid => invalid_key_words(provider),
        }
    }
}

/// What is wrong with a key file of a provider of this kind.
pub open spec fn key_fault(kind: Kind, key_text: Option<String>) -> Option<KeyFault> {
    match key_text {
        None => Some(KeyFault::Unreadable),
        Some(s) => if text::trim(s@).len() == 0 {
            Some(KeyFault::Empty)
        } else if !headers::valid_value(encode_utf8(kind.credential(text::trim(s@)))) {
            Some(KeyFault::Invalid)
        } else {
            None
        },
    }
}

/// Whether the keys of the first `n` providers are in order.
pub open spec fn keys_usable(
    providers: Seq<ProviderConfig>,
    key_texts: Seq<Option<String>>,
    n: int,
) -> bool {
    forall|i: int| 0 <= i < n ==> key_fault((#[trigger] providers[i]).kind, key_texts[i]) is None
}

/// Whether `p` is the provider that the configuration `c` describes, with the
/// credential that `key_text` holds.
pub open spec fn made_from(p: Provider, c: ProviderConfig, key_text: Option<String>) -> bool {
    &&& p.name@ == c.name@
    &&& p.kind == c.kind
    &&& p.base_url@ == text::trim_end_matches(c.base_url@, '/')
    &&& p.well_formed()
    &&& key_text matches Some(s) && p.auth.field().bytes == encode_utf8(
        c.kind.credential(text::trim(s@)),
    )
}

/// Whether `made` holds a provider for each configuration, in their order.
pub open spec fn all_made_from(
    made: Seq<Provider>,
    providers: Seq<ProviderConfig>,
    key_texts: Seq<Option<String>>,
) -> bool {
    &&& made.len() == providers.len()
    &&& forall|i: int|
        0 <= i < made.len() ==> made_from(#[trigger] made[i], providers[i], key_texts[i])
}

/// Providers with their names.
pub open spec fn with_names(providers: Seq<Arc<Provider>>) -> Seq<(Seq<char>, Provider)> {
    providers.map_values(|p: Arc<Provider>| (p.name@, *p))
}

/// Provider instances by the path prefix that selects them.
pub struct Registry {
    by_name: NameMap<Arc<Provider>>,
}

impl View for Registry {
    type V = Map<Seq<char>, Provider>;

    closed spec fn view(&self) -> Map<Seq<char>, Provider> {
        self.by_name@.map_values(|p: Arc<Provider>| *p)
    }
}

impl Registry {
    #[verifier::type_invariant]
    spec fn named_right(self) -> bool {
        forall|name: Seq<char>|
            #![trigger self.by_name@[name]]
            self.by_name@.dom().contains(name) ==> self.by_name@[name].name@ == name
    }

    /// The registry of `providers`. Of two that share a name the later one
    /// counts.
    pub fn new(providers: Vec<Provider>) -> (r: Registry)
        ensures
            r@ == registered(providers@),
    {
        let mut by_name: NameMap<Arc<Provider>> = NameMap::new();
        assert(providers@.take(0) =~= Seq::empty());
        assert(by_name@.map_values(|p: Arc<Provider>| *p) =~= registered(providers@.take(0)));
        for p in it: providers
            invariant
                it.seq() == providers@,
                by_name@.map_values(|p: Arc<Provider>| *p) == registered(
                    providers@.take(it.index() as int),
                ),
                forall|name: Seq<char>|
                    #![trigger by_name@[name]]
                    by_name@.dom().contains(name) ==> by_name@[name].name@ == name,
        {
            let ghost before = by_name@;
            let name = p.name.clone();
            let shared = Arc::new(p);
            by_name.insert(name, shared);
            proof {
                let n = it.index() as int;
                assert(providers@.take(n + 1).drop_last() =~= providers@.take(n));
                assert(by_name@.map_values(|p: Arc<Provider>| *p) =~= before.map_values(
                    |p: Arc<Provider>| *p,
                ).insert(name@, *shared));
            }
        }
        assert(providers@.take(providers@.len() as int) =~= providers@);
        Registry { by_name }
    }

    /// The registry of a configuration. `key_texts` holds for each provider the
    /// text of its key file, or nothing where the file could not be read. The
    /// first provider whose key is not in order makes the error.
    pub fn from_config(config: &Config, key_texts: &Vec<Option<String>>) -> (r: Result<
        Registry,
        StartError,
    >)
        requires
            key_texts@.len() == config.providers@.len(),
        ensures
            match r {
                Ok(registry) => {
                    &&& keys_usable(config.providers@, key_texts@, config.providers@.len() as int)
                    &&& exists|made: Seq<Provider>|
                        registry@ == registered(made) && #[trigger] all_made_from(
                            made,
                            config.providers@,
                            key_texts@,
                        )
                },
                Err(e) => {
                    &&& 0 <= e.at() < config.providers@.len()
                    &&& keys_usable(config.providers@, key_texts@, e.at())
                    &&& key_fault(config.providers@[e.at()].kind, key_texts@[e.at()]) == Some(
                        e.fault(),
                    )
                    &&& e.provider() == config.providers@[e.at()].name@
                },
            },
    {
        let mut providers: Vec<Provider> = Vec::new();
        let mut at: usize = 0;
        while at < config.providers.len()
            invariant
                at <= config.providers@.len(),
                key_texts@.len() == config.providers@.len(),
                keys_usable(config.providers@, key_texts@, at as int),
                providers@.len() == at,
                forall|i: int|
                    0 <= i < at ==> made_from(
                        #[trigger] providers@[i],
                        config.providers@[i],
                        key_texts@[i],
                    ),
            decreases config.providers@.len() - at,
        {
            let c = &config.providers[at];
            let key_text = match &key_texts[at] {
                Some(s) => s,
                None => {
                    return Err(StartError::KeyUnreadable { at, provider: c.name.clone() });
                },
            };
            let key = match config::read_key_file(key_text.as_str()) {
                Some(key) => key,
                None => {
                    return Err(StartError::KeyEmpty { at, provider: c.name.clone() });
                },
            };
            match Provider::new(c.name.as_str(), c.kind, c.base_url.as_str(), key.as_str()) {
                Ok(p) => {
                    providers.push(p);
                },
                Err(error) => {
                    return Err(StartError::KeyInvalid { at, error });
                },
            }
            at = at + 1;
        }
        assert(all_made_from(providers@, config.providers@, key_texts@));
        Ok(Registry::new(providers))
    }

    /// The providers in ascending order of their names.
    pub fn providers(&self) -> (r: Vec<Arc<Provider>>)
        ensures
            names::ascending(with_names(r@)),
            names::map_of(with_names(r@)) == self@,
    {
        proof {
            use_type_invariant(self);
        }
        let entries = self.by_name.entries();
        let mut r: Vec<Arc<Provider>> = Vec::new();
        let mut i: usize = 0;
        while i < entries.len()
            invariant
                i <= entries@.len(),
                r@.len() == i,
                forall|j: int| 0 <= j < i ==> (#[trigger] r@[j]) == entries@[j].1,
            decreases entries@.len() - i,
        {
            r.push(entries[i].1.clone());
            i = i + 1;
        }
        proof {
            let listing = self.by_name.listing();
            assert forall|j: int| 0 <= j < r@.len() implies (#[trigger] with_names(r@)[j]) == (
                listing[j].0,
                *listing[j].1,
            ) by {
                names::lemma_map_of_entry(listing, j);
                assert(r@[j] == entries@[j].1);
            }
            lemma_unshared(listing, with_names(r@));
        }
        r
    }

    /// Splits `/{name}/{rest}` into the provider and the rest of the path,
    /// which is forwarded verbatim. `/{name}` alone has an empty rest.
    pub fn route(&self, path: &str) -> (r: Option<(Arc<Provider>, String)>)
        ensures
            match r {
                Some((p, rest)) => {
                    &&& self@.dom().contains(first_segment(path@))
                    &&& *p == self@[first_segment(path@)]
                    &&& p.name@ == first_segment(path@)
                    &&& rest@ == rest_of_path(path@)
                },
                None => !self@.dom().contains(first_segment(path@)),
            },
    {
        proof {
            use_type_invariant(self);
        }
        let chars = text::chars_of(path);
        let from = text::skip_leading(&chars, '/');
        let ghost trimmed = text::trim_start_matches(path@, '/');
        let mut to: usize = from;
        assert(trimmed.skip(0) =~= trimmed);
        while to < chars.len() && chars[to] != '/'
            invariant
                from <= to <= chars@.len(),
                trimmed == chars@.subrange(from as int, chars@.len() as int),
                segment_len(trimmed) == to - from + segment_len(trimmed.skip(to - from)),
            decreases chars@.len() - to,
        {
            assert(trimmed.skip(to - from).drop_first() =~= trimmed.skip(to - from + 1));
            to = to + 1;
        }
        let name = text::string_of(&chars, from, to);
        assert(name@ =~= first_segment(path@));
        let provider = match self.by_name.get(name.as_str()) {
            Some(p) => p.clone(),
            None => {
                return None;
            },
        };
        let rest = if to < chars.len() {
            text::string_of(&chars, to + 1, chars.len())
        } else {
            String::new()
        };
        assert(rest@ =~= rest_of_path(path@));
        Some((provider, rest))
    }
}

proof fn lemma_unshared(
    shared: Seq<(Seq<char>, Arc<Provider>)>,
    listing: Seq<(Seq<char>, Provider)>,
)
    requires
        shared.len() == listing.len(),
        forall|i: int|
            0 <= i < listing.len() ==> (#[trigger] listing[i]) == (shared[i].0, *shared[i].1),
    ensures
        names::map_of(listing) == names::map_of(shared).map_values(|p: Arc<Provider>| *p),
    decreases listing.len(),
{
    if listing.len() > 0 {
        lemma_unshared(shared.drop_last(), listing.drop_last());
    }
    assert(names::map_of(listing) =~= names::map_of(shared).map_values(|p: Arc<Provider>| *p));
}

proof fn lemma_registered_keeps(providers: Seq<Provider>, i: int)
    requires
        0 <= i < providers.len(),
        forall|a: int, b: int|
            0 <= a < b < providers.len() ==> (#[trigger] providers[a]).name@ != (
            #[trigger] providers[b]).name@,
    ensures
        registered(providers).dom().contains(providers[i].name@),
        registered(providers)[providers[i].name@] == providers[i],
    decreases providers.len(),
{
    if i < providers.len() - 1 {
        let front = providers.drop_last();
        assert forall|a: int, b: int| 0 <= a < b < front.len() implies (#[trigger] front[a]).name@
            != (#[trigger] front[b]).name@ by {
            assert(providers[a].name@ != providers[b].name@);
        }
        lemma_registered_keeps(front, i);
        assert(providers[i].name@ != providers[providers.len() - 1].name@);
    }
}

proof fn lemma_segment_len(name: Seq<char>, rest: Seq<char>)
    requires
        !name.contains('/'),
        rest.len() > 0 ==> rest[0] == '/',
    ensures
        segment_len(name + rest) == name.len(),
    decreases name.len(),
{
    let whole = name + rest;
    if name.len() > 0 {
        assert(name.contains(name[0]));
        assert(whole.drop_first() =~= name.drop_first() + rest);
        assert forall|c: char| name.drop_first().contains(c) implies name.contains(c) by {
            let i = choose|i: int| 0 <= i < name.drop_first().len() && name.drop_first()[i] == c;
            assert(name[i + 1] == c);
        }
        lemma_segment_len(name.drop_first(), rest);
    } else {
        assert(whole =~= rest);
    }
}

proof fn lemma_path_segment_has_no_slash(name: Seq<char>)
    requires
        config::path_segment(name),
    ensures
        !name.contains('/'),
{
    if name.contains('/') {
        let i = choose|i: int| 0 <= i < name.len() && name[i] == '/';
        assert(config::segment_char(name[i]));
    }
}

/// The first path segment picks the provider and the rest of the path is kept
/// as it is: `/{name}/{rest}` splits into `name` and `rest`, and `/{name}`
/// into `name` and nothing.
pub proof fn law_path_splits_into_name_and_rest(name: Seq<char>, rest: Seq<char>)
    requires
        name.len() > 0,
        !name.contains('/'),
    ensures
        first_segment("/"@ + name + "/"@ + rest) == name,
        rest_of_path("/"@ + name + "/"@ + rest) == rest,
        first_segment("/"@ + name) == name,
        rest_of_path("/"@ + name) == Seq::<char>::empty(),
{
    reveal_strlit("/");
    assert(name.contains(name[0]));
    let long = "/"@ + name + "/"@ + rest;
    assert(long.drop_first() =~= name + ("/"@ + rest));
    lemma_segment_len(name, "/"@ + rest);
    assert(long.drop_first()[0] == name[0]);
    assert(text::trim_start_matches(long, '/') == long.drop_first()) by {
        reveal_with_fuel(text::trim_start_matches, 2);
    }
    assert(first_segment(long) =~= name);
    assert(rest_of_path(long) =~= rest);
    let short = "/"@ + name;
    assert(short.drop_first() =~= name);
    assert(name + seq![] =~= name);
    lemma_segment_len(name, seq![]);
    assert(text::trim_start_matches(short, '/') == name) by {
        reveal_with_fuel(text::trim_start_matches, 2);
    }
    assert(first_segment(short) =~= name);
}

/// Every provider of an accepted configuration is reached under its name, and
/// the request goes to its root URL without the trailing slashes, with the
/// rest of the path and the query as they came.
pub proof fn law_configured_providers_are_reached(
    given: Seq<ProviderConfig>,
    providers: Seq<ProviderConfig>,
    home_known: bool,
    key_texts: Seq<Option<String>>,
    made: Seq<Provider>,
    i: int,
    rest: Seq<char>,
    query: Seq<char>,
)
    requires
        config::fault_of(given) is None,
        config::all_settled(given, providers, home_known),
        all_made_from(made, providers, key_texts),
        0 <= i < given.len(),
    ensures
        ({
            let path = "/"@ + given[i].name@ + "/"@ + rest;
            let root = text::trim_end_matches(given[i].base_url@, '/');
            &&& registered(made).dom().contains(first_segment(path))
            &&& registered(made)[first_segment(path)] == made[i]
            &&& made[i].kind == given[i].kind
            &&& url_of(made[i].base_url@, rest_of_path(path), Some(query)) == root + "/"@ + rest
                + "?"@ + query
            &&& url_of(made[i].base_url@, rest_of_path(path), None) == root + "/"@ + rest
        }),
{
    config::law_what_is_accepted(given);
    assert(made_from(made[i], providers[i], key_texts[i]));
    assert(config::settled(given[i], providers[i], home_known));
    text::lemma_trim_end_matches(given[i].base_url@, '/');
    assert forall|a: int, b: int| 0 <= a < b < made.len() implies (#[trigger] made[a]).name@ != (
    #[trigger] made[b]).name@ by {
        assert(made_from(made[a], providers[a], key_texts[a]));
        assert(made_from(made[b], providers[b], key_texts[b]));
        assert(config::settled(given[a], providers[a], home_known));
        assert(config::settled(given[b], providers[b], home_known));
        assert(given[a].name@ != given[b].name@);
    }
    lemma_registered_keeps(made, i);
    lemma_path_segment_has_no_slash(given[i].name@);
    law_path_splits_into_name_and_rest(given[i].name@, rest);
}

/// Whatever credentials a client sends, the upstream gets the real one and no
/// other: of the three credential slots the provider's own holds the real
/// credential, and the others are empty.
pub proof fn law_only_the_real_credential_is_sent(p: Provider, client: Fields, slot: Seq<char>)
    requires
        p.well_formed(),
        slot == "x-api-key"@ || slot == "authorization"@ || slot == "api-key"@,
    ensures
        ({
            let sent = upstream_fields(p.kind, p.auth.slot(), p.auth.field(), client);
            &&& sent.dom().contains(slot) <==> slot == p.kind.slot()
            &&& slot == p.kind.slot() ==> sent[slot] == seq![p.auth.field()]
        }),
{
    reveal_strlit("x-api-key");
    reveal_strlit("authorization");
    reveal_strlit("api-key");
    reveal_strlit("anthropic-version");
    assert("x-api-key"@.len() == 9);
    assert("authorization"@.len() == 13);
    assert("api-key"@.len() == 7);
    assert("anthropic-version"@.len() == 17);
    assert(withheld(slot));
}

/// Headers that need not be withheld reach the upstream as the client sent
/// them, and none is made up but the credential and the version.
pub proof fn law_other_headers_pass_unchanged(p: Provider, client: Fields, name: Seq<char>)
    requires
        p.well_formed(),
        name != p.kind.slot(),
        name != "anthropic-version"@,
    ensures
        ({
            let sent = upstream_fields(p.kind, p.auth.slot(), p.auth.field(), client);
            &&& sent.dom().contains(name) <==> client.dom().contains(name) && !withheld(name)
            &&& sent.dom().contains(name) ==> sent[name] == client[name]
        }),
{
}

/// A request to Anthropic carries a version: the client's, or else the
/// default. To the other kinds the version is a header like any other.
pub proof fn law_version_is_defaulted(p: Provider, client: Fields)
    requires
        p.well_formed(),
    ensures
        ({
            let sent = upstream_fields(p.kind, p.auth.slot(), p.auth.field(), client);
            let version = "anthropic-version"@;
            &&& client.dom().contains(version) ==> sent.dom().contains(version) && sent[version]
                == client[version]
            &&& !client.dom().contains(version) && p.kind == Kind::Anthropic
                ==> sent.dom().contains(version) && sent[version] == seq![default_version()]
            &&& !client.dom().contains(version) && p.kind != Kind::Anthropic
                ==> !sent.dom().contains(version)
        }),
{
    reveal_strlit("anthropic-version");
    reveal_strlit("host");
    reveal_strlit("x-api-key");
    reveal_strlit("authorization");
    reveal_strlit("api-key");
    reveal_strlit("content-length");
    reveal_strlit("connection");
    reveal_strlit("keep-alive");
    reveal_strlit("proxy-authenticate");
    reveal_strlit("proxy-authorization");
    reveal_strlit("te");
    reveal_strlit("trailer");
    reveal_strlit("transfer-encoding");
    reveal_strlit("upgrade");
    reveal_strlit("accept-encoding");
    assert("anthropic-version"@[0] == 'a' && "transfer-encoding"@[0] == 't');
    assert("anthropic-version"@.len() == 17);
    assert(!withheld("anthropic-version"@));
    assert(p.kind.slot() != "anthropic-version"@);
}

/// Stripping a response twice is stripping it once.
pub proof fn law_stripping_is_idempotent(upstream: Fields)
    ensures
        downstream_fields(downstream_fields(upstream)) == downstream_fields(upstream),
{
    assert(downstream_fields(downstream_fields(upstream)) =~= downstream_fields(upstream));
}

/// What is shown of a provider does not depend on its credential.
pub proof fn law_credential_is_not_shown(p: Provider, auth: Credential)
    ensures
        (Provider { auth, ..p }).shown() == p.shown(),
{
}

/// Each kind has its own header for the credential, and its own way to write the
/// key into it.
pub proof fn law_credentials_of_the_kinds(api_key: Seq<char>)
    ensures
        Kind::Anthropic.slot() == "x-api-key"@,
        Kind::Anthropic.credential(api_key) == api_key,
        Kind::Xai.slot() == "authorization"@,
        Kind::Xai.credential(api_key) == "Bearer "@ + api_key,
        Kind::Azure.slot() == "api-key"@,
        Kind::Azure.credential(api_key) == api_key,
{
}

/// What a provider with the key `api_key` is sent. The header of its kind holds
/// the key and is marked as sensitive. Fourteen headers of the client stay
/// behind. Every other header of the client is sent with exactly its values,
/// and a request to Anthropic without a version gets the default one. There is
/// nothing else.
pub proof fn law_headers_sent(p: Provider, api_key: Seq<char>, client: Fields, name: Seq<char>)
    requires
        p.auth.slot() == p.kind.slot(),
        p.auth.field() == (Field {
            bytes: encode_utf8(p.kind.credential(api_key)),
            sensitive: true,
        }),
    ensures
        ({
            let sent = upstream_fields(p.kind, p.auth.slot(), p.auth.field(), client);
            let listed = {
                ||| name == "host"@
                ||| name == "x-api-key"@
                ||| name == "authorization"@
                ||| name == "api-key"@
                ||| name == "content-length"@
                ||| name == "connection"@
                ||| name == "keep-alive"@
                ||| name == "proxy-authenticate"@
                ||| name == "proxy-authorization"@
                ||| name == "te"@
                ||| name == "trailer"@
                ||| name == "transfer-encoding"@
                ||| name == "upgrade"@
                ||| name == "accept-encoding"@
            };
            &&& p.kind == Kind::Anthropic ==> sent.dom().contains("x-api-key"@)
                && sent["x-api-key"@] == seq![Field { bytes: encode_utf8(api_key), sensitive: true }]
            &&& p.kind == Kind::Xai ==> sent.dom().contains("authorization"@)
                && sent["authorization"@] == seq![
                Field { bytes: encode_utf8("Bearer "@ + api_key), sensitive: true },
            ]
            &&& p.kind == Kind::Azure ==> sent.dom().contains("api-key"@) && sent["api-key"@]
                == seq![Field { bytes: encode_utf8(api_key), sensitive: true }]
            &&& p.kind == Kind::Anthropic && !client.dom().contains("anthropic-version"@)
                ==> sent.dom().contains("anthropic-version"@) && sent["anthropic-version"@]
                == seq![Field { bytes: encode_utf8("2023-06-01"@), sensitive: false }]
            &&& !listed && client.dom().contains(name) ==> sent.dom().contains(name)
                && sent[name] == client[name]
            &&& !listed && !client.dom().contains(name) ==> (sent.dom().contains(name) <==> name
                == "anthropic-version"@ && p.kind == Kind::Anthropic)
            &&& listed ==> (sent.dom().contains(name) <==> (name == "x-api-key"@ && p.kind
                == Kind::Anthropic) || (name == "authorization"@ && p.kind == Kind::Xai) || (name
                == "api-key"@ && p.kind == Kind::Azure))
        }),
{
    reveal_strlit("host");
    reveal_strlit("x-api-key");
    reveal_strlit("authorization");
    reveal_strlit("api-key");
    reveal_strlit("content-length");
    reveal_strlit("connection");
    reveal_strlit("keep-alive");
    reveal_strlit("proxy-authenticate");
    reveal_strlit("proxy-authorization");
    reveal_strlit("te");
    reveal_strlit("trailer");
    reveal_strlit("transfer-encoding");
    reveal_strlit("upgrade");
    reveal_strlit("accept-encoding");
    reveal_strlit("anthropic-version");
    assert("x-api-key"@.len() == 9);
    assert("authorization"@.len() == 13);
    assert("api-key"@.len() == 7);
    assert("anthropic-version"@[0] == 'a' && "transfer-encoding"@[0] == 't');
    assert("anthropic-version"@.len() == 17);
    assert(!withheld("anthropic-version"@));
    assert(withheld("x-api-key"@) && withheld("authorization"@) && withheld("api-key"@));
}

/// What the client gets of the headers of a response: all but five, each with
/// exactly its values.
pub proof fn law_headers_handed_back(upstream: Fields, name: Seq<char>)
    ensures
        ({
            let got = downstream_fields(upstream);
            let owned = {
                ||| name == "connection"@
                ||| name == "content-length"@
                ||| name == "keep-alive"@
                ||| name == "transfer-encoding"@
                ||| name == "upgrade"@
            };
            &&& got.dom().contains(name) <==> upstream.dom().contains(name) && !owned
            &&& got.dom().contains(name) ==> got[name] == upstream[name]
        }),
{
}

/// A URL is the root, a slash and the rest of the path, and where there is a
/// query, a question mark and the query.
pub proof fn law_urls(base_url: Seq<char>, rest: Seq<char>, query: Seq<char>)
    ensures
        url_of(base_url, rest, None) == base_url + "/"@ + rest,
        url_of(base_url, rest, Some(query)) == base_url + "/"@ + rest + "?"@ + query,
{
}

/// However many slashes lead a path, its first segment is what stands before the
/// next slash, and the rest is what follows that slash, as it stands there.
/// Slashes alone have an empty segment.
pub proof fn law_path_with_leading_slashes(lead: Seq<char>, name: Seq<char>, rest: Seq<char>)
    requires
        forall|i: int| 0 <= i < lead.len() ==> #[trigger] lead[i] == '/',
        name.len() > 0,
        !name.contains('/'),
    ensures
        first_segment(lead + name + seq!['/'] + rest) == name,
        rest_of_path(lead + name + seq!['/'] + rest) == rest,
        first_segment(lead + name) == name,
        rest_of_path(lead + name) == Seq::<char>::empty(),
        first_segment(lead) == Seq::<char>::empty(),
        rest_of_path(lead) == Seq::<char>::empty(),
{
    let none = Seq::<char>::empty();
    assert(name.contains(name[0]));
    let long = name + seq!['/'] + rest;
    text::law_trimming_a_leading_run(lead, long, '/');
    assert(lead + name + seq!['/'] + rest =~= lead + long);
    lemma_segment_len(name, seq!['/'] + rest);
    assert(long =~= name + (seq!['/'] + rest));
    assert(long.take(name.len() as int) =~= name);
    assert(long.skip(name.len() as int + 1) =~= rest);
    text::law_trimming_a_leading_run(lead, name, '/');
    lemma_segment_len(name, none);
    assert(name + none =~= name);
    assert(name.take(name.len() as int) =~= name);
    text::law_trimming_a_leading_run(lead, none, '/');
    assert(lead + none =~= lead);
    assert(none.take(0) =~= none);
}

/// A registry has a provider for exactly the names that were given, and of those
/// with one name the last.
pub proof fn law_registry(providers: Seq<Provider>, name: Seq<char>, i: int)
    ensures
        registered(providers).dom().contains(name) <==> exists|k: int|
            0 <= k < providers.len() && (#[trigger] providers[k]).name@ == name,
        0 <= i < providers.len() && (forall|k: int|
            i < k < providers.len() ==> (#[trigger] providers[k]).name@ != providers[i].name@)
            ==> registered(providers)[providers[i].name@] == providers[i],
    decreases providers.len(),
{
    if providers.len() > 0 {
        let front = providers.drop_last();
        let last = providers.len() - 1;
        law_registry(front, name, i);
        if registered(front).dom().contains(name) {
            let k = choose|k: int| 0 <= k < front.len() && (#[trigger] front[k]).name@ == name;
            assert(providers[k].name@ == name);
        }
        if exists|k: int| 0 <= k < providers.len() && (#[trigger] providers[k]).name@ == name {
            let k = choose|k: int|
                0 <= k < providers.len() && (#[trigger] providers[k]).name@ == name;
            if k < last {
                assert(front[k].name@ == name);
            }
        }
        assert(providers[last].name@ == providers.last().name@);
        if 0 <= i < last && (forall|k: int|
            i < k < providers.len() ==> (#[trigger] providers[k]).name@ != providers[i].name@) {
            assert forall|k: int| i < k < front.len() implies (#[trigger] front[k]).name@
                != front[i].name@ by {
                assert(providers[k].name@ != providers[i].name@);
            }
            assert(providers[last].name@ != providers[i].name@);
        }
    }
}

/// A key file holds its text without the white space around it. One that cannot
/// be read, one that holds nothing and one whose key no header can hold are not
/// in order, and no other.
pub proof fn law_key_files(
    kind: Kind,
    key_text: String,
    before: Seq<char>,
    key: Seq<char>,
    after: Seq<char>,
)
    requires
        key_text@ == before + key + after,
        forall|i: int| 0 <= i < before.len() ==> text::white_space(#[trigger] before[i]),
        forall|i: int| 0 <= i < after.len() ==> text::white_space(#[trigger] after[i]),
        key.len() > 0 ==> !text::white_space(key[0]) && !text::white_space(key.last()),
    ensures
        key_fault(kind, None) == Some(KeyFault::Unreadable),
        key.len() == 0 ==> key_fault(kind, Some(key_text)) == Some(KeyFault::Empty),
        key.len() > 0 && !headers::valid_value(encode_utf8(kind.credential(key))) ==> key_fault(
            kind,
            Some(key_text),
        ) == Some(KeyFault::Invalid),
        key.len() > 0 && headers::valid_value(encode_utf8(kind.credential(key))) ==> key_fault(
            kind,
            Some(key_text),
        ) is None,
{
    text::law_trimming(before, key, after);
}

/// A provider that is made from a configuration has its name and kind, its root
/// URL without the slashes at the end, and the key of its file as credential.
pub proof fn law_configured_provider(
    p: Provider,
    c: ProviderConfig,
    root: Seq<char>,
    slashes: Seq<char>,
    key_text: String,
    before: Seq<char>,
    key: Seq<char>,
    after: Seq<char>,
)
    requires
        made_from(p, c, Some(key_text)),
        c.base_url@ == root + slashes,
        root.len() > 0 ==> root.last() != '/',
        forall|i: int| 0 <= i < slashes.len() ==> #[trigger] slashes[i] == '/',
        key_text@ == before + key + after,
        forall|i: int| 0 <= i < before.len() ==> text::white_space(#[trigger] before[i]),
        forall|i: int| 0 <= i < after.len() ==> text::white_space(#[trigger] after[i]),
        key.len() > 0 ==> !text::white_space(key[0]) && !text::white_space(key.last()),
    ensures
        p.name@ == c.name@,
        p.kind == c.kind,
        p.base_url@ == root,
        p.auth.slot() == c.kind.slot(),
        p.auth.field() == (Field {
            bytes: encode_utf8(c.kind.credential(key)),
            sensitive: true,
        }),
{
    text::law_trimming_a_trailing_run(root, slashes, '/');
    text::law_trimming(before, key, after);
}

/// What is said of a key that is not in order.
pub proof fn law_words_of_key_faults(provider: Seq<char>, path: Seq<char>)
    ensures
        KeyFault::Unreadable.words(provider, path) == "provider "@ + provider
            + ": reading key from "@ + path,
        KeyFault::Empty.words(provider, path) == "provider "@ + provider + ": reading key from "@
            + path,
        KeyFault::Invalid.words(provider, path) == "provider "@ + provider
            + ": api key is not a valid header value"@,
        invalid_key_words(provider) == "provider "@ + provider
            + ": api key is not a valid header value"@,
        KeyFault::Unreadable.cause() is None,
        KeyFault::Empty.cause() == Some("key file is empty"@),
        KeyFault::Invalid.cause() is None,
{
}

/// What a log shows of a provider: its name, its kind and its root URL.
pub proof fn law_what_is_shown(p: Provider)
    ensures
        p.shown() == "Provider { name: "@ + text::quotation(p.name@) + ", kind: "@ + (match p.kind {
            Kind::Anthropic => "Anthropic"@,
            Kind::Xai => "Xai"@,
            Kind::Azure => "Azure"@,
        }) + ", base_url: "@ + text::quotation(p.base_url@) + ", .. }"@,
{
}

/// The keys of the first providers are in order where each of them is.
pub proof fn law_usable_keys(
    providers: Seq<ProviderConfig>,
    key_texts: Seq<Option<String>>,
    n: int,
)
    ensures
        keys_usable(providers, key_texts, n) <==> forall|i: int|
            0 <= i < n ==> key_fault((#[trigger] providers[i]).kind, key_texts[i]) is None,
{
}

/// Each provider is made from the configuration and the key file in its place.
pub proof fn law_providers_keep_their_places(
    made: Seq<Provider>,
    providers: Seq<ProviderConfig>,
    key_texts: Seq<Option<String>>,
    i: int,
)
    requires
        all_made_from(made, providers, key_texts),
    ensures
        made.len() == providers.len(),
        0 <= i < made.len() ==> made_from(made[i], providers[i], key_texts[i]),
{
}

/// Each start error stands for one fault of a key, at its place and of its
/// provider.
pub proof fn law_start_errors(at: usize, provider: String, error: InvalidKey)
    ensures
        (StartError::KeyUnreadable { at, provider }).fault() == KeyFault::Unreadable,
        (StartError::KeyUnreadable { at, provider }).at() == at,
        (StartError::KeyUnreadable { at, provider }).provider() == provider@,
        (StartError::KeyEmpty { at, provider }).fault() == KeyFault::Empty,
        (StartError::KeyEmpty { at, provider }).at() == at,
        (StartError::KeyEmpty { at, provider }).provider() == provider@,
        (StartError::KeyInvalid { at, error }).fault() == KeyFault::Invalid,
        (StartError::KeyInvalid { at, error }).at() == at,
        (StartError::KeyInvalid { at, error }).provider() == error.provider@,
{
}

/// A new provider has the name and the kind that it was given, the root URL
/// without the slashes at its end, and its key, as it was given, in the header
/// of its kind, marked as sensitive.
pub proof fn law_new_provider(
    p: Provider,
    name: Seq<char>,
    kind: Kind,
    root: Seq<char>,
    slashes: Seq<char>,
    api_key: Seq<char>,
)
    requires
        p.describes(name, kind, root + slashes, api_key),
        root.len() > 0 ==> root.last() != '/',
        forall|i: int| 0 <= i < slashes.len() ==> #[trigger] slashes[i] == '/',
    ensures
        p.name@ == name,
        p.kind == kind,
        p.base_url@ == root,
        p.auth.field().sensitive,
        kind == Kind::Anthropic ==> p.auth.slot() == "x-api-key"@ && p.auth.field().bytes
            == encode_utf8(api_key),
        kind == Kind::Xai ==> p.auth.slot() == "authorization"@ && p.auth.field().bytes
            == encode_utf8("Bearer "@ + api_key),
        kind == Kind::Azure ==> p.auth.slot() == "api-key"@ && p.auth.field().bytes == encode_utf8(
            api_key,
        ),
{
    text::law_trimming_a_trailing_run(root, slashes, '/');
}

} // verus!
