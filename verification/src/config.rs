//! The configuration: which values are accepted, and what they are turned
//! into.
use vstd::prelude::*;
use vstd::string::*;

use crate::provider::Kind;
use crate::text;

verus! {

/// A path as it was written, or one that is relative to the user's home
/// directory.
#[derive(Debug)]
pub enum UserPath {
    Plain(String),
    InHome(String),
}

/// What a `UserPath` says.
pub enum PathText {
    Plain(Seq<char>),
    InHome(Seq<char>),
}

impl View for UserPath {
    type V = PathText;

    open spec fn view(&self) -> PathText {
        match self {
            UserPath::Plain(s) => PathText::Plain(s@),
            UserPath::InHome(s) => PathText::InHome(s@),
        }
    }
}

/// The gateway's configuration.
#[derive(Debug)]
pub struct Config {
    pub server: Server,
    /// One entry per `[[provider]]` block.
    pub providers: Vec<ProviderConfig>,
}

/// Where the gateway listens.
#[derive(Debug)]
pub struct Server {
    /// A socket address.
    pub listen: String,
}

/// A provider instance: the same kind can appear several times under
/// different names (two Anthropic orgs, one Azure resource per region).
#[derive(Debug)]
pub struct ProviderConfig {
    /// Path prefix clients use, e.g. `anthropic` for `/anthropic/v1/messages`.
    pub name: String,
    pub kind: Kind,
    pub base_url: String,
    /// The file that holds the credential.
    pub key_file: UserPath,
}

/// Why a configuration is refused.
#[derive(Debug)]
pub enum ConfigError {
    NoProviders,
    BadName { name: String },
    DuplicateName { name: String },
    BadBaseUrl { name: String, base_url: String },
}

/// What a `ConfigError` says.
pub enum Fault {
    NoProviders,
    BadName { name: Seq<char> },
    DuplicateName { name: Seq<char> },
    BadBaseUrl { name: Seq<char>, base_url: Seq<char> },
}

impl View for ConfigError {
    type V = Fault;

    open spec fn view(&self) -> Fault {
        match self {
            ConfigError::NoProviders => Fault::NoProviders,
            ConfigError::BadName { name } => Fault::BadName { name: name@ },
            ConfigError::DuplicateName { name } => Fault::DuplicateName { name: name@ },
            ConfigError::BadBaseUrl { name, base_url } => Fault::BadBaseUrl {
                name: name@,
                base_url: base_url@,
            },
        }
    }
}

impl Fault {
    /// The fault in words, with the name and the root URL as they are quoted.
    pub open spec fn words_with(self, name: Seq<char>, base_url: Seq<char>) -> Seq<char> {
        match self {
            Fault::NoProviders =>
                "no providers configured; add at least one [[provider]] block"@,
            Fault::BadName { .. } => "provider name "@ + name
                + " must be non-empty and contain only letters, digits, '-' and '_'"@,
            Fault::DuplicateName { .. } => "duplicate provider name "@ + name,
            Fault::BadBaseUrl { .. } => "provider "@ + name
                + ": base_url must start with http:// or https://, got "@ + base_url,
        }
    }

    /// The fault in words.
    pub open spec fn words(self) -> Seq<char> {
        match self {
            Fault::NoProviders => self.words_with(seq![], seq![]),
            Fault::BadName { name } => self.words_with(text::quotation(name), seq![]),
            Fault::DuplicateName { name } => self.words_with(text::quotation(name), seq![]),
            Fault::BadBaseUrl { name, base_url } => self.words_with(
                text::quotation(name),
                text::quotation(base_url),
            ),
        }
    }
}

impl ConfigError {
    /// The error in words.
    pub fn message(&self) -> (r: String)
        ensures
            r@ == self@.words(),
    {
        match self {
            ConfigError::NoProviders => self.message_with("", ""),
            ConfigError::BadName { name } => {
                self.message_with(text::quoted(name.as_str()).as_str(), "")
            },
            ConfigError::DuplicateName { name } => {
                self.message_with(text::quoted(name.as_str()).as_str(), "")
            },
            ConfigError::BadBaseUrl { name, base_url } => {
                self.message_with(
                    text::quoted(name.as_str()).as_str(),
                    text::quoted(base_url.as_str()).as_str(),
                )
            },
        }
    }

    /// The error in words, with the name and the root URL as they are quoted.
    pub fn message_with(&self, name: &str, base_url: &str) -> (r: String)
        ensures
            r@ == self@.words_with(name@, base_url@),
    {
        match self {
            ConfigError::NoProviders =>
                "no providers configured; add at least one [[provider]] block".to_string(),
            ConfigError::BadName { .. } => {
                let mut r = "provider name ".to_string();
                r.append(name);
                r.append(" must be non-empty and contain only letters, digits, '-' and '_'");
                r
            },
            ConfigError::DuplicateName { .. } => {
                let mut r = "duplicate provider name ".to_string();
                r.append(name);
                r
            },
            ConfigError::BadBaseUrl { .. } => {
                let mut r = "provider ".to_string();
                r.append(name);
                r.append(": base_url must start with http:// or https://, got ");
                r.append(base_url);
                r
            },
        }
    }
}

/// Whether `c` can stand in a provider name.
pub open spec fn segment_char(c: char) -> bool {
    'a' <= c <= 'z' || 'A' <= c <= 'Z' || '0' <= c <= '9' || c == '-' || c == '_'
}

/// Whether `name` can be a path segment: letters, digits, `-` and `_`, at
/// least one of them.
pub open spec fn path_segment(name: Seq<char>) -> bool {
    name.len() > 0 && forall|i: int| 0 <= i < name.len() ==> segment_char(#[trigger] name[i])
}

/// Whether a URL has one of the two schemes that are spoken.
pub open spec fn has_scheme(url: Seq<char>) -> bool {
    "http://"@.is_prefix_of(url) || "https://"@.is_prefix_of(url)
}

/// Whether a provider before the `i`-th has the name of the `i`-th.
pub open spec fn name_taken(providers: Seq<ProviderConfig>, i: int) -> bool {
    exists|j: int| 0 <= j < i && (#[trigger] providers[j]).name@ == providers[i].name@
}

/// What is wrong with the `i`-th provider.
pub open spec fn provider_fault(providers: Seq<ProviderConfig>, i: int) -> Option<Fault> {
    let p = providers[i];
    if !path_segment(p.name@) {
        Some(Fault::BadName { name: p.name@ })
    } else if name_taken(providers, i) {
        Some(Fault::DuplicateName { name: p.name@ })
    } else if !has_scheme(p.base_url@) {
        Some(Fault::BadBaseUrl { name: p.name@, base_url: p.base_url@ })
    } else {
        None
    }
}

/// What is wrong with the first faulty provider from the `i`-th on.
pub open spec fn first_fault(providers: Seq<ProviderConfig>, i: int) -> Option<Fault>
    decreases providers.len() - i,
{
    if i >= providers.len() {
        None
    } else if provider_fault(providers, i) is Some {
        provider_fault(providers, i)
    } else {
        first_fault(providers, i + 1)
    }
}

/// What is wrong with a list of providers.
pub open spec fn fault_of(providers: Seq<ProviderConfig>) -> Option<Fault> {
    if providers.len() == 0 {
        Some(Fault::NoProviders)
    } else {
        first_fault(providers, 0)
    }
}

/// What `~/` or `~\` at the start of a path stands before.
pub open spec fn below_tilde(path: Seq<char>) -> Option<Seq<char>> {
    if "~/"@.is_prefix_of(path) || "~\\"@.is_prefix_of(path) {
        Some(path.skip(2))
    } else {
        None
    }
}

/// `path` with a leading tilde read as the home directory, where there is one.
pub open spec fn expanded(path: Seq<char>, home_known: bool) -> PathText {
    match below_tilde(path) {
        Some(rest) => if home_known {
            PathText::InHome(rest)
        } else {
            PathText::Plain(path)
        },
        None => PathText::Plain(path),
    }
}

/// Whether `after` is what an accepted provider entry is turned into.
pub open spec fn settled(
    before: ProviderConfig,
    after: ProviderConfig,
    home_known: bool,
) -> bool {
    &&& after.name@ == before.name@
    &&& after.kind == before.kind
    &&& after.base_url@ == text::trim_end_matches(before.base_url@, '/')
    &&& after.key_file@ == match before.key_file@ {
        PathText::Plain(path) => expanded(path, home_known),
        PathText::InHome(path) => PathText::InHome(path),
    }
}

/// Whether `after` holds what the accepted entries `before` are turned into,
/// in their order.
pub open spec fn all_settled(
    before: Seq<ProviderConfig>,
    after: Seq<ProviderConfig>,
    home_known: bool,
) -> bool {
    &&& after.len() == before.len()
    &&& forall|i: int|
        0 <= i < after.len() ==> settled(before[i], #[trigger] after[i], home_known)
}

/// The address on which the gateway listens where the configuration gives none.
pub fn default_listen() -> (r: String)
    ensures
        r@ == "127.0.0.1:4567"@,
{
    "127.0.0.1:4567".to_string()
}

impl Default for Server {
    fn default() -> (r: Server)
        ensures
            r.listen@ == "127.0.0.1:4567"@,
    {
        Server { listen: default_listen() }
    }
}

/// Whether `name` can be a path segment.
pub fn is_path_segment(name: &str) -> (r: bool)
    ensures
        r == path_segment(name@),
{
    let chars = text::chars_of(name);
    let mut i: usize = 0;
    while i < chars.len()
        invariant
            i <= chars@.len(),
            chars@ == name@,
            forall|j: int| 0 <= j < i ==> segment_char(#[trigger] chars@[j]),
        decreases chars@.len() - i,
    {
        let c: char = chars[i];
        if !('a' <= c && c <= 'z' || 'A' <= c && c <= 'Z' || '0' <= c && c <= '9' || c == '-' || c
            == '_') {
            assert(!segment_char(chars@[i as int]));
            return false;
        }
        i = i + 1;
    }
    chars.len() > 0
}

/// Reads a leading tilde as the home directory, where there is one.
pub fn expand_tilde(path: &str, home_known: bool) -> (r: UserPath)
    ensures
        r@ == expanded(path@, home_known),
{
    if home_known && (text::starts_with(path, "~/") || text::starts_with(path, "~\\")) {
        proof {
            reveal_strlit("~/");
            reveal_strlit("~\\");
        }
        let chars = text::chars_of(path);
        assert(chars@.subrange(2, chars@.len() as int) =~= path@.skip(2));
        UserPath::InHome(text::string_of(&chars, 2, chars.len()))
    } else {
        UserPath::Plain(path.to_string())
    }
}

/// The key that the text of a key file holds: the text without white space at
/// its ends. `None` where nothing is left.
pub fn read_key_file(text: &str) -> (r: Option<String>)
    ensures
        match r {
            Some(key) => key@ == text::trim(text@) && key@.len() > 0,
            None => text::trim(text@).len() == 0,
        },
{
    let key = text::trimmed(text);
    if key.as_str().is_empty() {
        None
    } else {
        Some(key)
    }
}

impl Config {
    /// Refuses a configuration without providers, and one with a provider
    /// whose name cannot be a path segment or is taken, or whose root URL has
    /// no scheme that is spoken.
    pub fn validate(&self) -> (r: Result<(), ConfigError>)
        ensures
            match r {
                Ok(_) => fault_of(self.providers@) is None,
                Err(e) => fault_of(self.providers@) == Some(e@),
            },
    {
        if self.providers.len() == 0 {
            return Err(ConfigError::NoProviders);
        }
        let mut i: usize = 0;
        while i < self.providers.len()
            invariant
                i <= self.providers@.len(),
                self.providers@.len() > 0,
                fault_of(self.providers@) == first_fault(self.providers@, i as int),
            decreases self.providers@.len() - i,
        {
            let p = &self.providers[i];
            if !is_path_segment(p.name.as_str()) {
                return Err(ConfigError::BadName { name: p.name.clone() });
            }
            if self.is_name_taken(i) {
                return Err(ConfigError::DuplicateName { name: p.name.clone() });
            }
            if !text::starts_with(p.base_url.as_str(), "http://") && !text::starts_with(
                p.base_url.as_str(),
                "https://",
            ) {
                return Err(
                    ConfigError::BadBaseUrl {
                        name: p.name.clone(),
                        base_url: p.base_url.clone(),
                    },
                );
            }
            i = i + 1;
        }
        Ok(())
    }

    fn is_name_taken(&self, i: usize) -> (r: bool)
        requires
            i < self.providers@.len(),
        ensures
            r == name_taken(self.providers@, i as int),
    {
        let mut j: usize = 0;
        while j < i
            invariant
                j <= i < self.providers@.len(),
                forall|k: int|
                    0 <= k < j ==> (#[trigger] self.providers@[k]).name@
                        != self.providers@[i as int].name@,
            decreases i - j,
        {
            if self.providers[j].name == self.providers[i].name {
                assert(self.providers@[j as int].name@ == self.providers@[i as int].name@);
                return true;
            }
            j = j + 1;
        }
        false
    }

    /// Checks a configuration that holds the values as they stand in the text,
    /// and settles it: root URLs lose their trailing slashes, so that joining a
    /// path cannot double up, and a tilde in the path of a key file is read as
    /// the home directory.
    pub fn parse(given: Config, home_known: bool) -> (r: Result<Config, ConfigError>)
        ensures
            match r {
                Ok(c) => {
                    &&& fault_of(given.providers@) is None
                    &&& c.server == given.server
                    &&& all_settled(given.providers@, c.providers@, home_known)
                },
                Err(e) => fault_of(given.providers@) == Some(e@),
            },
    {
        if let Err(e) = given.validate() {
            return Err(e);
        }
        let ghost entries = given.providers@;
        let mut providers: Vec<ProviderConfig> = Vec::new();
        for p in it: given.providers
            invariant
                it.seq() == entries,
                providers@.len() == it.index(),
                forall|i: int|
                    0 <= i < providers@.len() ==> settled(
                        entries[i],
                        #[trigger] providers@[i],
                        home_known,
                    ),
        {
            let key_file = match p.key_file {
                UserPath::Plain(path) => expand_tilde(path.as_str(), home_known),
                UserPath::InHome(path) => UserPath::InHome(path),
            };
            providers.push(
                ProviderConfig {
                    name: p.name,
                    kind: p.kind,
                    base_url: text::without_trailing(p.base_url.as_str(), '/'),
                    key_file,
                },
            );
        }
        Ok(Config { server: given.server, providers })
    }
}

proof fn lemma_no_fault(providers: Seq<ProviderConfig>, from: int)
    requires
        0 <= from <= providers.len(),
    ensures
        first_fault(providers, from) is None <==> forall|i: int|
            from <= i < providers.len() ==> (#[trigger] provider_fault(providers, i)) is None,
    decreases providers.len() - from,
{
    if from < providers.len() {
        lemma_no_fault(providers, from + 1);
        assert(provider_fault(providers, from) is Some || provider_fault(providers, from) is None);
    }
}

/// A configuration is accepted exactly when it has a provider, every name can
/// be a path segment, no two names are the same and every root URL has a
/// scheme that is spoken.
pub proof fn law_what_is_accepted(providers: Seq<ProviderConfig>)
    ensures
        fault_of(providers) is None <==> {
            &&& providers.len() > 0
            &&& forall|i: int|
                0 <= i < providers.len() ==> path_segment((#[trigger] providers[i]).name@)
                    && has_scheme(providers[i].base_url@)
            &&& forall|i: int, j: int|
                0 <= i < j < providers.len() ==> (#[trigger] providers[i]).name@ != (
                #[trigger] providers[j]).name@
        },
{
    if providers.len() > 0 {
        lemma_no_fault(providers, 0);
        if fault_of(providers) is None {
            assert forall|i: int| 0 <= i < providers.len() implies path_segment(
                (#[trigger] providers[i]).name@,
            ) && has_scheme(providers[i].base_url@) by {
                assert(provider_fault(providers, i) is None);
            }
            assert forall|i: int, j: int| 0 <= i < j < providers.len() implies (
            #[trigger] providers[i]).name@ != (#[trigger] providers[j]).name@ by {
                assert(provider_fault(providers, j) is None);
            }
        }
    }
}

/// A settled root URL does not end in a slash.
pub proof fn law_no_trailing_slash(before: ProviderConfig, after: ProviderConfig, home_known: bool)
    requires
        settled(before, after, home_known),
    ensures
        after.base_url@.len() > 0 ==> after.base_url@.last() != '/',
{
    text::lemma_trim_end_matches(before.base_url@, '/');
}

/// Settling what is settled changes nothing.
pub proof fn law_settling_again_changes_nothing(
    given: ProviderConfig,
    once: ProviderConfig,
    twice: ProviderConfig,
    home_known: bool,
)
    requires
        settled(given, once, home_known),
        settled(once, twice, home_known),
    ensures
        twice.name@ == once.name@,
        twice.kind == once.kind,
        twice.base_url@ == once.base_url@,
        twice.key_file@ == once.key_file@,
{
    text::lemma_trim_end_matches(given.base_url@, '/');
}

/// A name can be a path segment where it has a character, and all of them are
/// ASCII letters, ASCII digits, hyphens and underscores.
pub proof fn law_path_segments(name: Seq<char>)
    ensures
        path_segment(name) <==> name.len() > 0 && forall|i: int|
            0 <= i < name.len() ==> ('a' <= #[trigger] name[i] && name[i] <= 'z') || ('A' <= name[i]
                && name[i] <= 'Z') || ('0' <= name[i] && name[i] <= '9') || name[i] == '-' || name[i]
                == '_',
{
    if name.len() > 0 && forall|i: int|
        0 <= i < name.len() ==> ('a' <= #[trigger] name[i] && name[i] <= 'z') || ('A' <= name[i]
            && name[i] <= 'Z') || ('0' <= name[i] && name[i] <= '9') || name[i] == '-' || name[i]
            == '_' {
        assert forall|i: int| 0 <= i < name.len() implies segment_char(#[trigger] name[i]) by {}
    }
    if path_segment(name) {
        assert forall|i: int| 0 <= i < name.len() implies ('a' <= #[trigger] name[i] && name[i]
            <= 'z') || ('A' <= name[i] && name[i] <= 'Z') || ('0' <= name[i] && name[i] <= '9')
            || name[i] == '-' || name[i] == '_' by {
            assert(segment_char(name[i]));
        }
    }
}

/// The two schemes that are spoken are `http` and `https`.
pub proof fn law_schemes(url: Seq<char>, rest: Seq<char>)
    ensures
        has_scheme("http://"@ + rest),
        has_scheme("https://"@ + rest),
        has_scheme(url) ==> exists|r: Seq<char>|
            url == #[trigger] ("http://"@ + r) || url == "https://"@ + r,
{
    let plain = "http://"@ + rest;
    let secure = "https://"@ + rest;
    assert(plain.subrange(0, "http://"@.len() as int) =~= "http://"@);
    assert(secure.subrange(0, "https://"@.len() as int) =~= "https://"@);
    if "http://"@.is_prefix_of(url) {
        let r = url.skip("http://"@.len() as int);
        assert(url =~= "http://"@ + r);
    }
    if "https://"@.is_prefix_of(url) {
        let r = url.skip("https://"@.len() as int);
        assert(url =~= "https://"@ + r);
        assert("http://"@ + r == "http://"@ + r);
    }
}

proof fn lemma_first_fault(providers: Seq<ProviderConfig>, from: int, i: int)
    requires
        0 <= from <= i < providers.len(),
        forall|j: int| from <= j < i ==> (#[trigger] provider_fault(providers, j)) is None,
        provider_fault(providers, i) is Some,
    ensures
        first_fault(providers, from) == provider_fault(providers, i),
    decreases i - from,
{
    if from < i {
        assert(provider_fault(providers, from) is None);
        lemma_first_fault(providers, from + 1, i);
    }
}

/// A list of providers is refused for the first provider that is not in order,
/// and of one provider the name is looked at first, then whether the name was
/// given before, then the root URL. `i` is the place of that provider.
pub proof fn law_which_fault_is_reported(providers: Seq<ProviderConfig>, i: int)
    requires
        0 <= i < providers.len(),
        forall|j: int|
            0 <= j < i ==> path_segment((#[trigger] providers[j]).name@) && has_scheme(
                providers[j].base_url@,
            ),
        forall|j: int, k: int|
            0 <= j < k < i ==> (#[trigger] providers[j]).name@ != (#[trigger] providers[k]).name@,
    ensures
        ({
            let p = providers[i];
            let taken = exists|j: int| 0 <= j < i && (#[trigger] providers[j]).name@ == p.name@;
            &&& !path_segment(p.name@) ==> fault_of(providers) == Some(
                Fault::BadName { name: p.name@ },
            )
            &&& path_segment(p.name@) && taken ==> fault_of(providers) == Some(
                Fault::DuplicateName { name: p.name@ },
            )
            &&& path_segment(p.name@) && !taken && !has_scheme(p.base_url@) ==> fault_of(providers)
                == Some(Fault::BadBaseUrl { name: p.name@, base_url: p.base_url@ })
        }),
        fault_of(Seq::<ProviderConfig>::empty()) == Some(Fault::NoProviders),
{
    assert forall|j: int| 0 <= j < i implies (#[trigger] provider_fault(providers, j)) is None by {
        assert(path_segment(providers[j].name@) && has_scheme(providers[j].base_url@));
        if name_taken(providers, j) {
            let k = choose|k: int|
                0 <= k < j && (#[trigger] providers[k]).name@ == providers[j].name@;
            assert(providers[k].name@ != providers[j].name@);
        }
    }
    if provider_fault(providers, i) is Some {
        lemma_first_fault(providers, 0, i);
    }
}

/// What a client of the configuration is told for each fault.
pub proof fn law_words_of_faults(name: Seq<char>, base_url: Seq<char>)
    ensures
        Fault::NoProviders.words()
            == "no providers configured; add at least one [[provider]] block"@,
        (Fault::BadName { name }).words() == "provider name "@ + text::quotation(name)
            + " must be non-empty and contain only letters, digits, '-' and '_'"@,
        (Fault::DuplicateName { name }).words() == "duplicate provider name "@ + text::quotation(
            name,
        ),
        (Fault::BadBaseUrl { name, base_url }).words() == "provider "@ + text::quotation(name)
            + ": base_url must start with http:// or https://, got "@ + text::quotation(base_url),
{
}

/// A path that starts with `~/` or `~\\` stands for what follows, in the home
/// directory, where there is one. Every other path stands for itself.
pub proof fn law_tilde(rest: Seq<char>, path: Seq<char>)
    ensures
        expanded("~/"@ + rest, true) == PathText::InHome(rest),
        expanded("~\\"@ + rest, true) == PathText::InHome(rest),
        expanded(path, false) == PathText::Plain(path),
        path.len() < 2 || path[0] != '~' || (path[1] != '/' && path[1] != '\\') ==> expanded(
            path,
            true,
        ) == PathText::Plain(path),
{
    reveal_strlit("~/");
    reveal_strlit("~\\");
    let slash = "~/"@ + rest;
    let back = "~\\"@ + rest;
    assert(slash.subrange(0, 2) =~= "~/"@);
    assert(slash.skip(2) =~= rest);
    assert(back.subrange(0, 2) =~= "~\\"@);
    assert(back.skip(2) =~= rest);
    if "~/"@.is_prefix_of(path) {
        assert(path.subrange(0, 2)[0] == '~' && path.subrange(0, 2)[1] == '/');
    }
    if "~\\"@.is_prefix_of(path) {
        assert(path.subrange(0, 2)[0] == '~' && path.subrange(0, 2)[1] == '\\');
    }
}

/// Settling keeps name and kind, takes the slashes at the end of the root URL
/// away and nothing else of it, and reads the path of the key file.
pub proof fn law_settling(
    before: ProviderConfig,
    after: ProviderConfig,
    home_known: bool,
    root: Seq<char>,
    slashes: Seq<char>,
    path: Seq<char>,
)
    requires
        settled(before, after, home_known),
        before.base_url@ == root + slashes,
        root.len() > 0 ==> root.last() != '/',
        forall|i: int| 0 <= i < slashes.len() ==> #[trigger] slashes[i] == '/',
        before.key_file@ == PathText::Plain(path),
    ensures
        after.name@ == before.name@,
        after.kind == before.kind,
        after.base_url@ == root,
        after.key_file@ == expanded(path, home_known),
{
    text::law_trimming_a_trailing_run(root, slashes, '/');
}

/// Each entry of a settled configuration comes from the entry in its place.
pub proof fn law_entries_keep_their_places(
    before: Seq<ProviderConfig>,
    after: Seq<ProviderConfig>,
    home_known: bool,
    i: int,
)
    requires
        all_settled(before, after, home_known),
    ensures
        after.len() == before.len(),
        0 <= i < after.len() ==> settled(before[i], after[i], home_known),
{
}

/// A configuration is accepted exactly when it has a provider, every name has a
/// character and holds ASCII letters, ASCII digits, hyphens and underscores
/// alone, no two names are the same, and every root URL starts with `http://` or
/// `https://`.
pub proof fn law_accepted_configurations(providers: Seq<ProviderConfig>)
    ensures
        fault_of(providers) is None <==> {
            &&& providers.len() > 0
            &&& forall|i: int|
                0 <= i < providers.len() ==> (#[trigger] providers[i]).name@.len() > 0
            &&& forall|i: int, k: int|
                0 <= i < providers.len() && 0 <= k < providers[i].name@.len() ==> ('a'
                    <= #[trigger] providers[i].name@[k] && providers[i].name@[k] <= 'z') || ('A'
                    <= providers[i].name@[k] && providers[i].name@[k] <= 'Z') || ('0'
                    <= providers[i].name@[k] && providers[i].name@[k] <= '9')
                    || providers[i].name@[k] == '-' || providers[i].name@[k] == '_'
            &&& forall|i: int, j: int|
                0 <= i < j < providers.len() ==> (#[trigger] providers[i]).name@ != (
                #[trigger] providers[j]).name@
            &&& forall|i: int|
                0 <= i < providers.len() ==> "http://"@.is_prefix_of(
                    (#[trigger] providers[i]).base_url@,
                ) || "https://"@.is_prefix_of(providers[i].base_url@)
        },
{
    law_what_is_accepted(providers);
    if fault_of(providers) is None {
        assert forall|i: int, k: int|
            0 <= i < providers.len() && 0 <= k < providers[i].name@.len() implies ('a'
            <= #[trigger] providers[i].name@[k] && providers[i].name@[k] <= 'z') || ('A'
            <= providers[i].name@[k] && providers[i].name@[k] <= 'Z') || ('0'
            <= providers[i].name@[k] && providers[i].name@[k] <= '9') || providers[i].name@[k]
            == '-' || providers[i].name@[k] == '_' by {
            assert(path_segment(providers[i].name@));
            assert(segment_char(providers[i].name@[k]));
        }
    }
    if forall|i: int, k: int|
        0 <= i < providers.len() && 0 <= k < providers[i].name@.len() ==> ('a'
            <= #[trigger] providers[i].name@[k] && providers[i].name@[k] <= 'z') || ('A'
            <= providers[i].name@[k] && providers[i].name@[k] <= 'Z') || ('0'
            <= providers[i].name@[k] && providers[i].name@[k] <= '9') || providers[i].name@[k]
            == '-' || providers[i].name@[k] == '_' {
        assert forall|i: int| 0 <= i < providers.len() && providers[i].name@.len() > 0 implies
            path_segment((#[trigger] providers[i]).name@) by {
            assert forall|k: int| 0 <= k < providers[i].name@.len() implies segment_char(
                #[trigger] providers[i].name@[k],
            ) by {}
        }
    }
}

} // verus!
