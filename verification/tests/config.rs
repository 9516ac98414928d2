//! Configurations, read from TOML text.
use clavem::config::{
    default_listen, expand_tilde, is_path_segment, read_key_file, Config, ConfigError, ProviderConfig,
    Server, UserPath,
};
use clavem::provider::Kind;

const DEFAULT_LISTEN: &str = "127.0.0.1:4567";

const SAMPLE: &str = r#"
        [server]
        listen = "0.0.0.0:8080"

        [[provider]]
        name = "anthropic"
        kind = "anthropic"
        base_url = "https://api.anthropic.com/"
        key_file = "/keys/anthropic.key"

        [[provider]]
        name = "azure-eu"
        kind = "azure"
        base_url = "https://eu.openai.azure.com"
        key_file = "/keys/azure-eu.key"
    "#;

fn kind_named(name: &str) -> Kind {
    match name {
        "anthropic" => Kind::Anthropic,
        "xai" => Kind::Xai,
        "azure" => Kind::Azure,
        other => panic!("unknown kind {other}"),
    }
}

fn string_at(table: &toml::Table, key: &str) -> String {
    table[key].as_str().unwrap().to_string()
}

/// The values that the text gives, as they stand there.
fn read(text: &str) -> Config {
    let table: toml::Table = text.parse().unwrap();
    let server = match table.get("server") {
        Some(server) => Server { listen: string_at(server.as_table().unwrap(), "listen") },
        None => Server::default(),
    };
    let mut providers = Vec::new();
    if let Some(blocks) = table.get("provider") {
        for block in blocks.as_array().unwrap() {
            let block = block.as_table().unwrap();
            providers.push(ProviderConfig {
                name: string_at(block, "name"),
                kind: kind_named(&string_at(block, "kind")),
                base_url: string_at(block, "base_url"),
                key_file: UserPath::Plain(string_at(block, "key_file")),
            });
        }
    }
    Config { server, providers }
}

fn parse(text: &str) -> Result<Config, ConfigError> {
    Config::parse(read(text), true)
}

fn entry(name: &str, base_url: &str, key_file: &str) -> ProviderConfig {
    ProviderConfig {
        name: name.to_string(),
        kind: Kind::Xai,
        base_url: base_url.to_string(),
        key_file: UserPath::Plain(key_file.to_string()),
    }
}

fn with(providers: Vec<ProviderConfig>) -> Config {
    Config { server: Server::default(), providers }
}

#[test]
fn parses_providers_and_listen() {
    let c = parse(SAMPLE).unwrap();
    assert_eq!(c.server.listen.to_string(), "0.0.0.0:8080");
    assert_eq!(c.providers.len(), 2);
    assert_eq!(c.providers[0].kind, Kind::Anthropic);
    // Trailing slash is dropped so joining a rest path cannot double up.
    assert_eq!(c.providers[0].base_url, "https://api.anthropic.com");
    assert_eq!(c.providers[1].kind, Kind::Azure);
}

#[test]
fn listen_defaults_when_server_section_absent() {
    let c = parse(
        r#"
            [[provider]]
            name = "xai"
            kind = "xai"
            base_url = "https://api.x.ai"
            key_file = "/keys/xai.key"
        "#,
    )
    .unwrap();
    assert_eq!(c.server.listen.to_string(), DEFAULT_LISTEN);
    assert_eq!(default_listen(), DEFAULT_LISTEN);
}

#[test]
fn rejects_empty_config() {
    let err = parse("").unwrap_err().message();
    assert!(err.contains("no providers"), "{err}");
    assert_eq!(err, "no providers configured; add at least one [[provider]] block");
}

#[test]
fn rejects_duplicate_names() {
    let text = format!("{SAMPLE}\n{}", &SAMPLE[SAMPLE.find("[[provider]]").unwrap()..]);
    let err = parse(&text).unwrap_err().message();
    assert!(err.contains("duplicate provider name"), "{err}");
    assert_eq!(err, "duplicate provider name \"anthropic\"");
}

#[test]
fn rejects_name_with_slash() {
    let err = parse(&SAMPLE.replace("name = \"anthropic\"", "name = \"an/thropic\""))
        .unwrap_err()
        .message();
    assert!(err.contains("must be non-empty"), "{err}");
    assert_eq!(
        err,
        "provider name \"an/thropic\" must be non-empty and contain only letters, digits, '-' and '_'"
    );
}

#[test]
fn rejects_base_url_without_scheme() {
    let err = parse(&SAMPLE.replace("https://api.anthropic.com/", "api.anthropic.com"))
        .unwrap_err()
        .message();
    assert!(err.contains("http://"), "{err}");
    assert_eq!(
        err,
        "provider \"anthropic\": base_url must start with http:// or https://, got \"api.anthropic.com\""
    );
}

#[test]
fn first_fault_is_the_one_reported() {
    // A bad name comes before a name that is taken, and an earlier provider
    // before a later one.
    let c = with(vec![entry("a", "ftp://x", "k"), entry("b c", "http://x", "k")]);
    assert!(matches!(c.validate(), Err(ConfigError::BadBaseUrl { name, .. }) if name == "a"));
    let c = with(vec![entry("a", "http://x", "k"), entry("a", "ftp://x", "k")]);
    assert!(matches!(c.validate(), Err(ConfigError::DuplicateName { name }) if name == "a"));
    let c = with(vec![entry("", "http://x", "k")]);
    assert!(matches!(c.validate(), Err(ConfigError::BadName { name }) if name.is_empty()));
    assert!(matches!(with(vec![]).validate(), Err(ConfigError::NoProviders)));
    let c = with(vec![entry("a", "http://x", "k"), entry("A", "https://x", "k")]);
    assert!(c.validate().is_ok());
}

#[test]
fn path_segments() {
    assert!(is_path_segment("azure-eu_2"));
    assert!(is_path_segment("A"));
    assert!(!is_path_segment(""));
    assert!(!is_path_segment("a/b"));
    assert!(!is_path_segment("a b"));
    assert!(!is_path_segment("é"));
    assert!(!is_path_segment("a."));
}

#[test]
fn settles_root_urls_and_key_files() {
    let c = with(vec![
        entry("a", "http://x//", "~/keys/a"),
        entry("b", "https://", "~\\keys\\b"),
        entry("c", "http://x/y", "/keys/~/c"),
    ]);
    let c = Config::parse(c, true).unwrap();
    assert_eq!(c.providers[0].base_url, "http://x");
    assert_eq!(c.providers[1].base_url, "https:");
    assert_eq!(c.providers[2].base_url, "http://x/y");
    assert!(matches!(&c.providers[0].key_file, UserPath::InHome(p) if p == "keys/a"));
    assert!(matches!(&c.providers[1].key_file, UserPath::InHome(p) if p == "keys\\b"));
    assert!(matches!(&c.providers[2].key_file, UserPath::Plain(p) if p == "/keys/~/c"));
    assert_eq!(c.providers[0].name, "a");
    assert_eq!(c.providers[0].kind, Kind::Xai);
}

#[test]
fn settling_again_changes_nothing() {
    let c = with(vec![entry("a", "http://x//", "~/~/a")]);
    let once = Config::parse(c, true).unwrap();
    let twice = Config::parse(once, true).unwrap();
    assert_eq!(twice.providers[0].base_url, "http://x");
    assert!(matches!(&twice.providers[0].key_file, UserPath::InHome(p) if p == "~/a"));
}

#[test]
fn tilde_stays_where_there_is_no_home() {
    assert!(matches!(expand_tilde("~/k", false), UserPath::Plain(p) if p == "~/k"));
    assert!(matches!(expand_tilde("~/k", true), UserPath::InHome(p) if p == "k"));
    assert!(matches!(expand_tilde("~", true), UserPath::Plain(p) if p == "~"));
    assert!(matches!(expand_tilde("~user/k", true), UserPath::Plain(p) if p == "~user/k"));
    assert!(matches!(expand_tilde("~//k", true), UserPath::InHome(p) if p == "/k"));
}

#[test]
fn keys_are_trimmed() {
    assert_eq!(read_key_file("sk-1\n").as_deref(), Some("sk-1"));
    assert_eq!(read_key_file("\u{a0}\t sk 1 \r\n\u{2003}").as_deref(), Some("sk 1"));
    assert_eq!(read_key_file(" \n\t").as_deref(), None);
    assert_eq!(read_key_file("").as_deref(), None);
}
