use gmail_proxy::auth::{
    cached_access_token, refreshed_cache, token_expires_in_secs, token_is_valid, token_lifetime, token_request_body, CachedToken,
    SAFETY_MARGIN_SECS,
};
use gmail_proxy::config::{
    resolve_paths, secrets_path, secrets_permissions_ok, validate_patterns, AuditConfig, AuthConfig, Config, ConfigFile, GmailConfig, OpenClawConfig,
    ProxyConfig, ScrubConfig, Secrets,
};
use gmail_proxy::gmail::types::{find_label, header_or_empty, Label, TokenResponse, WatchResponse};
use gmail_proxy::gmail::watch::{starting_history_id, watch_history_id};
use gmail_proxy::proxy::routes::WatchStatus;
use gmail_proxy::text::{decimal_string, join_strs, str_contains, str_eq_ignore_ascii_case, str_starts_with};

fn scrub(otp: Vec<&str>, senders: Vec<&str>, urls: Vec<&str>) -> ScrubConfig {
    ScrubConfig {
        blocked_label: "agent-blocked".into(),
        strip_links: true,
        otp_patterns: otp.into_iter().map(String::from).collect(),
        blocked_sender_patterns: senders.into_iter().map(String::from).collect(),
        url_strip_patterns: urls.into_iter().map(String::from).collect(),
        allowed_operators: vec!["from".into(), "subject".into()],
    }
}

fn config_file(scrub: ScrubConfig) -> ConfigFile {
    ConfigFile {
        auth: AuthConfig {
            client_id: "test-client-id".into(),
            client_secret: "test-client-secret".into(),
            secrets_file: "secrets.toml".into(),
        },
        gmail: GmailConfig {
            account: "user@example.com".into(),
            pubsub_topic: "projects/myproject/topics/gmail".into(),
            pubsub_subscription: "projects/myproject/subscriptions/gmail".into(),
            watch_labels: vec!["INBOX".into()],
            watch_renew_secs: 86400,
        },
        scrub,
        proxy: ProxyConfig { socket_path: "/tmp/proxy.sock".into(), search_fetch_concurrency: 10 },
        openclaw: OpenClawConfig { hook_url: "https://openclaw.example.com/hook".into() },
        audit: AuditConfig { log_dir: "audit_logs".into(), state_dir: "/var/lib/gmail-proxy".into() },
    }
}

fn config(f: ConfigFile) -> Config {
    Config {
        auth: f.auth,
        gmail: f.gmail,
        scrub: f.scrub,
        proxy: f.proxy,
        openclaw: f.openclaw,
        audit: f.audit,
        secrets: Secrets { refresh_token: "test-refresh-token".into(), openclaw_hook_token: "test-hook-token".into() },
    }
}

#[test]
fn token_reused_until_safety_margin() {
    assert_eq!(SAFETY_MARGIN_SECS, 300);
    assert_eq!(token_lifetime(3599), 3299);
    assert_eq!(token_lifetime(300), 0);
    assert_eq!(token_lifetime(10), 0);

    let cache = Some(CachedToken::issued("cached-token".into(), 3599, 1000));
    assert_eq!(cached_access_token(&cache, 1000), Some("cached-token".to_string()));
    assert_eq!(cached_access_token(&cache, 4298), Some("cached-token".to_string()));
    assert_eq!(cached_access_token(&cache, 4299), None);
    assert!(token_is_valid(&cache, 2000));
    assert!(!token_is_valid(&cache, 5000));
    assert_eq!(token_expires_in_secs(&cache, 2000), Some(2299));
    assert_eq!(token_expires_in_secs(&cache, 5000), Some(0));
}

#[test]
fn short_lived_token_is_never_reused() {
    let cache = Some(CachedToken::issued("brief".into(), 200, 50));
    assert_eq!(cached_access_token(&cache, 50), None);
    assert!(!token_is_valid(&cache, 50));
}

#[test]
fn no_cached_token() {
    assert_eq!(cached_access_token(&None, 0), None);
    assert!(!token_is_valid(&None, 0));
    assert_eq!(token_expires_in_secs(&None, 0), None);
}

#[test]
fn refresh_grant_body() {
    assert_eq!(
        token_request_body("client-id", "client-secret", "refresh-token"),
        "grant_type=refresh_token&client_id=client-id&client_secret=client-secret&refresh_token=refresh-token"
    );
}

#[test]
fn valid_patterns_accepted() {
    let f = config_file(scrub(vec![r"\b\d{6}\b"], vec![r"(?i)security@"], vec![r"https?://\S+/reset"]));
    assert!(validate_patterns(&f).is_ok());
}

#[test]
fn invalid_otp_pattern_named_in_error() {
    let f = config_file(scrub(vec![r"\d{6}", "[invalid"], vec![], vec![]));
    let e = validate_patterns(&f).unwrap_err();
    assert_eq!(e.message, "invalid regex in otp_patterns[1]: [invalid");
    assert!(e.cause.contains("unclosed character class"), "cause: {}", e.cause);
}

#[test]
fn invalid_patterns_checked_in_order() {
    let f = config_file(scrub(vec![], vec!["(unclosed"], vec!["[bad"]));
    let e = validate_patterns(&f).unwrap_err();
    assert_eq!(e.message, "invalid regex in blocked_sender_patterns[0]: (unclosed");
    assert!(e.cause.contains("unclosed group"), "cause: {}", e.cause);
    let g = config_file(scrub(vec![], vec![], vec!["ok", "also ok", "[bad"]));
    assert_eq!(validate_patterns(&g).unwrap_err().message, "invalid regex in url_strip_patterns[2]: [bad");
}

#[test]
fn paths_resolved_next_to_config() {
    let c = config(config_file(scrub(vec![], vec![], vec![])));
    let p = resolve_paths("/etc/gmail-proxy/config.toml", &c);
    assert_eq!(p.config, "/etc/gmail-proxy/config.toml");
    assert_eq!(p.secrets, "/etc/gmail-proxy/secrets.toml");
    assert_eq!(p.state, "/var/lib/gmail-proxy/state.json");
    assert_eq!(p.audit_dir, "audit_logs");
}

#[test]
fn bare_config_name_resolves_secrets_beside_it() {
    let c = config(config_file(scrub(vec![], vec![], vec![])));
    let p = resolve_paths("config.toml", &c);
    assert_eq!(p.secrets, "secrets.toml");
}

#[test]
fn watch_history_id_parsed() {
    let ok = WatchResponse { history_id: "12345".into(), expiration: "1742400000000".into() };
    assert_eq!(watch_history_id(&ok), Some(12345));
    let bad = WatchResponse { history_id: "12a".into(), expiration: "1".into() };
    assert_eq!(watch_history_id(&bad), None);
}

#[test]
fn watch_status_records_registration() {
    let mut s = WatchStatus { active: false, expiration: None, last_history_id: None };
    s.record_registration("1742400000000".into(), 67890);
    assert!(s.active);
    assert_eq!(s.expiration, Some("1742400000000".to_string()));
    assert_eq!(s.last_history_id, Some(67890));
}

#[test]
fn starting_history_prefers_saved_state() {
    assert_eq!(starting_history_id(Some(12345), Some(67890)), 12345);
    assert_eq!(starting_history_id(None, Some(67890)), 67890);
    assert_eq!(starting_history_id(None, None), 0);
}

#[test]
fn label_found_ignoring_ascii_case() {
    let labels = vec![
        Label { id: "INBOX".into(), name: "INBOX".into() },
        Label { id: "Label_42".into(), name: "Agent-Blocked".into() },
    ];
    assert_eq!(find_label(&labels, "agent-blocked").map(|l| l.id.clone()), Some("Label_42".to_string()));
    assert!(find_label(&labels, "missing").is_none());
}

#[test]
fn header_defaults_to_empty() {
    assert_eq!(header_or_empty(Some("x")), "x");
    assert_eq!(header_or_empty(None), "");
}

#[test]
fn text_helpers() {
    assert_eq!(decimal_string(0), "0");
    assert_eq!(decimal_string(1000), "1000");
    assert_eq!(join_strs(&["from", "to", "subject"], ", "), "from, to, subject");
    assert_eq!(join_strs(&[], ", "), "");
    assert!(str_eq_ignore_ascii_case("Agent-Blocked", "agent-BLOCKED"));
    assert!(!str_eq_ignore_ascii_case("agent", "agents"));
    assert!(str_contains("text/plain; charset", "plain"));
    assert!(!str_contains("text", "plain"));
    assert!(str_starts_with("text/html", "text/"));
    assert!(!str_starts_with("te", "text/"));
}

#[test]
fn secrets_beside_config_and_owner_only() {
    assert_eq!(secrets_path("/etc/gmail-proxy/config.toml", "secrets.toml"), "/etc/gmail-proxy/secrets.toml");
    assert_eq!(secrets_path("/etc/gmail-proxy/config.toml", "/abs/secrets.toml"), "/abs/secrets.toml");
    assert!(secrets_permissions_ok(0o600));
    assert!(secrets_permissions_ok(0o100600));
    assert!(!secrets_permissions_ok(0o644));
    assert!(!secrets_permissions_ok(0o400));
}

#[test]
fn watch_history_id_follows_u64_parsing() {
    let id = |h: &str| watch_history_id(&WatchResponse { history_id: h.into(), expiration: "0".into() });
    assert_eq!(id("+12"), Some(12));
    assert_eq!(id("007"), Some(7));
    assert_eq!(id("18446744073709551615"), Some(u64::MAX));
    assert_eq!(id("18446744073709551616"), None);
    assert_eq!(id(""), None);
    assert_eq!(id("+"), None);
    assert_eq!(id("-1"), None);
    assert_eq!(id(" 1"), None);
}

#[test]
fn whitespace_agrees_with_std_on_every_char() {
    for code in 0u32..=0x10FFFF {
        if let Some(c) = char::from_u32(code) {
            assert_eq!(gmail_proxy::text::char_is_whitespace(c), c.is_whitespace(), "U+{code:04X}");
        }
    }
}

#[test]
fn parse_u64_agrees_with_std() {
    for s in ["0", "+0", "42", "+", "", "-3", "1_000", "18446744073709551615", "18446744073709551616", "99999999999999999999", "٣", " 7", "7 "] {
        assert_eq!(gmail_proxy::gmail::watch::parse_u64(s), s.parse::<u64>().ok(), "{s:?}");
    }
}

#[test]
fn refreshed_token_served_until_margin() {
    use_refresh();
}

fn use_refresh() {
    let resp = TokenResponse { access_token: "new-access-token".into(), expires_in: 3599, token_type: "Bearer".into() };
    let cache = refreshed_cache(resp, 100);
    assert_eq!(cached_access_token(&cache, 100), Some("new-access-token".to_string()));
    assert_eq!(cached_access_token(&cache, 100 + 3599 - 300 - 1), Some("new-access-token".to_string()));
    assert_eq!(cached_access_token(&cache, 100 + 3599 - 300), None);
    let short = TokenResponse { access_token: "t".into(), expires_in: 300, token_type: "Bearer".into() };
    assert_eq!(cached_access_token(&refreshed_cache(short, 5), 5), None);
    let far = TokenResponse { access_token: "t".into(), expires_in: u64::MAX, token_type: "Bearer".into() };
    assert!(refreshed_cache(far, 1000).is_none());
}

#[test]
fn str_replace_agrees_with_std() {
    let cases = [
        ("User=SERVICE_USER\nGroup=SERVICE_USER\n", "SERVICE_USER", "_gmail_proxy"),
        ("aaaa", "aa", "b"),
        ("abc", "", "x"),
        ("", "", "x"),
        ("", "a", "x"),
        ("ab", "abc", "x"),
        ("xyxyx", "xyx", "-"),
        ("日本語日本", "日本", "に"),
    ];
    for (t, f, to) in cases {
        assert_eq!(gmail_proxy::text::str_replace(t, f, to), t.replace(f, to), "{t:?} {f:?} {to:?}");
    }
}
