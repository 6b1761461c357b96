use vstd::prelude::*;
use vstd::string::*;

use crate::gmail::types::opt_text;
use crate::scrub::content::{regex_compile, regex_error_message, regex_error_text, regex_valid};
use crate::text::{decimal, decimal_string, strings_view};

verus! {

#[derive(Debug, Clone)]
pub struct AuthConfig {
    pub client_id: String,
    pub client_secret: String,
    pub secrets_file: String,
}

#[derive(Debug, Clone)]
pub struct GmailConfig {
    pub account: String,
    pub pubsub_topic: String,
    pub pubsub_subscription: String,
    pub watch_labels: Vec<String>,
    pub watch_renew_secs: u64,
}

#[derive(Debug, Clone)]
pub struct ScrubConfig {
    pub blocked_label: String,
    pub strip_links: bool,
    pub otp_patterns: Vec<String>,
    pub blocked_sender_patterns: Vec<String>,
    pub url_strip_patterns: Vec<String>,
    pub allowed_operators: Vec<String>,
}

#[derive(Debug, Clone)]
pub struct ProxyConfig {
    pub socket_path: String,
    pub search_fetch_concurrency: usize,
}

#[derive(Debug, Clone)]
pub struct OpenClawConfig {
    pub hook_url: String,
}

#[derive(Debug, Clone)]
pub struct AuditConfig {
    pub log_dir: String,
    pub state_dir: String,
}

#[derive(Debug, Clone)]
pub struct Secrets {
    pub refresh_token: String,
    pub openclaw_hook_token: String,
}

#[derive(Debug, Clone)]
pub struct ConfigFile {
    pub auth: AuthConfig,
    pub gmail: GmailConfig,
    pub scrub: ScrubConfig,
    pub proxy: ProxyConfig,
    pub openclaw: OpenClawConfig,
    pub audit: AuditConfig,
}

#[derive(Debug, Clone)]
pub struct Config {
    pub auth: AuthConfig,
    pub gmail: GmailConfig,
    pub scrub: ScrubConfig,
    pub proxy: ProxyConfig,
    pub openclaw: OpenClawConfig,
    pub audit: AuditConfig,
    pub secrets: Secrets,
}

/// The files and directories the service uses, as path strings.
#[derive(Debug, Clone)]
pub struct Paths {
    pub config: String,
    pub secrets: String,
    pub state: String,
    pub audit_dir: String,
}

// ---------------------------------------------------------------------------
// Pattern validation
// ---------------------------------------------------------------------------

/// The index of the first pattern at or after `k` that does not compile,
/// or the length of `ps`.
pub open spec fn first_invalid(ps: Seq<Seq<char>>, k: int) -> int
    decreases ps.len() - k,
{
    if k < 0 || k >= ps.len() || !regex_valid(ps[k]) {
        k
    } else {
        first_invalid(ps, k + 1)
    }
}

/// The message naming a pattern that does not compile.
pub open spec fn pattern_error(field: Seq<char>, index: nat, pattern: Seq<char>) -> Seq<char> {
    "invalid regex in "@ + field + "["@ + decimal(index) + "]: "@ + pattern
}

/// The verdict on one list of patterns: the message naming the first that
/// does not compile, and the regex crate's description of its fault.
pub open spec fn list_verdict(field: Seq<char>, ps: Seq<Seq<char>>) -> Result<(), (Seq<char>, Seq<char>)> {
    let i = first_invalid(ps, 0);
    if i < ps.len() {
        Err((pattern_error(field, i as nat, ps[i]), regex_error_message(ps[i])))
    } else {
        Ok(())
    }
}

/// The verdict on all patterns of a configuration: one-time-code
/// patterns first, then blocked senders, then URL patterns.
pub open spec fn patterns_verdict(s: ScrubConfig) -> Result<(), (Seq<char>, Seq<char>)> {
    match list_verdict("otp_patterns"@, strings_view(s.otp_patterns@)) {
        Err(e) => Err(e),
        Ok(()) => match list_verdict("blocked_sender_patterns"@, strings_view(s.blocked_sender_patterns@)) {
            Err(e) => Err(e),
            Ok(()) => list_verdict("url_strip_patterns"@, strings_view(s.url_strip_patterns@)),
        },
    }
}

/// A pattern of the configuration that does not compile: which one (the
/// message) and why, in the words of the regex crate (the cause).
#[derive(Debug)]
pub struct PatternError {
    pub message: String,
    pub cause: String,
}

fn check_list(field: &str, patterns: &Vec<String>) -> (r: Result<(), PatternError>)
    ensures
        match (r, list_verdict(field@, strings_view(patterns@))) {
            (Ok(()), Ok(())) => true,
            (Err(e), Err((m, c))) => e.message@ == m && e.cause@ == c,
            _ => false,
        },
{
    let ghost ps = strings_view(patterns@);
    let mut i: usize = 0;
    while i < patterns.len()
        invariant
            ps == strings_view(patterns@),
            i <= ps.len(),
            first_invalid(ps, i as int) == first_invalid(ps, 0),
        decreases ps.len() - i,
    {
        let pattern = &patterns[i];
        assert(ps[i as int] == pattern@);
        match regex_compile(pattern.as_str()) {
            Ok(()) => {},
            Err(_) => {
                let mut message = String::from_str("invalid regex in ");
                message.append(field);
                message.append("[");
                let digits = decimal_string(i);
                message.append(digits.as_str());
                message.append("]: ");
                message.append(pattern.as_str());
                return Err(PatternError { message, cause: regex_error_text(pattern.as_str()) });
            },
        }
        i = i + 1;
    }
    Ok(())
}

/// Validate that all regex patterns in the config compile successfully;
/// the error names the first pattern that does not.
pub fn validate_patterns(config: &ConfigFile) -> (r: Result<(), PatternError>)
    ensures
        match (r, patterns_verdict(config.scrub)) {
            (Ok(()), Ok(())) => true,
            (Err(e), Err((m, c))) => e.message@ == m && e.cause@ == c,
            _ => false,
        },
{
    match check_list("otp_patterns", &config.scrub.otp_patterns) {
        Err(e) => {
            return Err(e);
        },
        Ok(()) => {},
    }
    match check_list("blocked_sender_patterns", &config.scrub.blocked_sender_patterns) {
        Err(e) => {
            return Err(e);
        },
        Ok(()) => {},
    }
    check_list("url_strip_patterns", &config.scrub.url_strip_patterns)
}

// ---------------------------------------------------------------------------
// Paths
// ---------------------------------------------------------------------------

/// `Path::parent` of a path, as text.
pub uninterp spec fn path_parent(p: Seq<char>) -> Option<Seq<char>>;

/// `Path::join` of two paths, as text.
pub uninterp spec fn path_joined(base: Seq<char>, rest: Seq<char>) -> Seq<char>;

/// `std::path::Path::parent`, the result rendered as a string.
#[verifier::external_body]
fn parent_of(p: &str) -> (r: Option<String>)
    ensures
        opt_text(r) == path_parent(p@),
{
    match std::path::Path::new(p).parent() {
        Some(d) => Some(d.to_string_lossy().into_owned()),
        None => None,
    }
}

/// `std::path::Path::join`, the result rendered as a string. Its
/// documentation says that an absolute path (on Unix, one starting with
/// `/`) replaces the base; how a relative one is adjoined it shows only by
/// example, so that is named, not stated.
#[verifier::external_body]
fn join_path(base: &str, rest: &str) -> (r: String)
    ensures
        r@ == path_joined(base@, rest@),
        rest@.len() > 0 && rest@[0] == '/' ==> r@ == rest@,
{
    std::path::Path::new(base).join(rest).to_string_lossy().into_owned()
}

/// The directory holding the configuration file (`.` when it has none).
pub open spec fn config_dir(config_path: Seq<char>) -> Seq<char> {
    match path_parent(config_path) {
        Some(d) => d,
        None => "."@,
    }
}

/// The secrets file named in the configuration, resolved against the
/// directory of the configuration file.
pub fn secrets_path(config_path: &str, secrets_file: &str) -> (r: String)
    ensures
        r@ == path_joined(config_dir(config_path@), secrets_file@),
        secrets_file@.len() > 0 && secrets_file@[0] == '/' ==> r@ == secrets_file@,
{
    let dir = match parent_of(config_path) {
        Some(d) => d,
        None => String::from_str("."),
    };
    join_path(dir.as_str(), secrets_file)
}

/// The secrets file is readable and writable by its owner alone: its
/// permission bits are exactly `0600`.
pub fn secrets_permissions_ok(mode: u32) -> (b: bool)
    ensures
        b == (mode & 0o777 == 0o600),
{
    mode & 0o777 == 0o600
}

/// Derive all relevant paths from the config file path and loaded config values.
pub fn resolve_paths(config_path: &str, config: &Config) -> (p: Paths)
    ensures
        p.config@ == config_path@,
        p.secrets@ == path_joined(config_dir(config_path@), config.auth.secrets_file@),
        config.auth.secrets_file@.len() > 0 && config.auth.secrets_file@[0] == '/' ==> p.secrets@
            == config.auth.secrets_file@,
        p.state@ == path_joined(config.audit.state_dir@, "state.json"@),
        p.audit_dir@ == config.audit.log_dir@,
{
    Paths {
        config: String::from_str(config_path),
        secrets: secrets_path(config_path, config.auth.secrets_file.as_str()),
        state: join_path(config.audit.state_dir.as_str(), "state.json"),
        audit_dir: config.audit.log_dir.clone(),
    }
}

} // verus!
