# gmail_proxy

A proxy that lets an AI agent read a Gmail mailbox without seeing mail
that is sensitive for security: agent queries are parsed, checked against
an operator allow-list and sent to Gmail with the blocked label excluded;
messages with the blocked label or from blocked senders are withheld, and
one-time codes and authentication links are redacted from the bodies that
are shown.

## Layout

- `src/` — the library, verified with Verus:
  - `scrub/tokenize.rs`, `scrub/query.rs` — the query tokenizer, parser,
    validator and reconstruction, each specified by a spec function;
  - `scrub/reparse.rs` — proofs that a reconstructed query parses back to
    the parsed one (for operator values that hold a space, or no
    whitespace, parenthesis or brace, and within the length limit), and
    that the label exclusion stays outside the agent's query;
  - `scrub/labels.rs`, `scrub/content.rs` — the blocked-label filter, body
    scrubbing and sender blocking (regular expressions through the `regex`
    crate);
  - `gmail/` — Gmail API data, body extraction, headers, attachments,
    sanitized messages, watch registration;
  - `proxy/routes.rs` — search planning, message screening and the audit
    events of each request;
  - `poller/` — notification decoding, history deduplication, the step
    after each batch, back-off, and the state file's text (`state.rs`);
  - `auth.rs`, `config.rs`, `audit.rs`, `text.rs`.
- `app/` — the program around the library: command line, HTTP server,
  Gmail, Pub/Sub and OAuth clients, configuration and state files, audit
  log writer, installer.
- `tests/` — tests of the library's public functions.
