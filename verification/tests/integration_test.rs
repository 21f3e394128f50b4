//! The filter under a proxy that is simulated: it keeps shared data, and asks an authorization
//! service that lets requests through which carry `x-ext-authz: allow`.

use cextauthz::cache::{CacheHeaderPolicy, ShardUpdate};
use cextauthz::config::PluginSettings;
use cextauthz::filter::root::configuration_text;
use cextauthz::filter::{AuthzHttp, AuthzRoot, Command, LocalReply};
use cextauthz::invalidation::{InvalidationOp, InvalidationRequest};
use prost::encoding;
use serde::de::Error;
use serde_json::Value;
use std::collections::BTreeMap;

const INVALIDATION_PATH: &str = "/_cextauthz/cache/invalidate";

/// What a client sees of a request: a status, the body of a local reply, and the headers that
/// the request was given on its way.
#[derive(Debug, PartialEq)]
struct Response {
    status: u32,
    headers: Vec<(String, String)>,
    text: String,
    request_headers: Vec<(String, String)>,
}

struct Proxy {
    root: AuthzRoot,
    shared: BTreeMap<String, (Vec<u8>, u32)>,
    now_ms: u64,
    service_is_up: bool,
    calls: Vec<Vec<u8>>,
    answer: Option<Option<Vec<u8>>>,
    grpc_status: u32,
    lost_writes: u32,
    writes: u32,
}

fn settings() -> PluginSettings {
    let mut settings = PluginSettings::default();
    settings.cache.enabled = true;
    settings.max_request_body_bytes = 1024;
    settings.invalidation_secret = "integration-secret".to_string();
    settings
}

fn field(tag: u32, content: Vec<u8>) -> Vec<u8> {
    let mut bytes = Vec::new();
    encoding::bytes::encode(tag, &content, &mut bytes);
    bytes
}

fn header_option(name: &str, value: &str) -> Vec<u8> {
    let mut header = field(1, name.as_bytes().to_vec());
    header.extend(field(2, value.as_bytes().to_vec()));
    field(2, field(1, header))
}

fn allowing_answer() -> Vec<u8> {
    field(3, header_option("X-Checked", "yes"))
}

fn denying_answer(code: i32, body: &str) -> Vec<u8> {
    let mut status = Vec::new();
    encoding::int32::encode(1, &code, &mut status);
    let mut denied = field(1, status);
    denied.extend(header_option("X-Reason", "policy"));
    denied.extend(field(3, body.as_bytes().to_vec()));
    field(2, denied)
}

fn read_invalidation(bytes: &[u8]) -> Result<InvalidationRequest, serde_json::Error> {
    let value: Value = serde_json::from_slice(bytes)?;
    let op: String = serde_json::from_value(value["op"].clone())?;
    Ok(InvalidationRequest {
        version: serde_json::from_value(value["version"].clone())?,
        op: match op.as_str() {
            "purge_key" => InvalidationOp::PurgeKey,
            "purge_all" => InvalidationOp::PurgeAll,
            _ => return Err(serde_json::Error::custom("unknown variant")),
        },
        key: serde_json::from_value(value["key"].clone())?,
    })
}

fn pairs(headers: &[(&str, &str)]) -> Vec<(String, String)> {
    headers
        .iter()
        .map(|(name, value)| (name.to_string(), value.to_string()))
        .collect()
}

impl Proxy {
    fn new() -> Self {
        Self::with(settings())
    }

    fn with(settings: PluginSettings) -> Self {
        let mut root = AuthzRoot::new();
        assert!(root.on_configure(Ok(settings)));
        Self {
            root,
            shared: BTreeMap::new(),
            now_ms: 1_000_000,
            service_is_up: true,
            calls: Vec::new(),
            answer: None,
            grpc_status: 0,
            lost_writes: 0,
            writes: 0,
        }
    }

    fn stop_authz_service(&mut self) {
        self.service_is_up = false;
    }

    fn answer_to(&self, message: &[u8]) -> Option<Vec<u8>> {
        if let Some(answer) = &self.answer {
            return answer.clone();
        }
        let wanted = b"x-ext-authz\x12\x05allow";
        if message.windows(wanted.len()).any(|part| part == wanted) {
            Some(allowing_answer())
        } else {
            Some(denying_answer(403, "denied by policy"))
        }
    }

    fn write(&mut self, updates: Vec<ShardUpdate>) {
        for mut update in updates {
            while update.is_pending() {
                let (bytes, cas) = match self.shared.get(&update.shared_key) {
                    Some((bytes, cas)) => (Some(bytes.clone()), *cas),
                    None => (None, 0),
                };
                let next = update.next_bytes(bytes.as_deref(), self.now_ms);
                self.writes += 1;
                if self.lost_writes > 0 {
                    self.lost_writes -= 1;
                    update.record_write(false);
                } else {
                    self.shared.insert(update.shared_key.clone(), (next, cas + 1));
                    update.record_write(true);
                }
            }
        }
    }

    fn local(reply: LocalReply) -> Option<Response> {
        Some(Response {
            status: reply.status,
            headers: reply.headers,
            text: reply.body.unwrap_or_default(),
            request_headers: Vec::new(),
        })
    }

    fn upstream(request_headers: Vec<(String, String)>) -> Option<Response> {
        Some(Response {
            status: 200,
            headers: Vec::new(),
            text: String::new(),
            request_headers,
        })
    }

    /// Does what the filter asks for; `None` where the request is still to be held.
    fn run(&mut self, http: &mut AuthzHttp, mut command: Command) -> Option<Response> {
        loop {
            command = match command {
                Command::Pause | Command::Ignore | Command::Continue => return None,
                Command::Reply(reply) => return Self::local(reply),
                Command::Forward { request_headers } => return Self::upstream(request_headers),
                Command::Resume { request_headers } => return Self::upstream(request_headers),
                Command::ReadCache { shared_key, check } => {
                    let bytes = self.shared.get(&shared_key).map(|(bytes, _)| bytes.as_slice());
                    http.on_cache_read(check, bytes, self.now_ms)
                }
                Command::Call(call) => {
                    let token = if self.service_is_up { Some(77) } else { None };
                    self.calls.push(call.message);
                    match http.on_call_made(token) {
                        Command::Pause => http.on_grpc_call_response(77, self.grpc_status),
                        other => other,
                    }
                }
                Command::ReadAnswer => {
                    let answer = self.answer_to(self.calls.last().unwrap());
                    let step = http.on_answer(answer.as_deref(), self.now_ms);
                    self.write(step.updates);
                    step.command
                }
                Command::ReadInvalidation => {
                    let step = http.on_invalidation_read(read_invalidation(&http.body_buf));
                    self.write(step.updates);
                    step.command
                }
            };
        }
    }

    fn send(
        &mut self,
        method: &str,
        target: &str,
        extra: &[(&str, &str)],
        body: &[u8],
    ) -> Response {
        let mut http = self.root.create_http_context();
        let mut headers = pairs(&[
            (":method", method),
            (":path", target),
            (":authority", "localhost:10000"),
            (":scheme", "http"),
            ("x-request-id", &self.calls.len().to_string()),
        ]);
        headers.extend(pairs(extra));
        let command = http.on_http_request_headers(headers, body.is_empty());
        if let Some(response) = self.run(&mut http, command) {
            return response;
        }
        let mut shown = 0;
        for chunk in body.chunks(600) {
            let size = shown + chunk.len();
            let window = http.body_window(size);
            let piece = window.map(|(start, length)| body[start..start + length].to_vec());
            let command = http.on_http_request_body(size, piece, size == body.len());
            if let Some(response) = self.run(&mut http, command) {
                return response;
            }
            shown = size;
        }
        panic!("the request was left without a reply");
    }

    fn get_root(&mut self, authz_value: Option<&str>) -> Response {
        match authz_value {
            Some(value) => self.send("GET", "/", &[("x-ext-authz", value)], b""),
            None => self.send("GET", "/", &[], b""),
        }
    }

    fn invalidate(&mut self, secret: Option<&str>, body: &[u8]) -> Response {
        match secret {
            Some(secret) => self.send(
                "POST",
                INVALIDATION_PATH,
                &[("x-cextauthz-invalidation-secret", secret)],
                body,
            ),
            None => self.send("POST", INVALIDATION_PATH, &[], body),
        }
    }

    fn invalidate_all(&mut self, secret: Option<&str>) -> Response {
        self.invalidate(secret, br#"{"version":1,"op":"purge_all"}"#)
    }
}

#[test]
fn cache_hit_survives_authz_outage_until_purge_all() {
    let mut proxy = Proxy::new();

    let denied = proxy.get_root(None);
    assert_eq!(
        denied.status, 403,
        "Expected 403 Forbidden without auth header, got {}",
        denied.status
    );

    let allowed = proxy.get_root(Some("allow"));
    assert_eq!(
        allowed.status, 200,
        "Expected 200 OK with auth header, got {}",
        allowed.status
    );

    proxy.stop_authz_service();

    let cached_allowed = proxy.get_root(Some("allow"));
    assert_eq!(
        cached_allowed.status, 200,
        "Expected cached 200 OK after authz service stopped, got {}",
        cached_allowed.status
    );

    let unauthorized_invalidation = proxy.invalidate_all(None);
    assert_eq!(
        unauthorized_invalidation.status, 401,
        "Expected 401 Unauthorized without invalidation secret, got {}",
        unauthorized_invalidation.status
    );

    let invalidated = proxy.invalidate_all(Some("integration-secret"));
    assert_eq!(
        invalidated.status, 204,
        "Expected 204 No Content for cache invalidation, got {}",
        invalidated.status
    );

    let after_invalidation = proxy.get_root(Some("allow"));
    assert_eq!(
        after_invalidation.status, 503,
        "Expected 503 after cache invalidation with authz service stopped, got {}",
        after_invalidation.status
    );
}

#[test]
fn invalidation_rejects_malformed_json() {
    let mut proxy = Proxy::new();

    let response = proxy.invalidate(Some("integration-secret"), b"not-json");

    assert_eq!(response.status, 400);
    assert_eq!(response.text, "invalid json");
}

#[test]
fn invalidation_rejects_wrong_secret() {
    let mut proxy = Proxy::new();

    let response = proxy.invalidate_all(Some("wrong-secret"));

    assert_eq!(response.status, 401);
}

#[test]
fn oversized_request_body_is_rejected_before_authz_call() {
    let mut proxy = Proxy::new();

    let body = "x".repeat(2048);
    let response = proxy.send("POST", "/", &[("x-ext-authz", "allow")], body.as_bytes());

    assert_eq!(response.status, 413);
    assert_eq!(response.text, "Payload Too Large");
    assert!(proxy.calls.is_empty());
}

#[test]
fn denied_responses_are_cached() {
    let mut proxy = Proxy::new();

    assert_eq!(proxy.get_root(None).status, 403);

    proxy.stop_authz_service();

    assert_eq!(proxy.get_root(None).status, 403);
}

#[test]
fn replies_from_the_cache_are_the_same() {
    let mut proxy = Proxy::new();
    let denied = proxy.get_root(None);
    let allowed = proxy.get_root(Some("allow"));
    assert_eq!(
        denied,
        Response {
            status: 403,
            headers: pairs(&[("content-type", "text/plain"), ("x-reason", "policy")]),
            text: "denied by policy".to_string(),
            request_headers: Vec::new(),
        }
    );
    assert_eq!(allowed.request_headers, pairs(&[("x-checked", "yes")]));
    assert_eq!(proxy.calls.len(), 2);
    assert_eq!(proxy.get_root(None), denied);
    assert_eq!(proxy.get_root(Some("allow")), allowed);
    assert_eq!(proxy.calls.len(), 2);
}

#[test]
fn cached_decisions_expire() {
    let mut proxy = Proxy::new();
    proxy.get_root(Some("allow"));
    proxy.now_ms += 59_999;
    proxy.get_root(Some("allow"));
    assert_eq!(proxy.calls.len(), 1);
    proxy.now_ms += 1;
    proxy.get_root(Some("allow"));
    assert_eq!(proxy.calls.len(), 2);
}

#[test]
fn expiry_does_not_overflow() {
    let mut settings = settings();
    settings.cache.ttl_ms = u64::MAX;
    let mut proxy = Proxy::with(settings);
    proxy.get_root(Some("allow"));
    proxy.now_ms = u64::MAX - 1;
    proxy.get_root(Some("allow"));
    assert_eq!(proxy.calls.len(), 1);
}

#[test]
fn purging_one_key_leaves_the_other_decisions() {
    let mut proxy = Proxy::new();
    proxy.get_root(Some("allow"));
    proxy.get_root(None);
    let mut http = proxy.root.create_http_context();
    let headers = pairs(&[
        (":method", "GET"),
        (":path", "/"),
        (":authority", "localhost:10000"),
        (":scheme", "http"),
        ("x-ext-authz", "allow"),
    ]);
    http.on_http_request_headers(headers, true);
    let key = http.cache_key.clone().unwrap();
    let body = format!(r#"{{"version":1,"op":"purge_key","key":"{key}"}}"#);
    let purged = proxy.invalidate(Some("integration-secret"), body.as_bytes());
    assert_eq!(purged.status, 204);
    assert!(purged.headers.is_empty());
    assert_eq!(purged.text, "");
    proxy.get_root(None);
    assert_eq!(proxy.calls.len(), 2);
    proxy.get_root(Some("allow"));
    assert_eq!(proxy.calls.len(), 3);
}

#[test]
fn refused_purges_write_nothing() {
    let mut proxy = Proxy::new();
    for (body, text) in [
        (r#"{"version":2,"op":"purge_all"}"#, "unsupported version"),
        (r#"{"version":1,"op":"purge_key"}"#, "purge_key requires key"),
        (r#"{"version":1,"op":"purge_key","key":"x"}"#, "invalid cache key"),
    ] {
        let response = proxy.invalidate(Some("integration-secret"), body.as_bytes());
        assert_eq!(response.status, 400);
        assert_eq!(response.text, text);
        assert_eq!(response.headers, pairs(&[("content-type", "text/plain")]));
    }
    assert_eq!(proxy.invalidate_all(None).text, "Unauthorized");
    assert_eq!(proxy.writes, 0);
    let accepted = proxy.invalidate_all(Some("integration-secret"));
    assert_eq!(accepted.status, 204);
    assert_eq!(proxy.writes, 16);
}

#[test]
fn purges_without_a_body_or_a_secret_are_refused() {
    let mut proxy = Proxy::new();
    assert_eq!(proxy.invalidate(Some("integration-secret"), b"").status, 400);
    assert_eq!(proxy.invalidate(None, b"").status, 401);
    let mut open = settings();
    open.invalidation_secret = String::new();
    let mut proxy = Proxy::with(open);
    assert_eq!(proxy.invalidate_all(Some("")).status, 401);
    assert_eq!(proxy.invalidate_all(None).status, 401);
}

#[test]
fn head_of_a_purge_request_goes_on() {
    let root = AuthzRoot::new();
    let mut http = root.create_http_context();
    let headers = pairs(&[(":method", "POST"), (":path", "/_cextauthz/cache/invalidate?x=1")]);
    assert_eq!(http.on_http_request_headers(headers, false), Command::Continue);
    assert!(http.is_invalidation_request);
    let mut http = root.create_http_context();
    let headers = pairs(&[(":method", "GET"), (":path", INVALIDATION_PATH)]);
    assert_eq!(http.on_http_request_headers(headers, false), Command::Pause);
    assert!(!http.is_invalidation_request);
}

#[test]
fn a_lost_write_is_tried_again() {
    let mut proxy = Proxy::new();
    proxy.lost_writes = 2;
    proxy.get_root(Some("allow"));
    assert_eq!(proxy.writes, 3);
    proxy.get_root(Some("allow"));
    assert_eq!(proxy.calls.len(), 1);
    let mut proxy = Proxy::new();
    proxy.lost_writes = 9;
    assert_eq!(proxy.get_root(Some("allow")).status, 200);
    assert_eq!(proxy.writes, 3);
    proxy.get_root(Some("allow"));
    assert_eq!(proxy.calls.len(), 2);
}

#[test]
fn without_a_cache_every_request_is_checked() {
    let mut settings = settings();
    settings.cache.enabled = false;
    let mut proxy = Proxy::with(settings);
    proxy.get_root(Some("allow"));
    proxy.get_root(Some("allow"));
    assert_eq!(proxy.calls.len(), 2);
    assert_eq!(proxy.writes, 0);
}

#[test]
fn header_policy_decides_what_shares_a_decision() {
    let mut settings = settings();
    settings.cache.header_policy = CacheHeaderPolicy::Allowlist(vec!["x-ext-authz".to_string()]);
    let mut proxy = Proxy::with(settings);
    let agent = |name| [("X-Ext-Authz", "allow"), ("user-agent", name)];
    proxy.send("GET", "/", &agent("a"), b"");
    proxy.send("GET", "/", &agent("b"), b"");
    assert_eq!(proxy.calls.len(), 1);
    let mut proxy = Proxy::new();
    proxy.send("GET", "/", &agent("a"), b"");
    proxy.send("GET", "/", &agent("b"), b"");
    assert_eq!(proxy.calls.len(), 2);
}

#[test]
fn failures_of_the_service_are_answered() {
    let mut proxy = Proxy::new();
    proxy.stop_authz_service();
    let unavailable = proxy.get_root(Some("allow"));
    assert_eq!(unavailable.status, 503);
    assert_eq!(unavailable.text, "Authz service unavailable");
    assert_eq!(unavailable.headers, pairs(&[("content-type", "text/plain")]));
    let mut proxy = Proxy::new();
    for status in [4, 14] {
        proxy.grpc_status = status;
        assert_eq!(proxy.get_root(Some("allow")), unavailable);
    }
    proxy.grpc_status = 0;
    proxy.answer = Some(None);
    let empty = proxy.get_root(Some("allow"));
    assert_eq!((empty.status, empty.text.as_str()), (500, "Empty authz response"));
    proxy.answer = Some(Some(vec![0xff]));
    let invalid = proxy.get_root(Some("allow"));
    assert_eq!((invalid.status, invalid.text.as_str()), (500, "Invalid authz response"));
    assert_eq!(proxy.writes, 0);
    proxy.answer = Some(Some(Vec::new()));
    let silent = proxy.get_root(Some("allow"));
    assert_eq!((silent.status, silent.text.as_str()), (403, "Forbidden"));
}

#[test]
fn denials_without_a_body_say_forbidden() {
    let mut proxy = Proxy::new();
    proxy.answer = Some(Some(denying_answer(401, "")));
    let denied = proxy.get_root(None);
    assert_eq!((denied.status, denied.text.as_str()), (401, "Forbidden"));
    assert_eq!(proxy.get_root(None), denied);
    assert_eq!(proxy.calls.len(), 1);
}

#[test]
fn content_type_of_a_denial_is_kept() {
    let mut proxy = Proxy::new();
    let mut denied = header_option("Content-Type", "application/json");
    denied.extend(field(3, b"{}".to_vec()));
    proxy.answer = Some(Some(field(5, denied)));
    let reply = proxy.get_root(None);
    assert_eq!(reply.status, 403);
    assert_eq!(reply.headers, pairs(&[("content-type", "application/json")]));
    assert_eq!(proxy.get_root(None), reply);
}

#[test]
fn announced_length_is_enough_to_refuse() {
    let root = Proxy::new().root;
    let refused = |extra: &[(&str, &str)]| {
        let mut http = root.create_http_context();
        let mut headers = pairs(&[(":method", "POST"), (":path", "/")]);
        headers.extend(pairs(extra));
        matches!(
            http.on_http_request_headers(headers, false),
            Command::Reply(LocalReply { status: 413, .. })
        )
    };
    assert!(refused(&[("Content-Length", "1025")]));
    assert!(!refused(&[("content-length", "1024")]));
    assert!(!refused(&[("content-length", "many")]));
    assert!(refused(&[("content-length", "2000"), ("content-length", "many")]));
    assert!(!refused(&[("content-length", "2000"), ("content-length", "10")]));
    assert!(!refused(&[("content-length", "99999999999999999999")]));
}

#[test]
fn a_request_is_dealt_with_once() {
    let root = Proxy::new().root;
    let mut http = root.create_http_context();
    let first = http.on_http_request_headers(pairs(&[(":path", "/")]), true);
    assert!(matches!(first, Command::ReadCache { .. }));
    let again = http.on_http_request_headers(pairs(&[(":path", "/other")]), true);
    assert_eq!(again, Command::Pause);
    assert_eq!(http.path, "");
    assert_eq!(http.body_window(5), None);
    assert_eq!(
        http.on_http_request_body(5, Some(b"abcde".to_vec()), true),
        Command::Pause
    );
    assert!(http.body_buf.is_empty());
    assert_eq!(http.on_call_made(Some(3)), Command::Pause);
    assert_eq!(http.on_grpc_call_response(4, 0), Command::Ignore);
    assert_eq!(http.on_grpc_call_response(3, 0), Command::ReadAnswer);
    assert_eq!(http.on_grpc_call_response(3, 0), Command::Ignore);
}

#[test]
fn calls_go_to_the_authorization_service() {
    for enabled in [false, true] {
        let mut settings = settings();
        settings.cache.enabled = enabled;
        settings.timeout_ms = 250;
        settings.grpc_cluster = "elsewhere".to_string();
        let root = Proxy::with(settings).root;
        let mut http = root.create_http_context();
        let headers = pairs(&[(":method", "GET"), (":path", "/"), ("a", "1")]);
        let call = match http.on_http_request_headers(headers, true) {
            Command::ReadCache { check, .. } => {
                assert!(enabled);
                let message = check.encode_to_vec();
                match http.on_cache_read(check, None, 0) {
                    Command::Call(call) => {
                        assert_eq!(call.message, message);
                        call
                    }
                    other => panic!("{other:?}"),
                }
            }
            Command::Call(call) => call,
            other => panic!("{other:?}"),
        };
        assert_eq!(call.cluster, "ext_authz");
        assert_eq!(call.service, "envoy.service.auth.v3.Authorization");
        assert_eq!(call.method, "Check");
        assert!(call.metadata.is_empty());
        assert_eq!(call.timeout_ms, 250);
        assert!(!call.message.is_empty());
    }
}

#[test]
fn headers_are_sorted_out() {
    let root = Proxy::new().root;
    let mut http = root.create_http_context();
    let headers = pairs(&[
        (":method", "PUT"),
        (":path", "/a/b?c=d?e"),
        (":authority", "host"),
        (":scheme", "https"),
        (":other", "gone"),
        ("X-Request-ID", "id-1"),
        ("X-\u{c4}B", "one"),
        ("x-\u{e4}b", "two"),
        ("Accept", "*"),
    ]);
    assert_eq!(http.on_http_request_headers(headers, false), Command::Pause);
    assert_eq!(http.method, "PUT");
    assert_eq!(http.path, "/a/b");
    assert_eq!(http.query, "c=d?e");
    assert_eq!(http.host, "host");
    assert_eq!(http.scheme, "https");
    assert_eq!(http.request_id, "id-1");
    assert_eq!(http.headers.len(), 2);
    assert_eq!(http.headers.get("x-\u{e4}b").unwrap(), "two");
    assert_eq!(http.headers.get("accept").unwrap(), "*");
}

#[test]
fn a_body_in_pieces_is_put_together() {
    let root = Proxy::new().root;
    let command = |pieces: &[&[u8]]| {
        let mut http = root.create_http_context();
        http.on_http_request_headers(pairs(&[(":method", "POST"), (":path", "/")]), false);
        let total: usize = pieces.iter().map(|piece| piece.len()).sum();
        let mut shown = 0;
        let mut last = Command::Pause;
        for piece in pieces {
            assert_eq!(
                http.body_window(shown + piece.len()),
                Some((shown, piece.len()))
            );
            shown += piece.len();
            last = http.on_http_request_body(shown, Some(piece.to_vec()), shown == total);
        }
        last
    };
    let whole = command(&[b"hello world"]);
    assert_eq!(command(&[b"hello", b" ", b"world"]), whole);
    match whole {
        Command::ReadCache { check, .. } => {
            let http = check.attributes.unwrap().request.unwrap().http.unwrap();
            assert_eq!(http.raw_body, b"hello world");
            assert_eq!(http.size, 11);
        }
        other => panic!("{other:?}"),
    }
}

#[test]
fn a_body_that_is_shown_but_not_handed_over_counts_as_seen() {
    let root = Proxy::new().root;
    let mut http = root.create_http_context();
    http.on_http_request_headers(pairs(&[(":method", "POST"), (":path", "/")]), false);
    http.on_http_request_body(5, None, false);
    assert_eq!(http.body_seen, 5);
    assert!(http.body_buf.is_empty());
    assert_eq!(http.body_window(5), None);
    assert_eq!(http.body_window(1025), None);
    assert_eq!(http.body_window(1024), Some((5, 1019)));
}

#[test]
fn refused_settings_change_nothing() {
    let mut root = AuthzRoot::new();
    assert_eq!(root.timeout_ms, 1000);
    let refused = cextauthz::config::ConfigError::Invalid("no".to_string());
    assert!(root.on_configure(Err(refused)));
    assert_eq!(root.timeout_ms, 1000);
    assert!(!root.cache_config.enabled);
    assert!(root.on_configure(Ok(settings())));
    assert!(root.cache_config.enabled);
    assert_eq!(root.max_request_body_bytes, 1024);
    let http = root.create_http_context();
    assert_eq!(http.timeout_ms, 1000);
    assert_eq!(http.grpc_token, None);
}

#[test]
fn configurations_are_text() {
    assert_eq!(configuration_text(0, Some(b"{}".to_vec())), None);
    assert_eq!(configuration_text(2, Some(b"{}".to_vec())), Some("{}".to_string()));
    assert_eq!(configuration_text(2, None), None);
    assert_eq!(configuration_text(2, Some(vec![0xff, 0xff])), None);
}
