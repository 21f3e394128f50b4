use cextauthz::cache::CacheHeaderPolicy;
use cextauthz::config::{
    CacheConfigJson, CacheHeadersConfigJson, ConfigError, GrpcConfigJson, InvalidationConfigJson,
    PluginConfigJson, PluginSettings, RequestBodyConfigJson, DEFAULT_MAX_REQUEST_BODY_BYTES,
    MAX_CACHE_TTL_MS, MAX_REQUEST_BODY_BYTES, MAX_TIMEOUT_MS,
};
use serde::de::DeserializeOwned;
use serde_json::Value;
use std::time::Duration;

fn field<T: DeserializeOwned>(
    value: &Value,
    name: &str,
    default: T,
) -> Result<T, serde_json::Error> {
    match value.get(name) {
        Some(found) => serde_json::from_value(found.clone()),
        None => Ok(default),
    }
}

fn read(text: &str) -> Result<PluginConfigJson, serde_json::Error> {
    let root: Value = serde_json::from_str(text)?;
    let nothing = Value::Object(serde_json::Map::new());
    let grpc = root.get("grpc").unwrap_or(&nothing);
    let request_body = root.get("request_body").unwrap_or(&nothing);
    let cache = root.get("cache").unwrap_or(&nothing);
    let headers = cache.get("headers").unwrap_or(&nothing);
    let invalidation = root.get("invalidation").unwrap_or(&nothing);
    let defaults = CacheConfigJson::default();
    Ok(PluginConfigJson {
        timeout_ms: field(&root, "timeout_ms", cextauthz::config::default_timeout_ms())?,
        grpc: GrpcConfigJson {
            cluster: field(grpc, "cluster", GrpcConfigJson::default().cluster)?,
        },
        request_body: RequestBodyConfigJson {
            max_bytes: field(
                request_body,
                "max_bytes",
                RequestBodyConfigJson::default().max_bytes,
            )?,
        },
        cache: CacheConfigJson {
            enabled: field(cache, "enabled", defaults.enabled)?,
            ttl_ms: field(cache, "ttl_ms", defaults.ttl_ms)?,
            max_entries: field(cache, "max_entries", defaults.max_entries)?,
            headers: CacheHeadersConfigJson {
                mode: field(headers, "mode", defaults.headers.mode)?,
                names: field(headers, "names", defaults.headers.names)?,
            },
        },
        invalidation: InvalidationConfigJson {
            secret: field(
                invalidation,
                "secret",
                InvalidationConfigJson::default().secret,
            )?,
        },
    })
}

fn from_json(text: &str) -> Result<PluginSettings, ConfigError> {
    PluginSettings::from_json(read(text))
}

fn message(text: &str) -> String {
    from_json(text).unwrap_err().message()
}

#[test]
fn parses_defaults_for_optional_settings() {
    let settings = from_json(r#"{"grpc":{"cluster":"ext_authz"}}"#).unwrap();

    assert_eq!(settings.timeout_ms, 1000);
    assert_eq!(settings.grpc_cluster, "ext_authz");
    assert!(!settings.cache.enabled);
    assert_eq!(
        Duration::from_millis(settings.cache.ttl_ms),
        Duration::from_millis(60_000)
    );
    assert_eq!(settings.cache.max_entries, 1000);
    assert_eq!(settings.invalidation_secret, "");
}

#[test]
fn parses_cache_and_invalidation_settings() {
    let settings = from_json(
        r#"{"timeout_ms":250,"grpc":{"cluster":"ext_authz"},"cache":{"enabled":true,"ttl_ms":5000,"max_entries":32},"invalidation":{"secret":"secret"}}"#,
    )
    .unwrap();

    assert_eq!(settings.timeout_ms, 250);
    assert!(settings.cache.enabled);
    assert_eq!(
        Duration::from_millis(settings.cache.ttl_ms),
        Duration::from_millis(5000)
    );
    assert_eq!(settings.cache.max_entries, 32);
    assert_eq!(settings.invalidation_secret, "secret");
}

#[test]
fn rejects_invalid_json() {
    assert!(from_json("not-json").is_err());
}

#[test]
fn parses_new_operational_settings() {
    let settings = from_json(
        r#"{
        "timeout_ms": 250,
        "grpc": {"cluster": "custom_ext_authz"},
        "request_body": {"max_bytes": 4096},
        "cache": {
            "enabled": true,
            "ttl_ms": 5000,
            "max_entries": 32,
            "headers": {"mode": "allowlist", "names": ["authorization", "x-ext-authz"]}
        },
        "invalidation": {"secret": "secret"}
    }"#,
    )
    .unwrap();

    assert_eq!(settings.timeout_ms, 250);
    assert_eq!(settings.grpc_cluster, "custom_ext_authz");
    assert_eq!(settings.max_request_body_bytes, 4096);
    assert!(settings.cache.enabled);
    assert_eq!(
        Duration::from_millis(settings.cache.ttl_ms),
        Duration::from_millis(5000)
    );
    assert_eq!(settings.cache.max_entries, 32);
    assert_eq!(
        settings.cache.header_policy,
        CacheHeaderPolicy::Allowlist(vec![
            "authorization".to_string(),
            "x-ext-authz".to_string(),
        ])
    );
    assert_eq!(settings.invalidation_secret, "secret");
}

#[test]
fn rejects_missing_grpc_cluster() {
    assert_eq!(message("{}"), "grpc.cluster must not be empty");
}

#[test]
fn rejects_zero_timeout() {
    assert_eq!(
        message(r#"{"timeout_ms":0,"grpc":{"cluster":"ext_authz"}}"#),
        "timeout_ms must be between 1 and 60000"
    );
}

#[test]
fn rejects_empty_grpc_cluster() {
    assert_eq!(
        message(r#"{"grpc":{"cluster":""}}"#),
        "grpc.cluster must not be empty"
    );
}

#[test]
fn rejects_zero_body_limit() {
    assert_eq!(
        message(r#"{"grpc":{"cluster":"ext_authz"},"request_body":{"max_bytes":0}}"#),
        "request_body.max_bytes must be between 1 and 16777216"
    );
}

#[test]
fn rejects_enabled_cache_with_zero_ttl() {
    assert_eq!(
        message(
            r#"{"grpc":{"cluster":"ext_authz"},"cache":{"enabled":true,"ttl_ms":0,"max_entries":10}}"#
        ),
        "cache.ttl_ms must be between 1 and 86400000 when cache is enabled"
    );
}

#[test]
fn rejects_enabled_cache_with_zero_entries() {
    assert_eq!(
        message(
            r#"{"grpc":{"cluster":"ext_authz"},"cache":{"enabled":true,"ttl_ms":1000,"max_entries":0}}"#
        ),
        "cache.max_entries must be greater than 0 when cache is enabled"
    );
}

#[test]
fn rejects_empty_cache_header_name() {
    assert_eq!(
        message(
            r#"{"grpc":{"cluster":"ext_authz"},"cache":{"headers":{"mode":"denylist","names":[""]}}}"#
        ),
        "cache.headers.names must contain non-empty header names"
    );
}

#[test]
fn rejects_unknown_header_mode() {
    assert_eq!(
        message(r#"{"grpc":{"cluster":"ext_authz"},"cache":{"headers":{"mode":"some"}}}"#),
        "cache.headers.mode must be all_except_request_id, allowlist, or denylist"
    );
}

#[test]
fn header_names_are_trimmed_lowered_sorted_and_unique() {
    let settings = from_json(
        r#"{"grpc":{"cluster":" a "},"cache":{"headers":{"mode":"denylist","names":[" X-B ","x-a","X-A","x-b","cookie"]}}}"#,
    )
    .unwrap();
    assert_eq!(settings.grpc_cluster, "a");
    assert_eq!(
        settings.cache.header_policy,
        CacheHeaderPolicy::Denylist(vec![
            "cookie".to_string(),
            "x-a".to_string(),
            "x-b".to_string(),
        ])
    );
}

#[test]
fn faults_are_reported_in_order() {
    let text = |timeout: u64, cluster: &str, bytes: u64, ttl: u64| {
        format!(
            r#"{{"timeout_ms":{timeout},"grpc":{{"cluster":"{cluster}"}},"request_body":{{"max_bytes":{bytes}}},"cache":{{"enabled":true,"ttl_ms":{ttl},"headers":{{"names":[" "]}}}}}}"#
        )
    };
    assert_eq!(
        message(&text(60_001, " ", 0, 0)),
        "timeout_ms must be between 1 and 60000"
    );
    assert_eq!(
        message(&text(60_000, " ", 0, 0)),
        "grpc.cluster must not be empty"
    );
    assert_eq!(
        message(&text(1, "a", 16_777_217, 0)),
        "request_body.max_bytes must be between 1 and 16777216"
    );
    assert_eq!(
        message(&text(1, "a", 16_777_216, 86_400_001)),
        "cache.ttl_ms must be between 1 and 86400000 when cache is enabled"
    );
    assert_eq!(
        message(&text(1, "a", 1, 86_400_000)),
        "cache.headers.names must contain non-empty header names"
    );
}

#[test]
fn bounds_of_a_disabled_cache_do_not_count() {
    let settings = from_json(
        r#"{"grpc":{"cluster":"a"},"cache":{"enabled":false,"ttl_ms":0,"max_entries":0}}"#,
    )
    .unwrap();
    assert_eq!(settings.cache.ttl_ms, 0);
    assert_eq!(settings.cache.max_entries, 0);
    assert_eq!(
        settings.cache.header_policy,
        CacheHeaderPolicy::AllExceptRequestId
    );
}

#[test]
fn json_errors_keep_their_words_and_their_cause() {
    let cause = read("not-json").err().unwrap();
    let words = cause.to_string();
    let err = PluginSettings::from_json(Err(cause)).unwrap_err();
    assert_eq!(err.message(), words);
    assert_eq!(err.source().unwrap().to_string(), words);
    assert!(from_json("{}").unwrap_err().source().is_none());
    let direct = ConfigError::from(read("[").err().unwrap());
    assert!(matches!(direct, ConfigError::Json(_)));
}

#[test]
fn default_settings_are_documented_ones() {
    let settings = PluginSettings::default();
    assert_eq!(settings.timeout_ms, 1000);
    assert_eq!(settings.grpc_cluster, "");
    assert_eq!(settings.max_request_body_bytes, 1_048_576);
    assert_eq!(settings.invalidation_secret, "");
    assert!(!settings.cache.enabled);
    assert_eq!(settings.cache.ttl_ms, 60_000);
    assert_eq!(settings.clone(), settings);
    assert_eq!(DEFAULT_MAX_REQUEST_BODY_BYTES, 1_048_576);
    assert_eq!(MAX_REQUEST_BODY_BYTES, 16_777_216);
    assert_eq!(MAX_TIMEOUT_MS, 60_000);
    assert_eq!(MAX_CACHE_TTL_MS, 86_400_000);
}
