use cextauthz::cache::{
    compute_cache_key, compute_cache_key_with_policy, decode_shard, enforce_quota, evict_expired,
    find_entry, shard_id_from_key, shard_quota, shard_shared_key, CacheConfig, CacheEntry,
    CacheHeaderPolicy, CacheShard, CachedHeader, ShardUpdate, NUM_SHARDS,
};
use cextauthz::pb::{AttributeContext, CheckRequest, HttpRequest, Request};
use cextauthz::text_map::TextMap;
use std::collections::hash_map::DefaultHasher;
use std::hash::{Hash, Hasher};

fn entry(expires_at_ms: u64, allowed: bool, denied_status: u32) -> CacheEntry {
    CacheEntry {
        expires_at_ms,
        allowed,
        denied_status,
        denied_body: String::new(),
        response_headers: Vec::new(),
        request_headers: Vec::new(),
    }
}

fn headers(pairs: &[(&str, &str)]) -> TextMap<String> {
    let mut map = TextMap::new();
    for (name, value) in pairs {
        map.insert(name.to_string(), value.to_string());
    }
    map
}

fn http(headers: TextMap<String>) -> HttpRequest {
    HttpRequest {
        id: String::new(),
        method: "GET".to_string(),
        headers,
        path: "/".to_string(),
        host: "example.com".to_string(),
        scheme: "http".to_string(),
        query: String::new(),
        fragment: String::new(),
        size: 0,
        protocol: String::new(),
        body: String::new(),
        raw_body: Vec::new(),
    }
}

fn check(http: HttpRequest) -> CheckRequest {
    CheckRequest {
        attributes: Some(AttributeContext {
            source: None,
            destination: None,
            request: Some(Request { http: Some(http) }),
            context_extensions: TextMap::new(),
        }),
    }
}

#[derive(Hash)]
struct KeyInput<'a> {
    method: &'a str,
    path: &'a str,
    host: &'a str,
    scheme: &'a str,
    query: &'a str,
    headers: Vec<(&'a str, &'a str)>,
    body_fingerprint: u64,
}

fn expected_key(http: Option<&HttpRequest>, headers: Vec<(&str, &str)>) -> String {
    let input = match http {
        Some(http) => {
            let mut body = DefaultHasher::new();
            http.raw_body.hash(&mut body);
            KeyInput {
                method: &http.method,
                path: &http.path,
                host: &http.host,
                scheme: &http.scheme,
                query: &http.query,
                headers,
                body_fingerprint: body.finish(),
            }
        }
        None => KeyInput {
            method: "",
            path: "",
            host: "",
            scheme: "",
            query: "",
            headers,
            body_fingerprint: 0,
        },
    };
    let mut hasher = DefaultHasher::new();
    input.hash(&mut hasher);
    format!("cache:{:016x}", hasher.finish())
}

#[test]
fn shard_quota_is_nonzero_for_small_caches() {
    assert_eq!(shard_quota(0), 1);
    assert_eq!(shard_quota(1), 1);
    assert_eq!(shard_quota(16), 1);
    assert_eq!(shard_quota(17), 2);
}

#[test]
fn shard_quotas_cover_the_whole_cache() {
    for max in [1, 2, 15, 16, 17, 31, 32, 33, 1000, usize::MAX - 100] {
        let total = NUM_SHARDS as u128 * shard_quota(max) as u128;
        assert!(total >= max as u128);
        assert!(total < max as u128 + NUM_SHARDS as u128);
    }
    assert_eq!(shard_quota(usize::MAX), usize::MAX / 16 + 1);
}

#[test]
fn expired_entries_are_removed() {
    let mut shard = CacheShard::default();
    shard
        .entries
        .insert("cache:0000000000000001".to_string(), entry(100, true, 0));
    shard
        .entries
        .insert("cache:0000000000000002".to_string(), entry(200, false, 403));

    evict_expired(&mut shard, 150);

    assert!(!shard.entries.contains_key("cache:0000000000000001"));
    assert!(shard.entries.contains_key("cache:0000000000000002"));
}

#[test]
fn an_entry_expires_at_its_time() {
    let mut shard = CacheShard::default();
    shard.entries.insert("cache:1".to_string(), entry(100, true, 0));
    evict_expired(&mut shard, 99);
    assert_eq!(shard.entries.len(), 1);
    let bytes = shard.encode_to_vec();
    assert_eq!(find_entry(Some(&bytes), "cache:1", 99), Some(entry(100, true, 0)));
    assert_eq!(find_entry(Some(&bytes), "cache:1", 100), None);
    assert_eq!(find_entry(Some(&bytes), "cache:2", 99), None);
    assert_eq!(find_entry(None, "cache:1", 99), None);
    evict_expired(&mut shard, 100);
    assert!(shard.entries.is_empty());
}

#[test]
fn key_ignores_request_id() {
    let mut headers_a = TextMap::new();
    headers_a.insert("x-request-id".to_string(), "a".to_string());
    headers_a.insert("x-ext-authz".to_string(), "allow".to_string());

    let mut headers_b = headers_a.clone();
    headers_b.insert("x-request-id".to_string(), "b".to_string());

    let request = |headers| CheckRequest {
        attributes: Some(AttributeContext {
            source: None,
            destination: None,
            request: Some(Request {
                http: Some(HttpRequest {
                    id: String::new(),
                    method: "GET".to_string(),
                    headers,
                    path: "/".to_string(),
                    host: "example.com".to_string(),
                    scheme: "http".to_string(),
                    query: String::new(),
                    fragment: String::new(),
                    size: 0,
                    protocol: String::new(),
                    body: String::new(),
                    raw_body: Vec::new(),
                }),
            }),
            context_extensions: TextMap::new(),
        }),
    };

    assert_eq!(
        compute_cache_key(&request(headers_a)),
        compute_cache_key(&request(headers_b))
    );
}

#[test]
fn key_is_the_hash_of_what_it_covers() {
    let mut request = http(headers(&[
        ("X-Request-Id", "ignored"),
        ("b", "2"),
        ("a", "1"),
        ("C", "3"),
    ]));
    request.query = "q=\u{e9}".to_string();
    request.raw_body = vec![1, 2, 3, 0xff];
    let plain = expected_key(Some(&request), vec![("C", "3"), ("a", "1"), ("b", "2")]);
    let lowered = expected_key(Some(&request), vec![("a", "1"), ("b", "2"), ("c", "3")]);
    let listed = expected_key(Some(&request), vec![("c", "3")]);
    let request = check(request);
    assert_eq!(compute_cache_key(&request), plain);
    assert_eq!(
        compute_cache_key_with_policy(&request, &CacheHeaderPolicy::AllExceptRequestId),
        lowered
    );
    assert_eq!(
        compute_cache_key_with_policy(
            &request,
            &CacheHeaderPolicy::Allowlist(vec!["c".to_string(), "d".to_string()])
        ),
        listed
    );
    assert_eq!(
        compute_cache_key_with_policy(
            &request,
            &CacheHeaderPolicy::Denylist(vec!["a".to_string(), "b".to_string()])
        ),
        listed
    );
}

#[test]
fn default_policy_gives_the_plain_key_for_lowercase_names() {
    let request = check(http(headers(&[("x-request-id", "1"), ("b", "2"), ("a", "1")])));
    assert_eq!(
        compute_cache_key_with_policy(&request, &CacheHeaderPolicy::AllExceptRequestId),
        compute_cache_key(&request)
    );
}

#[test]
fn key_of_nothing_has_a_value() {
    let expected = expected_key(None, Vec::new());
    let empty = CheckRequest { attributes: None };
    assert_eq!(compute_cache_key(&empty), expected);
    assert_eq!(
        compute_cache_key_with_policy(&empty, &CacheHeaderPolicy::Allowlist(Vec::new())),
        expected
    );
    let mut bare = check(http(TextMap::new()));
    bare.attributes.as_mut().unwrap().request.as_mut().unwrap().http = None;
    assert_eq!(compute_cache_key(&bare), expected);
    assert_eq!(expected, "cache:03de1221d2ba65d0");
}

#[test]
fn key_depends_on_each_part() {
    let base = compute_cache_key(&check(http(headers(&[("a", "1")]))));
    let mut others = Vec::new();
    for part in 0..6 {
        let mut request = http(headers(&[("a", "1")]));
        match part {
            0 => request.method = "PUT".to_string(),
            1 => request.path = "/x".to_string(),
            2 => request.host = "x".to_string(),
            3 => request.scheme = "https".to_string(),
            4 => request.query = "x".to_string(),
            _ => request.raw_body = vec![0],
        }
        others.push(compute_cache_key(&check(request)));
    }
    others.push(compute_cache_key(&check(http(headers(&[("a", "2")])))));
    others.push(compute_cache_key(&check(http(headers(&[("a", "1"), ("b", "")])))));
    for other in others {
        assert_ne!(other, base);
    }
    let mut request = http(headers(&[("a", "1")]));
    request.id = "x".to_string();
    request.fragment = "x".to_string();
    request.protocol = "x".to_string();
    request.body = "x".to_string();
    request.size = 9;
    assert_eq!(compute_cache_key(&check(request)), base);
}

#[test]
fn key_uses_allowlisted_headers_only() {
    let policy = CacheHeaderPolicy::Allowlist(vec!["authorization".to_string()]);
    let key = |agent: &str| {
        let headers = headers(&[("authorization", "Bearer a"), ("user-agent", agent)]);
        compute_cache_key_with_policy(&check(http(headers)), &policy)
    };
    assert_eq!(key("agent-a"), key("agent-b"));
}

#[test]
fn key_uses_denylist_to_ignore_volatile_headers() {
    let policy = CacheHeaderPolicy::Denylist(vec!["traceparent".to_string()]);
    let key = |trace: &str, id: &str| {
        let headers = headers(&[
            ("authorization", "Bearer a"),
            ("traceparent", trace),
            ("X-Request-ID", id),
        ]);
        compute_cache_key_with_policy(&check(http(headers)), &policy)
    };
    assert_eq!(key("trace-a", "1"), key("trace-b", "2"));
}

#[test]
fn allowlist_may_ask_for_the_request_id() {
    let policy = CacheHeaderPolicy::Allowlist(vec!["x-request-id".to_string()]);
    let key = |id: &str| {
        compute_cache_key_with_policy(&check(http(headers(&[("x-request-id", id)]))), &policy)
    };
    assert_ne!(key("1"), key("2"));
}

#[test]
fn names_that_fall_together_are_ordered_by_value() {
    let request = http(headers(&[("A", "2"), ("a", "1")]));
    let expected = expected_key(Some(&request), vec![("a", "1"), ("a", "2")]);
    assert_eq!(
        compute_cache_key_with_policy(&check(request), &CacheHeaderPolicy::AllExceptRequestId),
        expected
    );
}

#[test]
fn shard_of_a_key_is_its_hash() {
    assert_eq!(shard_id_from_key("cache:0000000000000001"), 1);
    assert_eq!(shard_id_from_key("cache:000000000000001f"), 15);
    assert_eq!(shard_id_from_key("cache:ffffffffffffffff"), 15);
    assert_eq!(shard_id_from_key("cache:+2"), 2);
    assert_eq!(shard_id_from_key("cache:10000000000000001"), 0);
    assert_eq!(shard_id_from_key("cache:"), 0);
    assert_eq!(shard_id_from_key("cache:xyz"), 0);
    assert_eq!(shard_id_from_key("0000000000000001"), 0);
    let key = compute_cache_key(&check(http(TextMap::new())));
    let hash = u64::from_str_radix(&key[6..], 16).unwrap();
    assert_eq!(shard_id_from_key(&key), (hash % 16) as usize);
    assert!(key.starts_with("cache:"));
}

#[test]
fn shards_have_names() {
    assert_eq!(shard_shared_key(0), "cextauthz.cache.shard.0");
    assert_eq!(shard_shared_key(15), "cextauthz.cache.shard.15");
    assert_ne!(shard_shared_key(1), shard_shared_key(11));
    assert_eq!(
        shard_shared_key(usize::MAX),
        format!("cextauthz.cache.shard.{}", usize::MAX)
    );
}

#[test]
fn quota_evicts_nearest_expiry_then_key_order() {
    let mut shard = CacheShard::default();
    shard.entries.insert("cache:b".to_string(), entry(200, true, 0));
    shard.entries.insert("cache:a".to_string(), entry(100, true, 0));
    shard.entries.insert("cache:c".to_string(), entry(200, true, 0));
    enforce_quota(&mut shard, 3);
    assert_eq!(shard.entries.len(), 3);
    enforce_quota(&mut shard, 1);
    assert_eq!(shard.entries.len(), 1);
    assert!(shard.entries.contains_key("cache:c"));
    enforce_quota(&mut shard, 0);
    assert!(shard.entries.is_empty());
}

#[test]
fn stored_shard_is_read_back() {
    let mut shard = CacheShard::default();
    shard.entries.insert(String::new(), entry(0, false, 0));
    shard.entries.insert("cache:1".to_string(), entry(u64::MAX, true, 0));
    let mut rich = entry(300, false, 429);
    rich.denied_body = "slow \u{e9}".to_string();
    rich.response_headers = vec![
        CachedHeader { name: "retry-after".to_string(), value: "1".to_string() },
        CachedHeader { name: String::new(), value: String::new() },
    ];
    rich.request_headers = vec![CachedHeader { name: "x".to_string(), value: "y".repeat(300) }];
    shard.entries.insert("cache:2".to_string(), rich);
    let bytes = shard.encode_to_vec();
    assert_eq!(decode_shard(Some(&bytes)), shard);
    assert_eq!(decode_shard(Some(&bytes[..bytes.len() - 1])), CacheShard::default());
    assert_eq!(decode_shard(None), CacheShard::default());
    assert_eq!(shard.clone(), shard);
}

#[test]
fn store_evicts_inserts_and_keeps_the_quota() {
    let mut shard = CacheShard::default();
    shard.entries.insert("cache:01".to_string(), entry(100, true, 0));
    shard.entries.insert("cache:11".to_string(), entry(400, true, 0));
    shard.entries.insert("cache:21".to_string(), entry(300, true, 0));
    let update = ShardUpdate::store("cache:31", entry(500, false, 403), 2);
    assert_eq!(update.shared_key, "cextauthz.cache.shard.1");
    let bytes = update.next_bytes(Some(&shard.encode_to_vec()), 200);
    let after = decode_shard(Some(&bytes));
    assert_eq!(after.entries.len(), 2);
    assert_eq!(after.entries.get("cache:11"), Some(&entry(400, true, 0)));
    assert_eq!(find_entry(Some(&bytes), "cache:31", 499), Some(entry(500, false, 403)));
}

#[test]
fn a_stored_decision_may_be_the_first_to_leave() {
    let mut shard = CacheShard::default();
    shard.entries.insert("cache:11".to_string(), entry(900, true, 0));
    let update = ShardUpdate::store("cache:31", entry(500, false, 403), 1);
    let bytes = update.next_bytes(Some(&shard.encode_to_vec()), 200);
    assert_eq!(find_entry(Some(&bytes), "cache:31", 200), None);
    assert_eq!(find_entry(Some(&bytes), "cache:11", 200), Some(entry(900, true, 0)));
}

#[test]
fn purging_a_key_leaves_the_others() {
    let mut shard = CacheShard::default();
    shard.entries.insert("cache:01".to_string(), entry(100, true, 0));
    shard.entries.insert("cache:11".to_string(), entry(100, true, 0));
    let update = ShardUpdate::purge_key("cache:01");
    let bytes = update.next_bytes(Some(&shard.encode_to_vec()), 500);
    assert_eq!(find_entry(Some(&bytes), "cache:01", 0), None);
    assert_eq!(find_entry(Some(&bytes), "cache:11", 0), Some(entry(100, true, 0)));
}

#[test]
fn purging_everything_clears_every_shard() {
    let updates = ShardUpdate::purge_all();
    assert_eq!(updates.len(), NUM_SHARDS);
    let mut shard = CacheShard::default();
    shard.entries.insert("cache:01".to_string(), entry(100, true, 0));
    for (id, update) in updates.iter().enumerate() {
        assert_eq!(update.shared_key, shard_shared_key(id));
        assert!(update.next_bytes(Some(&shard.encode_to_vec()), 0).is_empty());
    }
}

#[test]
fn an_update_is_tried_three_times_at_most() {
    let mut update = ShardUpdate::purge_key("cache:01");
    let mut writes = 0;
    while update.is_pending() {
        writes += 1;
        update.record_write(false);
    }
    assert_eq!(writes, 3);
    update.record_write(false);
    assert!(!update.is_pending());
    let mut update = ShardUpdate::purge_key("cache:01");
    update.record_write(false);
    assert!(update.is_pending());
    update.record_write(true);
    assert!(!update.is_pending());
}

#[test]
fn default_cache_is_off() {
    let config = CacheConfig::default();
    assert!(!config.enabled);
    assert_eq!(config.ttl_ms, 60_000);
    assert_eq!(config.max_entries, 1000);
    assert_eq!(config.header_policy, CacheHeaderPolicy::AllExceptRequestId);
    assert_eq!(config.clone(), config);
}
