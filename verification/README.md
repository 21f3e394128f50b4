# cextauthz

An Envoy Proxy-Wasm HTTP filter that delegates request authorization to an Envoy `ext_authz`
gRPC service. The rules of the filter are written in Verus and proved; a thin plugin around them
talks to the proxy.

## What the filter does

For each request that is not a purge of the cache, the filter

1. collects method, path, query, host, scheme, request ID, headers and body, and refuses a body
   that is longer than allowed with `413`,
2. builds a `CheckRequest`,
3. looks in the cache of decisions, where that is enabled,
4. calls `envoy.service.auth.v3.Authorization/Check` on the cluster `ext_authz`,
5. lets the request pass on an `OkHttpResponse`, with the headers that the service asks for,
6. turns it away on any other answer, with the status, body and headers of the service, or with
   `403` and `Forbidden` where it gives none.

Failures of the service are answered with `503`, malformed or empty answers with `500`.

`POST /_cextauthz/cache/invalidate` with the configured secret in
`x-cextauthz-invalidation-secret` purges one key or the whole cache:

```json
{"version":1,"op":"purge_key","key":"cache:0000000000000001"}
```

## Configuration

```json
{
  "timeout_ms": 1000,
  "grpc": {"cluster": "ext_authz"},
  "request_body": {"max_bytes": 1048576},
  "cache": {
    "enabled": true,
    "ttl_ms": 60000,
    "max_entries": 1000,
    "headers": {"mode": "all_except_request_id", "names": []}
  },
  "invalidation": {"secret": "integration-secret"}
}
```

`grpc.cluster` has to be there and must not be empty, though calls go to `ext_authz` whatever it
says; the rest is optional. The header mode is `all_except_request_id`, `allowlist` or
`denylist`.

## Layout

```text
src/
  filter.rs         the filter, from one callback of the proxy to the next
    command.rs      what the filter asks of the proxy
    http.rs         its work on one request
    root.rs         its settings
    laws.rs         what holds of it as a whole
  cache.rs          the cache of decisions
    key.rs          cache keys
    policy.rs       which headers take part in them
    entry.rs        decisions and shards, and their encoding
    shard.rs        shards, quotas and eviction
    update.rs       looking up, storing and purging
    config.rs       how the cache is set up
  config.rs         the plugin's configuration
  decision.rs       what an answer means
  invalidation.rs   purge requests
  request.rs        from a request to a check
  pb.rs             the messages of the service
    answer.rs       the encoding of its answers
  wire.rs           the protobuf wire format
  text.rs           text and numbers
  text_map.rs       maps keyed by text
  model.rs          views of sequences and optional values
  outside.rs        types of other crates
app/                the Proxy-Wasm plugin: callbacks, host calls, JSON
tests/              tests of the library
```
