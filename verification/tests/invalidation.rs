use cextauthz::invalidation::{InvalidationOp, InvalidationRequest};
use serde::de::Error;
use serde_json::Value;

fn read(bytes: &[u8]) -> Result<InvalidationRequest, serde_json::Error> {
    let value: Value = serde_json::from_slice(bytes)?;
    let op: String = serde_json::from_value(value["op"].clone())?;
    let op = match op.as_str() {
        "purge_key" => InvalidationOp::PurgeKey,
        "purge_all" => InvalidationOp::PurgeAll,
        _ => return Err(serde_json::Error::custom("unknown variant")),
    };
    Ok(InvalidationRequest {
        version: serde_json::from_value(value["version"].clone())?,
        op,
        key: serde_json::from_value(value["key"].clone())?,
    })
}

fn parse(bytes: &[u8]) -> Result<InvalidationRequest, &'static str> {
    InvalidationRequest::parse(read(bytes))
}

#[test]
fn parses_purge_key() {
    let request =
        parse(br#"{"version":1,"op":"purge_key","key":"cache:0000000000000001"}"#).unwrap();

    assert_eq!(request.op, InvalidationOp::PurgeKey);
    assert_eq!(request.key.as_deref(), Some("cache:0000000000000001"));
}

#[test]
fn rejects_purge_key_without_key() {
    let err = parse(br#"{"version":1,"op":"purge_key"}"#).unwrap_err();
    assert_eq!(err, "purge_key requires key");
}

#[test]
fn parses_purge_all() {
    let request = parse(br#"{"version":1,"op":"purge_all"}"#).unwrap();

    assert_eq!(request.op, InvalidationOp::PurgeAll);
}

#[test]
fn rejects_what_is_not_json() {
    assert_eq!(parse(b"{").unwrap_err(), "invalid json");
    assert_eq!(
        parse(br#"{"version":1,"op":"purge_some"}"#).unwrap_err(),
        "invalid json"
    );
}

#[test]
fn rejects_other_versions_before_anything_else() {
    assert_eq!(
        parse(br#"{"version":2,"op":"purge_key"}"#).unwrap_err(),
        "unsupported version"
    );
}

#[test]
fn rejects_keys_of_another_form() {
    assert_eq!(
        parse(br#"{"version":1,"op":"purge_key","key":"cach:1"}"#).unwrap_err(),
        "invalid cache key"
    );
}

#[test]
fn ignores_the_key_of_a_full_purge() {
    let request = parse(br#"{"version":1,"op":"purge_all","key":"x"}"#).unwrap();
    assert_eq!(request.key.as_deref(), Some("x"));
}
