//! The encodings are compared with those that `prost` makes of the same messages.

use cextauthz::cache::{decode_shard, CacheEntry, CacheShard, CachedHeader};
use cextauthz::pb::check_response::HttpResponse;
use cextauthz::pb::header_value_option::HeaderAppendAction;
use cextauthz::pb::{
    AttributeContext, CheckRequest, CheckResponse, HttpRequest, Peer, Request,
};
use cextauthz::text_map::TextMap;
use cextauthz::wire::decode;
use prost::bytes::{Buf, BufMut};
use prost::encoding::{self, DecodeContext, WireType};
use prost::{DecodeError, Message};
use std::collections::BTreeMap;

#[derive(Clone, Debug, Default, PartialEq)]
struct TwinHeader {
    key: String,
    value: String,
}

impl Message for TwinHeader {
    fn encode_raw(&self, buf: &mut impl BufMut) {
        if !self.key.is_empty() {
            encoding::string::encode(1, &self.key, buf);
        }
        if !self.value.is_empty() {
            encoding::string::encode(2, &self.value, buf);
        }
    }

    fn merge_field(
        &mut self,
        tag: u32,
        wire_type: WireType,
        buf: &mut impl Buf,
        ctx: DecodeContext,
    ) -> Result<(), DecodeError> {
        match tag {
            1 => encoding::string::merge(wire_type, &mut self.key, buf, ctx),
            2 => encoding::string::merge(wire_type, &mut self.value, buf, ctx),
            _ => encoding::skip_field(wire_type, tag, buf, ctx),
        }
    }

    fn encoded_len(&self) -> usize {
        let mut buf = Vec::new();
        self.encode_raw(&mut buf);
        buf.len()
    }

    fn clear(&mut self) {
        *self = Self::default();
    }
}

#[derive(Clone, Debug, Default, PartialEq)]
struct TwinEntry {
    expires_at_ms: u64,
    allowed: bool,
    denied_status: u32,
    denied_body: String,
    response_headers: Vec<TwinHeader>,
    request_headers: Vec<TwinHeader>,
}

impl Message for TwinEntry {
    fn encode_raw(&self, buf: &mut impl BufMut) {
        if self.expires_at_ms != 0 {
            encoding::uint64::encode(1, &self.expires_at_ms, buf);
        }
        if self.allowed {
            encoding::bool::encode(2, &self.allowed, buf);
        }
        if self.denied_status != 0 {
            encoding::uint32::encode(3, &self.denied_status, buf);
        }
        if !self.denied_body.is_empty() {
            encoding::string::encode(4, &self.denied_body, buf);
        }
        encoding::message::encode_repeated(5, &self.response_headers, buf);
        encoding::message::encode_repeated(6, &self.request_headers, buf);
    }

    fn merge_field(
        &mut self,
        tag: u32,
        wire_type: WireType,
        buf: &mut impl Buf,
        ctx: DecodeContext,
    ) -> Result<(), DecodeError> {
        match tag {
            1 => encoding::uint64::merge(wire_type, &mut self.expires_at_ms, buf, ctx),
            2 => encoding::bool::merge(wire_type, &mut self.allowed, buf, ctx),
            3 => encoding::uint32::merge(wire_type, &mut self.denied_status, buf, ctx),
            4 => encoding::string::merge(wire_type, &mut self.denied_body, buf, ctx),
            5 => {
                encoding::message::merge_repeated(wire_type, &mut self.response_headers, buf, ctx)
            }
            6 => encoding::message::merge_repeated(wire_type, &mut self.request_headers, buf, ctx),
            _ => encoding::skip_field(wire_type, tag, buf, ctx),
        }
    }

    fn encoded_len(&self) -> usize {
        let mut buf = Vec::new();
        self.encode_raw(&mut buf);
        buf.len()
    }

    fn clear(&mut self) {
        *self = Self::default();
    }
}

#[derive(Clone, Debug, Default, PartialEq)]
struct TwinShard {
    entries: BTreeMap<String, TwinEntry>,
}

impl Message for TwinShard {
    fn encode_raw(&self, buf: &mut impl BufMut) {
        encoding::btree_map::encode(
            encoding::string::encode,
            encoding::string::encoded_len,
            encoding::message::encode,
            encoding::message::encoded_len,
            1,
            &self.entries,
            buf,
        );
    }

    fn merge_field(
        &mut self,
        tag: u32,
        wire_type: WireType,
        buf: &mut impl Buf,
        ctx: DecodeContext,
    ) -> Result<(), DecodeError> {
        match tag {
            1 => encoding::btree_map::merge(
                encoding::string::merge,
                encoding::message::merge,
                &mut self.entries,
                buf,
                ctx,
            ),
            _ => encoding::skip_field(wire_type, tag, buf, ctx),
        }
    }

    fn encoded_len(&self) -> usize {
        let mut buf = Vec::new();
        self.encode_raw(&mut buf);
        buf.len()
    }

    fn clear(&mut self) {
        *self = Self::default();
    }
}

#[derive(Clone, Debug, Default, PartialEq)]
struct TwinStatus {
    code: i32,
    message: String,
}

impl Message for TwinStatus {
    fn encode_raw(&self, buf: &mut impl BufMut) {
        if self.code != 0 {
            encoding::int32::encode(1, &self.code, buf);
        }
        if !self.message.is_empty() {
            encoding::string::encode(2, &self.message, buf);
        }
    }

    fn merge_field(
        &mut self,
        tag: u32,
        wire_type: WireType,
        buf: &mut impl Buf,
        ctx: DecodeContext,
    ) -> Result<(), DecodeError> {
        match tag {
            1 => encoding::int32::merge(wire_type, &mut self.code, buf, ctx),
            2 => encoding::string::merge(wire_type, &mut self.message, buf, ctx),
            _ => encoding::skip_field(wire_type, tag, buf, ctx),
        }
    }

    fn encoded_len(&self) -> usize {
        let mut buf = Vec::new();
        self.encode_raw(&mut buf);
        buf.len()
    }

    fn clear(&mut self) {
        *self = Self::default();
    }
}

#[derive(Clone, Debug, Default, PartialEq)]
struct TwinBool {
    value: bool,
}

impl Message for TwinBool {
    fn encode_raw(&self, buf: &mut impl BufMut) {
        if self.value {
            encoding::bool::encode(1, &self.value, buf);
        }
    }

    fn merge_field(
        &mut self,
        tag: u32,
        wire_type: WireType,
        buf: &mut impl Buf,
        ctx: DecodeContext,
    ) -> Result<(), DecodeError> {
        match tag {
            1 => encoding::bool::merge(wire_type, &mut self.value, buf, ctx),
            _ => encoding::skip_field(wire_type, tag, buf, ctx),
        }
    }

    fn encoded_len(&self) -> usize {
        if self.value {
            2
        } else {
            0
        }
    }

    fn clear(&mut self) {
        *self = Self::default();
    }
}

#[derive(Clone, Debug, Default, PartialEq)]
struct TwinOption {
    header: Option<TwinHeader>,
    append: Option<TwinBool>,
    append_action: i32,
    keep_empty_value: bool,
}

impl Message for TwinOption {
    fn encode_raw(&self, buf: &mut impl BufMut) {
        if let Some(header) = &self.header {
            encoding::message::encode(1, header, buf);
        }
        if let Some(append) = &self.append {
            encoding::message::encode(2, append, buf);
        }
        if self.append_action != 0 {
            encoding::int32::encode(3, &self.append_action, buf);
        }
        if self.keep_empty_value {
            encoding::bool::encode(4, &self.keep_empty_value, buf);
        }
    }

    fn merge_field(
        &mut self,
        tag: u32,
        wire_type: WireType,
        buf: &mut impl Buf,
        ctx: DecodeContext,
    ) -> Result<(), DecodeError> {
        match tag {
            1 => {
                let header = self.header.get_or_insert_with(TwinHeader::default);
                encoding::message::merge(wire_type, header, buf, ctx)
            }
            2 => {
                let append = self.append.get_or_insert_with(TwinBool::default);
                encoding::message::merge(wire_type, append, buf, ctx)
            }
            3 => encoding::int32::merge(wire_type, &mut self.append_action, buf, ctx),
            4 => encoding::bool::merge(wire_type, &mut self.keep_empty_value, buf, ctx),
            _ => encoding::skip_field(wire_type, tag, buf, ctx),
        }
    }

    fn encoded_len(&self) -> usize {
        let mut buf = Vec::new();
        self.encode_raw(&mut buf);
        buf.len()
    }

    fn clear(&mut self) {
        *self = Self::default();
    }
}

#[derive(Clone, Debug, Default, PartialEq)]
struct TwinDenied {
    status: Option<TwinStatusCode>,
    headers: Vec<TwinOption>,
    body: String,
}

#[derive(Clone, Debug, Default, PartialEq)]
struct TwinStatusCode {
    code: i32,
}

impl Message for TwinStatusCode {
    fn encode_raw(&self, buf: &mut impl BufMut) {
        if self.code != 0 {
            encoding::int32::encode(1, &self.code, buf);
        }
    }

    fn merge_field(
        &mut self,
        tag: u32,
        wire_type: WireType,
        buf: &mut impl Buf,
        ctx: DecodeContext,
    ) -> Result<(), DecodeError> {
        match tag {
            1 => encoding::int32::merge(wire_type, &mut self.code, buf, ctx),
            _ => encoding::skip_field(wire_type, tag, buf, ctx),
        }
    }

    fn encoded_len(&self) -> usize {
        let mut buf = Vec::new();
        self.encode_raw(&mut buf);
        buf.len()
    }

    fn clear(&mut self) {
        *self = Self::default();
    }
}

impl Message for TwinDenied {
    fn encode_raw(&self, buf: &mut impl BufMut) {
        if let Some(status) = &self.status {
            encoding::message::encode(1, status, buf);
        }
        encoding::message::encode_repeated(2, &self.headers, buf);
        if !self.body.is_empty() {
            encoding::string::encode(3, &self.body, buf);
        }
    }

    fn merge_field(
        &mut self,
        tag: u32,
        wire_type: WireType,
        buf: &mut impl Buf,
        ctx: DecodeContext,
    ) -> Result<(), DecodeError> {
        match tag {
            1 => {
                let status = self.status.get_or_insert_with(TwinStatusCode::default);
                encoding::message::merge(wire_type, status, buf, ctx)
            }
            2 => encoding::message::merge_repeated(wire_type, &mut self.headers, buf, ctx),
            3 => encoding::string::merge(wire_type, &mut self.body, buf, ctx),
            _ => encoding::skip_field(wire_type, tag, buf, ctx),
        }
    }

    fn encoded_len(&self) -> usize {
        let mut buf = Vec::new();
        self.encode_raw(&mut buf);
        buf.len()
    }

    fn clear(&mut self) {
        *self = Self::default();
    }
}

#[derive(Clone, Debug, Default, PartialEq)]
struct TwinAccepted {
    headers: Vec<TwinOption>,
    headers_to_remove: Vec<String>,
}

impl Message for TwinAccepted {
    fn encode_raw(&self, buf: &mut impl BufMut) {
        encoding::message::encode_repeated(2, &self.headers, buf);
        encoding::string::encode_repeated(5, &self.headers_to_remove, buf);
    }

    fn merge_field(
        &mut self,
        tag: u32,
        wire_type: WireType,
        buf: &mut impl Buf,
        ctx: DecodeContext,
    ) -> Result<(), DecodeError> {
        match tag {
            2 => encoding::message::merge_repeated(wire_type, &mut self.headers, buf, ctx),
            5 => {
                encoding::string::merge_repeated(wire_type, &mut self.headers_to_remove, buf, ctx)
            }
            _ => encoding::skip_field(wire_type, tag, buf, ctx),
        }
    }

    fn encoded_len(&self) -> usize {
        let mut buf = Vec::new();
        self.encode_raw(&mut buf);
        buf.len()
    }

    fn clear(&mut self) {
        *self = Self::default();
    }
}

#[derive(Clone, Debug, PartialEq)]
enum TwinHttp {
    Denied(TwinDenied),
    Accepted(TwinAccepted),
    Failed(TwinDenied),
}

#[derive(Clone, Debug, Default, PartialEq)]
struct TwinResponse {
    status: Option<TwinStatus>,
    http: Option<TwinHttp>,
}

impl Message for TwinResponse {
    fn encode_raw(&self, buf: &mut impl BufMut) {
        if let Some(status) = &self.status {
            encoding::message::encode(1, status, buf);
        }
        match &self.http {
            Some(TwinHttp::Denied(denied)) => encoding::message::encode(2, denied, buf),
            Some(TwinHttp::Accepted(accepted)) => encoding::message::encode(3, accepted, buf),
            Some(TwinHttp::Failed(denied)) => encoding::message::encode(5, denied, buf),
            None => {}
        }
    }

    fn merge_field(
        &mut self,
        tag: u32,
        wire_type: WireType,
        buf: &mut impl Buf,
        ctx: DecodeContext,
    ) -> Result<(), DecodeError> {
        match tag {
            1 => {
                let status = self.status.get_or_insert_with(TwinStatus::default);
                encoding::message::merge(wire_type, status, buf, ctx)
            }
            2 => {
                if let Some(TwinHttp::Denied(denied)) = &mut self.http {
                    return encoding::message::merge(wire_type, denied, buf, ctx);
                }
                let mut denied = TwinDenied::default();
                encoding::message::merge(wire_type, &mut denied, buf, ctx)?;
                self.http = Some(TwinHttp::Denied(denied));
                Ok(())
            }
            3 => {
                if let Some(TwinHttp::Accepted(accepted)) = &mut self.http {
                    return encoding::message::merge(wire_type, accepted, buf, ctx);
                }
                let mut accepted = TwinAccepted::default();
                encoding::message::merge(wire_type, &mut accepted, buf, ctx)?;
                self.http = Some(TwinHttp::Accepted(accepted));
                Ok(())
            }
            5 => {
                if let Some(TwinHttp::Failed(denied)) = &mut self.http {
                    return encoding::message::merge(wire_type, denied, buf, ctx);
                }
                let mut denied = TwinDenied::default();
                encoding::message::merge(wire_type, &mut denied, buf, ctx)?;
                self.http = Some(TwinHttp::Failed(denied));
                Ok(())
            }
            _ => encoding::skip_field(wire_type, tag, buf, ctx),
        }
    }

    fn encoded_len(&self) -> usize {
        let mut buf = Vec::new();
        self.encode_raw(&mut buf);
        buf.len()
    }

    fn clear(&mut self) {
        *self = Self::default();
    }
}

fn twin_headers(headers: &[CachedHeader]) -> Vec<TwinHeader> {
    headers
        .iter()
        .map(|header| TwinHeader { key: header.name.clone(), value: header.value.clone() })
        .collect()
}

fn twin_shard(shard: &CacheShard) -> TwinShard {
    let mut entries = BTreeMap::new();
    for place in 0..shard.entries.len() {
        let entry = shard.entries.value_at(place);
        entries.insert(
            shard.entries.key_at(place).to_string(),
            TwinEntry {
                expires_at_ms: entry.expires_at_ms,
                allowed: entry.allowed,
                denied_status: entry.denied_status,
                denied_body: entry.denied_body.clone(),
                response_headers: twin_headers(&entry.response_headers),
                request_headers: twin_headers(&entry.request_headers),
            },
        );
    }
    TwinShard { entries }
}

fn twin_options(options: &[cextauthz::pb::HeaderValueOption]) -> Vec<TwinOption> {
    options
        .iter()
        .map(|option| TwinOption {
            header: option
                .header
                .as_ref()
                .map(|header| TwinHeader { key: header.key.clone(), value: header.value.clone() }),
            append: option.append.as_ref().map(|append| TwinBool { value: append.value }),
            append_action: option.append_action,
            keep_empty_value: option.keep_empty_value,
        })
        .collect()
}

fn twin_denied(denied: &cextauthz::pb::DeniedHttpResponse) -> TwinDenied {
    TwinDenied {
        status: denied.status.as_ref().map(|status| TwinStatusCode { code: status.code }),
        headers: twin_options(&denied.headers),
        body: denied.body.clone(),
    }
}

fn twin_response(response: &CheckResponse) -> TwinResponse {
    TwinResponse {
        status: response
            .status
            .as_ref()
            .map(|status| TwinStatus { code: status.code, message: status.message.clone() }),
        http: response.http_response.as_ref().map(|http| match http {
            HttpResponse::DeniedResponse(denied) => TwinHttp::Denied(twin_denied(denied)),
            HttpResponse::ErrorResponse(denied) => TwinHttp::Failed(twin_denied(denied)),
            HttpResponse::OkResponse(accepted) => TwinHttp::Accepted(TwinAccepted {
                headers: twin_options(&accepted.headers),
                headers_to_remove: accepted.headers_to_remove.clone(),
            }),
        }),
    }
}

fn sample_shard() -> CacheShard {
    let header = |name: &str, value: &str| CachedHeader {
        name: name.to_string(),
        value: value.to_string(),
    };
    let mut shard = CacheShard::default();
    shard.entries.insert(
        "cache:0000000000000001".to_string(),
        CacheEntry {
            expires_at_ms: u64::MAX,
            allowed: true,
            denied_status: 0,
            denied_body: String::new(),
            response_headers: Vec::new(),
            request_headers: vec![header("x-user", "alice"), header("", "")],
        },
    );
    shard.entries.insert(
        "cache:\u{e9}".to_string(),
        CacheEntry {
            expires_at_ms: 300,
            allowed: false,
            denied_status: u32::MAX,
            denied_body: "no ".repeat(100),
            response_headers: vec![header("a", ""), header("", "b")],
            request_headers: Vec::new(),
        },
    );
    shard.entries.insert(
        String::new(),
        CacheEntry {
            expires_at_ms: 0,
            allowed: false,
            denied_status: 0,
            denied_body: String::new(),
            response_headers: Vec::new(),
            request_headers: Vec::new(),
        },
    );
    shard
}

fn sample_responses() -> Vec<TwinResponse> {
    let option = TwinOption {
        header: Some(TwinHeader { key: "X-A".to_string(), value: "1".to_string() }),
        append: Some(TwinBool { value: true }),
        append_action: -1,
        keep_empty_value: true,
    };
    let denied = TwinDenied {
        status: Some(TwinStatusCode { code: -403 }),
        headers: vec![option.clone(), TwinOption::default()],
        body: "no".to_string(),
    };
    let accepted = TwinAccepted {
        headers: vec![option],
        headers_to_remove: vec!["a".to_string(), String::new()],
    };
    let status = Some(TwinStatus { code: 7, message: "m".to_string() });
    vec![
        TwinResponse::default(),
        TwinResponse { status: status.clone(), http: None },
        TwinResponse { status: status.clone(), http: Some(TwinHttp::Denied(denied.clone())) },
        TwinResponse { status, http: Some(TwinHttp::Accepted(accepted)) },
        TwinResponse { status: None, http: Some(TwinHttp::Failed(denied)) },
    ]
}

/// Bytes that differ from the given ones in a few places, are cut short, or go on.
fn mutations(bytes: &[u8], rounds: u32) -> Vec<Vec<u8>> {
    let mut seed: u32 = 7;
    let mut next = move || {
        seed = seed.wrapping_mul(1_664_525).wrapping_add(1_013_904_223);
        (seed >> 8) as usize
    };
    let mut all = vec![bytes.to_vec()];
    for _ in 0..rounds {
        let mut changed = bytes.to_vec();
        for _ in 0..=next() % 3 {
            match next() % 4 {
                0 if !changed.is_empty() => {
                    let place = next() % changed.len();
                    changed[place] = next() as u8;
                }
                1 if !changed.is_empty() => {
                    let place = next() % changed.len();
                    changed[place] = (next() % 64) as u8;
                }
                2 => changed.truncate(next() % (changed.len() + 1)),
                _ => {
                    let place = next() % (changed.len() + 1);
                    changed.insert(place, (next() % 128) as u8);
                }
            }
        }
        all.push(changed);
    }
    all
}

#[test]
fn shards_are_encoded_as_by_prost() {
    let shard = sample_shard();
    assert_eq!(shard.encode_to_vec(), twin_shard(&shard).encode_to_vec());
    assert!(CacheShard::default().encode_to_vec().is_empty());
    let entry = shard.entries.value_at(1);
    let twin = twin_shard(&shard);
    assert_eq!(
        entry.encode_to_vec(),
        twin.entries.values().nth(1).unwrap().encode_to_vec()
    );
}

#[test]
fn shards_are_decoded_as_by_prost() {
    for bytes in mutations(&sample_shard().encode_to_vec(), 20_000) {
        let expected = TwinShard::decode(bytes.as_slice()).ok();
        let found = decode::<CacheShard>(&bytes);
        assert_eq!(found.as_ref().map(twin_shard), expected, "{bytes:?}");
        assert_eq!(
            twin_shard(&decode_shard(Some(&bytes))),
            expected.unwrap_or_default()
        );
    }
}

#[test]
fn responses_are_decoded_as_by_prost() {
    for sample in sample_responses() {
        let mut doubled = sample.encode_to_vec();
        doubled.extend(sample.encode_to_vec());
        doubled.extend(sample_responses()[2].encode_to_vec());
        for bytes in [sample.encode_to_vec(), doubled] {
            for bytes in mutations(&bytes, 4_000) {
                let expected = TwinResponse::decode(bytes.as_slice()).ok();
                let found = decode::<CheckResponse>(&bytes);
                assert_eq!(found.as_ref().map(twin_response), expected, "{bytes:?}");
            }
        }
    }
}

#[test]
fn map_entries_are_read_whatever_their_wire_type() {
    let shard = decode::<CacheShard>(&[0x08, 0x00]).unwrap();
    assert_eq!(shard.entries.len(), 1);
    assert_eq!(shard.entries.get(""), Some(&CacheEntry::default()));
    for wire_type in 0..8u8 {
        for tail in [vec![0], vec![3, 0x0a, 1, b'k'], vec![9], vec![2, 0x08, 0], vec![]] {
            let mut bytes = vec![(1 << 3) | wire_type];
            bytes.extend(tail);
            let expected = TwinShard::decode(bytes.as_slice()).ok();
            let found = decode::<CacheShard>(&bytes);
            assert_eq!(found.as_ref().map(twin_shard), expected, "{bytes:?}");
        }
    }
}

#[test]
fn responses_are_encoded_as_by_prost() {
    for sample in sample_responses() {
        let bytes = sample.encode_to_vec();
        let response = decode::<CheckResponse>(&bytes).unwrap();
        assert_eq!(twin_response(&response), sample);
        assert_eq!(response.encode_to_vec(), bytes);
        assert_eq!(decode::<CheckResponse>(&response.encode_to_vec()), Some(response));
    }
}

#[test]
fn default_messages_are_those_without_fields() {
    assert_eq!(CheckRequest::default().encode_to_vec(), Vec::<u8>::new());
    assert_eq!(AttributeContext::default().encode_to_vec(), Vec::<u8>::new());
    assert_eq!(Request::default().encode_to_vec(), Vec::<u8>::new());
    assert_eq!(HttpRequest::default().encode_to_vec(), Vec::<u8>::new());
    assert_eq!(Peer::default().encode_to_vec(), Vec::<u8>::new());
    assert_eq!(decode::<CheckResponse>(&[]), Some(CheckResponse::default()));
    assert_eq!(decode::<CacheEntry>(&[]), Some(CacheEntry::default()));
    assert_eq!(decode::<CachedHeader>(&[]), Some(CachedHeader::default()));
    assert_eq!(decode(&[]), Some(cextauthz::pb::HeaderValueOption::default()));
    assert_eq!(decode(&[]), Some(cextauthz::pb::HeaderValue::default()));
    assert_eq!(decode(&[]), Some(cextauthz::pb::BoolValue::default()));
    assert_eq!(decode(&[]), Some(cextauthz::pb::HttpStatus::default()));
    assert_eq!(decode(&[]), Some(cextauthz::pb::Status::default()));
    assert_eq!(decode(&[]), Some(cextauthz::pb::DeniedHttpResponse::default()));
    assert_eq!(decode(&[]), Some(cextauthz::pb::OkHttpResponse::default()));
    assert_eq!(HeaderAppendAction::default().number(), 0);
}

#[test]
fn groups_are_skipped_as_by_prost() {
    let start = (9u8 << 3) | 3;
    let end = (9u8 << 3) | 4;
    for depth in [1, 2, 99, 100, 101, 102, 150] {
        let mut bytes = vec![start; depth];
        bytes.extend([(1 << 3) | 5, 1, 2, 3, 4]);
        bytes.extend([(2 << 3) | 1, 1, 2, 3, 4, 5, 6, 7, 8]);
        bytes.extend(vec![end; depth]);
        let expected = TwinResponse::decode(bytes.as_slice()).ok();
        assert_eq!(decode::<CheckResponse>(&bytes).as_ref().map(twin_response), expected);
        assert_eq!(expected.is_some(), depth < 100, "{depth}");
    }
    for bytes in [vec![start], vec![end], vec![start, (8 << 3) | 4], vec![start, start, end]] {
        assert!(TwinResponse::decode(bytes.as_slice()).is_err());
        assert!(decode::<CheckResponse>(&bytes).is_none());
    }
}

#[test]
fn varints_are_read_as_by_prost() {
    for tail in [
        vec![0],
        vec![0x7f],
        vec![0x80, 0x01],
        vec![0x80, 0x00],
        vec![0xff; 10],
        vec![0xff, 0xff, 0xff, 0xff, 0xff, 0xff, 0xff, 0xff, 0xff, 0x01],
        vec![0xff, 0xff, 0xff, 0xff, 0xff, 0xff, 0xff, 0xff, 0xff, 0x02],
        vec![0x80],
    ] {
        let mut bytes = vec![(1 << 3) | 2, tail.len() as u8 + 1, 1 << 3];
        bytes.extend(&tail);
        let expected = TwinResponse::decode(bytes.as_slice()).ok();
        assert_eq!(decode::<CheckResponse>(&bytes).as_ref().map(twin_response), expected);
    }
    let bytes = [0x0a, 0x0b, 0x08, 0xff, 0xff, 0xff, 0xff, 0xff, 0xff, 0xff, 0xff, 0xff, 0x01];
    assert_eq!(decode::<CheckResponse>(&bytes).unwrap().status.unwrap().code, -1);
}

#[test]
fn requests_are_encoded_as_by_prost() {
    let mut headers = TextMap::new();
    headers.insert("b".to_string(), String::new());
    headers.insert("a".to_string(), "1".to_string());
    let mut extensions = TextMap::new();
    extensions.insert("x".to_string(), "y".to_string());
    let request = CheckRequest {
        attributes: Some(AttributeContext {
            source: Some(Peer { service: "from".to_string() }),
            destination: Some(Peer { service: String::new() }),
            request: Some(Request {
                http: Some(HttpRequest {
                    id: "id".to_string(),
                    method: "GET".to_string(),
                    headers,
                    path: "/p".to_string(),
                    host: "h".to_string(),
                    scheme: "s".to_string(),
                    query: "q".to_string(),
                    fragment: "f".to_string(),
                    size: -1,
                    protocol: "HTTP/2".to_string(),
                    body: "\u{e9}".to_string(),
                    raw_body: vec![0xff; 200],
                }),
            }),
            context_extensions: extensions,
        }),
    };

    let text = |tag: u32, value: &str, buf: &mut Vec<u8>| {
        encoding::string::encode(tag, &value.to_string(), buf)
    };
    let pair = |tag: u32, key: &str, value: &str, buf: &mut Vec<u8>| {
        let header = TwinHeader { key: key.to_string(), value: value.to_string() };
        encoding::message::encode(tag, &header, buf)
    };
    let nested = |tag: u32, content: Vec<u8>, buf: &mut Vec<u8>| {
        encoding::bytes::encode(tag, &content, buf)
    };
    let mut http = Vec::new();
    text(1, "id", &mut http);
    text(2, "GET", &mut http);
    pair(3, "a", "1", &mut http);
    pair(3, "b", "", &mut http);
    text(4, "/p", &mut http);
    text(5, "h", &mut http);
    text(6, "s", &mut http);
    text(7, "q", &mut http);
    text(8, "f", &mut http);
    encoding::int64::encode(9, &-1, &mut http);
    text(10, "HTTP/2", &mut http);
    text(11, "\u{e9}", &mut http);
    nested(12, vec![0xff; 200], &mut http);
    let mut inner = Vec::new();
    nested(2, http, &mut inner);
    let mut source = Vec::new();
    text(2, "from", &mut source);
    let mut context = Vec::new();
    nested(1, source, &mut context);
    nested(2, Vec::new(), &mut context);
    nested(4, inner, &mut context);
    pair(10, "x", "y", &mut context);
    let mut expected = Vec::new();
    nested(1, context, &mut expected);

    assert_eq!(request.encode_to_vec(), expected);
    assert_eq!(CheckRequest { attributes: None }.encode_to_vec(), Vec::<u8>::new());
}

#[test]
fn append_actions_have_numbers() {
    for number in 0..4 {
        assert_eq!(
            HeaderAppendAction::from_number(number).unwrap().number(),
            number
        );
    }
    assert_eq!(HeaderAppendAction::OverwriteIfExistsOrAdd.number(), 2);
    assert!(HeaderAppendAction::from_number(4).is_none());
    assert!(HeaderAppendAction::from_number(-1).is_none());
}
