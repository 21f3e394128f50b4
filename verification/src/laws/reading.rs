//! Laws on what is read from any bytes, whoever wrote them.
use crate::cache::entry::{shard_decoded, CacheEntry, CacheEntryModel, CacheShard, ShardItem};
use crate::cache::CachedHeader;
use crate::pb::check_response::HttpResponseModel;
use crate::pb::{
    BoolValue, CheckResponse, CheckResponseModel, DeniedHttpResponse, DeniedHttpResponseModel,
    HeaderValue, HeaderValueModel, HeaderValueOption, HeaderValueOptionModel, HttpStatus,
    OkHttpResponse, OkHttpResponseModel, Status, StatusModel,
};
use crate::wire::{
    decoded, field_read, is_tag, law_varint_round_trip, merged, varint_bytes, Payload,
    WireMessage,
};
use vstd::prelude::*;
use vstd::utf8::{encode_utf8, encode_utf8_decode_utf8, encode_utf8_valid_utf8, valid_utf8};

verus! {

/// What a message comes to once the content of a field has been read into it.
pub open spec fn read_into<M: WireMessage>(
    start: M::V,
    content: Seq<u8>,
    budget: nat,
) -> Option<M::V> {
    if budget == 0 {
        None
    } else {
        merged::<M>(start, content, (budget - 1) as nat)
    }
}

/// Nothing is a message in which nothing was said.
pub proof fn law_empty_is_blank(key: Seq<char>)
    ensures
        decoded::<CheckResponse>(seq![]) matches Some(response) && response.status is None
            && response.http_response is None,
        decoded::<DeniedHttpResponse>(seq![]) matches Some(denied) && denied.status is None
            && denied.headers.len() == 0 && denied.body.len() == 0,
        decoded::<OkHttpResponse>(seq![]) matches Some(accepted) && accepted.headers.len() == 0
            && accepted.headers_to_remove.len() == 0,
        decoded::<HeaderValueOption>(seq![]) matches Some(option) && option.header is None
            && option.append is None && option.append_action == 0 && !option.keep_empty_value,
        decoded::<HeaderValue>(seq![]) matches Some(header) && header.key.len() == 0
            && header.value.len() == 0,
        decoded::<Status>(seq![]) matches Some(status) && status.code == 0
            && status.message.len() == 0,
        decoded::<HttpStatus>(seq![]) matches Some(status) && status.code == 0,
        decoded::<BoolValue>(seq![]) matches Some(truth) && !truth.value,
        decoded::<CacheEntry>(seq![]) matches Some(entry) && entry.expires_at_ms == 0
            && !entry.allowed && entry.denied_status == 0 && entry.denied_body.len() == 0
            && entry.response_headers.len() == 0 && entry.request_headers.len() == 0,
        decoded::<CacheShard>(seq![]) matches Some(shard) && !shard.contains_key(key),
{
}

/// Messages may be nested a hundred deep.
pub proof fn law_depth_is_bounded<M: WireMessage>(bytes: Seq<u8>)
    ensures
        decoded::<M>(bytes) == merged::<M>(M::initial(), bytes, 100),
{
}

/// A shard that is not there, or that cannot be read, holds nothing. One that can be read is what
/// was read.
pub proof fn law_unreadable_shard_is_empty(bytes: Seq<u8>, key: Seq<char>)
    ensures
        !shard_decoded(None).contains_key(key),
        match decoded::<CacheShard>(bytes) {
            Some(shard) => shard_decoded(Some(bytes)) == shard,
            None => !shard_decoded(Some(bytes)).contains_key(key),
        },
{
}

/// A value of the wire type 1 is eight bytes long, and one of the type 5 four. It is of no use,
/// and what stands behind it is read on; one that is cut short is refused.
pub proof fn law_fixed_values_are_skipped<M: WireMessage>(
    tag: u32,
    wire_type: u32,
    value: Seq<u8>,
    rest: Seq<u8>,
    budget: nat,
)
    requires
        is_tag(tag),
        !M::is_map(tag),
        budget > 0,
        wire_type == 1 && value.len() == 8 || wire_type == 5 && value.len() == 4,
    ensures
        field_read::<M>(varint_bytes((8 * tag + wire_type) as u64) + value + rest, budget)
            == Some((tag, Payload::Other, rest)),
        rest.len() < value.len() ==> field_read::<M>(
            varint_bytes((8 * tag + wire_type) as u64) + rest,
            budget,
        ) is None,
{
    let key = (8 * tag + wire_type) as u64;
    assert(varint_bytes(key) + value + rest =~= varint_bytes(key) + (value + rest));
    law_varint_round_trip(key, value + rest);
    law_varint_round_trip(key, rest);
    assert((value + rest).skip(value.len() as int) =~= rest);
}

/// A group, which has the wire type 3, goes up to the end with its tag, which has the type 4.
/// What stands behind it is read on; the end of another group there is refused.
pub proof fn law_groups_are_skipped<M: WireMessage>(
    tag: u32,
    other: u32,
    rest: Seq<u8>,
    budget: nat,
)
    requires
        is_tag(tag),
        is_tag(other),
        other != tag,
        !M::is_map(tag),
        budget > 0,
    ensures
        field_read::<M>(
            varint_bytes((8 * tag + 3) as u64) + (varint_bytes((8 * tag + 4) as u64) + rest),
            budget,
        ) == Some((tag, Payload::Other, rest)),
        field_read::<M>(
            varint_bytes((8 * tag + 3) as u64) + (varint_bytes((8 * other + 4) as u64) + rest),
            budget,
        ) is None,
{
    let start = (8 * tag + 3) as u64;
    let end = (8 * tag + 4) as u64;
    let wrong = (8 * other + 4) as u64;
    law_varint_round_trip(start, varint_bytes(end) + rest);
    law_varint_round_trip(end, rest);
    law_varint_round_trip(start, varint_bytes(wrong) + rest);
    law_varint_round_trip(wrong, rest);
}

/// The wire types 6 and 7, the end of a group that has not started, and the tag 0 are refused.
pub proof fn law_bad_keys_are_refused<M: WireMessage>(key: u64, rest: Seq<u8>, budget: nat)
    requires
        key % 8 >= 6 || key < 8 || key > u32::MAX || (key % 8 == 4 && !M::is_map(
            (key / 8) as u32,
        )),
    ensures
        field_read::<M>(varint_bytes(key) + rest, budget) is None,
{
    law_varint_round_trip(key, rest);
}

/// A length that goes beyond the end is refused.
pub proof fn law_cut_field_is_refused<M: WireMessage>(
    tag: u32,
    length: u64,
    rest: Seq<u8>,
    budget: nat,
)
    requires
        is_tag(tag),
        length > rest.len(),
    ensures
        field_read::<M>(
            varint_bytes((8 * tag + 2) as u64) + varint_bytes(length) + rest,
            budget,
        ) is None,
{
    let key = (8 * tag + 2) as u64;
    let content = varint_bytes(length) + rest;
    assert(varint_bytes(key) + varint_bytes(length) + rest =~= varint_bytes(key) + content);
    law_varint_round_trip(key, content);
    law_varint_round_trip(length, rest);
}

/// Fields that a message does not have change nothing, whatever they hold.
pub proof fn law_unknown_fields_are_ignored(
    response: CheckResponseModel,
    denied: DeniedHttpResponseModel,
    accepted: OkHttpResponseModel,
    option: HeaderValueOptionModel,
    header: HeaderValueModel,
    entry: CacheEntryModel,
    shard: Map<Seq<char>, CacheEntryModel>,
    tag: u32,
    payload: Payload,
    budget: nat,
)
    ensures
        tag > 6 || tag == 0 ==> {
            &&& CheckResponse::field_merged(response, tag, payload, budget) == Some(response)
            &&& DeniedHttpResponse::field_merged(denied, tag, payload, budget) == Some(denied)
            &&& OkHttpResponse::field_merged(accepted, tag, payload, budget) == Some(accepted)
            &&& HeaderValueOption::field_merged(option, tag, payload, budget) == Some(option)
            &&& HeaderValue::field_merged(header, tag, payload, budget) == Some(header)
            &&& CacheEntry::field_merged(entry, tag, payload, budget) == Some(entry)
        },
        tag == 4 || tag == 6 ==> CheckResponse::field_merged(response, tag, payload, budget)
            == Some(response),
        tag > 3 ==> DeniedHttpResponse::field_merged(denied, tag, payload, budget) == Some(denied),
        tag != 2 && tag != 5 ==> OkHttpResponse::field_merged(accepted, tag, payload, budget)
            == Some(accepted),
        tag > 4 ==> HeaderValueOption::field_merged(option, tag, payload, budget) == Some(option),
        tag > 2 ==> HeaderValue::field_merged(header, tag, payload, budget) == Some(header),
        tag != 1 ==> CacheShard::field_merged(shard, tag, payload, budget) == Some(shard),
{
}

/// A text that is read takes the place of the one before and leaves the rest alone, where it is
/// UTF-8; anything else in its place is refused.
pub proof fn law_texts_are_read(
    header: HeaderValueModel,
    status: StatusModel,
    denied: DeniedHttpResponseModel,
    accepted: OkHttpResponseModel,
    entry: CacheEntryModel,
    pair: (Seq<char>, Seq<char>),
    item: (Seq<char>, CacheEntryModel),
    text: Seq<char>,
    other: Payload,
    budget: nat,
)
    requires
        match other {
            Payload::Bytes(bytes) => !valid_utf8(bytes),
            _ => true,
        },
    ensures
        ({
            let given = Payload::Bytes(encode_utf8(text));
            &&& HeaderValue::field_merged(header, 1, given, budget) == Some(
                HeaderValueModel { key: text, value: header.value },
            )
            &&& HeaderValue::field_merged(header, 2, given, budget) == Some(
                HeaderValueModel { key: header.key, value: text },
            )
            &&& Status::field_merged(status, 2, given, budget) == Some(
                StatusModel { code: status.code, message: text },
            )
            &&& DeniedHttpResponse::field_merged(denied, 3, given, budget) == Some(
                DeniedHttpResponseModel {
                    status: denied.status,
                    headers: denied.headers,
                    body: text,
                },
            )
            &&& OkHttpResponse::field_merged(accepted, 5, given, budget) == Some(
                OkHttpResponseModel {
                    headers: accepted.headers,
                    headers_to_remove: accepted.headers_to_remove + seq![text],
                },
            )
            &&& CacheEntry::field_merged(entry, 4, given, budget) == Some(
                CacheEntryModel { denied_body: text, ..entry },
            )
            &&& CachedHeader::field_merged(pair, 1, given, budget) == Some((text, pair.1))
            &&& CachedHeader::field_merged(pair, 2, given, budget) == Some((pair.0, text))
            &&& ShardItem::field_merged(item, 1, given, budget) == Some((text, item.1))
        }),
        HeaderValue::field_merged(header, 1, other, budget) is None,
        HeaderValue::field_merged(header, 2, other, budget) is None,
        Status::field_merged(status, 2, other, budget) is None,
        DeniedHttpResponse::field_merged(denied, 3, other, budget) is None,
        OkHttpResponse::field_merged(accepted, 5, other, budget) is None,
        CacheEntry::field_merged(entry, 4, other, budget) is None,
        CachedHeader::field_merged(pair, 1, other, budget) is None,
        CachedHeader::field_merged(pair, 2, other, budget) is None,
        ShardItem::field_merged(item, 1, other, budget) is None,
{
    encode_utf8_valid_utf8(text);
    encode_utf8_decode_utf8(text);
    assert(accepted.headers_to_remove.push(text) =~= accepted.headers_to_remove + seq![text]);
}

/// A number that is read takes the place of the one before and leaves the rest alone; anything
/// else in its place is refused. A truth value is any number but zero.
pub proof fn law_numbers_are_read(
    status: StatusModel,
    code: HttpStatus,
    truth: BoolValue,
    option: HeaderValueOptionModel,
    entry: CacheEntryModel,
    number: u64,
    small: u32,
    signed: i32,
    other: Payload,
    budget: nat,
)
    requires
        other !is Varint,
        small as int == number % 0x1_0000_0000,
        signed as int == (if number % 0x1_0000_0000 < 0x8000_0000 {
            (number % 0x1_0000_0000) as int
        } else {
            number % 0x1_0000_0000 - 0x1_0000_0000
        }),
    ensures
        ({
            let given = Payload::Varint(number);
            &&& Status::field_merged(status, 1, given, budget) == Some(
                StatusModel { code: signed, message: status.message },
            )
            &&& HttpStatus::field_merged(code, 1, given, budget) == Some(
                HttpStatus { code: signed },
            )
            &&& BoolValue::field_merged(truth, 1, given, budget) == Some(
                BoolValue { value: number > 0 },
            )
            &&& HeaderValueOption::field_merged(option, 3, given, budget) == Some(
                HeaderValueOptionModel { append_action: signed, ..option },
            )
            &&& HeaderValueOption::field_merged(option, 4, given, budget) == Some(
                HeaderValueOptionModel { keep_empty_value: number > 0, ..option },
            )
            &&& CacheEntry::field_merged(entry, 1, given, budget) == Some(
                CacheEntryModel { expires_at_ms: number, ..entry },
            )
            &&& CacheEntry::field_merged(entry, 2, given, budget) == Some(
                CacheEntryModel { allowed: number > 0, ..entry },
            )
            &&& CacheEntry::field_merged(entry, 3, given, budget) == Some(
                CacheEntryModel { denied_status: small, ..entry },
            )
        }),
        Status::field_merged(status, 1, other, budget) is None,
        HttpStatus::field_merged(code, 1, other, budget) is None,
        BoolValue::field_merged(truth, 1, other, budget) is None,
        HeaderValueOption::field_merged(option, 3, other, budget) is None,
        HeaderValueOption::field_merged(option, 4, other, budget) is None,
        CacheEntry::field_merged(entry, 1, other, budget) is None,
        CacheEntry::field_merged(entry, 2, other, budget) is None,
        CacheEntry::field_merged(entry, 3, other, budget) is None,
{
    assert(number as u32 as int == number % 0x1_0000_0000) by (bit_vector);
    assert(number % 0x1_0000_0000 < 0x8000_0000 ==> number as i32 as int == number
        % 0x1_0000_0000) by (bit_vector);
    assert(number % 0x1_0000_0000 >= 0x8000_0000 ==> number as i32 as int == number
        % 0x1_0000_0000 - 0x1_0000_0000) by (bit_vector);
}

/// An answer that says twice what it decides is taken at its last word, and where both words are
/// of one kind the second is read into the first. Its status is read likewise. None of them can
/// be anything but a message.
pub proof fn law_last_word_counts(
    response: CheckResponseModel,
    content: Seq<u8>,
    given: Payload,
    other: Payload,
    budget: nat,
)
    requires
        given == Payload::Bytes(content),
        other !is Bytes,
    ensures
        ({
            let start = match response.http_response {
                Some(HttpResponseModel::DeniedResponse(before)) => before,
                _ => DeniedHttpResponse::initial(),
            };
            let after = CheckResponse::field_merged(response, 2, given, budget);
            match read_into::<DeniedHttpResponse>(start, content, budget) {
                Some(denied) => after == Some(
                    CheckResponseModel {
                        status: response.status,
                        http_response: Some(HttpResponseModel::DeniedResponse(denied)),
                    },
                ),
                None => after is None,
            }
        }),
        ({
            let start = match response.http_response {
                Some(HttpResponseModel::ErrorResponse(before)) => before,
                _ => DeniedHttpResponse::initial(),
            };
            let after = CheckResponse::field_merged(response, 5, given, budget);
            match read_into::<DeniedHttpResponse>(start, content, budget) {
                Some(denied) => after == Some(
                    CheckResponseModel {
                        status: response.status,
                        http_response: Some(HttpResponseModel::ErrorResponse(denied)),
                    },
                ),
                None => after is None,
            }
        }),
        ({
            let start = match response.http_response {
                Some(HttpResponseModel::OkResponse(before)) => before,
                _ => OkHttpResponse::initial(),
            };
            let after = CheckResponse::field_merged(response, 3, given, budget);
            match read_into::<OkHttpResponse>(start, content, budget) {
                Some(accepted) => after == Some(
                    CheckResponseModel {
                        status: response.status,
                        http_response: Some(HttpResponseModel::OkResponse(accepted)),
                    },
                ),
                None => after is None,
            }
        }),
        ({
            let start = match response.status {
                Some(before) => before,
                None => Status::initial(),
            };
            let after = CheckResponse::field_merged(response, 1, given, budget);
            match read_into::<Status>(start, content, budget) {
                Some(status) => after == Some(
                    CheckResponseModel {
                        status: Some(status),
                        http_response: response.http_response,
                    },
                ),
                None => after is None,
            }
        }),
        CheckResponse::field_merged(response, 1, other, budget) is None,
        CheckResponse::field_merged(response, 2, other, budget) is None,
        CheckResponse::field_merged(response, 3, other, budget) is None,
        CheckResponse::field_merged(response, 5, other, budget) is None,
{
}

/// Headers that are read are put behind those before, each read from nothing, and leave the rest
/// alone. So are the items of a shard, of which a later one takes the place of an earlier one.
pub proof fn law_lists_grow(
    denied: DeniedHttpResponseModel,
    accepted: OkHttpResponseModel,
    entry: CacheEntryModel,
    shard: Map<Seq<char>, CacheEntryModel>,
    content: Seq<u8>,
    budget: nat,
)
    ensures
        match read_into::<HeaderValueOption>(HeaderValueOption::initial(), content, budget) {
            Some(option) => {
                &&& DeniedHttpResponse::field_merged(denied, 2, Payload::Bytes(content), budget)
                    == Some(
                    DeniedHttpResponseModel { headers: denied.headers + seq![option], ..denied },
                )
                &&& OkHttpResponse::field_merged(accepted, 2, Payload::Bytes(content), budget)
                    == Some(
                    OkHttpResponseModel { headers: accepted.headers + seq![option], ..accepted },
                )
            },
            None => {
                &&& DeniedHttpResponse::field_merged(
                    denied,
                    2,
                    Payload::Bytes(content),
                    budget,
                ) is None
                &&& OkHttpResponse::field_merged(
                    accepted,
                    2,
                    Payload::Bytes(content),
                    budget,
                ) is None
            },
        },
        match read_into::<CachedHeader>(CachedHeader::initial(), content, budget) {
            Some(pair) => {
                &&& CacheEntry::field_merged(entry, 5, Payload::Bytes(content), budget) == Some(
                    CacheEntryModel {
                        response_headers: entry.response_headers + seq![pair],
                        ..entry
                    },
                )
                &&& CacheEntry::field_merged(entry, 6, Payload::Bytes(content), budget) == Some(
                    CacheEntryModel {
                        request_headers: entry.request_headers + seq![pair],
                        ..entry
                    },
                )
            },
            None => {
                &&& CacheEntry::field_merged(entry, 5, Payload::Bytes(content), budget) is None
                &&& CacheEntry::field_merged(entry, 6, Payload::Bytes(content), budget) is None
            },
        },
        match read_into::<ShardItem>(ShardItem::initial(), content, budget) {
            Some((key, decision)) => CacheShard::field_merged(
                shard,
                1,
                Payload::Bytes(content),
                budget,
            ) == Some(shard.insert(key, decision)),
            None => CacheShard::field_merged(shard, 1, Payload::Bytes(content), budget) is None,
        },
{
    if let Some(option) = read_into::<HeaderValueOption>(
        HeaderValueOption::initial(),
        content,
        budget,
    ) {
        assert(denied.headers.push(option) =~= denied.headers + seq![option]);
        assert(accepted.headers.push(option) =~= accepted.headers + seq![option]);
    }
    if let Some(pair) = read_into::<CachedHeader>(CachedHeader::initial(), content, budget) {
        assert(entry.response_headers.push(pair) =~= entry.response_headers + seq![pair]);
        assert(entry.request_headers.push(pair) =~= entry.request_headers + seq![pair]);
    }
}

} // verus!
