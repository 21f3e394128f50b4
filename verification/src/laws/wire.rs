//! Laws on what stands in the encodings of messages, as anyone who reads them sees it.
use crate::cache::entry::{
    item_encoded, items_encoded, shard_encoded, CacheEntry, CacheEntryModel,
};
use crate::pb::answer::{options_field, texts_field};
use crate::pb::check_response::HttpResponseModel;
use crate::pb::{
    message_field, text_map_field, AttributeContextModel, BoolValue, CheckRequestModel,
    CheckResponseModel, DeniedHttpResponseModel, HeaderValueModel, HeaderValueOptionModel,
    HttpRequestModel, HttpStatus, OkHttpResponseModel, PeerModel, RequestModel, StatusModel,
};
use crate::text::{lemma_same_bytes, text_before};
use crate::text_map::{
    ascending, is_ascending, lemma_ascending_of, lemma_map_of_keys, lemma_map_of_value, map_of,
};
use crate::wire::{
    bytes_field, delimited_field, is_tag, law_varint_round_trip, number_field, text_field,
    varint_bytes, varint_field, varint_read, Payload, WireMessage,
};
use vstd::prelude::*;
use vstd::utf8::encode_utf8;

verus! {

/// A varint is written seven bits at a time, the lowest first, and every byte but the last has
/// its highest bit set.
pub proof fn law_varint_layout(value: u64)
    ensures
        value < 128 ==> varint_bytes(value) == seq![value as u8],
        value >= 128 ==> {
            &&& varint_bytes(value)[0] as int == value % 128 + 128
            &&& varint_bytes(value).skip(1) == varint_bytes(value / 128)
        },
{
    if value >= 128 {
        assert(varint_bytes(value).skip(1) =~= varint_bytes(value / 128));
    }
}

/// The fields that stand in `bytes`, one after the other: their tags and what they hold. Each has
/// eight times its tag and its wire type before it, as a varint; a varint has the type 0, and
/// bytes behind their length have the type 2. `None` where there is anything else.
pub open spec fn fields_in(bytes: Seq<u8>) -> Option<Seq<(nat, Payload)>>
    decreases bytes.len(),
{
    if bytes.len() == 0 {
        Some(seq![])
    } else {
        match varint_read(bytes) {
            Some((key, content)) => match varint_read(content) {
                Some((number, behind)) => if behind.len() >= bytes.len() {
                    None
                } else if key % 8 == 0 {
                    with_field((key / 8, Payload::Varint(number as u64)), fields_in(behind))
                } else if key % 8 == 2 && number <= behind.len() {
                    with_field(
                        (key / 8, Payload::Bytes(behind.take(number as int))),
                        fields_in(behind.skip(number as int)),
                    )
                } else {
                    None
                },
                None => None,
            },
            None => None,
        }
    }
}

/// A field before others.
pub open spec fn with_field(
    field: (nat, Payload),
    others: Option<Seq<(nat, Payload)>>,
) -> Option<Seq<(nat, Payload)>> {
    match others {
        Some(others) => Some(seq![field] + others),
        None => None,
    }
}

/// Some fields before others.
pub open spec fn with_fields(
    fields: Seq<(nat, Payload)>,
    others: Option<Seq<(nat, Payload)>>,
) -> Option<Seq<(nat, Payload)>> {
    match others {
        Some(others) => Some(fields + others),
        None => None,
    }
}

/// The field that a text is kept in: none where it is empty.
pub open spec fn text_item(tag: nat, text: Seq<char>) -> Seq<(nat, Payload)> {
    if text.len() == 0 {
        seq![]
    } else {
        seq![(tag, Payload::Bytes(encode_utf8(text)))]
    }
}

/// The field that bytes are kept in: none where there are none.
pub open spec fn bytes_item(tag: nat, bytes: Seq<u8>) -> Seq<(nat, Payload)> {
    if bytes.len() == 0 {
        seq![]
    } else {
        seq![(tag, Payload::Bytes(bytes))]
    }
}

/// The field that a number is kept in: none where it is zero.
pub open spec fn number_item(tag: nat, number: u64) -> Seq<(nat, Payload)> {
    if number == 0 {
        seq![]
    } else {
        seq![(tag, Payload::Varint(number))]
    }
}

/// The field that a truth value is kept in: none where it is false.
pub open spec fn truth_item(tag: nat, value: bool) -> Seq<(nat, Payload)> {
    if value {
        seq![(tag, Payload::Varint(1))]
    } else {
        seq![]
    }
}

/// The field that a message is kept in: none where there is no message.
pub open spec fn message_item(tag: nat, message: Option<Seq<u8>>) -> Seq<(nat, Payload)> {
    match message {
        Some(bytes) => seq![(tag, Payload::Bytes(bytes))],
        None => seq![],
    }
}

/// The fields that hold a run of messages, one after the other.
pub open spec fn message_items(tag: nat, messages: Seq<Seq<u8>>) -> Seq<(nat, Payload)> {
    Seq::new(messages.len(), |i: int| (tag, Payload::Bytes(messages[i])))
}

/// The encoding of a name and a value.
pub open spec fn pair_bytes(pair: (Seq<char>, Seq<char>)) -> Seq<u8> {
    text_field(1, pair.0) + text_field(2, pair.1)
}

/// Whether `bytes` are the encoding of the given fields, whatever stands behind them.
spec fn reads_as(bytes: Seq<u8>, fields: Seq<(nat, Payload)>) -> bool {
    forall|rest: Seq<u8>|
        #![trigger fields_in(bytes + rest)]
        fields_in(bytes + rest) == with_fields(fields, fields_in(rest))
}

proof fn lemma_whole(bytes: Seq<u8>, fields: Seq<(nat, Payload)>)
    requires
        reads_as(bytes, fields),
    ensures
        fields_in(bytes) == Some(fields),
{
    let none = Seq::<u8>::empty();
    assert(bytes + none =~= bytes);
    assert(fields_in(bytes + none) == with_fields(fields, fields_in(none)));
    assert(fields + seq![] =~= fields);
}

proof fn lemma_nothing(bytes: Seq<u8>)
    requires
        bytes.len() == 0,
    ensures
        reads_as(bytes, seq![]),
{
    assert forall|rest: Seq<u8>| #[trigger] fields_in(bytes + rest) == with_fields(
        seq![],
        fields_in(rest),
    ) by {
        assert(bytes + rest =~= rest);
        if let Some(others) = fields_in(rest) {
            assert(seq![] + others =~= others);
        }
    }
}

proof fn lemma_both(
    left: Seq<u8>,
    left_fields: Seq<(nat, Payload)>,
    right: Seq<u8>,
    right_fields: Seq<(nat, Payload)>,
)
    requires
        reads_as(left, left_fields),
        reads_as(right, right_fields),
    ensures
        reads_as(left + right, left_fields + right_fields),
{
    assert forall|rest: Seq<u8>| #[trigger] fields_in(left + right + rest) == with_fields(
        left_fields + right_fields,
        fields_in(rest),
    ) by {
        assert(left + right + rest =~= left + (right + rest));
        assert(fields_in(left + (right + rest)) == with_fields(
            left_fields,
            fields_in(right + rest),
        ));
        assert(fields_in(right + rest) == with_fields(right_fields, fields_in(rest)));
        if let Some(others) = fields_in(rest) {
            assert(left_fields + right_fields + others =~= left_fields + (right_fields + others));
        }
    }
}

proof fn lemma_delimited(tag: u32, content: Seq<u8>)
    requires
        is_tag(tag),
        content.len() <= u64::MAX,
    ensures
        reads_as(delimited_field(tag, content), seq![(tag as nat, Payload::Bytes(content))]),
{
    let field = (tag as nat, Payload::Bytes(content));
    assert forall|rest: Seq<u8>| #[trigger] fields_in(delimited_field(tag, content) + rest)
        == with_fields(seq![field], fields_in(rest)) by {
        let key = (tag * 8 + 2) as u64;
        let behind = content + rest;
        let number = varint_bytes(content.len() as u64) + behind;
        let all = delimited_field(tag, content) + rest;
        assert(all =~= varint_bytes(key) + number);
        law_varint_round_trip(key, number);
        law_varint_round_trip(content.len() as u64, behind);
        assert(behind.take(content.len() as int) =~= content);
        assert(behind.skip(content.len() as int) =~= rest);
        lemma_varint_some(key);
    }
}

proof fn lemma_varint_some(value: u64)
    ensures
        varint_bytes(value).len() > 0,
{
}

proof fn lemma_number(tag: u32, number: u64)
    requires
        is_tag(tag),
    ensures
        reads_as(number_field(tag, number), number_item(tag as nat, number)),
{
    if number == 0 {
        lemma_nothing(number_field(tag, number));
    } else {
        let field = (tag as nat, Payload::Varint(number));
        assert forall|rest: Seq<u8>| #[trigger] fields_in(varint_field(tag, number) + rest)
            == with_fields(seq![field], fields_in(rest)) by {
            let key = (tag * 8) as u64;
            let content = varint_bytes(number) + rest;
            let all = varint_field(tag, number) + rest;
            assert(all =~= varint_bytes(key) + content);
            law_varint_round_trip(key, content);
            law_varint_round_trip(number, rest);
            lemma_varint_some(key);
        }
    }
}

proof fn lemma_bytes(tag: u32, content: Seq<u8>)
    requires
        is_tag(tag),
        content.len() <= u64::MAX,
    ensures
        reads_as(bytes_field(tag, content), bytes_item(tag as nat, content)),
{
    if content.len() == 0 {
        lemma_nothing(bytes_field(tag, content));
    } else {
        lemma_delimited(tag, content);
    }
}

proof fn lemma_text(tag: u32, text: Seq<char>)
    requires
        is_tag(tag),
        text_field(tag, text).len() <= u64::MAX,
    ensures
        reads_as(text_field(tag, text), text_item(tag as nat, text)),
{
    let content = encode_utf8(text);
    if text.len() == 0 {
        assert(text =~= seq![]);
        assert(content.len() == 0);
    } else if content.len() == 0 {
        assert(content =~= encode_utf8(seq![]));
        lemma_same_bytes(text, seq![]);
    }
    lemma_bytes(tag, content);
}

proof fn lemma_message(tag: u32, message: Option<Seq<u8>>)
    requires
        is_tag(tag),
        message_field(tag, message).len() <= u64::MAX,
    ensures
        reads_as(message_field(tag, message), message_item(tag as nat, message)),
{
    match message {
        Some(content) => lemma_delimited(tag, content),
        None => lemma_nothing(message_field(tag, message)),
    }
}

proof fn lemma_pushed(
    tag: u32,
    before: Seq<u8>,
    messages: Seq<Seq<u8>>,
    message: Seq<u8>,
)
    requires
        is_tag(tag),
        message.len() <= u64::MAX,
        reads_as(before, message_items(tag as nat, messages)),
    ensures
        reads_as(
            before + delimited_field(tag, message),
            message_items(tag as nat, messages.push(message)),
        ),
{
    lemma_delimited(tag, message);
    let items = message_items(tag as nat, messages);
    let item = seq![(tag as nat, Payload::Bytes(message))];
    lemma_both(before, items, delimited_field(tag, message), item);
    assert(items + item =~= message_items(tag as nat, messages.push(message)));
}

/// The encodings of names and values.
pub open spec fn pairs_bytes(pairs: Seq<(Seq<char>, Seq<char>)>) -> Seq<Seq<u8>> {
    pairs.map_values(|pair: (Seq<char>, Seq<char>)| pair_bytes(pair))
}

proof fn lemma_pairs(tag: u32, pairs: Seq<(Seq<char>, Seq<char>)>)
    requires
        is_tag(tag),
        text_map_field(tag, pairs).len() <= u64::MAX,
    ensures
        reads_as(text_map_field(tag, pairs), message_items(tag as nat, pairs_bytes(pairs))),
    decreases pairs.len(),
{
    if pairs.len() == 0 {
        lemma_nothing(text_map_field(tag, pairs));
        assert(message_items(tag as nat, pairs_bytes(pairs)) =~= seq![]);
    } else {
        let rest = pairs.drop_last();
        lemma_pairs(tag, rest);
        lemma_pushed(
            tag,
            text_map_field(tag, rest),
            pairs_bytes(rest),
            pair_bytes(pairs.last()),
        );
        assert(pairs_bytes(pairs) =~= pairs_bytes(rest).push(pair_bytes(pairs.last())));
    }
}

/// Whether the pairs are those of a map, each once, in the order of their keys.
pub open spec fn lists<T>(pairs: Seq<(Seq<char>, T)>, map: Map<Seq<char>, T>) -> bool {
    &&& forall|i: int, j: int|
        0 <= i < j < pairs.len() ==> text_before(#[trigger] pairs[i].0, #[trigger] pairs[j].0)
    &&& forall|i: int|
        0 <= i < pairs.len() ==> map.contains_key(#[trigger] pairs[i].0) && map[pairs[i].0]
            == pairs[i].1
    &&& forall|key: Seq<char>| #[trigger]
        map.contains_key(key) ==> exists|i: int|
            0 <= i < pairs.len() && #[trigger] pairs[i].0 == key
}

proof fn lemma_lists<T>(pairs: Seq<(Seq<char>, T)>, map: Map<Seq<char>, T>)
    requires
        lists(pairs, map),
    ensures
        ascending(map) == pairs,
{
    assert(is_ascending(pairs));
    let built = map_of(pairs);
    assert forall|key: Seq<char>| built.dom().contains(key) == map.dom().contains(key) by {
        lemma_map_of_keys(pairs, key);
        if map.contains_key(key) {
            let i = choose|i: int| 0 <= i < pairs.len() && #[trigger] pairs[i].0 == key;
            assert(pairs[i].0 == key);
        }
    }
    assert forall|key: Seq<char>| built.dom().contains(key) implies built[key] == map[key] by {
        lemma_map_of_keys(pairs, key);
        let i = choose|i: int| 0 <= i < pairs.len() && #[trigger] pairs[i].0 == key;
        lemma_map_of_value(pairs, i);
    }
    assert(built =~= map);
    lemma_ascending_of(pairs);
}

/// What a reader finds in a pair: the name, and the value.
pub proof fn law_pair_is_read(pair: (Seq<char>, Seq<char>))
    requires
        pair_bytes(pair).len() <= u64::MAX,
    ensures
        fields_in(pair_bytes(pair)) == Some(text_item(1, pair.0) + text_item(2, pair.1)),
{
    lemma_text(1, pair.0);
    lemma_text(2, pair.1);
    lemma_both(
        text_field(1, pair.0),
        text_item(1, pair.0),
        text_field(2, pair.1),
        text_item(2, pair.1),
    );
    lemma_whole(pair_bytes(pair), text_item(1, pair.0) + text_item(2, pair.1));
}

/// What the authorization service finds in the encoding of an HTTP request: each part of the
/// request that is not empty, in its own place, and the headers in the order of their names.
pub proof fn law_http_request_is_read(
    http: HttpRequestModel,
    headers: Seq<(Seq<char>, Seq<char>)>,
    size: u64,
)
    requires
        http.encoded().len() <= u64::MAX,
        lists(headers, http.headers),
        size as int == (if http.size >= 0 {
            http.size as int
        } else {
            http.size + 0x1_0000_0000_0000_0000
        }),
    ensures
        fields_in(http.encoded()) == Some(
            text_item(1, http.id) + text_item(2, http.method) + message_items(
                3,
                pairs_bytes(headers),
            ) + text_item(4, http.path) + text_item(5, http.host) + text_item(6, http.scheme)
                + text_item(7, http.query) + text_item(8, http.fragment) + number_item(9, size)
                + text_item(10, http.protocol) + text_item(11, http.body) + bytes_item(
                12,
                http.raw_body,
            ),
        ),
{
    lemma_lists(headers, http.headers);
    let given = http.size;
    assert(given >= 0 ==> given as u64 == given) by (bit_vector);
    assert(given < 0 ==> given as u64 == given + 0x1_0000_0000_0000_0000) by (bit_vector);
    let e1 = text_field(1, http.id);
    let e2 = e1 + text_field(2, http.method);
    let e3 = e2 + text_map_field(3, headers);
    let e4 = e3 + text_field(4, http.path);
    let e5 = e4 + text_field(5, http.host);
    let e6 = e5 + text_field(6, http.scheme);
    let e7 = e6 + text_field(7, http.query);
    let e8 = e7 + text_field(8, http.fragment);
    let e9 = e8 + number_field(9, size);
    let e10 = e9 + text_field(10, http.protocol);
    let e11 = e10 + text_field(11, http.body);
    let e12 = e11 + bytes_field(12, http.raw_body);
    assert(http.encoded() == e12);
    let f1 = text_item(1, http.id);
    let f2 = f1 + text_item(2, http.method);
    let f3 = f2 + message_items(3, pairs_bytes(headers));
    let f4 = f3 + text_item(4, http.path);
    let f5 = f4 + text_item(5, http.host);
    let f6 = f5 + text_item(6, http.scheme);
    let f7 = f6 + text_item(7, http.query);
    let f8 = f7 + text_item(8, http.fragment);
    let f9 = f8 + number_item(9, size);
    let f10 = f9 + text_item(10, http.protocol);
    let f11 = f10 + text_item(11, http.body);
    let f12 = f11 + bytes_item(12, http.raw_body);
    lemma_text(1, http.id);
    lemma_text(2, http.method);
    lemma_both(e1, f1, text_field(2, http.method), text_item(2, http.method));
    lemma_pairs(3, headers);
    lemma_both(e2, f2, text_map_field(3, headers), message_items(3, pairs_bytes(headers)));
    lemma_text(4, http.path);
    lemma_both(e3, f3, text_field(4, http.path), text_item(4, http.path));
    lemma_text(5, http.host);
    lemma_both(e4, f4, text_field(5, http.host), text_item(5, http.host));
    lemma_text(6, http.scheme);
    lemma_both(e5, f5, text_field(6, http.scheme), text_item(6, http.scheme));
    lemma_text(7, http.query);
    lemma_both(e6, f6, text_field(7, http.query), text_item(7, http.query));
    lemma_text(8, http.fragment);
    lemma_both(e7, f7, text_field(8, http.fragment), text_item(8, http.fragment));
    lemma_number(9, size);
    lemma_both(e8, f8, number_field(9, size), number_item(9, size));
    lemma_text(10, http.protocol);
    lemma_both(e9, f9, text_field(10, http.protocol), text_item(10, http.protocol));
    lemma_text(11, http.body);
    lemma_both(e10, f10, text_field(11, http.body), text_item(11, http.body));
    lemma_bytes(12, http.raw_body);
    lemma_both(e11, f11, bytes_field(12, http.raw_body), bytes_item(12, http.raw_body));
    lemma_whole(e12, f12);
}

/// The encoding of a request that may be absent.
pub open spec fn http_bytes(http: Option<HttpRequestModel>) -> Option<Seq<u8>> {
    match http {
        Some(http) => Some(http.encoded()),
        None => None,
    }
}

/// The encoding of a peer that may be absent.
pub open spec fn peer_bytes(peer: Option<PeerModel>) -> Option<Seq<u8>> {
    match peer {
        Some(peer) => Some(peer.encoded()),
        None => None,
    }
}

/// The encoding of a request that may be absent.
pub open spec fn request_bytes(request: Option<RequestModel>) -> Option<Seq<u8>> {
    match request {
        Some(request) => Some(request.encoded()),
        None => None,
    }
}

/// The encoding of a context that may be absent.
pub open spec fn context_bytes(context: Option<AttributeContextModel>) -> Option<Seq<u8>> {
    match context {
        Some(context) => Some(context.encoded()),
        None => None,
    }
}

/// What the authorization service finds around the HTTP request: a check holds its attributes,
/// these hold the peers, the request and the extensions, and the request holds the HTTP request.
pub proof fn law_check_request_is_read(
    check: CheckRequestModel,
    context: AttributeContextModel,
    extensions: Seq<(Seq<char>, Seq<char>)>,
    request: RequestModel,
    peer: PeerModel,
)
    requires
        check.encoded().len() <= u64::MAX,
        context.encoded().len() <= u64::MAX,
        request.encoded().len() <= u64::MAX,
        peer.encoded().len() <= u64::MAX,
        lists(extensions, context.context_extensions),
    ensures
        fields_in(check.encoded()) == Some(message_item(1, context_bytes(check.attributes))),
        fields_in(context.encoded()) == Some(
            message_item(1, peer_bytes(context.source)) + message_item(
                2,
                peer_bytes(context.destination),
            ) + message_item(4, request_bytes(context.request)) + message_items(
                10,
                pairs_bytes(extensions),
            ),
        ),
        fields_in(request.encoded()) == Some(message_item(2, http_bytes(request.http))),
        fields_in(peer.encoded()) == Some(text_item(2, peer.service)),
{
    lemma_message(1, context_bytes(check.attributes));
    lemma_whole(check.encoded(), message_item(1, context_bytes(check.attributes)));
    lemma_message(2, http_bytes(request.http));
    lemma_whole(request.encoded(), message_item(2, http_bytes(request.http)));
    lemma_text(2, peer.service);
    lemma_whole(peer.encoded(), text_item(2, peer.service));
    lemma_lists(extensions, context.context_extensions);
    let p1 = message_field(1, peer_bytes(context.source));
    let p2 = message_field(2, peer_bytes(context.destination));
    let p3 = message_field(4, request_bytes(context.request));
    let p4 = text_map_field(10, extensions);
    assert(context.encoded() == p1 + p2 + p3 + p4);
    let i1 = message_item(1, peer_bytes(context.source));
    let i2 = message_item(2, peer_bytes(context.destination));
    let i3 = message_item(4, request_bytes(context.request));
    let i4 = message_items(10, pairs_bytes(extensions));
    lemma_message(1, peer_bytes(context.source));
    lemma_message(2, peer_bytes(context.destination));
    lemma_message(4, request_bytes(context.request));
    lemma_pairs(10, extensions);
    lemma_both(p1, i1, p2, i2);
    lemma_both(p1 + p2, i1 + i2, p3, i3);
    lemma_both(p1 + p2 + p3, i1 + i2 + i3, p4, i4);
    lemma_whole(context.encoded(), i1 + i2 + i3 + i4);
}

/// The field that a number with a sign is kept in: none where it is zero. A negative one is kept
/// as what it lacks to two to the power of 64.
pub open spec fn signed_item(tag: nat, number: i32) -> Seq<(nat, Payload)> {
    if number == 0 {
        seq![]
    } else if number > 0 {
        seq![(tag, Payload::Varint(number as u64))]
    } else {
        seq![(tag, Payload::Varint((number + 0x1_0000_0000_0000_0000) as u64))]
    }
}

proof fn lemma_signed(tag: u32, number: i32)
    requires
        is_tag(tag),
    ensures
        reads_as(number_field(tag, number as u64), signed_item(tag as nat, number)),
{
    assert((number as u64 == 0) == (number == 0)) by (bit_vector);
    assert(number < 0 ==> number as u64 == number + 0x1_0000_0000_0000_0000) by (bit_vector);
    lemma_number(tag, number as u64);
}

/// The encoding of a header that may be absent.
pub open spec fn header_bytes(header: Option<HeaderValueModel>) -> Option<Seq<u8>> {
    match header {
        Some(header) => Some(header.encoded()),
        None => None,
    }
}

/// The encoding of a truth value that may be absent.
pub open spec fn truth_bytes(value: Option<BoolValue>) -> Option<Seq<u8>> {
    match value {
        Some(value) => Some(value.encoded()),
        None => None,
    }
}

/// The encoding of a status that may be absent.
pub open spec fn code_bytes(status: Option<HttpStatus>) -> Option<Seq<u8>> {
    match status {
        Some(status) => Some(status.encoded()),
        None => None,
    }
}

/// The encoding of a status that may be absent.
pub open spec fn status_bytes(status: Option<StatusModel>) -> Option<Seq<u8>> {
    match status {
        Some(status) => Some(status.encoded()),
        None => None,
    }
}

/// The encodings of headers.
pub open spec fn options_bytes(options: Seq<HeaderValueOptionModel>) -> Seq<Seq<u8>> {
    options.map_values(|option: HeaderValueOptionModel| option.encoded())
}

/// The encodings of texts.
pub open spec fn texts_bytes(texts: Seq<Seq<char>>) -> Seq<Seq<u8>> {
    texts.map_values(|text: Seq<char>| encode_utf8(text))
}

proof fn lemma_options(tag: u32, options: Seq<HeaderValueOptionModel>)
    requires
        is_tag(tag),
        options_field(tag, options).len() <= u64::MAX,
    ensures
        reads_as(options_field(tag, options), message_items(tag as nat, options_bytes(options))),
    decreases options.len(),
{
    if options.len() == 0 {
        lemma_nothing(options_field(tag, options));
        assert(message_items(tag as nat, options_bytes(options)) =~= seq![]);
    } else {
        let rest = options.drop_last();
        let last = options.last().encoded();
        lemma_options(tag, rest);
        lemma_pushed(tag, options_field(tag, rest), options_bytes(rest), last);
        assert(options_bytes(options) =~= options_bytes(rest).push(last));
    }
}

proof fn lemma_texts(tag: u32, texts: Seq<Seq<char>>)
    requires
        is_tag(tag),
        texts_field(tag, texts).len() <= u64::MAX,
    ensures
        reads_as(texts_field(tag, texts), message_items(tag as nat, texts_bytes(texts))),
    decreases texts.len(),
{
    if texts.len() == 0 {
        lemma_nothing(texts_field(tag, texts));
        assert(message_items(tag as nat, texts_bytes(texts)) =~= seq![]);
    } else {
        let rest = texts.drop_last();
        let last = encode_utf8(texts.last());
        lemma_texts(tag, rest);
        lemma_pushed(tag, texts_field(tag, rest), texts_bytes(rest), last);
        assert(texts_bytes(texts) =~= texts_bytes(rest).push(last));
    }
}

/// What a reader finds in the parts of a header that the service asks for.
pub proof fn law_header_is_read(
    header: HeaderValueModel,
    option: HeaderValueOptionModel,
    append: BoolValue,
)
    requires
        header.encoded().len() <= u64::MAX,
        option.encoded().len() <= u64::MAX,
    ensures
        fields_in(header.encoded()) == Some(text_item(1, header.key) + text_item(2, header.value)),
        fields_in(append.encoded()) == Some(truth_item(1, append.value)),
        fields_in(option.encoded()) == Some(
            message_item(1, header_bytes(option.header)) + message_item(
                2,
                truth_bytes(option.append),
            ) + signed_item(3, option.append_action) + truth_item(4, option.keep_empty_value),
        ),
{
    law_pair_is_read((header.key, header.value));
    let value: u64 = if append.value {
        1
    } else {
        0
    };
    lemma_number(1, value);
    lemma_whole(append.encoded(), truth_item(1, append.value));
    let kept: u64 = if option.keep_empty_value {
        1
    } else {
        0
    };
    let p1 = message_field(1, header_bytes(option.header));
    let p2 = message_field(2, truth_bytes(option.append));
    let p3 = number_field(3, option.append_action as u64);
    let p4 = number_field(4, kept);
    assert(option.encoded() == p1 + p2 + p3 + p4);
    let i1 = message_item(1, header_bytes(option.header));
    let i2 = message_item(2, truth_bytes(option.append));
    let i3 = signed_item(3, option.append_action);
    let i4 = truth_item(4, option.keep_empty_value);
    lemma_message(1, header_bytes(option.header));
    lemma_message(2, truth_bytes(option.append));
    lemma_signed(3, option.append_action);
    lemma_number(4, kept);
    lemma_both(p1, i1, p2, i2);
    lemma_both(p1 + p2, i1 + i2, p3, i3);
    lemma_both(p1 + p2 + p3, i1 + i2 + i3, p4, i4);
    lemma_whole(option.encoded(), i1 + i2 + i3 + i4);
}

/// What a reader finds in a denial and in an acceptance.
pub proof fn law_verdict_is_read(
    denied: DeniedHttpResponseModel,
    accepted: OkHttpResponseModel,
    status: HttpStatus,
)
    requires
        denied.encoded().len() <= u64::MAX,
        accepted.encoded().len() <= u64::MAX,
    ensures
        fields_in(status.encoded()) == Some(signed_item(1, status.code)),
        fields_in(denied.encoded()) == Some(
            message_item(1, code_bytes(denied.status)) + message_items(
                2,
                options_bytes(denied.headers),
            ) + text_item(3, denied.body),
        ),
        fields_in(accepted.encoded()) == Some(
            message_items(2, options_bytes(accepted.headers)) + message_items(
                5,
                texts_bytes(accepted.headers_to_remove),
            ),
        ),
{
    lemma_signed(1, status.code);
    lemma_whole(status.encoded(), signed_item(1, status.code));
    let p1 = message_field(1, code_bytes(denied.status));
    let p2 = options_field(2, denied.headers);
    let p3 = text_field(3, denied.body);
    assert(denied.encoded() == p1 + p2 + p3);
    let i1 = message_item(1, code_bytes(denied.status));
    let i2 = message_items(2, options_bytes(denied.headers));
    let i3 = text_item(3, denied.body);
    lemma_message(1, code_bytes(denied.status));
    lemma_options(2, denied.headers);
    lemma_text(3, denied.body);
    lemma_both(p1, i1, p2, i2);
    lemma_both(p1 + p2, i1 + i2, p3, i3);
    lemma_whole(denied.encoded(), i1 + i2 + i3);
    let q1 = options_field(2, accepted.headers);
    let q2 = texts_field(5, accepted.headers_to_remove);
    let j1 = message_items(2, options_bytes(accepted.headers));
    let j2 = message_items(5, texts_bytes(accepted.headers_to_remove));
    lemma_options(2, accepted.headers);
    lemma_texts(5, accepted.headers_to_remove);
    lemma_both(q1, j1, q2, j2);
    lemma_whole(accepted.encoded(), j1 + j2);
}

/// The field that the answer to a check is kept in.
pub open spec fn verdict_item(verdict: Option<HttpResponseModel>) -> Seq<(nat, Payload)> {
    match verdict {
        Some(HttpResponseModel::DeniedResponse(denied)) => message_item(2, Some(denied.encoded())),
        Some(HttpResponseModel::OkResponse(accepted)) => message_item(3, Some(accepted.encoded())),
        Some(HttpResponseModel::ErrorResponse(denied)) => message_item(5, Some(denied.encoded())),
        None => seq![],
    }
}

/// What a reader finds in an answer: its status, and one of a denial, an acceptance and an error.
pub proof fn law_answer_is_read(response: CheckResponseModel, status: StatusModel)
    requires
        response.encoded().len() <= u64::MAX,
        status.encoded().len() <= u64::MAX,
    ensures
        fields_in(status.encoded()) == Some(
            signed_item(1, status.code) + text_item(2, status.message),
        ),
        fields_in(response.encoded()) == Some(
            message_item(1, status_bytes(response.status)) + verdict_item(response.http_response),
        ),
{
    let s1 = number_field(1, status.code as u64);
    let s2 = text_field(2, status.message);
    lemma_signed(1, status.code);
    lemma_text(2, status.message);
    lemma_both(s1, signed_item(1, status.code), s2, text_item(2, status.message));
    lemma_whole(
        status.encoded(),
        signed_item(1, status.code) + text_item(2, status.message),
    );
    let p1 = message_field(1, status_bytes(response.status));
    let i1 = message_item(1, status_bytes(response.status));
    let p2 = match response.http_response {
        Some(verdict) => verdict.encoded(),
        None => seq![],
    };
    let i2 = verdict_item(response.http_response);
    assert(response.encoded() == p1 + p2);
    lemma_message(1, status_bytes(response.status));
    match response.http_response {
        Some(HttpResponseModel::DeniedResponse(denied)) => lemma_delimited(2, denied.encoded()),
        Some(HttpResponseModel::OkResponse(accepted)) => lemma_delimited(3, accepted.encoded()),
        Some(HttpResponseModel::ErrorResponse(denied)) => lemma_delimited(5, denied.encoded()),
        None => lemma_nothing(p2),
    }
    lemma_both(p1, i1, p2, i2);
    lemma_whole(response.encoded(), i1 + i2);
}

/// What a reader finds in a cached decision.
pub proof fn law_cache_entry_is_read(entry: CacheEntryModel)
    requires
        entry.encoded().len() <= u64::MAX,
    ensures
        fields_in(entry.encoded()) == Some(
            number_item(1, entry.expires_at_ms) + truth_item(2, entry.allowed) + number_item(
                3,
                entry.denied_status as u64,
            ) + text_item(4, entry.denied_body) + message_items(
                5,
                pairs_bytes(entry.response_headers),
            ) + message_items(6, pairs_bytes(entry.request_headers)),
        ),
{
    let allowed: u64 = if entry.allowed {
        1
    } else {
        0
    };
    let p1 = number_field(1, entry.expires_at_ms);
    let p2 = number_field(2, allowed);
    let p3 = number_field(3, entry.denied_status as u64);
    let p4 = text_field(4, entry.denied_body);
    let p5 = text_map_field(5, entry.response_headers);
    let p6 = text_map_field(6, entry.request_headers);
    assert(entry.encoded() == p1 + p2 + p3 + p4 + p5 + p6);
    let i1 = number_item(1, entry.expires_at_ms);
    let i2 = truth_item(2, entry.allowed);
    let i3 = number_item(3, entry.denied_status as u64);
    let i4 = text_item(4, entry.denied_body);
    let i5 = message_items(5, pairs_bytes(entry.response_headers));
    let i6 = message_items(6, pairs_bytes(entry.request_headers));
    lemma_number(1, entry.expires_at_ms);
    lemma_number(2, allowed);
    lemma_number(3, entry.denied_status as u64);
    lemma_text(4, entry.denied_body);
    lemma_pairs(5, entry.response_headers);
    lemma_pairs(6, entry.request_headers);
    lemma_both(p1, i1, p2, i2);
    lemma_both(p1 + p2, i1 + i2, p3, i3);
    lemma_both(p1 + p2 + p3, i1 + i2 + i3, p4, i4);
    lemma_both(p1 + p2 + p3 + p4, i1 + i2 + i3 + i4, p5, i5);
    lemma_both(p1 + p2 + p3 + p4 + p5, i1 + i2 + i3 + i4 + i5, p6, i6);
    lemma_whole(entry.encoded(), i1 + i2 + i3 + i4 + i5 + i6);
}

/// The encodings of a shard's items.
pub open spec fn items_bytes(items: Seq<(Seq<char>, CacheEntryModel)>) -> Seq<Seq<u8>> {
    items.map_values(|item: (Seq<char>, CacheEntryModel)| item_encoded(item.0, item.1))
}

proof fn lemma_items(items: Seq<(Seq<char>, CacheEntryModel)>)
    requires
        items_encoded(items).len() <= u64::MAX,
    ensures
        reads_as(items_encoded(items), message_items(1, items_bytes(items))),
    decreases items.len(),
{
    if items.len() == 0 {
        lemma_nothing(items_encoded(items));
        assert(message_items(1, items_bytes(items)) =~= seq![]);
    } else {
        let rest = items.drop_last();
        let last = item_encoded(items.last().0, items.last().1);
        lemma_items(rest);
        lemma_pushed(1, items_encoded(rest), items_bytes(rest), last);
        assert(items_bytes(items) =~= items_bytes(rest).push(last));
    }
}

/// Whether a decision says nothing that a reader would not take it to say anyway.
pub open spec fn is_blank_entry(entry: CacheEntryModel) -> bool {
    &&& entry.expires_at_ms == 0
    &&& !entry.allowed
    &&& entry.denied_status == 0
    &&& entry.denied_body.len() == 0
    &&& entry.response_headers.len() == 0
    &&& entry.request_headers.len() == 0
}

/// What a reader finds in a shard: its items in the order of their keys, each with its key and
/// its decision.
pub proof fn law_shard_is_read(
    shard: Map<Seq<char>, CacheEntryModel>,
    items: Seq<(Seq<char>, CacheEntryModel)>,
    key: Seq<char>,
    entry: CacheEntryModel,
)
    requires
        lists(items, shard),
        shard_encoded(shard).len() <= u64::MAX,
        item_encoded(key, entry).len() <= u64::MAX,
    ensures
        fields_in(shard_encoded(shard)) == Some(message_items(1, items_bytes(items))),
        fields_in(item_encoded(key, entry)) == Some(
            text_item(1, key) + message_item(
                2,
                if is_blank_entry(entry) {
                    None
                } else {
                    Some(entry.encoded())
                },
            ),
        ),
{
    lemma_lists(items, shard);
    lemma_items(items);
    lemma_whole(shard_encoded(shard), message_items(1, items_bytes(items)));
    let content = if is_blank_entry(entry) {
        None
    } else {
        Some(entry.encoded())
    };
    let blank = CacheEntry::initial();
    if is_blank_entry(entry) {
        assert(entry.denied_body =~= blank.denied_body);
        assert(entry.response_headers =~= blank.response_headers);
        assert(entry.request_headers =~= blank.request_headers);
        assert(entry == blank);
    }
    lemma_text(1, key);
    assert(item_encoded(key, entry) == text_field(1, key) + message_field(2, content));
    lemma_message(2, content);
    lemma_both(
        text_field(1, key),
        text_item(1, key),
        message_field(2, content),
        message_item(2, content),
    );
    lemma_whole(item_encoded(key, entry), text_item(1, key) + message_item(2, content));
}

} // verus!
