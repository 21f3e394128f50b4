//! Laws on the keys of the cache.
use crate::cache::key::{
    absent_writes, body_fingerprint, counted_headers, header_order, header_writes,
    headers_but_request_id, http_of, key_text, lemma_header_order, lemma_header_writes_len,
    length_bytes, not_request_id, request_hash, request_hash_under, request_writes,
    selected_headers,
};
use crate::cache::policy::CacheHeaderPolicyModel;
use crate::pb::{CheckRequestModel, HttpRequestModel};
use crate::text::numbers::{hex_text, lemma_hex_spelled, number_spelled};
use crate::text::{ascii_lowered, lemma_lowered_twice, text_before};
use crate::text_map::{
    ascending, is_ascending, lemma_ascending_exists, lemma_ascending_filter,
    lemma_ascending_unique, lemma_map_of_keys, lemma_map_of_len, lemma_map_of_value, map_of,
};
use std::collections::hash_map::DefaultHasher;
use vstd::bytes::{spec_u32_to_le_bytes, spec_u64_to_le_bytes};
use vstd::prelude::*;
use vstd::std_specs::hash::DefaultHasherAdditionalSpecFns;
use vstd::utf8::encode_utf8;

verus! {

/// Whether bytes are those of a length, as many as a `usize` has.
pub open spec fn is_length(bytes: Seq<u8>, length: nat) -> bool {
    if usize::MAX == 0xffff_ffff {
        bytes == spec_u32_to_le_bytes(length as u32)
    } else {
        bytes == spec_u64_to_le_bytes(length as u64)
    }
}

/// Whether two writes, from `at` on, are a text and the byte behind it.
pub open spec fn writes_text(writes: Seq<Seq<u8>>, at: int, text: Seq<char>) -> bool {
    writes[at] == encode_utf8(text) && writes[at + 1] == seq![0xffu8]
}

/// Whether writes hold the parts of a request, the given headers, and a fingerprint: each of
/// them, in this order, and nothing else.
pub open spec fn writes_request(
    writes: Seq<Seq<u8>>,
    http: HttpRequestModel,
    headers: Seq<(Seq<char>, Seq<char>)>,
    fingerprint: u64,
) -> bool {
    &&& writes.len() == 12 + 4 * headers.len()
    &&& writes_text(writes, 0, http.method)
    &&& writes_text(writes, 2, http.path)
    &&& writes_text(writes, 4, http.host)
    &&& writes_text(writes, 6, http.scheme)
    &&& writes_text(writes, 8, http.query)
    &&& is_length(writes[10], headers.len())
    &&& forall|i: int|
        0 <= i < headers.len() ==> writes_text(writes, 11 + 4 * i, (#[trigger] headers[i]).0)
            && writes_text(writes, 13 + 4 * i, headers[i].1)
    &&& writes[writes.len() - 1] == spec_u64_to_le_bytes(fingerprint)
}

/// Whether a number is the fingerprint of a body: the hash of its length and of all its bytes.
pub open spec fn fingerprints(fingerprint: u64, body: Seq<u8>) -> bool {
    exists|length: Seq<u8>| #[trigger]
        is_length(length, body.len()) && fingerprint == DefaultHasher::spec_finish(
            seq![length, body],
        )
}

/// Whether a hash is that of a request, the given headers counting.
pub open spec fn hashes_request(
    hash: u64,
    http: HttpRequestModel,
    headers: Seq<(Seq<char>, Seq<char>)>,
) -> bool {
    exists|writes: Seq<Seq<u8>>, fingerprint: u64|
        fingerprints(fingerprint, http.raw_body) && #[trigger] writes_request(
            writes,
            http,
            headers,
            fingerprint,
        ) && hash == DefaultHasher::spec_finish(writes)
}

/// Whether a check is about the given HTTP request.
pub open spec fn is_about(request: CheckRequestModel, http: HttpRequestModel) -> bool {
    request.attributes matches Some(attributes) && attributes.request matches Some(inner)
        && inner.http == Some(http)
}

proof fn lemma_header_writes_at(headers: Seq<(Seq<char>, Seq<char>)>, i: int)
    requires
        0 <= i < headers.len(),
    ensures
        writes_text(header_writes(headers), 4 * i, headers[i].0),
        writes_text(header_writes(headers), 4 * i + 2, headers[i].1),
    decreases headers.len(),
{
    let rest = headers.drop_last();
    lemma_header_writes_len(rest);
    lemma_header_writes_len(headers);
    if i < rest.len() {
        lemma_header_writes_at(rest, i);
    }
}

proof fn lemma_writes_request(
    http: HttpRequestModel,
    headers: Seq<(Seq<char>, Seq<char>)>,
)
    ensures
        hashes_request(
            DefaultHasher::spec_finish(request_writes(http, headers)),
            http,
            headers,
        ),
{
    let writes = request_writes(http, headers);
    let fingerprint = body_fingerprint(http.raw_body);
    lemma_header_writes_len(headers);
    let n = headers.len();
    assert(writes.len() == 12 + 4 * n);
    assert forall|i: int| 0 <= i < n implies writes_text(
        writes,
        11 + 4 * i,
        (#[trigger] headers[i]).0,
    ) && writes_text(writes, 13 + 4 * i, headers[i].1) by {
        lemma_header_writes_at(headers, i);
        let inner = header_writes(headers);
        assert(writes[11 + 4 * i] == inner[4 * i]);
        assert(writes[12 + 4 * i] == inner[4 * i + 1]);
        assert(writes[13 + 4 * i] == inner[4 * i + 2]);
        assert(writes[14 + 4 * i] == inner[4 * i + 3]);
    }
    let length = length_bytes(http.raw_body.len());
    assert(fingerprint == DefaultHasher::spec_finish(seq![length, http.raw_body]));
    assert(is_length(length, http.raw_body.len()));
    assert(fingerprints(fingerprint, http.raw_body));
    assert(writes_request(writes, http, headers, fingerprint));
}

/// Whether pairs are all headers but `x-request-id`, in the order of their names.
pub open spec fn are_headers_but_request_id(
    pairs: Seq<(Seq<char>, Seq<char>)>,
    headers: Map<Seq<char>, Seq<char>>,
) -> bool {
    &&& forall|i: int, j: int|
        0 <= i < j < pairs.len() ==> text_before(#[trigger] pairs[i].0, #[trigger] pairs[j].0)
    &&& forall|name: Seq<char>, value: Seq<char>|
        pairs.contains((name, value)) <==> (#[trigger] headers.contains_pair(name, value)
            && ascii_lowered(name) != "x-request-id"@)
}

/// The plain key of a check is the hash of method, path, host, scheme, query, all headers but
/// `x-request-id`, and body.
pub proof fn law_plain_key(
    request: CheckRequestModel,
    http: HttpRequestModel,
    pairs: Seq<(Seq<char>, Seq<char>)>,
)
    requires
        is_about(request, http),
        http.headers.dom().finite(),
        are_headers_but_request_id(pairs, http.headers),
    ensures
        hashes_request(request_hash(request), http, pairs),
{
    let headers = http.headers;
    let listed = headers_but_request_id(headers);
    let counted = Set::new(|name: Seq<char>| ascii_lowered(name) != "x-request-id"@);
    lemma_ascending_exists(headers);
    lemma_ascending_filter(ascending(headers), not_request_id(), counted);
    assert(is_ascending(pairs));
    let wanted = headers.restrict(counted);
    assert forall|name: Seq<char>| #[trigger]
        map_of(pairs).dom().contains(name) <==> wanted.dom().contains(name) by {
        lemma_map_of_keys(pairs, name);
        if wanted.dom().contains(name) {
            assert(headers.contains_pair(name, headers[name]));
            assert(pairs.contains((name, headers[name])));
            let i = pairs.index_of((name, headers[name]));
            assert(pairs[i].0 == name);
        }
        if map_of(pairs).dom().contains(name) {
            let i = choose|i: int| 0 <= i < pairs.len() && #[trigger] pairs[i].0 == name;
            assert(pairs.contains((pairs[i].0, pairs[i].1)));
            assert(headers.contains_pair(pairs[i].0, pairs[i].1));
        }
    }
    assert forall|name: Seq<char>| map_of(pairs).dom().contains(name) implies #[trigger] map_of(
        pairs,
    )[name] == wanted[name] by {
        lemma_map_of_keys(pairs, name);
        let i = choose|i: int| 0 <= i < pairs.len() && #[trigger] pairs[i].0 == name;
        lemma_map_of_value(pairs, i);
        assert(pairs.contains((pairs[i].0, pairs[i].1)));
        assert(headers.contains_pair(pairs[i].0, pairs[i].1));
    }
    assert(map_of(pairs) =~= wanted);
    lemma_ascending_unique(pairs, listed);
    lemma_writes_request(http, pairs);
}

/// Whether a policy lets a header of the given name count. Names are compared in lowercase.
pub open spec fn counts(policy: CacheHeaderPolicyModel, name: Seq<char>) -> bool {
    match policy {
        CacheHeaderPolicyModel::AllExceptRequestId => ascii_lowered(name) != "x-request-id"@,
        CacheHeaderPolicyModel::Allowlist(names) => names.contains(ascii_lowered(name)),
        CacheHeaderPolicyModel::Denylist(names) => ascii_lowered(name) != "x-request-id"@
            && !names.contains(ascii_lowered(name)),
    }
}

proof fn lemma_counts(policy: CacheHeaderPolicyModel, name: Seq<char>)
    ensures
        policy.selects(ascii_lowered(name)) == counts(policy, name),
{
    lemma_lowered_twice(name);
}

spec fn counting(policy: CacheHeaderPolicyModel) -> spec_fn((Seq<char>, Seq<char>)) -> bool {
    |header: (Seq<char>, Seq<char>)| counts(policy, header.0)
}

proof fn lemma_selected(
    pairs: Seq<(Seq<char>, Seq<char>)>,
    policy: CacheHeaderPolicyModel,
    name: Seq<char>,
    value: Seq<char>,
)
    ensures
        selected_headers(pairs, policy).contains((name, value)) <==> exists|i: int|
            0 <= i < pairs.len() && counts(policy, (#[trigger] pairs[i]).0) && ascii_lowered(
                pairs[i].0,
            ) == name && pairs[i].1 == value,
        selected_headers(pairs, policy).len() == pairs.filter(counting(policy)).len(),
    decreases pairs.len(),
{
    reveal(Seq::filter);
    if pairs.len() > 0 {
        let rest = pairs.drop_last();
        let last = pairs.last();
        lemma_selected(rest, policy, name, value);
        lemma_counts(policy, last.0);
        let before = selected_headers(rest, policy);
        let all = selected_headers(pairs, policy);
        assert(pairs[pairs.len() - 1] == last);
        if counts(policy, last.0) {
            assert(all == before.push((ascii_lowered(last.0), last.1)));
            assert(all[all.len() - 1] == (ascii_lowered(last.0), last.1));
        }
        if exists|i: int|
            0 <= i < pairs.len() && counts(policy, (#[trigger] pairs[i]).0) && ascii_lowered(
                pairs[i].0,
            ) == name && pairs[i].1 == value {
            let i = choose|i: int|
                0 <= i < pairs.len() && counts(policy, (#[trigger] pairs[i]).0) && ascii_lowered(
                    pairs[i].0,
                ) == name && pairs[i].1 == value;
            if i < rest.len() {
                assert(rest[i] == pairs[i]);
                let k = before.index_of((name, value));
                assert(all[k] == (name, value));
            }
        }
        if all.contains((name, value)) {
            let k = all.index_of((name, value));
            if k < before.len() {
                assert(before[k] == (name, value));
                let i = choose|i: int|
                    0 <= i < rest.len() && counts(policy, (#[trigger] rest[i]).0)
                        && ascii_lowered(rest[i].0) == name && rest[i].1 == value;
                assert(pairs[i] == rest[i]);
            }
        }
    }
}

/// Whether pairs are the headers that count under a policy, under their lowercase names: each of
/// them, no others, as many as there are, and in the order of names and then of values.
pub open spec fn are_counted_headers(
    pairs: Seq<(Seq<char>, Seq<char>)>,
    headers: Map<Seq<char>, Seq<char>>,
    policy: CacheHeaderPolicyModel,
) -> bool {
    &&& forall|i: int, j: int|
        0 <= i < j < pairs.len() ==> (#[trigger] pairs[i] == #[trigger] pairs[j] || text_before(
            pairs[i].0,
            pairs[j].0,
        ) || (pairs[i].0 == pairs[j].0 && text_before(pairs[i].1, pairs[j].1)))
    &&& forall|name: Seq<char>| #[trigger]
        headers.contains_key(name) && counts(policy, name) ==> pairs.contains(
            (ascii_lowered(name), headers[name]),
        )
    &&& forall|i: int|
        0 <= i < pairs.len() ==> exists|name: Seq<char>| #[trigger]
            headers.contains_key(name) && counts(policy, name) && (#[trigger] pairs[i]) == (
                ascii_lowered(name),
                headers[name],
            )
    &&& pairs.len() == headers.restrict(Set::new(|name: Seq<char>| counts(policy, name))).len()
}

/// The key of a check under a policy is the hash of method, path, host, scheme, query, the
/// headers that count under the policy, and body.
pub proof fn law_key_under_policy(
    request: CheckRequestModel,
    http: HttpRequestModel,
    policy: CacheHeaderPolicyModel,
)
    requires
        is_about(request, http),
        http.headers.dom().finite(),
    ensures
        are_counted_headers(counted_headers(http.headers, policy), http.headers, policy),
        hashes_request(
            request_hash_under(request, policy),
            http,
            counted_headers(http.headers, policy),
        ),
{
    let headers = http.headers;
    let pairs = ascending(headers);
    lemma_ascending_exists(headers);
    let selected = selected_headers(pairs, policy);
    let counted = counted_headers(headers, policy);
    let order = header_order();
    lemma_header_order();
    selected.lemma_sort_by_ensures(order);
    selected.to_multiset_ensures();
    counted.to_multiset_ensures();
    assert forall|pair: (Seq<char>, Seq<char>)|
        selected.contains(pair) == #[trigger] counted.contains(pair) by {
        assert(selected.to_multiset().count(pair) == counted.to_multiset().count(pair));
    }
    assert forall|i: int, j: int| 0 <= i < j < counted.len() implies (#[trigger] counted[i]
        == #[trigger] counted[j] || text_before(counted[i].0, counted[j].0) || (counted[i].0
        == counted[j].0 && text_before(counted[i].1, counted[j].1))) by {
        assert(order(counted[i], counted[j]));
    }
    assert forall|name: Seq<char>| #[trigger]
        headers.contains_key(name) && counts(policy, name) implies counted.contains(
        (ascii_lowered(name), headers[name]),
    ) by {
        lemma_map_of_keys(pairs, name);
        let i = choose|i: int| 0 <= i < pairs.len() && #[trigger] pairs[i].0 == name;
        lemma_map_of_value(pairs, i);
        lemma_selected(pairs, policy, ascii_lowered(name), headers[name]);
        assert(counts(policy, pairs[i].0));
        assert(selected.contains((ascii_lowered(name), headers[name])));
    }
    assert forall|i: int| 0 <= i < counted.len() implies exists|name: Seq<char>| #[trigger]
        headers.contains_key(name) && counts(policy, name) && (#[trigger] counted[i]) == (
            ascii_lowered(name),
            headers[name],
        ) by {
        let pair = counted[i];
        assert(counted.contains(pair));
        assert(selected.contains(pair));
        lemma_selected(pairs, policy, pair.0, pair.1);
        let k = choose|k: int|
            0 <= k < pairs.len() && counts(policy, (#[trigger] pairs[k]).0) && ascii_lowered(
                pairs[k].0,
            ) == pair.0 && pairs[k].1 == pair.1;
        lemma_map_of_value(pairs, k);
        assert(headers.contains_key(pairs[k].0));
    }
    let names = Set::new(|name: Seq<char>| counts(policy, name));
    lemma_selected(pairs, policy, seq![], seq![]);
    lemma_ascending_filter(pairs, counting(policy), names);
    lemma_map_of_len(pairs.filter(counting(policy)));
    assert(selected.len() == counted.len());
    lemma_writes_request(http, counted);
}

/// The key of a check that is about no HTTP request is the hash of empty parts.
pub proof fn law_absent_key(request: CheckRequestModel, policy: CacheHeaderPolicyModel)
    requires
        forall|http: HttpRequestModel| !#[trigger] is_about(request, http),
    ensures
        exists|writes: Seq<Seq<u8>>|
            writes.len() == 12 && writes_text(writes, 0, seq![]) && writes_text(
                writes,
                2,
                seq![],
            ) && writes_text(writes, 4, seq![]) && writes_text(writes, 6, seq![]) && writes_text(
                writes,
                8,
                seq![],
            ) && is_length(writes[10], 0) && writes[11] == spec_u64_to_le_bytes(0)
                && request_hash(request) == #[trigger] DefaultHasher::spec_finish(writes)
                && request_hash_under(request, policy) == request_hash(request),
{
    let writes = absent_writes();
    if http_of(request) is Some {
        assert(is_about(request, http_of(request)->0));
    }
    assert(request_hash(request) == DefaultHasher::spec_finish(writes));
}

proof fn lemma_hex_digits(value: nat, width: nat, i: int)
    requires
        0 <= i < width,
    ensures
        hex_text(value, width).len() == width,
        '0' <= hex_text(value, width)[i] <= '9' || 'a' <= hex_text(value, width)[i] <= 'f',
    decreases width,
{
    let before = hex_text(value / 16, (width - 1) as nat);
    if width > 1 {
        lemma_hex_digits(value / 16, (width - 1) as nat, if i < width - 1 {
            i
        } else {
            0
        });
    }
    assert(value % 16 < 16);
}

/// A key is `cache:` with the sixteen hexadecimal digits of the hash, in small letters.
pub proof fn law_key_text(hash: u64)
    ensures
        key_text(hash).len() == 22,
        key_text(hash).take(6) == "cache:"@,
        number_spelled(key_text(hash).skip(6), 16, 0xffff_ffff_ffff_ffff) == Some(hash as nat),
        forall|i: int|
            6 <= i < 22 ==> '0' <= #[trigger] key_text(hash)[i] <= '9' || 'a' <= key_text(
                hash,
            )[i] <= 'f',
{
    reveal_strlit("cache:");
    let digits = hex_text(hash as nat, 16);
    lemma_hex_digits(hash as nat, 16, 0);
    lemma_hex_spelled(hash);
    assert(key_text(hash).take(6) =~= "cache:"@);
    assert(key_text(hash).skip(6) =~= digits);
    assert forall|i: int| 6 <= i < 22 implies '0' <= #[trigger] key_text(hash)[i] <= '9' || 'a'
        <= key_text(hash)[i] <= 'f' by {
        lemma_hex_digits(hash as nat, 16, i - 6);
    }
}

} // verus!
