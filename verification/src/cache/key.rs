//! The keys of the cache.
use crate::cache::policy::{
    is_request_id, names_request_id, CacheHeaderPolicy, CacheHeaderPolicyModel,
};
use crate::cache::shard::{shard_of, NUM_SHARDS};
use crate::invalidation::is_cache_key;
use crate::model::views;
use crate::pb::{CheckRequest, CheckRequestModel, HttpRequest, HttpRequestModel};
use crate::text::numbers::{hex_text, lemma_hex_spelled, push_hex};
use crate::text::{
    ascii_lowered, lemma_same_bytes, lemma_text_antisymmetric, lemma_text_connected,
    lemma_text_transitive, precedes, text_before,
};
use crate::text_map::{
    ascending, lemma_ascending_exists, lemma_ascending_filter, lemma_ascending_unique,
    lemma_map_of_value, TextMap,
};
use std::collections::hash_map::DefaultHasher;
use std::hash::Hasher;
use vstd::bytes::{
    lemma_auto_spec_u64_to_from_le_bytes, spec_u32_to_le_bytes, spec_u64_from_le_bytes,
    spec_u64_to_le_bytes, u32_to_le_bytes, u64_to_le_bytes,
};
use vstd::prelude::*;
use vstd::relations::{sorted_by, total_ordering};
use vstd::seq_lib::{lemma_sorted_unique, to_multiset_build, to_multiset_insert};
use vstd::std_specs::hash::DefaultHasherAdditionalSpecFns;
use vstd::string::*;
use vstd::utf8::encode_utf8;

verus! {

/// What is written to the hasher for a text: its bytes, and one that no text holds.
pub open spec fn text_writes(text: Seq<char>) -> Seq<Seq<u8>> {
    seq![encode_utf8(text), seq![0xffu8]]
}

/// What is written to the hasher for headers, one after the other.
pub open spec fn header_writes(headers: Seq<(Seq<char>, Seq<char>)>) -> Seq<Seq<u8>>
    decreases headers.len(),
{
    if headers.len() == 0 {
        seq![]
    } else {
        header_writes(headers.drop_last()) + text_writes(headers.last().0) + text_writes(
            headers.last().1,
        )
    }
}

/// The bytes of a length, as many as a `usize` has, the low one first.
pub open spec fn length_bytes(length: nat) -> Seq<u8> {
    if usize::MAX == u32::MAX {
        spec_u32_to_le_bytes(length as u32)
    } else {
        spec_u64_to_le_bytes(length as u64)
    }
}

/// A hash of a request's body.
pub open spec fn body_fingerprint(body: Seq<u8>) -> u64 {
    DefaultHasher::spec_finish(seq![length_bytes(body.len()), body])
}

/// What is written to the hasher for a request of which the given headers count. Lengths take
/// as many bytes as a `usize` has, so that a key depends on the width of the machine.
pub open spec fn request_writes(
    http: HttpRequestModel,
    headers: Seq<(Seq<char>, Seq<char>)>,
) -> Seq<Seq<u8>> {
    text_writes(http.method) + text_writes(http.path) + text_writes(http.host) + text_writes(
        http.scheme,
    ) + text_writes(http.query) + seq![length_bytes(headers.len())] + header_writes(headers)
        + seq![spec_u64_to_le_bytes(body_fingerprint(http.raw_body))]
}

/// What is written to the hasher where a check is about no HTTP request.
pub open spec fn absent_writes() -> Seq<Seq<u8>> {
    let none = text_writes(seq![]);
    none + none + none + none + none + seq![length_bytes(0)] + seq![spec_u64_to_le_bytes(0)]
}

/// The cache key with the given hash.
pub open spec fn key_text(hash: u64) -> Seq<char> {
    "cache:"@ + hex_text(hash as nat, 16)
}

/// The HTTP request that a check is about.
pub open spec fn http_of(request: CheckRequestModel) -> Option<HttpRequestModel> {
    match request.attributes {
        Some(attributes) => match attributes.request {
            Some(request) => request.http,
            None => None,
        },
        None => None,
    }
}

/// That a header is not `x-request-id`.
pub open spec fn not_request_id() -> spec_fn((Seq<char>, Seq<char>)) -> bool {
    |header: (Seq<char>, Seq<char>)| !is_request_id(header.0)
}

/// The headers but `x-request-id`, in the order of their names.
pub open spec fn headers_but_request_id(headers: Map<Seq<char>, Seq<char>>) -> Seq<
    (Seq<char>, Seq<char>),
> {
    ascending(headers).filter(not_request_id())
}

/// The hash of a check, of which all headers but `x-request-id` count.
pub open spec fn request_hash(request: CheckRequestModel) -> u64 {
    DefaultHasher::spec_finish(
        match http_of(request) {
            Some(http) => request_writes(http, headers_but_request_id(http.headers)),
            None => absent_writes(),
        },
    )
}

fn write_text(hasher: &mut DefaultHasher, text: &str)
    ensures
        final(hasher)@ == old(hasher)@ + text_writes(text@),
{
    hasher.write(text.as_bytes());
    let end: [u8; 1] = [0xff];
    hasher.write(&end);
    proof {
        assert(end@ =~= seq![0xffu8]);
        assert(hasher@ =~= old(hasher)@ + text_writes(text@));
    }
}

fn write_number(hasher: &mut DefaultHasher, number: u64)
    ensures
        final(hasher)@ == old(hasher)@ + seq![spec_u64_to_le_bytes(number)],
{
    let bytes = u64_to_le_bytes(number);
    hasher.write(bytes.as_slice());
    proof {
        assert(hasher@ =~= old(hasher)@ + seq![spec_u64_to_le_bytes(number)]);
    }
}

fn write_length(hasher: &mut DefaultHasher, length: usize)
    ensures
        final(hasher)@ == old(hasher)@ + seq![length_bytes(length as nat)],
{
    let bytes = if usize::MAX as u64 == u32::MAX as u64 {
        u32_to_le_bytes(length as u32)
    } else {
        u64_to_le_bytes(length as u64)
    };
    hasher.write(bytes.as_slice());
    proof {
        assert(hasher@ =~= old(hasher)@ + seq![length_bytes(length as nat)]);
    }
}

fn fingerprint(body: &Vec<u8>) -> (hash: u64)
    ensures
        hash == body_fingerprint(body@),
{
    let mut hasher = DefaultHasher::new();
    write_length(&mut hasher, body.len());
    hasher.write(body.as_slice());
    proof {
        assert(hasher@ =~= seq![length_bytes(body@.len()), body@]);
    }
    hasher.finish()
}

fn hash_request(http: &HttpRequest, headers: &Vec<(String, String)>) -> (hash: u64)
    ensures
        hash == DefaultHasher::spec_finish(request_writes(http@, views(headers@))),
{
    let ghost pairs = views(headers@);
    let mut hasher = DefaultHasher::new();
    write_text(&mut hasher, http.method.as_str());
    write_text(&mut hasher, http.path.as_str());
    write_text(&mut hasher, http.host.as_str());
    write_text(&mut hasher, http.scheme.as_str());
    write_text(&mut hasher, http.query.as_str());
    write_length(&mut hasher, headers.len());
    let ghost start = hasher@;
    let mut i: usize = 0;
    proof {
        assert(pairs.take(0) =~= seq![]);
        assert(hasher@ =~= start + header_writes(pairs.take(0)));
    }
    while i < headers.len()
        invariant
            i <= headers@.len(),
            pairs == views(headers@),
            hasher@ == start + header_writes(pairs.take(i as int)),
        decreases headers@.len() - i,
    {
        write_text(&mut hasher, headers[i].0.as_str());
        write_text(&mut hasher, headers[i].1.as_str());
        proof {
            assert(pairs.take(i + 1).drop_last() =~= pairs.take(i as int));
            assert(hasher@ =~= start + header_writes(pairs.take(i + 1)));
        }
        i = i + 1;
    }
    write_number(&mut hasher, fingerprint(&http.raw_body));
    proof {
        assert(pairs.take(headers@.len() as int) =~= pairs);
        assert(hasher@ =~= request_writes(http@, pairs));
    }
    hasher.finish()
}

fn hash_absent() -> (hash: u64)
    ensures
        hash == DefaultHasher::spec_finish(absent_writes()),
{
    proof {
        reveal_strlit("");
        assert(""@ =~= seq![]);
    }
    let mut hasher = DefaultHasher::new();
    write_text(&mut hasher, "");
    write_text(&mut hasher, "");
    write_text(&mut hasher, "");
    write_text(&mut hasher, "");
    write_text(&mut hasher, "");
    write_length(&mut hasher, 0);
    write_number(&mut hasher, 0);
    proof {
        assert(hasher@ =~= absent_writes());
    }
    hasher.finish()
}

fn format_key(hash: u64) -> (key: String)
    ensures
        key@ == key_text(hash),
{
    let mut key = "cache:".to_owned();
    push_hex(&mut key, hash, 16);
    key
}

fn find_http(request: &CheckRequest) -> (http: Option<&HttpRequest>)
    ensures
        match http {
            Some(http) => http_of(request@) == Some(http@),
            None => http_of(request@) is None,
        },
{
    match &request.attributes {
        Some(attributes) => match &attributes.request {
            Some(request) => match &request.http {
                Some(http) => Some(http),
                None => None,
            },
            None => None,
        },
        None => None,
    }
}

fn collect_headers(headers: &TextMap<String>) -> (kept: Vec<(String, String)>)
    ensures
        views(kept@) == headers_but_request_id(headers@),
{
    let count = headers.len();
    let ghost pairs = headers.pairs();
    let mut kept: Vec<(String, String)> = Vec::new();
    let mut i: usize = 0;
    proof {
        reveal(Seq::filter);
        assert(pairs.take(0) =~= seq![]);
        assert(views(kept@) =~= seq![]);
    }
    while i < count
        invariant
            i <= count,
            count == pairs.len(),
            pairs == headers.pairs(),
            views(kept@) == pairs.take(i as int).filter(not_request_id()),
        decreases count - i,
    {
        let name = headers.key_at(i);
        let ghost before = kept@;
        if !names_request_id(name) {
            kept.push((name.to_owned(), headers.value_at(i).clone()));
            proof {
                assert(views(kept@) =~= views(before).push(pairs[i as int]));
            }
        }
        proof {
            reveal(Seq::filter);
            assert(pairs.take(i + 1).drop_last() =~= pairs.take(i as int));
            assert(pairs.take(i + 1).last() == pairs[i as int]);
        }
        i = i + 1;
    }
    proof {
        assert(pairs.take(count as int) =~= pairs);
    }
    kept
}

/// The cache key of a check. Requests with the same method, path, host, scheme, query, body and
/// headers, `x-request-id` aside, have the same key.
pub fn compute_cache_key(req: &CheckRequest) -> (key: String)
    ensures
        key@ == key_text(request_hash(req@)),
{
    match find_http(req) {
        Some(http) => {
            let headers = collect_headers(&http.headers);
            format_key(hash_request(http, &headers))
        },
        None => format_key(hash_absent()),
    }
}

/// The strict order of headers: by name, then by value.
pub open spec fn header_before(
    left: (Seq<char>, Seq<char>),
    right: (Seq<char>, Seq<char>),
) -> bool {
    text_before(left.0, right.0) || (left.0 == right.0 && text_before(left.1, right.1))
}

/// The order of headers.
pub open spec fn header_order() -> spec_fn((Seq<char>, Seq<char>), (Seq<char>, Seq<char>)) -> bool {
    |left: (Seq<char>, Seq<char>), right: (Seq<char>, Seq<char>)|
        left == right || header_before(left, right)
}

/// The headers that a policy selects, under their lowercase names.
pub open spec fn selected_headers(
    headers: Seq<(Seq<char>, Seq<char>)>,
    policy: CacheHeaderPolicyModel,
) -> Seq<(Seq<char>, Seq<char>)>
    decreases headers.len(),
{
    if headers.len() == 0 {
        seq![]
    } else {
        let before = selected_headers(headers.drop_last(), policy);
        let name = ascii_lowered(headers.last().0);
        if policy.selects(name) {
            before.push((name, headers.last().1))
        } else {
            before
        }
    }
}

/// The headers that count under a policy, in order.
pub open spec fn counted_headers(
    headers: Map<Seq<char>, Seq<char>>,
    policy: CacheHeaderPolicyModel,
) -> Seq<(Seq<char>, Seq<char>)> {
    selected_headers(ascending(headers), policy).sort_by(header_order())
}

/// The hash of a check, of which the headers count that a policy selects.
pub open spec fn request_hash_under(
    request: CheckRequestModel,
    policy: CacheHeaderPolicyModel,
) -> u64 {
    DefaultHasher::spec_finish(
        match http_of(request) {
            Some(http) => request_writes(http, counted_headers(http.headers, policy)),
            None => absent_writes(),
        },
    )
}

proof fn lemma_header_transitive(
    a: (Seq<char>, Seq<char>),
    b: (Seq<char>, Seq<char>),
    c: (Seq<char>, Seq<char>),
)
    requires
        header_before(a, b),
        header_before(b, c),
    ensures
        header_before(a, c),
{
    if text_before(a.0, b.0) && text_before(b.0, c.0) {
        lemma_text_transitive(a.0, b.0, c.0);
    }
    if text_before(a.1, b.1) && text_before(b.1, c.1) {
        lemma_text_transitive(a.1, b.1, c.1);
    }
}

proof fn lemma_header_antisymmetric(a: (Seq<char>, Seq<char>), b: (Seq<char>, Seq<char>))
    ensures
        !(header_before(a, b) && header_before(b, a)),
        !header_before(a, a),
{
    lemma_text_antisymmetric(a.0, b.0);
    lemma_text_antisymmetric(b.0, a.0);
    lemma_text_antisymmetric(a.1, b.1);
    lemma_text_antisymmetric(b.1, a.1);
}

proof fn lemma_header_connected(a: (Seq<char>, Seq<char>), b: (Seq<char>, Seq<char>))
    ensures
        a == b || header_before(a, b) || header_before(b, a),
{
    lemma_text_connected(a.0, b.0);
    lemma_text_connected(a.1, b.1);
}

pub proof fn lemma_header_order()
    ensures
        total_ordering(header_order()),
{
    let order = header_order();
    assert forall|a: (Seq<char>, Seq<char>), b: (Seq<char>, Seq<char>)|
        #[trigger] order(a, b) && #[trigger] order(b, a) implies a == b by {
        lemma_header_antisymmetric(a, b);
    }
    assert forall|
        a: (Seq<char>, Seq<char>),
        b: (Seq<char>, Seq<char>),
        c: (Seq<char>, Seq<char>),
    | #[trigger] order(a, b) && #[trigger] order(b, c) implies order(a, c) by {
        if a != b && b != c {
            lemma_header_transitive(a, b, c);
        }
    }
    assert forall|a: (Seq<char>, Seq<char>), b: (Seq<char>, Seq<char>)|
        #[trigger] order(a, b) || #[trigger] order(b, a) by {
        lemma_header_connected(a, b);
    }
}

fn header_precedes(left: &(String, String), right: &(String, String)) -> (before: bool)
    ensures
        before == header_before(left@, right@),
{
    if precedes(left.0.as_str(), right.0.as_str()) {
        true
    } else if precedes(right.0.as_str(), left.0.as_str()) {
        proof {
            lemma_text_antisymmetric(left.0@, right.0@);
        }
        false
    } else {
        proof {
            lemma_text_connected(left.0@, right.0@);
        }
        precedes(left.1.as_str(), right.1.as_str())
    }
}

/// Puts a header in its place among ordered ones.
fn place_header(headers: &mut Vec<(String, String)>, header: (String, String))
    requires
        sorted_by(views(old(headers)@), header_order()),
    ensures
        sorted_by(views(final(headers)@), header_order()),
        views(final(headers)@).to_multiset() == views(old(headers)@).to_multiset().insert(header@),
{
    let ghost before = views(headers@);
    let mut i: usize = 0;
    while i < headers.len() && header_precedes(&headers[i], &header)
        invariant
            i <= headers@.len(),
            before == views(headers@),
            headers@ == old(headers)@,
            forall|k: int| 0 <= k < i ==> header_before(#[trigger] before[k], header@),
        ensures
            i <= headers@.len(),
            headers@ == old(headers)@,
            i < headers@.len() ==> !header_before(before[i as int], header@),
            forall|k: int| 0 <= k < i ==> header_before(#[trigger] before[k], header@),
        decreases headers@.len() - i,
    {
        i = i + 1;
    }
    headers.insert(i, header);
    proof {
        let order = header_order();
        let after = views(headers@);
        assert(after =~= before.insert(i as int, header@));
        to_multiset_insert(before, i as int, header@);
        lemma_header_order();
        assert forall|a: int, b: int| 0 <= a < b < after.len() implies #[trigger] order(
            after[a],
            after[b],
        ) by {
            if a < i && b == i {
                assert(header_before(before[a], header@));
            } else if a == i {
                lemma_header_connected(before[i as int], header@);
                assert(order(header@, before[i as int]));
                if b - 1 > i {
                    assert(order(before[i as int], before[b - 1]));
                }
            } else if b < i {
                assert(order(before[a], before[b]));
            } else if a > i {
                assert(order(before[a - 1], before[b - 1]));
            } else {
                assert(order(before[a], before[b - 1]));
            }
        }
    }
}

fn collect_counted_headers(headers: &TextMap<String>, policy: &CacheHeaderPolicy) -> (counted: Vec<
    (String, String),
>)
    ensures
        views(counted@) == counted_headers(headers@, policy@),
{
    let count = headers.len();
    let ghost pairs = headers.pairs();
    let mut counted: Vec<(String, String)> = Vec::new();
    let mut i: usize = 0;
    proof {
        assert(pairs.take(0) =~= seq![]);
        assert(views(counted@) =~= seq![]);
    }
    while i < count
        invariant
            i <= count,
            count == pairs.len(),
            pairs == headers.pairs(),
            sorted_by(views(counted@), header_order()),
            views(counted@).to_multiset() == selected_headers(
                pairs.take(i as int),
                policy@,
            ).to_multiset(),
        decreases count - i,
    {
        let name = headers.key_at(i).to_ascii_lowercase();
        proof {
            assert(pairs.take(i + 1).drop_last() =~= pairs.take(i as int));
            assert(pairs.take(i + 1).last() == pairs[i as int]);
        }
        if policy.selects(name.as_str()) {
            let header = (name, headers.value_at(i).clone());
            proof {
                to_multiset_build(selected_headers(pairs.take(i as int), policy@), header@);
            }
            place_header(&mut counted, header);
        }
        i = i + 1;
    }
    proof {
        assert(pairs.take(count as int) =~= pairs);
        let selected = selected_headers(pairs, policy@);
        lemma_header_order();
        selected.lemma_sort_by_ensures(header_order());
        lemma_sorted_unique(
            views(counted@),
            selected.sort_by(header_order()),
            header_order(),
        );
    }
    counted
}

/// The cache key of a check, of which the headers count that the policy selects.
pub fn compute_cache_key_with_policy(
    req: &CheckRequest,
    header_policy: &CacheHeaderPolicy,
) -> (key: String)
    ensures
        key@ == key_text(request_hash_under(req@, header_policy@)),
{
    match find_http(req) {
        Some(http) => {
            let headers = collect_counted_headers(&http.headers, header_policy);
            format_key(hash_request(http, &headers))
        },
        None => format_key(hash_absent()),
    }
}

/// A key that was computed has the form that purge requests ask for, and belongs to the shard
/// that its hash says.
pub proof fn law_computed_key(hash: u64)
    ensures
        is_cache_key(key_text(hash)),
        shard_of(key_text(hash)) == hash as nat % NUM_SHARDS as nat,
{
    let key = key_text(hash);
    let prefix = "cache:"@;
    assert(prefix.is_prefix_of(key));
    assert(key.skip(prefix.len() as int) =~= hex_text(hash as nat, 16));
    lemma_hex_spelled(hash);
}

/// Different hashes make different keys.
pub proof fn law_keys_differ(hash: u64, other: u64)
    ensures
        key_text(hash) == key_text(other) ==> hash == other,
{
    if key_text(hash) == key_text(other) {
        let n = "cache:"@.len() as int;
        assert(key_text(hash).skip(n) =~= hex_text(hash as nat, 16));
        assert(key_text(other).skip(n) =~= hex_text(other as nat, 16));
        lemma_hex_spelled(hash);
        lemma_hex_spelled(other);
    }
}

/// That two requests are the same in all that a cache key is made of but the headers.
pub open spec fn same_but_headers(left: HttpRequestModel, right: HttpRequestModel) -> bool {
    &&& left.method == right.method
    &&& left.path == right.path
    &&& left.host == right.host
    &&& left.scheme == right.scheme
    &&& left.query == right.query
    &&& left.raw_body == right.raw_body
}

/// The names of all headers but `x-request-id`.
pub open spec fn names_but_request_id() -> Set<Seq<char>> {
    Set::new(|name: Seq<char>| !is_request_id(name))
}

/// The names of the headers that a policy selects.
pub open spec fn names_under(policy: CacheHeaderPolicyModel) -> Set<Seq<char>> {
    Set::new(|name: Seq<char>| policy.selects(ascii_lowered(name)))
}

proof fn lemma_headers_but_request_id(
    left: Map<Seq<char>, Seq<char>>,
    right: Map<Seq<char>, Seq<char>>,
)
    requires
        left.dom().finite(),
        right.dom().finite(),
        left.restrict(names_but_request_id()) == right.restrict(names_but_request_id()),
    ensures
        headers_but_request_id(left) == headers_but_request_id(right),
{
    lemma_ascending_exists(left);
    lemma_ascending_exists(right);
    lemma_ascending_filter(ascending(left), not_request_id(), names_but_request_id());
    lemma_ascending_filter(ascending(right), not_request_id(), names_but_request_id());
    lemma_ascending_unique(headers_but_request_id(left), headers_but_request_id(right));
}

spec fn is_selected(policy: CacheHeaderPolicyModel) -> spec_fn((Seq<char>, Seq<char>)) -> bool {
    |header: (Seq<char>, Seq<char>)| policy.selects(ascii_lowered(header.0))
}

/// A policy selects the same with and without the headers that it does not select.
proof fn lemma_selected_again(
    pairs: Seq<(Seq<char>, Seq<char>)>,
    policy: CacheHeaderPolicyModel,
)
    ensures
        selected_headers(pairs, policy) == selected_headers(
            pairs.filter(is_selected(policy)),
            policy,
        ),
    decreases pairs.len(),
{
    reveal(Seq::filter);
    if pairs.len() > 0 {
        let rest = pairs.drop_last();
        lemma_selected_again(rest, policy);
        let kept = pairs.filter(is_selected(policy));
        if is_selected(policy)(pairs.last()) {
            assert(kept =~= rest.filter(is_selected(policy)).push(pairs.last()));
            assert(kept.drop_last() =~= rest.filter(is_selected(policy)));
        }
    }
}

/// Only the headers that the policy selects count: requests that differ in others alone have the
/// same key.
pub proof fn law_key_follows_policy(
    left: CheckRequestModel,
    right: CheckRequestModel,
    policy: CacheHeaderPolicyModel,
)
    requires
        http_of(left) is Some,
        http_of(right) is Some,
        (http_of(left)->0).headers.dom().finite(),
        (http_of(right)->0).headers.dom().finite(),
        same_but_headers(http_of(left)->0, http_of(right)->0),
        (http_of(left)->0).headers.restrict(names_under(policy)) == (http_of(
            right,
        )->0).headers.restrict(names_under(policy)),
    ensures
        request_hash_under(left, policy) == request_hash_under(right, policy),
{
    let a = (http_of(left)->0).headers;
    let b = (http_of(right)->0).headers;
    lemma_ascending_exists(a);
    lemma_ascending_exists(b);
    lemma_selected_again(ascending(a), policy);
    lemma_selected_again(ascending(b), policy);
    lemma_ascending_filter(ascending(a), is_selected(policy), names_under(policy));
    lemma_ascending_filter(ascending(b), is_selected(policy), names_under(policy));
    lemma_ascending_unique(
        ascending(a).filter(is_selected(policy)),
        ascending(b).filter(is_selected(policy)),
    );
}

/// Requests that differ in `x-request-id` alone have the same key, also under a policy that does
/// not ask for that header by its name.
pub proof fn law_key_ignores_request_id(
    left: CheckRequestModel,
    right: CheckRequestModel,
    policy: CacheHeaderPolicyModel,
)
    requires
        http_of(left) is Some,
        http_of(right) is Some,
        (http_of(left)->0).headers.dom().finite(),
        (http_of(right)->0).headers.dom().finite(),
        same_but_headers(http_of(left)->0, http_of(right)->0),
        (http_of(left)->0).headers.restrict(names_but_request_id()) == (http_of(
            right,
        )->0).headers.restrict(names_but_request_id()),
    ensures
        request_hash(left) == request_hash(right),
        !policy.selects("x-request-id"@) ==> request_hash_under(left, policy)
            == request_hash_under(right, policy),
{
    let a = (http_of(left)->0).headers;
    let b = (http_of(right)->0).headers;
    lemma_headers_but_request_id(a, b);
    if !policy.selects("x-request-id"@) {
        let counted = names_but_request_id();
        assert forall|name: Seq<char>| names_under(policy).contains(name) implies
            #[trigger] counted.contains(name) by {}
        assert(a.restrict(names_under(policy)) =~= a.restrict(counted).restrict(
            names_under(policy),
        ));
        assert(b.restrict(names_under(policy)) =~= b.restrict(counted).restrict(
            names_under(policy),
        ));
        law_key_follows_policy(left, right, policy);
    }
}

/// Only a policy that lists `x-request-id` as one of the headers to count selects it.
pub proof fn law_request_id_selected(policy: CacheHeaderPolicyModel)
    ensures
        policy.selects("x-request-id"@) <==> (policy matches CacheHeaderPolicyModel::Allowlist(
            names,
        ) && names.contains("x-request-id"@)),
{
    reveal_strlit("x-request-id");
    assert(ascii_lowered("x-request-id"@) =~= "x-request-id"@);
}

pub proof fn lemma_header_writes_len(headers: Seq<(Seq<char>, Seq<char>)>)
    ensures
        header_writes(headers).len() == 4 * headers.len(),
    decreases headers.len(),
{
    if headers.len() > 0 {
        lemma_header_writes_len(headers.drop_last());
    }
}

proof fn lemma_header_writes_settle(
    left: Seq<(Seq<char>, Seq<char>)>,
    right: Seq<(Seq<char>, Seq<char>)>,
)
    requires
        header_writes(left) == header_writes(right),
    ensures
        left == right,
    decreases left.len(),
{
    lemma_header_writes_len(left);
    lemma_header_writes_len(right);
    if left.len() == 0 {
        assert(left =~= right);
    } else {
        let a = header_writes(left.drop_last());
        let b = header_writes(right.drop_last());
        lemma_header_writes_len(left.drop_last());
        lemma_header_writes_len(right.drop_last());
        let n = a.len() as int;
        let all = header_writes(left);
        assert(all.take(n) =~= a);
        assert(header_writes(right).take(n) =~= b);
        lemma_header_writes_settle(left.drop_last(), right.drop_last());
        assert(all[n] == encode_utf8(left.last().0));
        assert(all[n + 2] == encode_utf8(left.last().1));
        assert(header_writes(right)[n] == encode_utf8(right.last().0));
        assert(header_writes(right)[n + 2] == encode_utf8(right.last().1));
        lemma_same_bytes(left.last().0, right.last().0);
        lemma_same_bytes(left.last().1, right.last().1);
        assert(left =~= left.drop_last().push(left.last()));
        assert(right =~= right.drop_last().push(right.last()));
    }
}

/// What is hashed leaves nothing out: from it follow method, path, host, scheme, query, the
/// headers that count, and the fingerprint of the body.
pub proof fn law_key_covers_request(
    left: HttpRequestModel,
    left_headers: Seq<(Seq<char>, Seq<char>)>,
    right: HttpRequestModel,
    right_headers: Seq<(Seq<char>, Seq<char>)>,
)
    requires
        request_writes(left, left_headers) == request_writes(right, right_headers),
    ensures
        left.method == right.method,
        left.path == right.path,
        left.host == right.host,
        left.scheme == right.scheme,
        left.query == right.query,
        left_headers == right_headers,
        body_fingerprint(left.raw_body) == body_fingerprint(right.raw_body),
{
    let a = request_writes(left, left_headers);
    let b = request_writes(right, right_headers);
    lemma_header_writes_len(left_headers);
    lemma_header_writes_len(right_headers);
    assert(a.len() == 12 + 4 * left_headers.len());
    assert(b.len() == 12 + 4 * right_headers.len());
    let n = 4 * left_headers.len() as int;
    assert(a[0] == encode_utf8(left.method) && b[0] == encode_utf8(right.method));
    assert(a[2] == encode_utf8(left.path) && b[2] == encode_utf8(right.path));
    assert(a[4] == encode_utf8(left.host) && b[4] == encode_utf8(right.host));
    assert(a[6] == encode_utf8(left.scheme) && b[6] == encode_utf8(right.scheme));
    assert(a[8] == encode_utf8(left.query) && b[8] == encode_utf8(right.query));
    lemma_same_bytes(left.method, right.method);
    lemma_same_bytes(left.path, right.path);
    lemma_same_bytes(left.host, right.host);
    lemma_same_bytes(left.scheme, right.scheme);
    lemma_same_bytes(left.query, right.query);
    assert(a.subrange(11, 11 + n) =~= header_writes(left_headers));
    assert(b.subrange(11, 11 + n) =~= header_writes(right_headers));
    lemma_header_writes_settle(left_headers, right_headers);
    let last = spec_u64_to_le_bytes(body_fingerprint(left.raw_body));
    let other = spec_u64_to_le_bytes(body_fingerprint(right.raw_body));
    assert(a[11 + n] == last);
    assert(b[11 + n] == other);
    lemma_auto_spec_u64_to_from_le_bytes();
    assert(spec_u64_from_le_bytes(last) == spec_u64_from_le_bytes(other));
}

proof fn lemma_selected_lowercase(pairs: Seq<(Seq<char>, Seq<char>)>)
    requires
        forall|i: int|
            0 <= i < pairs.len() ==> ascii_lowered((#[trigger] pairs[i]).0) == pairs[i].0,
    ensures
        selected_headers(pairs, CacheHeaderPolicyModel::AllExceptRequestId) == pairs.filter(
            not_request_id(),
        ),
    decreases pairs.len(),
{
    reveal(Seq::filter);
    if pairs.len() > 0 {
        let rest = pairs.drop_last();
        assert forall|i: int| 0 <= i < rest.len() implies ascii_lowered((#[trigger] rest[i]).0)
            == rest[i].0 by {
            assert(rest[i] == pairs[i]);
        }
        lemma_selected_lowercase(rest);
        assert(pairs[pairs.len() - 1] == pairs.last());
    }
}

/// Where the names of all headers are in lowercase, as the filter keeps them, the policy that
/// leaves out `x-request-id` alone gives the plain key.
pub proof fn law_default_policy_is_plain(request: CheckRequestModel)
    requires
        http_of(request) matches Some(http) ==> {
            &&& http.headers.dom().finite()
            &&& forall|name: Seq<char>| #[trigger]
                http.headers.contains_key(name) ==> ascii_lowered(name) == name
        },
    ensures
        request_hash_under(request, CacheHeaderPolicyModel::AllExceptRequestId) == request_hash(
            request,
        ),
{
    match http_of(request) {
        Some(http) => {
            let pairs = ascending(http.headers);
            lemma_ascending_exists(http.headers);
            assert forall|i: int| 0 <= i < pairs.len() implies ascii_lowered(
                (#[trigger] pairs[i]).0,
            ) == pairs[i].0 by {
                lemma_map_of_value(pairs, i);
                assert(http.headers.contains_key(pairs[i].0));
            }
            lemma_selected_lowercase(pairs);
            let kept = pairs.filter(not_request_id());
            lemma_ascending_filter(pairs, not_request_id(), names_but_request_id());
            let order = header_order();
            assert forall|a: int, b: int| 0 <= a < b < kept.len() implies #[trigger] order(
                kept[a],
                kept[b],
            ) by {
                assert(text_before(kept[a].0, kept[b].0));
            }
            lemma_header_order();
            kept.lemma_sort_by_ensures(order);
            lemma_sorted_unique(kept, kept.sort_by(order), order);
        },
        None => {},
    }
}

} // verus!
