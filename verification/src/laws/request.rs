//! Laws on what the authorization service is asked about a request.
use crate::cache::config::CacheConfigModel;
use crate::cache::key::{key_text, request_hash_under};
use crate::cache::shard::shard_of;
use crate::config::PluginSettingsModel;
use crate::filter::command::{CommandModel, GrpcCallModel};
use crate::filter::http::{announced_length, mark_at, AuthzHttpModel};
use crate::pb::{AttributeContextModel, CheckRequestModel, HttpRequestModel, RequestModel};
use crate::request::{check_request_of, RequestPartsModel};
use crate::text::numbers::{decimal_text, number_spelled};
use crate::text::{ascii_lowered, lower_text, text_of_bytes};
use vstd::prelude::*;

verus! {

/// Whether the header at `i` is the last with the given name.
pub open spec fn is_last(
    headers: Seq<(Seq<char>, Seq<char>)>,
    i: int,
    name: Seq<char>,
) -> bool {
    &&& 0 <= i < headers.len()
    &&& headers[i].0 == name
    &&& forall|j: int| i < j < headers.len() ==> (#[trigger] headers[j]).0 != name
}

/// Whether no header has the given name.
pub open spec fn is_silent(headers: Seq<(Seq<char>, Seq<char>)>, name: Seq<char>) -> bool {
    forall|j: int| 0 <= j < headers.len() ==> (#[trigger] headers[j]).0 != name
}

/// Whether a text is what the headers say under a name: the value of the last header with it, or
/// nothing where there is none.
pub open spec fn is_said(
    headers: Seq<(Seq<char>, Seq<char>)>,
    name: Seq<char>,
    value: Seq<char>,
) -> bool {
    &&& forall|i: int| #[trigger] is_last(headers, i, name) ==> value == headers[i].1
    &&& is_silent(headers, name) ==> value.len() == 0
}

/// Whether a header is `x-request-id`, in any case.
pub open spec fn is_id(name: Seq<char>) -> bool {
    ascii_lowered(name) == "x-request-id"@
}

/// Whether the header at `i` is the last `x-request-id`.
pub open spec fn is_last_id(headers: Seq<(Seq<char>, Seq<char>)>, i: int) -> bool {
    &&& 0 <= i < headers.len()
    &&& is_id(headers[i].0)
    &&& forall|j: int| i < j < headers.len() ==> !is_id((#[trigger] headers[j]).0)
}

/// Whether a header is one of the request's own: it is not `x-request-id` and does not start with
/// a colon.
pub open spec fn is_own(name: Seq<char>) -> bool {
    !is_id(name) && (name.len() == 0 || name[0] != ':')
}

/// Whether a header is one of the request's own with the given lowercase name.
pub open spec fn is_own_as(name: Seq<char>, lower: Seq<char>) -> bool {
    is_own(name) && lower_text(name) == lower
}

/// Whether the header at `i` is the last of the request's own with the given lowercase name.
pub open spec fn is_last_own(
    headers: Seq<(Seq<char>, Seq<char>)>,
    i: int,
    lower: Seq<char>,
) -> bool {
    &&& 0 <= i < headers.len()
    &&& is_own_as(headers[i].0, lower)
    &&& forall|j: int| i < j < headers.len() ==> !is_own_as((#[trigger] headers[j]).0, lower)
}

/// Whether a header is a `:path` with a query.
pub open spec fn has_query(header: (Seq<char>, Seq<char>)) -> bool {
    header.0 == ":path"@ && header.1.contains('?')
}

/// Whether the header at `i` is the last `:path` with a query.
pub open spec fn is_last_query(headers: Seq<(Seq<char>, Seq<char>)>, i: int) -> bool {
    &&& 0 <= i < headers.len()
    &&& has_query(headers[i])
    &&& forall|j: int| i < j < headers.len() ==> !has_query(#[trigger] headers[j])
}

/// Whether `path` is what stands in a target before its first `?`, or all of it.
pub open spec fn is_path_of(path: Seq<char>, target: Seq<char>) -> bool {
    &&& !path.contains('?')
    &&& path == target || (path + seq!['?']).is_prefix_of(target)
}

/// Whether `query` is what stands in a target behind its first `?`.
pub open spec fn is_query_of(query: Seq<char>, target: Seq<char>) -> bool {
    exists|path: Seq<char>|
        #![trigger path.contains('?')]
        !path.contains('?') && target == path + seq!['?'] + query
}

/// Whether an HTTP request has the method, target, host, scheme, number and headers that the
/// given headers say.
pub open spec fn describes(headers: Seq<(Seq<char>, Seq<char>)>, http: HttpRequestModel) -> bool {
    &&& is_said(headers, ":method"@, http.method)
    &&& is_said(headers, ":authority"@, http.host)
    &&& is_said(headers, ":scheme"@, http.scheme)
    &&& forall|i: int| #[trigger] is_last(headers, i, ":path"@) ==> is_path_of(
        http.path,
        headers[i].1,
    )
    &&& is_silent(headers, ":path"@) ==> http.path.len() == 0
    &&& forall|i: int| #[trigger] is_last_query(headers, i) ==> is_query_of(
        http.query,
        headers[i].1,
    )
    &&& (forall|j: int| 0 <= j < headers.len() ==> !has_query(#[trigger] headers[j]))
        ==> http.query.len() == 0
    &&& forall|i: int| #[trigger] is_last_id(headers, i) ==> http.id == headers[i].1
    &&& (forall|j: int| 0 <= j < headers.len() ==> !is_id((#[trigger] headers[j]).0))
        ==> http.id.len() == 0
    &&& forall|lower: Seq<char>| #[trigger]
        http.headers.contains_key(lower) <==> exists|i: int| is_last_own(headers, i, lower)
    &&& forall|i: int, lower: Seq<char>| #[trigger]
        is_last_own(headers, i, lower) ==> http.headers[lower] == headers[i].1
    &&& http.fragment.len() == 0
    &&& http.protocol.len() == 0
}

/// Whether an HTTP request has the given body: its bytes, their number, and their text.
pub open spec fn has_body(http: HttpRequestModel, body: Seq<u8>) -> bool {
    &&& http.raw_body == body
    &&& http.size == body.len() as i64
    &&& http.body == text_of_bytes(body)
}

/// The check that is about an HTTP request and nothing else.
pub open spec fn check_about(http: HttpRequestModel) -> CheckRequestModel {
    CheckRequestModel {
        attributes: Some(
            AttributeContextModel {
                source: None,
                destination: None,
                request: Some(RequestModel { http: Some(http) }),
                context_extensions: Map::empty(),
            },
        ),
    }
}

/// Whether a header announces a body that is longer than `max`.
pub open spec fn announces_too_much(header: (Seq<char>, Seq<char>), max: usize) -> bool {
    &&& ascii_lowered(header.0) == "content-length"@
    &&& number_spelled(header.1, 10, usize::MAX as nat) matches Some(length)
    &&& length > max
}

/// The check is made of the request's parts, each in its place, and of nothing else.
pub proof fn law_check_is_made_of_the_parts(parts: RequestPartsModel, http: HttpRequestModel)
    requires
        http.id == parts.request_id,
        http.method == parts.method,
        http.headers == parts.headers,
        http.path == parts.path,
        http.host == parts.host,
        http.scheme == parts.scheme,
        http.query == parts.query,
        http.fragment.len() == 0,
        http.protocol.len() == 0,
        has_body(http, parts.body),
    ensures
        check_request_of(parts) == check_about(http),
{
    assert(http.fragment =~= seq![]);
    assert(http.protocol =~= seq![]);
}

proof fn lemma_names()
    ensures
        ":method"@ != ":path"@,
        ":method"@ != ":authority"@,
        ":method"@ != ":scheme"@,
        ":path"@ != ":authority"@,
        ":path"@ != ":scheme"@,
        ":authority"@ != ":scheme"@,
        !is_id(":method"@),
        !is_id(":path"@),
        !is_id(":authority"@),
        !is_id(":scheme"@),
        ":method"@.len() == 7 && ":method"@[0] == ':',
        ":path"@.len() == 5 && ":path"@[0] == ':',
        ":authority"@.len() == 10 && ":authority"@[0] == ':',
        ":scheme"@.len() == 7 && ":scheme"@[0] == ':',
        ":"@ == seq![':'],
{
    reveal_strlit(":method");
    reveal_strlit(":path");
    reveal_strlit(":authority");
    reveal_strlit(":scheme");
    reveal_strlit(":");
    reveal_strlit("x-request-id");
    assert("x-request-id"@.len() == 12);
    assert(ascii_lowered(":method"@).len() == 7);
    assert(ascii_lowered(":path"@).len() == 5);
    assert(ascii_lowered(":authority"@).len() == 10);
    assert(ascii_lowered(":scheme"@).len() == 7);
    assert(":method"@[1] != ":scheme"@[1]);
    assert(":"@ =~= seq![':']);
}

proof fn lemma_colon(name: Seq<char>)
    ensures
        ":"@.is_prefix_of(name) <==> name.len() > 0 && name[0] == ':',
{
    lemma_names();
    if name.len() > 0 && name[0] == ':' {
        assert(":"@ =~= name.subrange(0, 1));
    }
    if ":"@.is_prefix_of(name) {
        assert(name.subrange(0, 1)[0] == ':');
    }
}

/// What one header does to each part of the state.
proof fn lemma_header_step(state: AuthzHttpModel, name: Seq<char>, value: Seq<char>)
    ensures
        ({
            let after = state.with_header(name, value);
            &&& after.method == (if name == ":method"@ {
                value
            } else {
                state.method
            })
            &&& after.host == (if name == ":authority"@ {
                value
            } else {
                state.host
            })
            &&& after.scheme == (if name == ":scheme"@ {
                value
            } else {
                state.scheme
            })
            &&& after.request_id == (if is_id(name) {
                value
            } else {
                state.request_id
            })
            &&& name != ":path"@ ==> after.path == state.path && after.query == state.query
            &&& after.headers == (if is_own(name) {
                state.headers.insert(lower_text(name), value)
            } else {
                state.headers
            })
        }),
{
    lemma_names();
    lemma_colon(name);
}

proof fn lemma_mark(path: Seq<char>, rest: Seq<char>)
    requires
        !path.contains('?'),
        rest.len() == 0 || rest[0] == '?',
    ensures
        mark_at(path + rest) == path.len(),
    decreases path.len(),
{
    let target = path + rest;
    if path.len() == 0 {
        assert(target =~= rest);
    } else {
        assert(path.contains(path[0]));
        assert(target.skip(1) =~= path.skip(1) + rest);
        assert forall|i: int| 0 <= i < path.skip(1).len() implies path.skip(1)[i] != '?' by {
            assert(path.contains(path[i + 1]));
        }
        lemma_mark(path.skip(1), rest);
    }
}

proof fn lemma_marked(target: Seq<char>)
    ensures
        mark_at(target) <= target.len(),
        forall|i: int| 0 <= i < mark_at(target) ==> #[trigger] target[i] != '?',
        mark_at(target) < target.len() ==> target[mark_at(target) as int] == '?',
        target.contains('?') <==> mark_at(target) < target.len(),
    decreases target.len(),
{
    if target.len() > 0 && target[0] != '?' {
        let rest = target.skip(1);
        lemma_marked(rest);
        assert forall|i: int| 0 <= i < mark_at(target) implies #[trigger] target[i] != '?' by {
            if i > 0 {
                assert(rest[i - 1] == target[i]);
            }
        }
        if target.contains('?') {
            let k = target.index_of('?');
            assert(rest[k - 1] == '?');
        }
        if mark_at(target) < target.len() {
            assert(target[mark_at(target) as int] == rest[mark_at(rest) as int]);
        }
    }
}

/// What a `:path` does to path and query.
proof fn lemma_path_step(
    state: AuthzHttpModel,
    target: Seq<char>,
    path: Seq<char>,
    query: Seq<char>,
)
    ensures
        is_path_of(path, target) ==> state.with_header(":path"@, target).path == path,
        is_query_of(query, target) ==> state.with_header(":path"@, target).query == query,
        !target.contains('?') ==> state.with_header(":path"@, target).query == state.query,
        is_path_of(state.with_header(":path"@, target).path, target),
        target.contains('?') ==> is_query_of(
            state.with_header(":path"@, target).query,
            target,
        ),
{
    lemma_names();
    lemma_marked(target);
    let after = state.with_header(":path"@, target);
    let mark = mark_at(target) as int;
    if is_path_of(path, target) {
        if (path + seq!['?']).is_prefix_of(target) {
            let rest = target.skip(path.len() as int);
            let marked = path + seq!['?'];
            assert(marked == target.subrange(0, marked.len() as int));
            assert forall|i: int| 0 <= i < path.len() implies path[i] == target[i] by {
                assert(marked[i] == target.subrange(0, marked.len() as int)[i]);
            }
            assert(target[path.len() as int] == marked[path.len() as int]);
            assert(target =~= path + rest);
            lemma_mark(path, rest);
            assert(target.take(mark) =~= path);
        } else {
            assert(target =~= path + seq![]);
            lemma_mark(path, seq![]);
            assert(after.path == target);
        }
    }
    if is_query_of(query, target) {
        let before = choose|before: Seq<char>|
            #![trigger before.contains('?')]
            !before.contains('?') && target == before + seq!['?'] + query;
        assert(target =~= before + (seq!['?'] + query));
        lemma_mark(before, seq!['?'] + query);
        assert(target.skip(mark + 1) =~= query);
    }
    if target.contains('?') {
        let before = target.take(mark);
        assert(!before.contains('?')) by {
            if before.contains('?') {
                let k = before.index_of('?');
                assert(target[k] == '?');
            }
        }
        assert(target =~= before + seq!['?'] + target.skip(mark + 1));
        assert(target.subrange(0, mark + 1) =~= before + seq!['?']);
    }
}

/// What each part of the state is after the headers, by the last header that speaks of it.
proof fn lemma_last_counts(
    state: AuthzHttpModel,
    headers: Seq<(Seq<char>, Seq<char>)>,
    i: int,
    lower: Seq<char>,
)
    ensures
        ({
            let after = state.with_headers(headers);
            &&& is_last(headers, i, ":method"@) ==> after.method == headers[i].1
            &&& is_last(headers, i, ":authority"@) ==> after.host == headers[i].1
            &&& is_last(headers, i, ":scheme"@) ==> after.scheme == headers[i].1
            &&& is_last(headers, i, ":path"@) ==> is_path_of(after.path, headers[i].1)
            &&& is_last_query(headers, i) ==> is_query_of(after.query, headers[i].1)
            &&& is_last_id(headers, i) ==> after.request_id == headers[i].1
            &&& is_last_own(headers, i, lower) ==> after.headers.contains_key(lower)
                && after.headers[lower] == headers[i].1
        }),
    decreases headers.len(),
{
    if headers.len() > 0 {
        let rest = headers.drop_last();
        let last = headers.last();
        let n = headers.len() - 1;
        let before = state.with_headers(rest);
        lemma_header_step(before, last.0, last.1);
        assert(headers[n] == last);
        if last.0 == ":path"@ {
            lemma_path_step(before, last.1, seq![], seq![]);
        }
        if 0 <= i < n {
            assert(rest[i] == headers[i]);
            lemma_last_counts(state, rest, i, lower);
            assert forall|j: int| i < j < rest.len() implies rest[j] == headers[j] by {}
        }
    }
}

/// What each part of the state is after headers none of which speaks of it.
proof fn lemma_silence_counts(
    state: AuthzHttpModel,
    headers: Seq<(Seq<char>, Seq<char>)>,
    lower: Seq<char>,
)
    ensures
        ({
            let after = state.with_headers(headers);
            &&& is_silent(headers, ":method"@) ==> after.method == state.method
            &&& is_silent(headers, ":authority"@) ==> after.host == state.host
            &&& is_silent(headers, ":scheme"@) ==> after.scheme == state.scheme
            &&& is_silent(headers, ":path"@) ==> after.path == state.path
            &&& (forall|j: int| 0 <= j < headers.len() ==> !has_query(#[trigger] headers[j]))
                ==> after.query == state.query
            &&& (forall|j: int| 0 <= j < headers.len() ==> !is_id((#[trigger] headers[j]).0))
                ==> after.request_id == state.request_id
            &&& (forall|j: int|
                0 <= j < headers.len() ==> !is_own_as((#[trigger] headers[j]).0, lower))
                ==> !after.headers.contains_key(lower)
        }),
    decreases headers.len(),
{
    if headers.len() > 0 {
        let rest = headers.drop_last();
        let last = headers.last();
        let n = headers.len() - 1;
        let before = state.with_headers(rest);
        lemma_header_step(before, last.0, last.1);
        assert(headers[n] == last);
        if last.0 == ":path"@ {
            lemma_path_step(before, last.1, seq![], seq![]);
        }
        assert forall|j: int| 0 <= j < rest.len() implies rest[j] == headers[j] by {}
        lemma_silence_counts(state, rest, lower);
    }
}

/// Of headers of which one meets a condition, one is the last that meets it.
proof fn lemma_last_exists(
    headers: Seq<(Seq<char>, Seq<char>)>,
    meets: spec_fn((Seq<char>, Seq<char>)) -> bool,
    k: int,
) -> (i: int)
    requires
        0 <= k < headers.len(),
        meets(headers[k]),
    ensures
        0 <= i < headers.len(),
        meets(headers[i]),
        forall|j: int| i < j < headers.len() ==> !meets(#[trigger] headers[j]),
    decreases headers.len() - k,
{
    if exists|j: int| k < j < headers.len() && meets(#[trigger] headers[j]) {
        let j = choose|j: int| k < j < headers.len() && meets(#[trigger] headers[j]);
        lemma_last_exists(headers, meets, j)
    } else {
        k
    }
}

proof fn lemma_said(
    headers: Seq<(Seq<char>, Seq<char>)>,
    name: Seq<char>,
    value: Seq<char>,
    found: Seq<char>,
)
    requires
        is_said(headers, name, value),
        forall|i: int| #[trigger] is_last(headers, i, name) ==> found == headers[i].1,
        is_silent(headers, name) ==> found.len() == 0,
    ensures
        value == found,
{
    if !is_silent(headers, name) {
        let k = choose|k: int| 0 <= k < headers.len() && (#[trigger] headers[k]).0 == name;
        let i = lemma_last_exists(headers, |h: (Seq<char>, Seq<char>)| h.0 == name, k);
        assert forall|j: int| i < j < headers.len() implies (#[trigger] headers[j]).0 != name by {}
        assert(is_last(headers, i, name));
    } else {
        assert(value =~= found);
    }
}

/// Two texts that are the path of one target are the same, and so are two queries.
proof fn lemma_target_parts(
    target: Seq<char>,
    path: Seq<char>,
    other_path: Seq<char>,
    query: Seq<char>,
    other_query: Seq<char>,
    state: AuthzHttpModel,
)
    ensures
        is_path_of(path, target) && is_path_of(other_path, target) ==> path == other_path,
        is_query_of(query, target) && is_query_of(other_query, target) ==> query == other_query,
{
    lemma_path_step(state, target, path, query);
    lemma_path_step(state, target, other_path, other_query);
}

/// The state after the headers of a request has what they say.
proof fn lemma_state_described(
    state: AuthzHttpModel,
    headers: Seq<(Seq<char>, Seq<char>)>,
    http: HttpRequestModel,
)
    requires
        describes(headers, http),
        state.method.len() == 0,
        state.path.len() == 0,
        state.query.len() == 0,
        state.host.len() == 0,
        state.scheme.len() == 0,
        state.request_id.len() == 0,
    ensures
        ({
            let after = state.with_headers(headers);
            &&& after.method == http.method
            &&& after.path == http.path
            &&& after.query == http.query
            &&& after.host == http.host
            &&& after.scheme == http.scheme
            &&& after.request_id == http.id
            &&& after.headers == http.headers
        }),
{
    let after = state.with_headers(headers);
    lemma_silence_counts(state, headers, seq![]);
    assert forall|i: int| #[trigger] is_last(headers, i, ":method"@) implies after.method
        == headers[i].1 by {
        lemma_last_counts(state, headers, i, seq![]);
    }
    lemma_said(headers, ":method"@, http.method, after.method);
    assert forall|i: int| #[trigger] is_last(headers, i, ":authority"@) implies after.host
        == headers[i].1 by {
        lemma_last_counts(state, headers, i, seq![]);
    }
    lemma_said(headers, ":authority"@, http.host, after.host);
    assert forall|i: int| #[trigger] is_last(headers, i, ":scheme"@) implies after.scheme
        == headers[i].1 by {
        lemma_last_counts(state, headers, i, seq![]);
    }
    lemma_said(headers, ":scheme"@, http.scheme, after.scheme);
    if is_silent(headers, ":path"@) {
        assert(http.path =~= after.path);
    } else {
        let k = choose|k: int| 0 <= k < headers.len() && (#[trigger] headers[k]).0 == ":path"@;
        let i = lemma_last_exists(headers, |h: (Seq<char>, Seq<char>)| h.0 == ":path"@, k);
        assert(is_last(headers, i, ":path"@));
        lemma_last_counts(state, headers, i, seq![]);
        lemma_target_parts(headers[i].1, http.path, after.path, seq![], seq![], state);
    }
    if forall|j: int| 0 <= j < headers.len() ==> !has_query(#[trigger] headers[j]) {
        assert(http.query =~= after.query);
    } else {
        let k = choose|k: int| 0 <= k < headers.len() && has_query(#[trigger] headers[k]);
        let i = lemma_last_exists(headers, |h: (Seq<char>, Seq<char>)| has_query(h), k);
        assert(is_last_query(headers, i));
        lemma_last_counts(state, headers, i, seq![]);
        lemma_target_parts(headers[i].1, seq![], seq![], http.query, after.query, state);
    }
    if forall|j: int| 0 <= j < headers.len() ==> !is_id((#[trigger] headers[j]).0) {
        assert(http.id =~= after.request_id);
    } else {
        let k = choose|k: int| 0 <= k < headers.len() && is_id((#[trigger] headers[k]).0);
        let i = lemma_last_exists(headers, |h: (Seq<char>, Seq<char>)| is_id(h.0), k);
        assert(is_last_id(headers, i));
        lemma_last_counts(state, headers, i, seq![]);
    }
    assert forall|lower: Seq<char>| #[trigger]
        after.headers.dom().contains(lower) <==> http.headers.dom().contains(lower) by {
        lemma_own_header(state, headers, http, lower);
    }
    assert forall|lower: Seq<char>| after.headers.dom().contains(lower) implies
        #[trigger] after.headers[lower] == http.headers[lower] by {
        lemma_own_header(state, headers, http, lower);
    }
    assert(after.headers =~= http.headers);
}

proof fn lemma_own_header(
    state: AuthzHttpModel,
    headers: Seq<(Seq<char>, Seq<char>)>,
    http: HttpRequestModel,
    lower: Seq<char>,
)
    requires
        describes(headers, http),
    ensures
        ({
            let after = state.with_headers(headers);
            &&& after.headers.contains_key(lower) <==> http.headers.contains_key(lower)
            &&& after.headers.contains_key(lower) ==> after.headers[lower] == http.headers[lower]
        }),
{
    lemma_silence_counts(state, headers, lower);
    if exists|k: int| 0 <= k < headers.len() && is_own_as((#[trigger] headers[k]).0, lower) {
        let k = choose|k: int|
            0 <= k < headers.len() && is_own_as((#[trigger] headers[k]).0, lower);
        let i = lemma_last_exists(headers, |h: (Seq<char>, Seq<char>)| is_own_as(h.0, lower), k);
        assert(is_last_own(headers, i, lower));
        lemma_last_counts(state, headers, i, lower);
    } else {
        if http.headers.contains_key(lower) {
            let i = choose|i: int| is_last_own(headers, i, lower);
            assert(is_own_as(headers[i].0, lower));
        }
    }
}

pub(crate) proof fn lemma_announced(headers: Seq<(Seq<char>, Seq<char>)>, max: usize)
    requires
        forall|i: int|
            0 <= i < headers.len() ==> !announces_too_much(#[trigger] headers[i], max),
    ensures
        announced_length(headers) matches Some(length) ==> length <= max,
    decreases headers.len(),
{
    if headers.len() > 0 {
        let rest = headers.drop_last();
        assert(headers[headers.len() - 1] == headers.last());
        assert forall|i: int| 0 <= i < rest.len() implies !announces_too_much(
            #[trigger] rest[i],
            max,
        ) by {
            assert(rest[i] == headers[i]);
        }
        lemma_announced(rest, max);
    }
}

/// Whether the service, or the cache before it, is asked about the given request: the check is
/// about it, and so is the key.
pub open spec fn asks_about(
    cache: CacheConfigModel,
    timeout_ms: u64,
    after: AuthzHttpModel,
    command: CommandModel,
    http: HttpRequestModel,
) -> bool {
    let check = check_about(http);
    if cache.enabled {
        let key = key_text(request_hash_under(check, cache.header_policy));
        &&& after.cache_key == Some(key)
        &&& command == (CommandModel::ReadCache {
            shared_key: "cextauthz.cache.shard."@ + decimal_text(shard_of(key)),
            check,
        })
    } else {
        command == CommandModel::Call(
            GrpcCallModel {
                cluster: "ext_authz"@,
                service: "envoy.service.auth.v3.Authorization"@,
                method: "Check"@,
                metadata: seq![],
                message: check.encoded(),
                timeout_ms,
            },
        )
    }
}

/// The service, or the cache before it, is asked about the request that came in: its method,
/// path, query, host, scheme, number, headers and body are those that the headers say and that
/// the proxy handed over, whether or not there is a body.
pub proof fn law_request_is_described(
    settings: PluginSettingsModel,
    headers: Seq<(Seq<char>, Seq<char>)>,
    body: Seq<u8>,
    http: HttpRequestModel,
)
    requires
        describes(headers, http),
        has_body(http, body),
        body.len() <= settings.max_request_body_bytes,
        forall|i: int|
            0 <= i < headers.len() ==> !announces_too_much(
                #[trigger] headers[i],
                settings.max_request_body_bytes,
            ),
        !(http.method == "POST"@ && http.path == "/_cextauthz/cache/invalidate"@),
    ensures
        body.len() == 0 ==> {
            let (after, command) = AuthzHttpModel::new(settings).on_headers(headers, true);
            asks_about(settings.cache, settings.timeout_ms, after, command, http)
        },
        body.len() > 0 ==> {
            let (head, hold) = AuthzHttpModel::new(settings).on_headers(headers, false);
            let (after, command) = head.on_body(body.len() as usize, Some(body), true);
            &&& hold is Pause
            &&& asks_about(settings.cache, settings.timeout_ms, after, command, http)
        },
{
    let state = AuthzHttpModel::new(settings);
    lemma_state_described(state, headers, http);
    lemma_announced(headers, settings.max_request_body_bytes);
    lemma_rest_kept(state, headers);
    assert(http.fragment =~= seq![]);
    assert(http.protocol =~= seq![]);
    let read = state.with_headers(headers);
    if body.len() == 0 {
        assert(body =~= read.body_buf);
    } else {
        assert(read.body_buf + body =~= body);
    }
}

/// Once all of a body has come in, the service or the cache is asked about the request with the
/// whole of it, in however many pieces it came.
pub proof fn law_whole_body_is_asked_about(
    state: AuthzHttpModel,
    body_size: usize,
    chunk: Option<Seq<u8>>,
    body: Seq<u8>,
    http: HttpRequestModel,
)
    requires
        !state.dispatched,
        !state.is_invalidation_request,
        body_size <= state.max_request_body_bytes,
        chunk is Some && body_size > state.body_seen ==> body == state.body_buf + chunk->0,
        chunk is None || body_size <= state.body_seen ==> body == state.body_buf,
        http.method == state.method,
        http.path == state.path,
        http.query == state.query,
        http.host == state.host,
        http.scheme == state.scheme,
        http.id == state.request_id,
        http.headers == state.headers,
        http.fragment.len() == 0,
        http.protocol.len() == 0,
        has_body(http, body),
    ensures
        ({
            let (after, command) = state.on_body(body_size, chunk, true);
            asks_about(state.cache_config, state.timeout_ms, after, command, http)
        }),
{
    assert(http.fragment =~= seq![]);
    assert(http.protocol =~= seq![]);
}

/// Headers leave the settings and the body alone.
pub(crate) proof fn lemma_rest_kept(
    state: AuthzHttpModel,
    headers: Seq<(Seq<char>, Seq<char>)>,
)
    ensures
        ({
            let after = state.with_headers(headers);
            &&& after.grpc_token == state.grpc_token
            &&& after.timeout_ms == state.timeout_ms
            &&& after.grpc_cluster == state.grpc_cluster
            &&& after.max_request_body_bytes == state.max_request_body_bytes
            &&& after.cache_config == state.cache_config
            &&& after.cache_key == state.cache_key
            &&& after.invalidation_secret == state.invalidation_secret
            &&& after.is_invalidation_request == state.is_invalidation_request
            &&& after.dispatched == state.dispatched
            &&& after.body_buf == state.body_buf
            &&& after.body_seen == state.body_seen
        }),
    decreases headers.len(),
{
    if headers.len() > 0 {
        lemma_rest_kept(state, headers.drop_last());
    }
}

/// The last header that speaks of a part of the request counts, also where the state had that
/// part already.
pub proof fn law_last_header_counts(
    state: AuthzHttpModel,
    headers: Seq<(Seq<char>, Seq<char>)>,
    i: int,
    lower: Seq<char>,
)
    ensures
        ({
            let after = state.with_headers(headers);
            &&& is_last(headers, i, ":method"@) ==> after.method == headers[i].1
            &&& is_last(headers, i, ":authority"@) ==> after.host == headers[i].1
            &&& is_last(headers, i, ":scheme"@) ==> after.scheme == headers[i].1
            &&& is_last(headers, i, ":path"@) ==> is_path_of(after.path, headers[i].1)
            &&& is_last_query(headers, i) ==> is_query_of(after.query, headers[i].1)
            &&& is_last_id(headers, i) ==> after.request_id == headers[i].1
            &&& is_last_own(headers, i, lower) ==> after.headers.contains_key(lower)
                && after.headers[lower] == headers[i].1
            &&& is_silent(headers, ":method"@) ==> after.method == state.method
            &&& is_silent(headers, ":authority"@) ==> after.host == state.host
            &&& is_silent(headers, ":scheme"@) ==> after.scheme == state.scheme
            &&& is_silent(headers, ":path"@) ==> after.path == state.path && after.query
                == state.query
        }),
{
    lemma_last_counts(state, headers, i, lower);
    lemma_silence_counts(state, headers, lower);
}

} // verus!
