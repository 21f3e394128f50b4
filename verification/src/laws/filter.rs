//! Laws on what the filter does with a request.
use crate::cache::entry::{lemma_decoded_finite, shard_decoded, CacheEntryModel};
use crate::cache::shard::{live_entries, shard_of};
use crate::cache::update::{
    law_write_is_read_back, lemma_live_finite, ShardChangeModel, ShardUpdateModel,
};
use crate::config::PluginSettingsModel;
use crate::filter::command::{reply_headers, CommandModel};
use crate::filter::http::{announced_length, expiry, on_purge_read, AuthzHttpModel};
use crate::filter::root::text_of_configuration;
use crate::invalidation::{fault_of, InvalidationRequestModel};
use crate::laws::cache::law_quota_keeps_the_latest;
use crate::laws::decision::{
    asked_headers, denies_with, is_body_of, is_status_of, law_acceptance_is_the_services,
    law_denial_is_the_services,
};
use crate::laws::request::{announces_too_much, lemma_announced, lemma_rest_kept};
use crate::pb::check_response::HttpResponseModel;
use crate::pb::{
    CheckRequestModel, CheckResponse, CheckResponseModel, DeniedHttpResponseModel,
    OkHttpResponseModel,
};
use crate::text::ascii_lowered;
use crate::text::numbers::{decimal_text, number_spelled};
use crate::wire::decoded;
use vstd::prelude::*;
use vstd::utf8::{encode_utf8, valid_utf8};

verus! {

/// Whether a header is `content-type`, in any case.
pub open spec fn is_content_type(header: (Seq<char>, Seq<char>)) -> bool {
    ascii_lowered(header.0) == "content-type"@
}

/// Whether a reply has the given headers, all of them, in their order and with nothing behind
/// them. Where none of them is a `content-type`, one that says plain text stands before them.
pub open spec fn has_headers(
    reply: Seq<(Seq<char>, Seq<char>)>,
    headers: Seq<(Seq<char>, Seq<char>)>,
) -> bool {
    &&& reply.len() == headers.len() || reply.len() == headers.len() + 1
    &&& reply.skip(reply.len() - headers.len()) == headers
    &&& (exists|i: int| 0 <= i < headers.len() && is_content_type(#[trigger] headers[i]))
        <==> reply.len() == headers.len()
    &&& reply.len() > headers.len() ==> reply[0] == ("content-type"@, "text/plain"@)
}

/// Whether the request is answered with the given plain text.
pub open spec fn answers(command: CommandModel, status: u32, text: Seq<char>) -> bool {
    &&& command matches CommandModel::Reply(reply)
    &&& reply.status == status
    &&& reply.body == Some(text)
    &&& reply.headers.len() == 1
    &&& reply.headers[0] == ("content-type"@, "text/plain"@)
}

/// Whether the authorization service is called with the given check.
pub open spec fn calls_with(
    command: CommandModel,
    check: CheckRequestModel,
    timeout_ms: u64,
) -> bool {
    &&& command matches CommandModel::Call(call)
    &&& call.cluster == "ext_authz"@
    &&& call.service == "envoy.service.auth.v3.Authorization"@
    &&& call.method == "Check"@
    &&& call.metadata.len() == 0
    &&& call.message == check.encoded()
    &&& call.timeout_ms == timeout_ms
}

/// Whether the request is turned away as the given denial says.
pub open spec fn turns_away(command: CommandModel, denied: DeniedHttpResponseModel) -> bool {
    &&& command matches CommandModel::Reply(reply)
    &&& is_status_of(reply.status, denied)
    &&& reply.body matches Some(body)
    &&& is_body_of(body, denied)
    &&& has_headers(reply.headers, asked_headers(denied.headers))
}

/// Whether a decision made at a time expires when it has stood as long as decisions stand, or
/// never where there is no such time.
pub open spec fn expires_after(expires_at_ms: u64, now_ms: u64, ttl_ms: u64) -> bool {
    if now_ms as int + ttl_ms as int <= 0xffff_ffff_ffff_ffff {
        expires_at_ms as int == now_ms as int + ttl_ms as int
    } else {
        expires_at_ms == 0xffff_ffff_ffff_ffff
    }
}

/// A reply has the headers it is given, all of them, and a `content-type`.
pub proof fn law_reply_keeps_headers(headers: Seq<(Seq<char>, Seq<char>)>)
    ensures
        has_headers(reply_headers(headers), headers),
{
    let reply = reply_headers(headers);
    assert(reply.skip(reply.len() - headers.len()) =~= headers);
    if exists|i: int| 0 <= i < headers.len() && is_content_type(#[trigger] headers[i]) {
        let i = choose|i: int| 0 <= i < headers.len() && is_content_type(#[trigger] headers[i]);
        assert(ascii_lowered(headers[i].0) == "content-type"@);
    } else {
        assert forall|i: int| 0 <= i < headers.len() implies ascii_lowered(
            (#[trigger] headers[i]).0,
        ) != "content-type"@ by {
            assert(!is_content_type(headers[i]));
        }
    }
}

/// A decision expires when it has stood as long as decisions stand.
pub proof fn law_expiry(now_ms: u64, ttl_ms: u64)
    ensures
        expires_after(expiry(now_ms, ttl_ms), now_ms, ttl_ms),
{
}

/// A denial is answered with the service's status, its body and all its headers.
pub proof fn law_denial_is_answered(
    state: AuthzHttpModel,
    body: Seq<u8>,
    response: CheckResponseModel,
    denied: DeniedHttpResponseModel,
    now_ms: u64,
)
    requires
        decoded::<CheckResponse>(body) == Some(response),
        denies_with(response, denied),
    ensures
        turns_away(state.on_answer(Some(body), now_ms).command, denied),
{
    law_denial_is_the_services(response, denied);
    law_reply_keeps_headers(asked_headers(denied.headers));
}

/// A request that is accepted goes on, with all the headers that the service asks for.
pub proof fn law_acceptance_lets_pass(
    state: AuthzHttpModel,
    body: Seq<u8>,
    response: CheckResponseModel,
    accepted: OkHttpResponseModel,
    now_ms: u64,
)
    requires
        decoded::<CheckResponse>(body) == Some(response),
        response.http_response == Some(HttpResponseModel::OkResponse(accepted)),
    ensures
        state.on_answer(Some(body), now_ms).command == (CommandModel::Resume {
            request_headers: asked_headers(accepted.headers),
        }),
{
    law_acceptance_is_the_services(response, accepted);
}

/// An answer that decides nothing turns the request away: with 500 and what is wrong where there
/// is none or it cannot be read, which leaves the cache alone, and with 403 where it is silent.
pub proof fn law_no_decision_turns_away(state: AuthzHttpModel, body: Seq<u8>, now_ms: u64)
    ensures
        answers(state.on_answer(None, now_ms).command, 500, "Empty authz response"@),
        state.on_answer(None, now_ms).updates.len() == 0,
        decoded::<CheckResponse>(body) is None ==> {
            &&& answers(
                state.on_answer(Some(body), now_ms).command,
                500,
                "Invalid authz response"@,
            )
            &&& state.on_answer(Some(body), now_ms).updates.len() == 0
        },
        decoded::<CheckResponse>(body) matches Some(response) && response.http_response is None
            ==> answers(state.on_answer(Some(body), now_ms).command, 403, "Forbidden"@),
{
    if decoded::<CheckResponse>(body) matches Some(response) && response.http_response is None {
        law_reply_keeps_headers(seq![]);
    }
}

/// Whether a cached decision says what an answer says.
pub open spec fn keeps_answer(entry: CacheEntryModel, response: CheckResponseModel) -> bool {
    match response.http_response {
        Some(HttpResponseModel::OkResponse(accepted)) => {
            &&& entry.allowed
            &&& entry.request_headers == asked_headers(accepted.headers)
            &&& entry.response_headers.len() == 0
            &&& entry.denied_body.len() == 0
            &&& entry.denied_status == 0
        },
        Some(HttpResponseModel::DeniedResponse(denied)) | Some(
            HttpResponseModel::ErrorResponse(denied),
        ) => {
            &&& !entry.allowed
            &&& is_status_of(entry.denied_status, denied)
            &&& is_body_of(entry.denied_body, denied)
            &&& entry.response_headers == asked_headers(denied.headers)
            &&& entry.request_headers.len() == 0
        },
        None => {
            &&& !entry.allowed
            &&& entry.denied_status == 403
            &&& entry.denied_body == "Forbidden"@
            &&& entry.response_headers.len() == 0
            &&& entry.request_headers.len() == 0
        },
    }
}

/// Whether an update stores the given decision under a key, in the key's shard, within the least
/// quota by which all shards together hold `max_entries`, with three attempts.
pub open spec fn stores(
    update: ShardUpdateModel,
    key: Seq<char>,
    response: CheckResponseModel,
    now_ms: u64,
    ttl_ms: u64,
    max_entries: usize,
) -> bool {
    &&& update.shared_key == "cextauthz.cache.shard."@ + decimal_text(shard_of(key))
    &&& update.attempts == 3
    &&& update.change matches ShardChangeModel::Store { cache_key, entry, quota }
    &&& cache_key == key
    &&& keeps_answer(entry, response)
    &&& expires_after(entry.expires_at_ms, now_ms, ttl_ms)
    &&& quota >= 1
    &&& 16 * quota >= max_entries
    &&& quota > 1 ==> 16 * (quota - 1) < max_entries
}

/// A decision is stored where the cache is on and the request has a key: under that key, until
/// it has stood as long as decisions stand. Where there is no cache or no key, nothing is.
pub proof fn law_decision_is_stored(
    state: AuthzHttpModel,
    body: Seq<u8>,
    response: CheckResponseModel,
    now_ms: u64,
)
    requires
        decoded::<CheckResponse>(body) == Some(response),
    ensures
        ({
            let updates = state.on_answer(Some(body), now_ms).updates;
            match state.cache_key {
                Some(key) => if state.cache_config.enabled {
                    &&& updates.len() == 1
                    &&& stores(
                        updates[0],
                        key,
                        response,
                        now_ms,
                        state.cache_config.ttl_ms,
                        state.cache_config.max_entries,
                    )
                } else {
                    updates.len() == 0
                },
                None => updates.len() == 0,
            }
        }),
{
    match response.http_response {
        Some(HttpResponseModel::OkResponse(accepted)) => {
            law_acceptance_is_the_services(response, accepted);
        },
        Some(HttpResponseModel::DeniedResponse(denied)) => {
            law_denial_is_the_services(response, denied);
        },
        Some(HttpResponseModel::ErrorResponse(denied)) => {
            law_denial_is_the_services(response, denied);
        },
        None => {},
    }
}

/// A decision of the cache is used exactly until it expires: what was allowed goes on with the
/// headers kept for it, what was denied is answered with the status, body and headers kept for
/// it, and without a decision the service is asked.
pub proof fn law_cache_decides_until_expiry(
    state: AuthzHttpModel,
    check: CheckRequestModel,
    bytes: Option<Seq<u8>>,
    now_ms: u64,
)
    ensures
        ({
            let command = state.on_cache_read(check, bytes, now_ms);
            let shard = shard_decoded(bytes);
            match state.cache_key {
                Some(key) => if shard.contains_key(key) && now_ms < shard[key].expires_at_ms {
                    let entry = shard[key];
                    if entry.allowed {
                        command == (CommandModel::Forward {
                            request_headers: entry.request_headers,
                        })
                    } else {
                        &&& command matches CommandModel::Reply(reply)
                        &&& reply.status == entry.denied_status
                        &&& has_headers(reply.headers, entry.response_headers)
                        &&& entry.denied_body.len() > 0 ==> reply.body == Some(entry.denied_body)
                        &&& entry.denied_body.len() == 0 ==> reply.body == Some("Forbidden"@)
                    }
                } else {
                    calls_with(command, check, state.timeout_ms)
                },
                None => calls_with(command, check, state.timeout_ms),
            }
        }),
{
    if let Some(key) = state.cache_key {
        law_reply_keeps_headers(shard_decoded(bytes)[key].response_headers);
    }
}

/// Once a decision has stood as long as decisions stand, the service is asked again: whatever the
/// shard held before, and however long after the decision it was written.
pub proof fn law_expired_decision_is_asked_for(
    state: AuthzHttpModel,
    later: AuthzHttpModel,
    check: CheckRequestModel,
    body: Seq<u8>,
    response: CheckResponseModel,
    key: Seq<char>,
    current: Option<Seq<u8>>,
    decided_ms: u64,
    written_ms: u64,
    now_ms: u64,
)
    requires
        decoded::<CheckResponse>(body) == Some(response),
        state.cache_config.enabled,
        state.cache_key == Some(key),
        later.cache_key == Some(key),
        now_ms >= decided_ms + state.cache_config.ttl_ms,
        state.on_answer(Some(body), decided_ms).updates[0].change.bytes_after(
            current,
            written_ms,
        ).len() <= u64::MAX,
    ensures
        ({
            let update = state.on_answer(Some(body), decided_ms).updates[0];
            let shard = update.change.bytes_after(current, written_ms);
            calls_with(later.on_cache_read(check, Some(shard), now_ms), check, later.timeout_ms)
        }),
{
    let update = state.on_answer(Some(body), decided_ms).updates[0];
    let shard = update.change.bytes_after(current, written_ms);
    law_decision_is_stored(state, body, response, decided_ms);
    law_cache_decides_until_expiry(later, check, Some(shard), now_ms);
    law_write_is_read_back(update.change, current, written_ms);
    lemma_decoded_finite(current);
    let before = shard_decoded(current);
    lemma_live_finite(before, written_ms);
    if let ShardChangeModel::Store { cache_key, entry, quota } = update.change {
        let live = live_entries(before, written_ms);
        law_quota_keeps_the_latest(live.insert(cache_key, entry), quota);
    }
}

/// Whether two states are about the same settings.
pub open spec fn same_settings(state: AuthzHttpModel, after: AuthzHttpModel) -> bool {
    &&& after.timeout_ms == state.timeout_ms
    &&& after.grpc_cluster == state.grpc_cluster
    &&& after.max_request_body_bytes == state.max_request_body_bytes
    &&& after.cache_config == state.cache_config
    &&& after.invalidation_secret == state.invalidation_secret
}

/// Whether two states are about the same request as it has come in so far.
pub open spec fn same_request(state: AuthzHttpModel, after: AuthzHttpModel) -> bool {
    &&& after.method == state.method
    &&& after.path == state.path
    &&& after.query == state.query
    &&& after.host == state.host
    &&& after.scheme == state.scheme
    &&& after.request_id == state.request_id
    &&& after.headers == state.headers
    &&& after.is_invalidation_request == state.is_invalidation_request
}

/// A state starts with its settings and without a request.
pub proof fn law_fresh_state(settings: PluginSettingsModel, name: Seq<char>)
    ensures
        ({
            let state = AuthzHttpModel::new(settings);
            &&& state.timeout_ms == settings.timeout_ms
            &&& state.grpc_cluster == settings.grpc_cluster
            &&& state.max_request_body_bytes == settings.max_request_body_bytes
            &&& state.cache_config == settings.cache
            &&& state.invalidation_secret == settings.invalidation_secret
            &&& state.grpc_token is None
            &&& state.cache_key is None
            &&& !state.is_invalidation_request
            &&& !state.dispatched
            &&& state.method.len() == 0
            &&& state.path.len() == 0
            &&& state.query.len() == 0
            &&& state.host.len() == 0
            &&& state.scheme.len() == 0
            &&& state.request_id.len() == 0
            &&& !state.headers.contains_key(name)
            &&& state.body_buf.len() == 0
            &&& state.body_seen == 0
        }),
{
}

/// No event changes the settings, and none but the end and the making of a call changes which
/// call is under way.
pub proof fn law_settings_stay(
    state: AuthzHttpModel,
    headers: Seq<(Seq<char>, Seq<char>)>,
    body_size: usize,
    chunk: Option<Seq<u8>>,
    end_of_stream: bool,
    token: Option<u32>,
    token_id: u32,
    status_code: u32,
)
    ensures
        same_settings(state, state.on_headers(headers, end_of_stream).0),
        same_settings(state, state.on_body(body_size, chunk, end_of_stream).0),
        same_settings(state, state.on_call_made(token).0),
        same_settings(state, state.on_call_ended(token_id, status_code).0),
        state.on_headers(headers, end_of_stream).0.grpc_token == state.grpc_token,
        state.on_body(body_size, chunk, end_of_stream).0.grpc_token == state.grpc_token,
{
    lemma_rest_kept(state, headers);
}

/// A call that was made is waited for. One that could not be made turns the request away.
pub proof fn law_call_is_waited_for(state: AuthzHttpModel, token: Option<u32>)
    ensures
        ({
            let (after, command) = state.on_call_made(token);
            &&& token is Some ==> after.grpc_token == token && command is Pause
            &&& token is None ==> after == state && answers(
                command,
                503,
                "Authz service unavailable"@,
            )
            &&& same_request(state, after)
            &&& after.cache_key == state.cache_key
            &&& after.dispatched == state.dispatched
            &&& after.body_buf == state.body_buf
            &&& after.body_seen == state.body_seen
        }),
{
}

/// The end of the call that is waited for is its answer where the call went well, and turns the
/// request away where it did not. The end of any other call changes nothing.
pub proof fn law_call_ends(state: AuthzHttpModel, token_id: u32, status_code: u32)
    ensures
        ({
            let (after, command) = state.on_call_ended(token_id, status_code);
            &&& state.grpc_token != Some(token_id) ==> after == state && command is Ignore
            &&& state.grpc_token == Some(token_id) ==> {
                &&& after.grpc_token is None
                &&& status_code == 0 ==> command is ReadAnswer
                &&& status_code != 0 ==> answers(command, 503, "Authz service unavailable"@)
            }
            &&& same_request(state, after)
            &&& after.cache_key == state.cache_key
            &&& after.dispatched == state.dispatched
            &&& after.body_buf == state.body_buf
            &&& after.body_seen == state.body_seen
        }),
{
}

/// Whether the header at `i` is the last `content-length` that is a number, and that number.
pub open spec fn announces(headers: Seq<(Seq<char>, Seq<char>)>, i: int, length: nat) -> bool {
    &&& 0 <= i < headers.len()
    &&& ascii_lowered(headers[i].0) == "content-length"@
    &&& number_spelled(headers[i].1, 10, usize::MAX as nat) == Some(length)
    &&& forall|j: int|
        i < j < headers.len() && ascii_lowered((#[trigger] headers[j]).0) == "content-length"@
            ==> number_spelled(headers[j].1, 10, usize::MAX as nat) is None
}

/// The length that is announced is that of the last `content-length` that is a number.
pub proof fn law_announced_length(
    headers: Seq<(Seq<char>, Seq<char>)>,
    i: int,
    length: nat,
)
    ensures
        announces(headers, i, length) ==> announced_length(headers) == Some(length),
        (forall|j: int|
            0 <= j < headers.len() && ascii_lowered((#[trigger] headers[j]).0)
                == "content-length"@ ==> number_spelled(headers[j].1, 10, usize::MAX as nat)
                is None) ==> announced_length(headers) is None,
    decreases headers.len(),
{
    if headers.len() > 0 {
        let rest = headers.drop_last();
        assert(headers[headers.len() - 1] == headers.last());
        assert forall|j: int| 0 <= j < rest.len() implies rest[j] == headers[j] by {}
        law_announced_length(rest, i, length);
    }
}

/// A request that announces, or shows, a longer body than is taken is refused with 413, whatever
/// it asks for. One that does neither is not.
pub proof fn law_long_body_is_refused(
    state: AuthzHttpModel,
    headers: Seq<(Seq<char>, Seq<char>)>,
    i: int,
    length: nat,
    body_size: usize,
    chunk: Option<Seq<u8>>,
    end_of_stream: bool,
)
    requires
        !state.dispatched,
    ensures
        announces(headers, i, length) && length > state.max_request_body_bytes ==> {
            let (after, command) = state.on_headers(headers, end_of_stream);
            after.dispatched && answers(command, 413, "Payload Too Large"@)
        },
        body_size > state.max_request_body_bytes ==> {
            let (after, command) = state.on_body(body_size, chunk, end_of_stream);
            &&& after.dispatched
            &&& answers(command, 413, "Payload Too Large"@)
            &&& same_request(state, after)
        },
        announces(headers, i, length) && length <= state.max_request_body_bytes ==> !answers(
            state.on_headers(headers, end_of_stream).1,
            413,
            "Payload Too Large"@,
        ),
        body_size <= state.max_request_body_bytes ==> !answers(
            state.on_body(body_size, chunk, end_of_stream).1,
            413,
            "Payload Too Large"@,
        ),
{
    law_announced_length(headers, i, length);
}

/// What is read of a body is what has not been read yet, and no body that is too long or no
/// longer wanted is read.
pub proof fn law_body_is_read_once(state: AuthzHttpModel, body_size: usize)
    ensures
        match state.window(body_size) {
            Some((start, length)) => {
                &&& start == state.body_seen
                &&& start as int + length as int == body_size as int
                &&& length > 0
                &&& body_size <= state.max_request_body_bytes
                &&& !state.dispatched
            },
            None => state.dispatched || body_size > state.max_request_body_bytes || body_size
                <= state.body_seen,
        },
{
}

/// What comes in of a body is put behind what has come in before, and the request is held until
/// all of it is there.
pub proof fn law_body_is_collected(
    state: AuthzHttpModel,
    body_size: usize,
    chunk: Option<Seq<u8>>,
)
    requires
        !state.dispatched,
        body_size <= state.max_request_body_bytes,
    ensures
        ({
            let (after, command) = state.on_body(body_size, chunk, false);
            &&& command is Pause
            &&& !after.dispatched
            &&& same_request(state, after)
            &&& after.cache_key == state.cache_key
            &&& after.body_seen >= body_size && after.body_seen >= state.body_seen
            &&& after.body_seen == body_size || after.body_seen == state.body_seen
            &&& chunk is Some && body_size > state.body_seen ==> after.body_buf == state.body_buf
                + chunk->0
            &&& chunk is None || body_size <= state.body_seen ==> after.body_buf
                == state.body_buf
        }),
{
}

/// Once a request is being checked nothing of it is kept, and nothing is done for it again.
pub proof fn law_checked_request_is_let_go(
    state: AuthzHttpModel,
    body_size: usize,
    chunk: Option<Seq<u8>>,
    name: Seq<char>,
)
    requires
        !state.dispatched,
        !state.is_invalidation_request,
        body_size <= state.max_request_body_bytes,
    ensures
        ({
            let (after, _) = state.on_body(body_size, chunk, true);
            &&& after.dispatched
            &&& after.method.len() == 0
            &&& after.path.len() == 0
            &&& after.query.len() == 0
            &&& after.host.len() == 0
            &&& after.scheme.len() == 0
            &&& after.request_id.len() == 0
            &&& !after.headers.contains_key(name)
            &&& after.body_buf.len() == 0
            &&& !state.cache_config.enabled ==> after.cache_key == state.cache_key
        }),
{
}

/// Whether a state knows the secret that purges need.
pub open spec fn knows_secret(state: AuthzHttpModel) -> bool {
    &&& state.invalidation_secret.len() > 0
    &&& state.headers.contains_key("x-cextauthz-invalidation-secret"@)
    &&& state.headers["x-cextauthz-invalidation-secret"@] == state.invalidation_secret
}

/// A request is one to purge exactly where it is a `POST` to the purge path. Once it is there, it
/// is read where it knows the secret, and refused with 401 where it does not.
pub proof fn law_purge_is_guarded(
    state: AuthzHttpModel,
    headers: Seq<(Seq<char>, Seq<char>)>,
    body_size: usize,
    chunk: Option<Seq<u8>>,
)
    requires
        !state.dispatched,
        forall|i: int|
            0 <= i < headers.len() ==> !announces_too_much(
                #[trigger] headers[i],
                state.max_request_body_bytes,
            ),
        body_size <= state.max_request_body_bytes,
    ensures
        ({
            let read = state.with_headers(headers);
            let purge = read.method == "POST"@ && read.path == "/_cextauthz/cache/invalidate"@;
            let (held, hold) = state.on_headers(headers, false);
            let (after, command) = state.on_headers(headers, true);
            &&& held.is_invalidation_request == purge
            &&& !held.dispatched
            &&& purge ==> hold is Continue
            &&& !purge ==> hold is Pause
            &&& after.dispatched
            &&& purge && knows_secret(read) ==> command is ReadInvalidation
            &&& purge && !knows_secret(read) ==> answers(command, 401, "Unauthorized"@)
        }),
        state.is_invalidation_request ==> {
            let (after, command) = state.on_body(body_size, chunk, true);
            &&& after.dispatched
            &&& knows_secret(state) ==> command is ReadInvalidation
            &&& !knows_secret(state) ==> answers(command, 401, "Unauthorized"@)
        },
{
    lemma_announced(headers, state.max_request_body_bytes);
    lemma_rest_kept(state, headers);
}

/// Whether a key has the form of a cache key: the characters of `cache:`, and then anything.
pub open spec fn is_key(key: Seq<char>) -> bool {
    &&& key.len() >= 6
    &&& key[0] == 'c' && key[1] == 'a' && key[2] == 'c'
    &&& key[3] == 'h' && key[4] == 'e' && key[5] == ':'
}

proof fn lemma_is_key(key: Seq<char>)
    ensures
        "cache:"@.is_prefix_of(key) <==> is_key(key),
{
    reveal_strlit("cache:");
    assert("cache:"@.len() == 6);
    if is_key(key) {
        assert("cache:"@ =~= key.subrange(0, 6));
    }
    if "cache:"@.is_prefix_of(key) {
        let start = key.subrange(0, 6);
        assert(start == "cache:"@);
        assert(start[0] == 'c' && start[1] == 'a' && start[2] == 'c');
        assert(start[3] == 'h' && start[4] == 'e' && start[5] == ':');
    }
}

/// A purge request is faulty where its version is not 1, and where it is about one key and that
/// key is missing or is none by its form. Nothing else is wrong with any.
pub proof fn law_purge_faults(request: InvalidationRequestModel)
    ensures
        match fault_of(request) {
            Some(fault) => {
                ||| fault == "unsupported version"@ && request.version != 1
                ||| fault == "purge_key requires key"@ && request.version == 1
                    && request.op is PurgeKey && request.key is None
                ||| fault == "invalid cache key"@ && request.version == 1
                    && request.op is PurgeKey && request.key is Some && !is_key(request.key->0)
            },
            None => request.version == 1 && (request.op is PurgeKey ==> request.key is Some
                && is_key(request.key->0)),
        },
{
    if let Some(key) = request.key {
        lemma_is_key(key);
    }
}

/// A purge request without a fault is carried out and answered with 204 and nothing else: for one
/// key, that key is removed from its shard; for all, each of the sixteen shards is cleared. One
/// that cannot be read or has a fault is answered with 400 and what is wrong, and changes nothing.
pub proof fn law_purge_is_carried_out(request: InvalidationRequestModel, id: int)
    ensures
        ({
            let step = on_purge_read(Err(()));
            step.updates.len() == 0 && answers(step.command, 400, "invalid json"@)
        }),
        ({
            let step = on_purge_read(Ok(request));
            match fault_of(request) {
                Some(fault) => step.updates.len() == 0 && answers(step.command, 400, fault),
                None => {
                    &&& step.command matches CommandModel::Reply(reply)
                    &&& reply.status == 204
                    &&& reply.headers.len() == 0
                    &&& reply.body is None
                    &&& request.op is PurgeKey ==> {
                        &&& step.updates.len() == 1
                        &&& step.updates[0].change == (ShardChangeModel::Remove {
                            cache_key: request.key->0,
                        })
                        &&& step.updates[0].shared_key == "cextauthz.cache.shard."@
                            + decimal_text(shard_of(request.key->0))
                        &&& step.updates[0].attempts == 3
                    }
                    &&& request.op is PurgeAll ==> {
                        &&& step.updates.len() == 16
                        &&& 0 <= id < 16 ==> {
                            &&& step.updates[id].change is Clear
                            &&& step.updates[id].shared_key == "cextauthz.cache.shard."@
                                + decimal_text(id as nat)
                            &&& step.updates[id].attempts == 3
                        }
                    }
                },
            }
        }),
{
}

/// A configuration is read where there is one and it is UTF-8: the text is the one whose bytes it
/// is.
pub proof fn law_configuration_is_read(size: usize, config: Seq<u8>)
    ensures
        text_of_configuration(size, None) is None,
        text_of_configuration(0, Some(config)) is None,
        size > 0 ==> (text_of_configuration(size, Some(config)) is Some <==> valid_utf8(config)),
        text_of_configuration(size, Some(config)) matches Some(text) ==> encode_utf8(text)
            == config,
{
    if valid_utf8(config) {
        vstd::utf8::decode_utf8_encode_utf8(config);
    }
}

} // verus!
