//! What holds of the filter as a whole.
use crate::cache::entry::{lemma_decoded_finite, shard_decoded};
use crate::cache::key::{key_text, law_default_policy_is_plain, request_hash};
use crate::cache::policy::CacheHeaderPolicyModel;
use crate::cache::shard::{leaves_before, live_entries, quota_of, shard_name, shard_of};
use crate::cache::update::{
    fresh_entry, law_purge_all_serves_nothing, law_purged_key_not_served, law_stored_is_served,
    law_write_is_read_back, purge_all_updates, purge_key_update,
};
use crate::decision::{law_fail_closed, outcome_of, AuthorizationOutcomeModel};
use crate::filter::command::{
    bare_reply, check_call, text_reply, CommandModel, GRPC_CLUSTER, GRPC_METHOD, GRPC_SERVICE,
};
use crate::filter::http::{
    announced_length, carried_out, expiry, on_purge_read, recorded, replayed, AuthzHttpModel,
};
use crate::invalidation::{
    fault_of, is_cache_key, InvalidationOp, InvalidationRequestModel, INVALIDATION_PATH,
    INVALIDATION_SECRET_HEADER, MESSAGE_VERSION,
};
use crate::pb::check_response::HttpResponseModel;
use crate::pb::{CheckRequestModel, CheckResponse, CheckResponseModel};
use crate::text::{ascii_lowered, lemma_lowered_twice, lower_text};
use crate::wire::decoded;
use vstd::prelude::*;
use vstd::utf8::is_ascii_chars;

verus! {

/// Whether a command lets the request go on.
pub open spec fn lets_pass(command: CommandModel) -> bool {
    command is Continue || command is Forward || command is Resume
}

/// Nothing that comes in of a request lets it go on by itself. The one exception is the head of
/// a purge request, whose body is still to come.
pub proof fn law_request_is_held(
    state: AuthzHttpModel,
    headers: Seq<(Seq<char>, Seq<char>)>,
    body_size: usize,
    chunk: Option<Seq<u8>>,
    end_of_stream: bool,
)
    ensures
        lets_pass(state.on_headers(headers, end_of_stream).1) ==> {
            &&& !end_of_stream
            &&& state.with_headers(headers).method == "POST"@
            &&& state.with_headers(headers).path == INVALIDATION_PATH@
        },
        !lets_pass(state.on_body(body_size, chunk, end_of_stream).1),
{
}

/// A request goes on only with a decision to let it through: a cached one that has not expired,
/// or an `OkResponse` of the authorization service. No failure lets it go on.
pub proof fn law_request_passes_only_if_allowed(
    state: AuthzHttpModel,
    check: CheckRequestModel,
    bytes: Option<Seq<u8>>,
    token: Option<u32>,
    token_id: u32,
    status_code: u32,
    now_ms: u64,
)
    ensures
        lets_pass(state.on_cache_read(check, bytes, now_ms)) <==> (state.cache_key matches Some(key)
            && fresh_entry(shard_decoded(bytes), key, now_ms) matches Some(entry)
            && entry.allowed),
        !lets_pass(state.on_call_made(token).1),
        !lets_pass(state.on_call_ended(token_id, status_code).1),
        lets_pass(state.on_answer(bytes, now_ms).command) <==> (bytes matches Some(body)
            && decoded::<CheckResponse>(body) matches Some(response)
            && response.http_response matches Some(HttpResponseModel::OkResponse(_))),
{
    match bytes {
        Some(body) => match decoded::<CheckResponse>(body) {
            Some(response) => law_fail_closed(response),
            None => {},
        },
        None => {},
    }
}

/// A request that has been dealt with is held, whatever more comes in of it, and nothing changes.
pub proof fn law_dealt_with_once(
    state: AuthzHttpModel,
    headers: Seq<(Seq<char>, Seq<char>)>,
    body_size: usize,
    chunk: Option<Seq<u8>>,
    end_of_stream: bool,
)
    requires
        state.dispatched,
    ensures
        state.on_headers(headers, end_of_stream) == (state, CommandModel::Pause),
        state.on_body(body_size, chunk, end_of_stream) == (state, CommandModel::Pause),
        state.window(body_size) is None,
{
}

/// Whatever is done about a request, it is then taken to be dealt with.
pub proof fn law_deeds_are_marked(
    state: AuthzHttpModel,
    headers: Seq<(Seq<char>, Seq<char>)>,
    body_size: usize,
    chunk: Option<Seq<u8>>,
    end_of_stream: bool,
)
    ensures
        ({
            let (after, command) = state.on_headers(headers, end_of_stream);
            command is Pause || command is Continue || after.dispatched
        }),
        ({
            let (after, command) = state.on_body(body_size, chunk, end_of_stream);
            command is Pause || after.dispatched
        }),
{
}

/// Whether a header is kept among the request's headers: it neither starts with a colon nor is
/// the request's number.
pub open spec fn is_kept(name: Seq<char>) -> bool {
    !":"@.is_prefix_of(name) && ascii_lowered(name) != "x-request-id"@
}

/// The value that is kept under a name: that of the last header that falls under it.
pub open spec fn kept_value(headers: Seq<(Seq<char>, Seq<char>)>, name: Seq<char>) -> Option<
    Seq<char>,
>
    decreases headers.len(),
{
    if headers.len() == 0 {
        None
    } else if is_kept(headers.last().0) && lower_text(headers.last().0) == name {
        Some(headers.last().1)
    } else {
        kept_value(headers.drop_last(), name)
    }
}

/// Headers are kept under their lowercase names, and of several with the same name the last
/// counts. Nothing is left of headers that came in before.
pub proof fn law_headers_are_kept(
    state: AuthzHttpModel,
    headers: Seq<(Seq<char>, Seq<char>)>,
    name: Seq<char>,
)
    ensures
        state.with_headers(headers).headers.index_opt(name) == kept_value(headers, name),
        state.with_headers(headers).headers.dom().finite(),
    decreases headers.len(),
{
    if headers.len() > 0 {
        law_headers_are_kept(state, headers.drop_last(), name);
        reveal_strlit(":");
        reveal_strlit(":method");
        reveal_strlit(":path");
        reveal_strlit(":authority");
        reveal_strlit(":scheme");
    }
}

/// Where the names of a request's headers are ASCII, its key under the policy that leaves out
/// `x-request-id` alone is the plain key of its check.
pub proof fn law_default_key_is_plain(
    state: AuthzHttpModel,
    headers: Seq<(Seq<char>, Seq<char>)>,
)
    requires
        state.cache_config.header_policy == CacheHeaderPolicyModel::AllExceptRequestId,
        forall|i: int| 0 <= i < headers.len() ==> is_ascii_chars((#[trigger] headers[i]).0),
    ensures
        state.with_headers(headers).key() == key_text(
            request_hash(state.with_headers(headers).check()),
        ),
{
    let after = state.with_headers(headers);
    lemma_settings_kept(state, headers);
    law_headers_are_kept(state, headers, seq![]);
    assert forall|name: Seq<char>| #[trigger]
        after.headers.contains_key(name) implies ascii_lowered(name) == name by {
        law_headers_are_kept(state, headers, name);
        lemma_kept_name(headers, name);
    }
    law_default_policy_is_plain(after.check());
}

proof fn lemma_kept_name(headers: Seq<(Seq<char>, Seq<char>)>, name: Seq<char>)
    requires
        kept_value(headers, name) is Some,
        forall|i: int| 0 <= i < headers.len() ==> is_ascii_chars((#[trigger] headers[i]).0),
    ensures
        ascii_lowered(name) == name,
    decreases headers.len(),
{
    let last = headers.last();
    assert(headers[headers.len() - 1] == last);
    if is_kept(last.0) && lower_text(last.0) == name {
        lemma_lowered_twice(last.0);
    } else {
        lemma_kept_name(headers.drop_last(), name);
    }
}

/// Whether a command, if it is a call, goes to the authorization service and takes no longer than
/// the given time.
pub open spec fn calls_service_only(command: CommandModel, timeout_ms: u64) -> bool {
    command matches CommandModel::Call(call) ==> {
        &&& call.cluster == GRPC_CLUSTER@
        &&& call.service == GRPC_SERVICE@
        &&& call.method == GRPC_METHOD@
        &&& call.metadata.len() == 0
        &&& call.timeout_ms == timeout_ms
    }
}

/// Every call goes to the authorization service, whatever cluster the settings name, and may take
/// as long as they say.
pub proof fn law_calls_go_to_the_service(
    state: AuthzHttpModel,
    headers: Seq<(Seq<char>, Seq<char>)>,
    body_size: usize,
    chunk: Option<Seq<u8>>,
    end_of_stream: bool,
    check: CheckRequestModel,
    bytes: Option<Seq<u8>>,
    now_ms: u64,
)
    ensures
        calls_service_only(state.on_headers(headers, end_of_stream).1, state.timeout_ms),
        calls_service_only(state.on_body(body_size, chunk, end_of_stream).1, state.timeout_ms),
        calls_service_only(state.on_cache_read(check, bytes, now_ms), state.timeout_ms),
{
    lemma_settings_kept(state, headers);
}

/// The reply to a request with a body that is too long.
pub open spec fn too_large_reply() -> CommandModel {
    text_reply(413, "Payload Too Large"@)
}

proof fn lemma_settings_kept(state: AuthzHttpModel, headers: Seq<(Seq<char>, Seq<char>)>)
    ensures
        state.with_headers(headers).max_request_body_bytes == state.max_request_body_bytes,
        state.with_headers(headers).invalidation_secret == state.invalidation_secret,
        state.with_headers(headers).cache_config == state.cache_config,
        state.with_headers(headers).dispatched == state.dispatched,
        state.with_headers(headers).timeout_ms == state.timeout_ms,
    decreases headers.len(),
{
    if headers.len() > 0 {
        lemma_settings_kept(state, headers.drop_last());
    }
}

/// A request with a body that is too long, as announced or as shown, is refused as soon as that
/// is known, and neither the cache nor the authorization service is asked.
pub proof fn law_too_large_is_refused(
    state: AuthzHttpModel,
    headers: Seq<(Seq<char>, Seq<char>)>,
    body_size: usize,
    chunk: Option<Seq<u8>>,
    end_of_stream: bool,
)
    requires
        !state.dispatched,
    ensures
        announced_length(headers) matches Some(length) && length > state.max_request_body_bytes
            ==> state.on_headers(headers, end_of_stream).1 == too_large_reply(),
        body_size > state.max_request_body_bytes ==> state.on_body(
            body_size,
            chunk,
            end_of_stream,
        ).1 == too_large_reply() && state.window(body_size) is None,
{
    lemma_settings_kept(state, headers);
}

/// What is kept of a body is never longer than allowed, where the proxy hands in no more than
/// it was asked for.
pub proof fn law_kept_body_is_bounded(
    state: AuthzHttpModel,
    body_size: usize,
    chunk: Option<Seq<u8>>,
    end_of_stream: bool,
)
    requires
        state.body_buf.len() <= state.body_seen <= state.max_request_body_bytes,
        match (state.window(body_size), chunk) {
            (Some((_, wanted)), Some(chunk)) => chunk.len() <= wanted,
            _ => true,
        },
    ensures
        ({
            let (after, _) = state.on_body(body_size, chunk, end_of_stream);
            after.body_buf.len() <= after.body_seen <= after.max_request_body_bytes
        }),
{
}

/// A body that comes in two pieces is the same as one that comes at once.
pub proof fn law_body_in_pieces(
    state: AuthzHttpModel,
    first_size: usize,
    first: Seq<u8>,
    second_size: usize,
    second: Seq<u8>,
    end_of_stream: bool,
)
    requires
        !state.dispatched,
        state.body_seen < first_size < second_size <= state.max_request_body_bytes,
    ensures
        state.on_body(first_size, Some(first), false).0.on_body(
            second_size,
            Some(second),
            end_of_stream,
        ) == state.on_body(second_size, Some(first + second), end_of_stream),
{
    assert((state.body_buf + first) + second =~= state.body_buf + (first + second));
}

/// A purge is carried out exactly where the secret is set and the last header with its name has
/// it; else the request is refused.
pub proof fn law_purge_needs_secret(state: AuthzHttpModel, headers: Seq<(Seq<char>, Seq<char>)>)
    requires
        !state.dispatched,
        announced_length(headers) matches Some(length) ==> length <= state.max_request_body_bytes,
        state.with_headers(headers).method == "POST"@,
        state.with_headers(headers).path == INVALIDATION_PATH@,
    ensures
        state.on_headers(headers, true).1 == (if state.invalidation_secret.len() > 0
            && kept_value(headers, INVALIDATION_SECRET_HEADER@) == Some(
            state.invalidation_secret,
        ) {
            CommandModel::ReadInvalidation
        } else {
            text_reply(401, "Unauthorized"@)
        }),
        state.on_headers(headers, false).1 is Continue,
        forall|body_size: usize, chunk: Option<Seq<u8>>|
            body_size <= state.max_request_body_bytes ==> (
            #[trigger] state.on_headers(headers, false).0.on_body(body_size, chunk, true)).1
                == state.on_headers(headers, true).1,
{
    lemma_settings_kept(state, headers);
    law_headers_are_kept(state, headers, INVALIDATION_SECRET_HEADER@);
}

/// A cached decision does to a later request what it did to the one it was made for: the same
/// headers are set, or the same reply is made.
pub proof fn law_replay_is_faithful(response: CheckResponseModel, expires_at_ms: u64)
    ensures
        match outcome_of(response) {
            AuthorizationOutcomeModel::Allow { request_headers } => {
                &&& carried_out(outcome_of(response)) == CommandModel::Resume { request_headers }
                &&& replayed(recorded(outcome_of(response), expires_at_ms))
                    == CommandModel::Forward { request_headers }
            },
            AuthorizationOutcomeModel::Deny { .. } => replayed(
                recorded(outcome_of(response), expires_at_ms),
            ) == carried_out(outcome_of(response)),
        },
{
    law_fail_closed(response);
}

/// A decision that was cached answers the requests with the same key until it expires, provided
/// that it is not the quota's next victim: there is room for it, or whatever else is live leaves
/// before it. The bound on the length is what a buffer can hold.
pub proof fn law_cached_decision_answers(
    state: AuthzHttpModel,
    later: AuthzHttpModel,
    check: CheckRequestModel,
    answer: Seq<u8>,
    current: Option<Seq<u8>>,
    decided_ms: u64,
    written_ms: u64,
    now_ms: u64,
)
    requires
        state.cache_config.enabled,
        state.cache_key is Some,
        later.cache_key == state.cache_key,
        decoded::<CheckResponse>(answer) is Some,
        now_ms < expiry(decided_ms, state.cache_config.ttl_ms),
        ({
            let entry = recorded(
                outcome_of(decoded::<CheckResponse>(answer)->0),
                expiry(decided_ms, state.cache_config.ttl_ms),
            );
            let key = state.cache_key->0;
            let live = live_entries(shard_decoded(current), written_ms);
            live.insert(key, entry).len() <= quota_of(state.cache_config.max_entries as nat)
                || forall|other: Seq<char>| #[trigger]
                live.contains_key(other) && other != key ==> leaves_before(
                    live.insert(key, entry),
                    other,
                    key,
                )
        }),
        state.on_answer(Some(answer), decided_ms).updates[0].change.bytes_after(
            current,
            written_ms,
        ).len() <= u64::MAX,
    ensures
        state.on_answer(Some(answer), decided_ms).updates.len() == 1,
        state.on_answer(Some(answer), decided_ms).updates[0].shared_key == shard_name(
            shard_of(state.cache_key->0),
        ),
        later.on_cache_read(
            check,
            Some(
                state.on_answer(Some(answer), decided_ms).updates[0].change.bytes_after(
                    current,
                    written_ms,
                ),
            ),
            now_ms,
        ) == replayed(
            recorded(
                outcome_of(decoded::<CheckResponse>(answer)->0),
                expiry(decided_ms, state.cache_config.ttl_ms),
            ),
        ),
{
    let outcome = outcome_of(decoded::<CheckResponse>(answer)->0);
    let entry = recorded(outcome, expiry(decided_ms, state.cache_config.ttl_ms));
    let key = state.cache_key->0;
    let quota = quota_of(state.cache_config.max_entries as nat);
    let update = state.on_answer(Some(answer), decided_ms).updates[0];
    lemma_decoded_finite(current);
    law_write_is_read_back(update.change, current, written_ms);
    law_stored_is_served(shard_decoded(current), key, entry, quota, written_ms, now_ms);
}

/// After a purge, of its key or of everything, a request is checked with the authorization
/// service again. The bound on the length is what a buffer can hold.
pub proof fn law_purged_decision_is_asked_for(
    later: AuthzHttpModel,
    check: CheckRequestModel,
    key: Seq<char>,
    current: Option<Seq<u8>>,
    purged_ms: u64,
    now_ms: u64,
)
    requires
        later.cache_key == Some(key),
        is_cache_key(key),
        purge_key_update(key).change.bytes_after(current, purged_ms).len() <= u64::MAX,
        purge_all_updates()[shard_of(key) as int].change.bytes_after(current, purged_ms).len()
            <= u64::MAX,
    ensures
        on_purge_read(
            Ok(
                InvalidationRequestModel {
                    version: MESSAGE_VERSION,
                    op: InvalidationOp::PurgeKey,
                    key: Some(key),
                },
            ),
        ).updates == seq![purge_key_update(key)],
        on_purge_read(
            Ok(
                InvalidationRequestModel {
                    version: MESSAGE_VERSION,
                    op: InvalidationOp::PurgeAll,
                    key: None,
                },
            ),
        ).updates == purge_all_updates(),
        purge_key_update(key).shared_key == shard_name(shard_of(key)),
        purge_all_updates()[shard_of(key) as int].shared_key == shard_name(shard_of(key)),
        later.on_cache_read(
            check,
            Some(purge_key_update(key).change.bytes_after(current, purged_ms)),
            now_ms,
        ) == check_call(check.encoded(), later.timeout_ms),
        later.on_cache_read(
            check,
            Some(
                purge_all_updates()[shard_of(key) as int].change.bytes_after(current, purged_ms),
            ),
            now_ms,
        ) == check_call(check.encoded(), later.timeout_ms),
{
    let shard = shard_decoded(current);
    law_write_is_read_back(purge_key_update(key).change, current, purged_ms);
    law_purged_key_not_served(shard, key, key, purged_ms, now_ms);
    law_purge_all_serves_nothing(shard, key, purged_ms, now_ms);
    law_write_is_read_back(
        purge_all_updates()[shard_of(key) as int].change,
        current,
        purged_ms,
    );
}

/// A purge request that is refused changes nothing.
pub proof fn law_refused_purge_changes_nothing(read: Result<InvalidationRequestModel, ()>)
    ensures
        on_purge_read(read).updates.len() > 0 ==> on_purge_read(read).command == bare_reply(204),
        on_purge_read(read).command == bare_reply(204) <==> (read matches Ok(request) && fault_of(
            request,
        ) is None),
{
}

} // verus!
