//! Laws on the models: a model shows every part of the value that it is the model of, each under
//! its own name.
use crate::cache::config::CacheConfig;
use crate::cache::entry::{CacheEntry, CacheShard};
use crate::cache::policy::{CacheHeaderPolicy, CacheHeaderPolicyModel};
use crate::cache::update::{ShardChange, ShardChangeModel, ShardUpdate};
use crate::cache::CachedHeader;
use crate::config::{PluginConfigJson, PluginSettings};
use crate::decision::{AuthorizationOutcome, AuthorizationOutcomeModel};
use crate::filter::command::{Command, CommandModel, GrpcCall, LocalReply, Step};
use crate::filter::http::AuthzHttp;
use crate::filter::root::AuthzRoot;
use crate::invalidation::InvalidationRequest;
use crate::model::{optional_view, views};
use crate::pb::check_response::{HttpResponse, HttpResponseModel};
use crate::pb::{
    AttributeContext, CheckRequest, CheckResponse, DeniedHttpResponse, HeaderValue,
    HeaderValueOption, HttpRequest, OkHttpResponse, Peer, Request, Status,
};
use crate::request::RequestParts;
use vstd::prelude::*;

verus! {

/// Whether the items of a sequence have the given models, one for one.
pub open spec fn are_shown<T: View>(items: Seq<T>, models: Seq<T::V>) -> bool {
    &&& models.len() == items.len()
    &&& forall|i: int| 0 <= i < items.len() ==> #[trigger] models[i] == items[i]@
}

/// Whether a value that may be absent has the given model.
pub open spec fn is_shown<T: View>(value: Option<T>, model: Option<T::V>) -> bool {
    match value {
        Some(value) => model == Some(value@),
        None => model is None,
    }
}

/// Sequences are shown item by item, and what may be absent as it is where it is there.
pub proof fn law_models_of_collections<T: View>(items: Seq<T>, value: Option<T>)
    ensures
        are_shown(items, views(items)),
        is_shown(value, optional_view(value)),
{
}

/// The model of a reply, of a call and of a step.
pub proof fn law_reply_is_shown(reply: LocalReply, call: GrpcCall, step: Step)
    ensures
        reply@.status == reply.status,
        are_shown(reply.headers@, reply@.headers),
        is_shown(reply.body, reply@.body),
        call@.cluster == call.cluster@,
        call@.service == call.service@,
        call@.method == call.method@,
        are_shown(call.metadata@, call@.metadata),
        call@.message == call.message@,
        call@.timeout_ms == call.timeout_ms,
        are_shown(step.updates@, step@.updates),
        step@.command == step.command@,
{
}

/// The model of a command is of the command's own kind.
pub proof fn law_command_is_shown(command: Command)
    ensures
        match command {
            Command::Ignore => command@ is Ignore,
            Command::Continue => command@ is Continue,
            Command::Pause => command@ is Pause,
            Command::Reply(reply) => command@ == CommandModel::Reply(reply@),
            Command::Forward { request_headers } => command@ is Forward && are_shown(
                request_headers@,
                command@->Forward_request_headers,
            ),
            Command::Resume { request_headers } => command@ is Resume && are_shown(
                request_headers@,
                command@->Resume_request_headers,
            ),
            Command::ReadCache { shared_key, check } => command@ == (CommandModel::ReadCache {
                shared_key: shared_key@,
                check: check@,
            }),
            Command::Call(call) => command@ == CommandModel::Call(call@),
            Command::ReadAnswer => command@ is ReadAnswer,
            Command::ReadInvalidation => command@ is ReadInvalidation,
        },
{
}

/// The model of the work on a request.
pub proof fn law_state_is_shown(http: AuthzHttp)
    ensures
        http@.grpc_token == http.grpc_token,
        http@.timeout_ms == http.timeout_ms,
        http@.grpc_cluster == http.grpc_cluster@,
        http@.max_request_body_bytes == http.max_request_body_bytes,
        http@.cache_config == http.cache_config@,
        is_shown(http.cache_key, http@.cache_key),
        http@.invalidation_secret == http.invalidation_secret@,
        http@.is_invalidation_request == http.is_invalidation_request,
        http@.dispatched == http.dispatched,
        http@.method == http.method@,
        http@.path == http.path@,
        http@.query == http.query@,
        http@.host == http.host@,
        http@.scheme == http.scheme@,
        http@.request_id == http.request_id@,
        http@.headers == http.headers@,
        http@.body_buf == http.body_buf@,
        http@.body_seen == http.body_seen,
{
}

/// The model of the settings, wherever they are kept, and of what they were asked for in.
pub proof fn law_settings_are_shown(
    settings: PluginSettings,
    root: AuthzRoot,
    config: PluginConfigJson,
    cache: CacheConfig,
    policy: CacheHeaderPolicy,
)
    ensures
        settings@.timeout_ms == settings.timeout_ms,
        settings@.grpc_cluster == settings.grpc_cluster@,
        settings@.max_request_body_bytes == settings.max_request_body_bytes,
        settings@.cache == settings.cache@,
        settings@.invalidation_secret == settings.invalidation_secret@,
        root@.timeout_ms == root.timeout_ms,
        root@.grpc_cluster == root.grpc_cluster@,
        root@.max_request_body_bytes == root.max_request_body_bytes,
        root@.cache == root.cache_config@,
        root@.invalidation_secret == root.invalidation_secret@,
        config@.timeout_ms == config.timeout_ms,
        is_shown(config.grpc.cluster, config@.cluster),
        config@.max_bytes == config.request_body.max_bytes,
        config@.cache.enabled == config.cache.enabled,
        config@.cache.ttl_ms == config.cache.ttl_ms,
        config@.cache.max_entries == config.cache.max_entries,
        config@.cache.headers.mode == config.cache.headers.mode@,
        are_shown(config.cache.headers.names@, config@.cache.headers.names),
        config@.secret == config.invalidation.secret@,
        cache@.enabled == cache.enabled,
        cache@.ttl_ms == cache.ttl_ms,
        cache@.max_entries == cache.max_entries,
        cache@.header_policy == cache.header_policy@,
        match (policy, policy@) {
            (
                CacheHeaderPolicy::AllExceptRequestId,
                CacheHeaderPolicyModel::AllExceptRequestId,
            ) => true,
            (CacheHeaderPolicy::Allowlist(names), CacheHeaderPolicyModel::Allowlist(list)) => {
                are_shown(names@, list)
            },
            (CacheHeaderPolicy::Denylist(names), CacheHeaderPolicyModel::Denylist(list)) => {
                are_shown(names@, list)
            },
            _ => false,
        },
{
}

/// The model of a cached decision, of a shard and of a change to one.
pub proof fn law_cache_is_shown(
    header: CachedHeader,
    entry: CacheEntry,
    shard: CacheShard,
    change: ShardChange,
    update: ShardUpdate,
    purge: InvalidationRequest,
)
    ensures
        header@ == (header.name@, header.value@),
        entry@.expires_at_ms == entry.expires_at_ms,
        entry@.allowed == entry.allowed,
        entry@.denied_status == entry.denied_status,
        entry@.denied_body == entry.denied_body@,
        are_shown(entry.response_headers@, entry@.response_headers),
        are_shown(entry.request_headers@, entry@.request_headers),
        shard@ == shard.entries@,
        match change {
            ShardChange::Store { cache_key, entry, quota } => change@ == (
            ShardChangeModel::Store {
                cache_key: cache_key@,
                entry: entry@,
                quota: quota as nat,
            }),
            ShardChange::Remove { cache_key } => change@ == (ShardChangeModel::Remove {
                cache_key: cache_key@,
            }),
            ShardChange::Clear => change@ is Clear,
        },
        update@.shared_key == update.shared_key@,
        update@.change == update.change@,
        update@.attempts == update.attempts,
        purge@.version == purge.version,
        purge@.op == purge.op,
        is_shown(purge.key, purge@.key),
{
}

/// The model of a check, and of the parts that it is made of.
pub proof fn law_check_is_shown(
    parts: RequestParts,
    http: HttpRequest,
    request: Request,
    peer: Peer,
    context: AttributeContext,
    check: CheckRequest,
)
    ensures
        parts@.method == parts.method@,
        parts@.path == parts.path@,
        parts@.query == parts.query@,
        parts@.host == parts.host@,
        parts@.scheme == parts.scheme@,
        parts@.request_id == parts.request_id@,
        parts@.headers == parts.headers@,
        parts@.body == parts.body@,
        http@.id == http.id@,
        http@.method == http.method@,
        http@.headers == http.headers@,
        http@.path == http.path@,
        http@.host == http.host@,
        http@.scheme == http.scheme@,
        http@.query == http.query@,
        http@.fragment == http.fragment@,
        http@.size == http.size,
        http@.protocol == http.protocol@,
        http@.body == http.body@,
        http@.raw_body == http.raw_body@,
        is_shown(request.http, request@.http),
        peer@.service == peer.service@,
        is_shown(context.source, context@.source),
        is_shown(context.destination, context@.destination),
        is_shown(context.request, context@.request),
        context@.context_extensions == context.context_extensions@,
        is_shown(check.attributes, check@.attributes),
{
}

/// The model of an answer, of the parts that it is made of, and of what it comes to.
pub proof fn law_answer_is_shown(
    header: HeaderValue,
    option: HeaderValueOption,
    denied: DeniedHttpResponse,
    accepted: OkHttpResponse,
    status: Status,
    verdict: HttpResponse,
    response: CheckResponse,
    outcome: AuthorizationOutcome,
)
    ensures
        header@.key == header.key@,
        header@.value == header.value@,
        is_shown(option.header, option@.header),
        option@.append == option.append,
        option@.append_action == option.append_action,
        option@.keep_empty_value == option.keep_empty_value,
        denied@.status == denied.status,
        are_shown(denied.headers@, denied@.headers),
        denied@.body == denied.body@,
        are_shown(accepted.headers@, accepted@.headers),
        are_shown(accepted.headers_to_remove@, accepted@.headers_to_remove),
        status@.code == status.code,
        status@.message == status.message@,
        match verdict {
            HttpResponse::DeniedResponse(denied) => verdict@ == HttpResponseModel::DeniedResponse(
                denied@,
            ),
            HttpResponse::OkResponse(accepted) => verdict@ == HttpResponseModel::OkResponse(
                accepted@,
            ),
            HttpResponse::ErrorResponse(denied) => verdict@ == HttpResponseModel::ErrorResponse(
                denied@,
            ),
        },
        is_shown(response.status, response@.status),
        is_shown(response.http_response, response@.http_response),
        match (outcome, outcome@) {
            (
                AuthorizationOutcome::Allow { request_headers },
                AuthorizationOutcomeModel::Allow { request_headers: shown },
            ) => are_shown(request_headers@, shown),
            (
                AuthorizationOutcome::Deny { status, body, headers },
                AuthorizationOutcomeModel::Deny { status: code, body: text, headers: shown },
            ) => status == code && text == body@ && are_shown(headers@, shown),
            _ => false,
        },
{
}

} // verus!
