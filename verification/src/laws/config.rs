//! Laws on which configurations are accepted, and what the settings then are.
use crate::cache::config::default_cache_config;
use crate::cache::policy::CacheHeaderPolicyModel;
use crate::config::{
    default_settings, lemma_normal_names_exist, normal_name, normal_names, policy_of, reports,
    settings_of, CacheHeadersConfigModel, ConfigError, PluginConfigModel,
};
use crate::text::{ascii_lowered, text_before, trimmed};
use vstd::prelude::*;

verus! {

/// Whether a header's name has nothing but white space.
pub open spec fn is_blank(name: Seq<char>) -> bool {
    trimmed(name).len() == 0
}

/// Whether one of the names is blank.
pub open spec fn has_blank(names: Seq<Seq<char>>) -> bool {
    exists|i: int| 0 <= i < names.len() && is_blank(#[trigger] names[i])
}

/// Whether the name of a header mode is known.
pub open spec fn is_mode(mode: Seq<char>) -> bool {
    mode == "all_except_request_id"@ || mode == "allowlist"@ || mode == "denylist"@
}

/// Whether a configuration keeps to the documented bounds.
pub open spec fn is_valid(config: PluginConfigModel) -> bool {
    &&& 1 <= config.timeout_ms <= 60_000
    &&& config.cluster matches Some(cluster) && trimmed(cluster).len() > 0
    &&& 1 <= config.max_bytes <= 16_777_216
    &&& config.cache.enabled ==> 1 <= config.cache.ttl_ms <= 86_400_000
    &&& config.cache.enabled ==> config.cache.max_entries > 0
    &&& !has_blank(config.cache.headers.names)
    &&& is_mode(config.cache.headers.mode)
}

proof fn lemma_blank(names: Seq<Seq<char>>)
    ensures
        has_blank(names) <==> exists|i: int|
            0 <= i < names.len() && normal_name(#[trigger] names[i]).len() == 0,
{
    if has_blank(names) {
        let i = choose|i: int| 0 <= i < names.len() && is_blank(#[trigger] names[i]);
        assert(normal_name(names[i]).len() == 0);
    }
}

/// A configuration is accepted exactly where it keeps to the documented bounds, and the settings
/// are then those that it asks for.
pub proof fn law_settings_are_those_asked_for(config: PluginConfigModel)
    ensures
        settings_of(config) is Ok <==> is_valid(config),
        settings_of(config) matches Ok(settings) ==> {
            &&& settings.timeout_ms == config.timeout_ms
            &&& config.cluster matches Some(cluster) && settings.grpc_cluster == trimmed(cluster)
            &&& settings.max_request_body_bytes == config.max_bytes
            &&& settings.cache.enabled == config.cache.enabled
            &&& settings.cache.ttl_ms == config.cache.ttl_ms
            &&& settings.cache.max_entries == config.cache.max_entries
            &&& settings.invalidation_secret == config.secret
            &&& config.cache.headers.mode == "all_except_request_id"@
                <==> settings.cache.header_policy is AllExceptRequestId
            &&& config.cache.headers.mode == "allowlist"@
                <==> settings.cache.header_policy is Allowlist
            &&& config.cache.headers.mode == "denylist"@
                <==> settings.cache.header_policy is Denylist
            &&& match settings.cache.header_policy {
                CacheHeaderPolicyModel::AllExceptRequestId => true,
                CacheHeaderPolicyModel::Allowlist(list) => lists_exactly(
                    list,
                    config.cache.headers.names,
                ),
                CacheHeaderPolicyModel::Denylist(list) => lists_exactly(
                    list,
                    config.cache.headers.names,
                ),
            }
        },
{
    lemma_blank(config.cache.headers.names);
    law_policy_lists_the_given_names(config.cache.headers);
    lemma_modes_differ();
}

proof fn lemma_modes_differ()
    ensures
        "all_except_request_id"@ != "allowlist"@,
        "all_except_request_id"@ != "denylist"@,
        "allowlist"@ != "denylist"@,
{
    reveal_strlit("all_except_request_id");
    reveal_strlit("allowlist");
    reveal_strlit("denylist");
    assert("all_except_request_id"@.len() == 21);
    assert("allowlist"@.len() == 9);
    assert("denylist"@.len() == 8);
}

/// Whether a list holds the given names without the white space around them and in lowercase:
/// each of them, no others, none twice, and in ascending order.
pub open spec fn lists_exactly(list: Seq<Seq<char>>, names: Seq<Seq<char>>) -> bool {
    &&& forall|i: int, j: int|
        0 <= i < j < list.len() ==> text_before(#[trigger] list[i], #[trigger] list[j])
    &&& forall|k: int|
        0 <= k < names.len() ==> list.contains(ascii_lowered(trimmed(#[trigger] names[k])))
    &&& forall|name: Seq<char>| #[trigger]
        list.contains(name) ==> exists|k: int|
            0 <= k < names.len() && ascii_lowered(trimmed(#[trigger] names[k])) == name
}

/// The names that a policy lists are the given ones.
pub proof fn law_policy_lists_the_given_names(headers: CacheHeadersConfigModel)
    ensures
        policy_of(headers) matches Ok(CacheHeaderPolicyModel::Allowlist(list)) ==> lists_exactly(
            list,
            headers.names,
        ),
        policy_of(headers) matches Ok(CacheHeaderPolicyModel::Denylist(list)) ==> lists_exactly(
            list,
            headers.names,
        ),
{
    let names = headers.names;
    let list = normal_names(names);
    lemma_normal_names_exist(names);
    assert forall|k: int| 0 <= k < names.len() implies list.contains(
        ascii_lowered(trimmed(#[trigger] names[k])),
    ) by {
        assert(normal_name(names[k]) == ascii_lowered(trimmed(names[k])));
    }
    assert(lists_exactly(list, names));
}

/// A configuration that is refused is refused for the first thing that is wrong with it, in the
/// order timeout, cluster, body limit, time to live, number of entries, names, mode.
pub proof fn law_faults_are_named(config: PluginConfigModel)
    ensures
        settings_of(config) matches Err(fault) ==> {
            let timeout_ok = 1 <= config.timeout_ms <= 60_000;
            let cluster_ok = config.cluster matches Some(cluster) && trimmed(cluster).len() > 0;
            let limit_ok = 1 <= config.max_bytes <= 16_777_216;
            let ttl_ok = !config.cache.enabled || 1 <= config.cache.ttl_ms <= 86_400_000;
            let entries_ok = !config.cache.enabled || config.cache.max_entries > 0;
            let names_ok = !has_blank(config.cache.headers.names);
            if !timeout_ok {
                fault == "timeout_ms must be between 1 and 60000"@
            } else if !cluster_ok {
                fault == "grpc.cluster must not be empty"@
            } else if !limit_ok {
                fault == "request_body.max_bytes must be between 1 and 16777216"@
            } else if !ttl_ok {
                fault == "cache.ttl_ms must be between 1 and 86400000 when cache is enabled"@
            } else if !entries_ok {
                fault == "cache.max_entries must be greater than 0 when cache is enabled"@
            } else if !names_ok {
                fault == "cache.headers.names must contain non-empty header names"@
            } else {
                fault
                    == "cache.headers.mode must be all_except_request_id, allowlist, or denylist"@
            }
        },
{
    lemma_blank(config.cache.headers.names);
}

/// A check passes where nothing is wrong, and else fails with what is wrong and nothing else.
pub proof fn law_checks_report(checked: Result<(), ConfigError>, fault: Option<Seq<char>>)
    requires
        reports(checked, fault),
    ensures
        checked is Ok <==> fault is None,
        checked matches Err(err) ==> err matches ConfigError::Invalid(message) && fault == Some(
            message@,
        ),
{
}

/// Before a configuration is read, a call may take a second, a body may have a mebibyte, nothing
/// is cached and no purge is accepted; a cache would keep a thousand decisions for a minute.
pub proof fn law_defaults()
    ensures
        default_settings().timeout_ms == 1000,
        default_settings().grpc_cluster.len() == 0,
        default_settings().max_request_body_bytes == 1_048_576,
        default_settings().invalidation_secret.len() == 0,
        default_settings().cache == default_cache_config(),
        !default_cache_config().enabled,
        default_cache_config().ttl_ms == 60_000,
        default_cache_config().max_entries == 1000,
        default_cache_config().header_policy is AllExceptRequestId,
{
}

} // verus!
