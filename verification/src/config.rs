//! The plugin's settings: their defaults, and what makes a configuration valid.
use crate::cache::config::{default_cache_config, CacheConfig, CacheConfigModel};
use crate::cache::policy::{CacheHeaderPolicy, CacheHeaderPolicyModel};
use crate::model::{optional_view, views};
use crate::text::{ascii_lowered, lemma_lowered_twice, same_text, text_before, trimmed};
use crate::text_map::{
    ascending, is_ascending, lemma_ascending_exists, lemma_ascending_unique, lemma_map_of_keys,
    lemma_map_of_value, map_of, TextMap,
};
use vstd::prelude::*;
use vstd::seq_lib::seq_to_set_is_finite;
use vstd::string::*;

verus! {

/// How long a request's body may be where nothing is said of it.
pub const DEFAULT_MAX_REQUEST_BODY_BYTES: usize = 1_048_576;

/// The longest time that an authorization call may be given.
pub const MAX_TIMEOUT_MS: u64 = 60_000;

/// The most that the limit on a request's body may be.
pub const MAX_REQUEST_BODY_BYTES: usize = 16 * 1024 * 1024;

/// The longest time that a decision may be cached for.
pub const MAX_CACHE_TTL_MS: u64 = 86_400_000;

/// The plugin's settings.
#[derive(Debug, PartialEq)]
pub struct PluginSettings {
    /// How long an authorization call may take.
    pub timeout_ms: u64,
    /// The cluster of the authorization service.
    pub grpc_cluster: String,
    /// How long a request's body may be.
    pub max_request_body_bytes: usize,
    /// How the cache is set up.
    pub cache: CacheConfig,
    /// What a purge request has to know; where it is empty, none is accepted.
    pub invalidation_secret: String,
}

/// The mathematical [`PluginSettings`].
pub struct PluginSettingsModel {
    pub timeout_ms: u64,
    pub grpc_cluster: Seq<char>,
    pub max_request_body_bytes: usize,
    pub cache: CacheConfigModel,
    pub invalidation_secret: Seq<char>,
}

impl View for PluginSettings {
    type V = PluginSettingsModel;

    open spec fn view(&self) -> PluginSettingsModel {
        PluginSettingsModel {
            timeout_ms: self.timeout_ms,
            grpc_cluster: self.grpc_cluster@,
            max_request_body_bytes: self.max_request_body_bytes,
            cache: self.cache@,
            invalidation_secret: self.invalidation_secret@,
        }
    }
}

impl Clone for PluginSettings {
    fn clone(&self) -> (copy: Self)
        ensures
            copy@ == self@,
    {
        PluginSettings {
            timeout_ms: self.timeout_ms,
            grpc_cluster: self.grpc_cluster.clone(),
            max_request_body_bytes: self.max_request_body_bytes,
            cache: self.cache.clone(),
            invalidation_secret: self.invalidation_secret.clone(),
        }
    }
}

/// Why a configuration is refused.
#[derive(Debug)]
pub enum ConfigError {
    /// It could not be read as JSON of the right form.
    Json(serde_json::Error),
    /// A value in it is not allowed.
    Invalid(String),
}

impl ConfigError {
    /// The error in words.
    pub fn message(&self) -> (text: String)
        ensures
            match *self {
                ConfigError::Json(err) => to_string_from_display_ensures::<serde_json::Error>(
                    &err,
                    text,
                ),
                ConfigError::Invalid(message) => text@ == message@,
            },
    {
        match self {
            ConfigError::Json(err) => err.to_string(),
            ConfigError::Invalid(message) => message.clone(),
        }
    }

    /// The error below this one, if there is one.
    pub fn source(&self) -> (cause: Option<&serde_json::Error>)
        ensures
            match *self {
                ConfigError::Json(err) => cause == Some(&err),
                ConfigError::Invalid(_) => cause is None,
            },
    {
        match self {
            ConfigError::Json(err) => Some(err),
            ConfigError::Invalid(_) => None,
        }
    }
}

impl From<serde_json::Error> for ConfigError {
    fn from(err: serde_json::Error) -> (wrapped: Self) {
        ConfigError::Json(err)
    }
}

impl vstd::std_specs::convert::FromSpecImpl<serde_json::Error> for ConfigError {
    open spec fn obeys_from_spec() -> bool {
        true
    }

    open spec fn from_spec(err: serde_json::Error) -> Self {
        ConfigError::Json(err)
    }
}

/// A configuration as its JSON gives it.
pub struct PluginConfigJson {
    pub timeout_ms: u64,
    pub grpc: GrpcConfigJson,
    pub request_body: RequestBodyConfigJson,
    pub cache: CacheConfigJson,
    pub invalidation: InvalidationConfigJson,
}

/// The part of a configuration on the authorization service.
pub struct GrpcConfigJson {
    pub cluster: Option<String>,
}

/// The part of a configuration on a request's body.
pub struct RequestBodyConfigJson {
    pub max_bytes: usize,
}

/// The part of a configuration on the cache.
pub struct CacheConfigJson {
    pub enabled: bool,
    pub ttl_ms: u64,
    pub max_entries: usize,
    pub headers: CacheHeadersConfigJson,
}

/// The part of a configuration on the headers that take part in a cache key.
pub struct CacheHeadersConfigJson {
    pub mode: String,
    pub names: Vec<String>,
}

/// The part of a configuration on purge requests.
pub struct InvalidationConfigJson {
    pub secret: String,
}

/// The mathematical [`CacheHeadersConfigJson`].
pub struct CacheHeadersConfigModel {
    pub mode: Seq<char>,
    pub names: Seq<Seq<char>>,
}

impl View for CacheHeadersConfigJson {
    type V = CacheHeadersConfigModel;

    open spec fn view(&self) -> CacheHeadersConfigModel {
        CacheHeadersConfigModel { mode: self.mode@, names: views(self.names@) }
    }
}

/// The mathematical [`CacheConfigJson`].
pub struct CacheConfigJsonModel {
    pub enabled: bool,
    pub ttl_ms: u64,
    pub max_entries: usize,
    pub headers: CacheHeadersConfigModel,
}

impl View for CacheConfigJson {
    type V = CacheConfigJsonModel;

    open spec fn view(&self) -> CacheConfigJsonModel {
        CacheConfigJsonModel {
            enabled: self.enabled,
            ttl_ms: self.ttl_ms,
            max_entries: self.max_entries,
            headers: self.headers@,
        }
    }
}

/// The mathematical [`PluginConfigJson`].
pub struct PluginConfigModel {
    pub timeout_ms: u64,
    pub cluster: Option<Seq<char>>,
    pub max_bytes: usize,
    pub cache: CacheConfigJsonModel,
    pub secret: Seq<char>,
}

impl View for PluginConfigJson {
    type V = PluginConfigModel;

    open spec fn view(&self) -> PluginConfigModel {
        PluginConfigModel {
            timeout_ms: self.timeout_ms,
            cluster: optional_view(self.grpc.cluster),
            max_bytes: self.request_body.max_bytes,
            cache: self.cache@,
            secret: self.invalidation.secret@,
        }
    }
}

/// The time that an authorization call is given where nothing is said of it.
pub fn default_timeout_ms() -> (timeout_ms: u64)
    ensures
        timeout_ms == 1000,
{
    1000
}

/// How long a request's body may be where nothing is said of it.
pub fn default_max_request_body_bytes() -> (max_bytes: usize)
    ensures
        max_bytes == DEFAULT_MAX_REQUEST_BODY_BYTES,
{
    DEFAULT_MAX_REQUEST_BODY_BYTES
}

/// How long a decision is cached where nothing is said of it.
pub fn default_cache_ttl_ms() -> (ttl_ms: u64)
    ensures
        ttl_ms == 60_000,
{
    60_000
}

/// How many decisions are cached where nothing is said of it.
pub fn default_cache_max_entries() -> (max_entries: usize)
    ensures
        max_entries == 1000,
{
    1000
}

/// Which headers take part in a cache key where nothing is said of it.
pub fn default_cache_headers_mode() -> (mode: String)
    ensures
        mode@ == "all_except_request_id"@,
{
    "all_except_request_id".to_owned()
}

impl Default for GrpcConfigJson {
    fn default() -> (grpc: Self)
        ensures
            grpc.cluster is None,
    {
        GrpcConfigJson { cluster: None }
    }
}

impl Default for RequestBodyConfigJson {
    fn default() -> (body: Self)
        ensures
            body.max_bytes == DEFAULT_MAX_REQUEST_BODY_BYTES,
    {
        RequestBodyConfigJson { max_bytes: default_max_request_body_bytes() }
    }
}

impl Default for CacheConfigJson {
    fn default() -> (cache: Self)
        ensures
            cache@ == (CacheConfigJsonModel {
                enabled: false,
                ttl_ms: 60_000,
                max_entries: 1000,
                headers: CacheHeadersConfigModel {
                    mode: "all_except_request_id"@,
                    names: seq![],
                },
            }),
    {
        CacheConfigJson {
            enabled: false,
            ttl_ms: default_cache_ttl_ms(),
            max_entries: default_cache_max_entries(),
            headers: CacheHeadersConfigJson::default(),
        }
    }
}

impl Default for CacheHeadersConfigJson {
    fn default() -> (headers: Self)
        ensures
            headers@ == (CacheHeadersConfigModel {
                mode: "all_except_request_id"@,
                names: seq![],
            }),
    {
        let names: Vec<String> = Vec::new();
        proof {
            assert(views(names@) =~= seq![]);
        }
        CacheHeadersConfigJson { mode: default_cache_headers_mode(), names }
    }
}

impl Default for InvalidationConfigJson {
    fn default() -> (invalidation: Self)
        ensures
            invalidation.secret@ == Seq::<char>::empty(),
    {
        InvalidationConfigJson { secret: String::new() }
    }
}

/// The settings before a configuration was read.
pub open spec fn default_settings() -> PluginSettingsModel {
    PluginSettingsModel {
        timeout_ms: 1000,
        grpc_cluster: seq![],
        max_request_body_bytes: DEFAULT_MAX_REQUEST_BODY_BYTES,
        cache: default_cache_config(),
        invalidation_secret: seq![],
    }
}

impl Default for PluginSettings {
    fn default() -> (settings: Self)
        ensures
            settings@ == default_settings(),
    {
        PluginSettings {
            timeout_ms: default_timeout_ms(),
            grpc_cluster: String::new(),
            max_request_body_bytes: DEFAULT_MAX_REQUEST_BODY_BYTES,
            cache: CacheConfig::default(),
            invalidation_secret: String::new(),
        }
    }
}

fn invalid(message: &str) -> (err: ConfigError)
    ensures
        err matches ConfigError::Invalid(text) && text@ == message@,
{
    ConfigError::Invalid(message.to_owned())
}

/// That a check passes exactly where `fault` is none, and else fails with it.
pub open spec fn reports(checked: Result<(), ConfigError>, fault: Option<Seq<char>>) -> bool {
    match checked {
        Ok(()) => fault is None,
        Err(ConfigError::Invalid(message)) => fault == Some(message@),
        Err(ConfigError::Json(_)) => false,
    }
}

/// What is wrong with the time that an authorization call is given, if anything is.
pub open spec fn timeout_fault(timeout_ms: u64) -> Option<Seq<char>> {
    if 1 <= timeout_ms <= MAX_TIMEOUT_MS {
        None
    } else {
        Some("timeout_ms must be between 1 and 60000"@)
    }
}

/// Checks the time that an authorization call is given.
pub fn validate_timeout_ms(timeout_ms: u64) -> (checked: Result<(), ConfigError>)
    ensures
        reports(checked, timeout_fault(timeout_ms)),
{
    if 1 <= timeout_ms && timeout_ms <= MAX_TIMEOUT_MS {
        Ok(())
    } else {
        Err(invalid("timeout_ms must be between 1 and 60000"))
    }
}

/// The cluster without the white space around it; one that is empty then is refused.
pub fn normalize_grpc_cluster(cluster: &str) -> (normal: Result<String, ConfigError>)
    ensures
        match normal {
            Ok(normal) => normal@ == trimmed(cluster@) && normal@.len() > 0,
            Err(ConfigError::Invalid(message)) => trimmed(cluster@).len() == 0 && message@
                == "grpc.cluster must not be empty"@,
            Err(ConfigError::Json(_)) => false,
        },
{
    let cluster = cluster.trim();
    if cluster.is_empty() {
        Err(invalid("grpc.cluster must not be empty"))
    } else {
        Ok(cluster.to_owned())
    }
}

/// What is wrong with the limit on a request's body, if anything is.
pub open spec fn body_limit_fault(max_bytes: usize) -> Option<Seq<char>> {
    if 1 <= max_bytes <= MAX_REQUEST_BODY_BYTES {
        None
    } else {
        Some("request_body.max_bytes must be between 1 and 16777216"@)
    }
}

/// Checks the limit on a request's body.
pub fn validate_body_limit(max_bytes: usize) -> (checked: Result<(), ConfigError>)
    ensures
        reports(checked, body_limit_fault(max_bytes)),
{
    if 1 <= max_bytes && max_bytes <= MAX_REQUEST_BODY_BYTES {
        Ok(())
    } else {
        Err(invalid("request_body.max_bytes must be between 1 and 16777216"))
    }
}

/// What is wrong with the cache's bounds, if anything is. They count only where it is enabled.
pub open spec fn cache_fault(cache: CacheConfigJsonModel) -> Option<Seq<char>> {
    if !cache.enabled {
        None
    } else if !(1 <= cache.ttl_ms <= MAX_CACHE_TTL_MS) {
        Some("cache.ttl_ms must be between 1 and 86400000 when cache is enabled"@)
    } else if cache.max_entries == 0 {
        Some("cache.max_entries must be greater than 0 when cache is enabled"@)
    } else {
        None
    }
}

/// Checks the cache's bounds.
pub fn validate_cache(cache: &CacheConfigJson) -> (checked: Result<(), ConfigError>)
    ensures
        reports(checked, cache_fault(cache@)),
{
    if !cache.enabled {
        return Ok(());
    }
    if !(1 <= cache.ttl_ms && cache.ttl_ms <= MAX_CACHE_TTL_MS) {
        return Err(invalid("cache.ttl_ms must be between 1 and 86400000 when cache is enabled"));
    }
    if cache.max_entries == 0 {
        return Err(invalid("cache.max_entries must be greater than 0 when cache is enabled"));
    }
    Ok(())
}

/// A header's name in the form in which names are compared.
pub open spec fn normal_name(name: Seq<char>) -> Seq<char> {
    ascii_lowered(trimmed(name))
}

/// Names in ascending order, none twice.
pub open spec fn is_name_list(names: Seq<Seq<char>>) -> bool {
    forall|i: int, j: int|
        0 <= i < j < names.len() ==> text_before(#[trigger] names[i], #[trigger] names[j])
}

/// That `list` holds the given names in their normal form and no others.
pub open spec fn lists_names(list: Seq<Seq<char>>, names: Seq<Seq<char>>) -> bool {
    forall|name: Seq<char>| #[trigger]
        list.contains(name) <==> exists|i: int|
            0 <= i < names.len() && normal_name(#[trigger] names[i]) == name
}

/// The given names in their normal form, in ascending order, none twice.
pub open spec fn normal_names(names: Seq<Seq<char>>) -> Seq<Seq<char>> {
    choose|list: Seq<Seq<char>>| is_name_list(list) && lists_names(list, names)
}

spec fn keyed(list: Seq<Seq<char>>) -> Seq<(Seq<char>, bool)> {
    Seq::new(list.len(), |i: int| (list[i], true))
}

proof fn lemma_keyed(list: Seq<Seq<char>>, name: Seq<char>)
    requires
        is_name_list(list),
    ensures
        map_of(keyed(list)).contains_key(name) <==> list.contains(name),
        list.contains(name) ==> map_of(keyed(list))[name] == true,
{
    let pairs = keyed(list);
    lemma_map_of_keys(pairs, name);
    if list.contains(name) {
        let i = list.index_of(name);
        assert(pairs[i].0 == name);
        assert(is_ascending(pairs));
        lemma_map_of_value(pairs, i);
    }
    if map_of(pairs).contains_key(name) {
        let i = choose|i: int| 0 <= i < pairs.len() && #[trigger] pairs[i].0 == name;
        assert(list[i] == name);
    }
}

proof fn lemma_name_list_unique(left: Seq<Seq<char>>, right: Seq<Seq<char>>)
    requires
        is_name_list(left),
        is_name_list(right),
        forall|name: Seq<char>| #[trigger] left.contains(name) == right.contains(name),
    ensures
        left == right,
{
    let a = keyed(left);
    let b = keyed(right);
    assert(is_ascending(a));
    assert(is_ascending(b));
    assert forall|name: Seq<char>| #[trigger]
        map_of(a).dom().contains(name) <==> map_of(b).dom().contains(name) by {
        lemma_keyed(left, name);
        lemma_keyed(right, name);
        assert(left.contains(name) == right.contains(name));
    }
    assert forall|name: Seq<char>| map_of(a).dom().contains(name) implies #[trigger] map_of(
        a,
    )[name] == map_of(b)[name] by {
        assert(map_of(b).dom().contains(name));
        lemma_keyed(left, name);
        lemma_keyed(right, name);
    }
    assert(map_of(a) =~= map_of(b));
    lemma_ascending_unique(a, b);
    assert forall|i: int| 0 <= i < left.len() implies left[i] == right[i] by {
        assert(a[i].0 == b[i].0);
    }
    assert(left =~= right);
}

/// The normal form of names is settled.
pub proof fn law_normal_names_settled(list: Seq<Seq<char>>, names: Seq<Seq<char>>)
    requires
        is_name_list(list),
        lists_names(list, names),
    ensures
        list == normal_names(names),
{
    lemma_name_list_unique(list, normal_names(names));
}

/// Names have a normal form.
pub proof fn lemma_normal_names_exist(names: Seq<Seq<char>>)
    ensures
        is_name_list(normal_names(names)),
        lists_names(normal_names(names), names),
{
    let wanted = names.map_values(|name: Seq<char>| normal_name(name));
    let map = Map::new(|name: Seq<char>| wanted.contains(name), |name: Seq<char>| true);
    seq_to_set_is_finite(wanted);
    assert(map.dom() =~= wanted.to_set());
    lemma_ascending_exists(map);
    let pairs = ascending(map);
    let list = Seq::new(pairs.len(), |i: int| pairs[i].0);
    assert forall|i: int, j: int| 0 <= i < j < list.len() implies text_before(
        #[trigger] list[i],
        #[trigger] list[j],
    ) by {
        assert(text_before(pairs[i].0, pairs[j].0));
    }
    assert forall|name: Seq<char>| #[trigger]
        list.contains(name) <==> exists|i: int|
            0 <= i < names.len() && normal_name(#[trigger] names[i]) == name by {
        lemma_map_of_keys(pairs, name);
        if list.contains(name) {
            let k = list.index_of(name);
            assert(pairs[k].0 == name);
            assert(wanted.contains(name));
            let i = wanted.index_of(name);
            assert(normal_name(names[i]) == name);
        }
        if exists|i: int| 0 <= i < names.len() && normal_name(#[trigger] names[i]) == name {
            let i = choose|i: int|
                0 <= i < names.len() && normal_name(#[trigger] names[i]) == name;
            assert(wanted[i] == name);
            assert(map.contains_key(name));
            let k = choose|k: int| 0 <= k < pairs.len() && #[trigger] pairs[k].0 == name;
            assert(list[k] == name);
        }
    }
    assert(is_name_list(list) && lists_names(list, names));
}

/// Header names in their normal form, in ascending order, none twice. A name that has nothing
/// but white space is refused.
pub fn normalize_header_names(names: Vec<String>) -> (normal: Result<Vec<String>, ConfigError>)
    ensures
        match normal {
            Ok(list) => {
                &&& views(list@) == normal_names(views(names@))
                &&& is_name_list(views(list@))
                &&& lists_names(views(list@), views(names@))
                &&& forall|i: int|
                    0 <= i < names@.len() ==> normal_name(#[trigger] names@[i]@).len() > 0
            },
            Err(ConfigError::Invalid(message)) => {
                &&& exists|i: int|
                    0 <= i < names@.len() && normal_name(#[trigger] names@[i]@).len() == 0
                &&& message@ == "cache.headers.names must contain non-empty header names"@
            },
            Err(ConfigError::Json(_)) => false,
        },
{
    let ghost given = views(names@);
    let mut seen: TextMap<bool> = TextMap::new();
    let mut i: usize = 0;
    while i < names.len()
        invariant
            i <= names@.len(),
            given == views(names@),
            forall|k: int| 0 <= k < i ==> normal_name(#[trigger] names@[k]@).len() > 0,
            forall|name: Seq<char>| #[trigger]
                seen@.contains_key(name) <==> exists|k: int|
                    0 <= k < i && normal_name(#[trigger] given[k]) == name,
        decreases names@.len() - i,
    {
        let name = names[i].as_str().trim().to_ascii_lowercase();
        if name.as_str().is_empty() {
            return Err(invalid("cache.headers.names must contain non-empty header names"));
        }
        let ghost before = seen@;
        let ghost added = name@;
        seen.insert(name, true);
        proof {
            assert(given[i as int] == names@[i as int]@);
            assert forall|name: Seq<char>| #[trigger]
                seen@.contains_key(name) <==> exists|k: int|
                    0 <= k < i + 1 && normal_name(#[trigger] given[k]) == name by {
                if name == added {
                    assert(normal_name(given[i as int]) == name);
                } else {
                    assert(seen@.contains_key(name) == before.contains_key(name));
                }
            }
        }
        i = i + 1;
    }
    let count = seen.len();
    let ghost pairs = seen.pairs();
    let mut list: Vec<String> = Vec::new();
    let mut j: usize = 0;
    while j < count
        invariant
            j <= count,
            count == pairs.len(),
            pairs == seen.pairs(),
            list@.len() == j,
            forall|k: int| 0 <= k < j ==> (#[trigger] list@[k])@ == pairs[k].0,
        decreases count - j,
    {
        list.push(seen.key_at(j).to_owned());
        j = j + 1;
    }
    proof {
        let names_listed = views(list@);
        assert forall|a: int, b: int| 0 <= a < b < names_listed.len() implies text_before(
            #[trigger] names_listed[a],
            #[trigger] names_listed[b],
        ) by {
            assert(text_before(pairs[a].0, pairs[b].0));
        }
        assert forall|name: Seq<char>| #[trigger]
            names_listed.contains(name) <==> exists|k: int|
                0 <= k < given.len() && normal_name(#[trigger] given[k]) == name by {
            lemma_map_of_keys(pairs, name);
            if names_listed.contains(name) {
                let k = names_listed.index_of(name);
                assert(pairs[k].0 == name);
                assert(seen@.contains_key(name));
            }
            if exists|k: int| 0 <= k < given.len() && normal_name(#[trigger] given[k]) == name {
                assert(seen@.contains_key(name));
                let k = choose|k: int| 0 <= k < pairs.len() && #[trigger] pairs[k].0 == name;
                assert(names_listed[k] == name);
            }
        }
        law_normal_names_settled(names_listed, given);
    }
    Ok(list)
}

/// The policy that a configuration asks for, or what is wrong with it.
pub open spec fn policy_of(headers: CacheHeadersConfigModel) -> Result<
    CacheHeaderPolicyModel,
    Seq<char>,
> {
    if exists|i: int|
        0 <= i < headers.names.len() && normal_name(#[trigger] headers.names[i]).len() == 0 {
        Err("cache.headers.names must contain non-empty header names"@)
    } else if headers.mode == "all_except_request_id"@ {
        Ok(CacheHeaderPolicyModel::AllExceptRequestId)
    } else if headers.mode == "allowlist"@ {
        Ok(CacheHeaderPolicyModel::Allowlist(normal_names(headers.names)))
    } else if headers.mode == "denylist"@ {
        Ok(CacheHeaderPolicyModel::Denylist(normal_names(headers.names)))
    } else {
        Err("cache.headers.mode must be all_except_request_id, allowlist, or denylist"@)
    }
}

/// The policy that a configuration asks for.
pub fn cache_header_policy(headers: CacheHeadersConfigJson) -> (policy: Result<
    CacheHeaderPolicy,
    ConfigError,
>)
    ensures
        match policy {
            Ok(policy) => policy_of(headers@) == Ok::<CacheHeaderPolicyModel, Seq<char>>(policy@),
            Err(ConfigError::Invalid(message)) => policy_of(headers@) == Err::<
                CacheHeaderPolicyModel,
                Seq<char>,
            >(message@),
            Err(ConfigError::Json(_)) => false,
        },
{
    let ghost given = headers@.names;
    let names = match normalize_header_names(headers.names) {
        Ok(names) => names,
        Err(err) => {
            proof {
                let i = choose|i: int|
                    0 <= i < headers.names@.len() && normal_name(
                        #[trigger] headers.names@[i]@,
                    ).len() == 0;
                assert(normal_name(given[i]).len() == 0);
            }
            return Err(err);
        },
    };
    proof {
        assert forall|i: int| 0 <= i < given.len() implies normal_name(
            #[trigger] given[i],
        ).len() > 0 by {
            assert(given[i] == headers.names@[i]@);
        }
    }
    if same_text(headers.mode.as_str(), "all_except_request_id") {
        Ok(CacheHeaderPolicy::AllExceptRequestId)
    } else if same_text(headers.mode.as_str(), "allowlist") {
        Ok(CacheHeaderPolicy::Allowlist(names))
    } else if same_text(headers.mode.as_str(), "denylist") {
        Ok(CacheHeaderPolicy::Denylist(names))
    } else {
        Err(
            invalid("cache.headers.mode must be all_except_request_id, allowlist, or denylist"),
        )
    }
}

/// What is wrong with the cluster, if anything is.
pub open spec fn cluster_fault(cluster: Option<Seq<char>>) -> Option<Seq<char>> {
    match cluster {
        Some(cluster) => if trimmed(cluster).len() == 0 {
            Some("grpc.cluster must not be empty"@)
        } else {
            None
        },
        None => Some("grpc.cluster must not be empty"@),
    }
}

/// The settings that a configuration stands for, or the first thing that is wrong with it.
pub open spec fn settings_of(config: PluginConfigModel) -> Result<PluginSettingsModel, Seq<char>> {
    if timeout_fault(config.timeout_ms) is Some {
        Err(timeout_fault(config.timeout_ms)->0)
    } else if cluster_fault(config.cluster) is Some {
        Err(cluster_fault(config.cluster)->0)
    } else if body_limit_fault(config.max_bytes) is Some {
        Err(body_limit_fault(config.max_bytes)->0)
    } else if cache_fault(config.cache) is Some {
        Err(cache_fault(config.cache)->0)
    } else {
        match policy_of(config.cache.headers) {
            Err(fault) => Err(fault),
            Ok(header_policy) => Ok(
                PluginSettingsModel {
                    timeout_ms: config.timeout_ms,
                    grpc_cluster: trimmed(config.cluster->0),
                    max_request_body_bytes: config.max_bytes,
                    cache: CacheConfigModel {
                        enabled: config.cache.enabled,
                        ttl_ms: config.cache.ttl_ms,
                        max_entries: config.cache.max_entries,
                        header_policy,
                    },
                    invalidation_secret: config.secret,
                },
            ),
        }
    }
}

impl PluginSettings {
    /// The settings that a configuration stands for, from what reading its text as JSON gave.
    pub fn from_json(read: Result<PluginConfigJson, serde_json::Error>) -> (settings: Result<
        Self,
        ConfigError,
    >)
        ensures
            match settings {
                Ok(settings) => read is Ok && settings_of(read->Ok_0@) == Ok::<
                    PluginSettingsModel,
                    Seq<char>,
                >(settings@),
                Err(ConfigError::Invalid(message)) => read is Ok && settings_of(read->Ok_0@)
                    == Err::<PluginSettingsModel, Seq<char>>(message@),
                Err(ConfigError::Json(err)) => read == Err::<PluginConfigJson, serde_json::Error>(
                    err,
                ),
            },
    {
        let config = match read {
            Ok(config) => config,
            Err(err) => return Err(ConfigError::from(err)),
        };
        if let Err(err) = validate_timeout_ms(config.timeout_ms) {
            return Err(err);
        }
        let grpc_cluster = match &config.grpc.cluster {
            Some(cluster) => match normalize_grpc_cluster(cluster.as_str()) {
                Ok(cluster) => cluster,
                Err(err) => return Err(err),
            },
            None => return Err(invalid("grpc.cluster must not be empty")),
        };
        if let Err(err) = validate_body_limit(config.request_body.max_bytes) {
            return Err(err);
        }
        if let Err(err) = validate_cache(&config.cache) {
            return Err(err);
        }
        let header_policy = match cache_header_policy(config.cache.headers) {
            Ok(policy) => policy,
            Err(err) => return Err(err),
        };
        Ok(
            PluginSettings {
                timeout_ms: config.timeout_ms,
                grpc_cluster,
                max_request_body_bytes: config.request_body.max_bytes,
                cache: CacheConfig {
                    enabled: config.cache.enabled,
                    ttl_ms: config.cache.ttl_ms,
                    max_entries: config.cache.max_entries,
                    header_policy,
                },
                invalidation_secret: config.invalidation.secret,
            },
        )
    }
}

/// Settings that were accepted keep within the documented bounds, and name a cluster.
pub proof fn law_settings_in_bounds(config: PluginConfigModel)
    ensures
        settings_of(config) matches Ok(settings) ==> {
            &&& 1 <= settings.timeout_ms <= MAX_TIMEOUT_MS
            &&& settings.grpc_cluster.len() > 0
            &&& 1 <= settings.max_request_body_bytes <= MAX_REQUEST_BODY_BYTES
            &&& settings.cache.enabled ==> 1 <= settings.cache.ttl_ms <= MAX_CACHE_TTL_MS
            &&& settings.cache.enabled ==> settings.cache.max_entries > 0
        },
{
}

/// The names that a policy lists, where its settings were accepted, are not empty and in
/// lowercase, in ascending order, none twice.
pub proof fn law_listed_names_are_normal(config: PluginConfigModel)
    ensures
        settings_of(config) matches Ok(settings) ==> match settings.cache.header_policy {
            CacheHeaderPolicyModel::AllExceptRequestId => true,
            CacheHeaderPolicyModel::Allowlist(names) => is_name_list(names) && forall|i: int|
                0 <= i < names.len() ==> (#[trigger] names[i]).len() > 0 && ascii_lowered(names[i])
                    == names[i],
            CacheHeaderPolicyModel::Denylist(names) => is_name_list(names) && forall|i: int|
                0 <= i < names.len() ==> (#[trigger] names[i]).len() > 0 && ascii_lowered(names[i])
                    == names[i],
        },
{
    let given = config.cache.headers.names;
    let list = normal_names(given);
    lemma_normal_names_exist(given);
    if settings_of(config) is Ok {
        assert forall|i: int| 0 <= i < list.len() implies (#[trigger] list[i]).len() > 0
            && ascii_lowered(list[i]) == list[i] by {
            assert(list.contains(list[i]));
            let k = choose|k: int|
                0 <= k < given.len() && normal_name(#[trigger] given[k]) == list[i];
            lemma_lowered_twice(trimmed(given[k]));
        }
    }
}

} // verus!
