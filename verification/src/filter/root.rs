//! The filter's settings, and the start of its work on a request.
use crate::cache::config::CacheConfig;
use crate::config::{default_settings, ConfigError, PluginSettings, PluginSettingsModel};
use crate::filter::http::{AuthzHttp, AuthzHttpModel};
use crate::model::optional_view;
use crate::text::utf8_text;
use crate::text_map::TextMap;
use vstd::prelude::*;
use vstd::utf8::{decode_utf8, valid_utf8};

verus! {

/// The filter as it is set up.
pub struct AuthzRoot {
    pub timeout_ms: u64,
    pub grpc_cluster: String,
    pub max_request_body_bytes: usize,
    pub cache_config: CacheConfig,
    pub invalidation_secret: String,
}

impl View for AuthzRoot {
    type V = PluginSettingsModel;

    open spec fn view(&self) -> PluginSettingsModel {
        PluginSettingsModel {
            timeout_ms: self.timeout_ms,
            grpc_cluster: self.grpc_cluster@,
            max_request_body_bytes: self.max_request_body_bytes,
            cache: self.cache_config@,
            invalidation_secret: self.invalidation_secret@,
        }
    }
}

/// The text of a configuration: none where there is no configuration, or it is not UTF-8.
pub open spec fn text_of_configuration(size: usize, config: Option<Seq<u8>>) -> Option<Seq<char>> {
    match config {
        Some(bytes) => if size != 0 && valid_utf8(bytes) {
            Some(decode_utf8(bytes))
        } else {
            None
        },
        None => None,
    }
}

/// The text of a configuration: none where there is no configuration, or it is not UTF-8.
pub fn configuration_text(size: usize, config: Option<Vec<u8>>) -> (text: Option<String>)
    ensures
        optional_view(text) == text_of_configuration(size, optional_view(config)),
{
    if size == 0 {
        return None;
    }
    match config {
        Some(bytes) => utf8_text(bytes),
        None => None,
    }
}

impl AuthzRoot {
    /// The filter before it is configured.
    pub fn new() -> (root: Self)
        ensures
            root@ == default_settings(),
    {
        let settings = PluginSettings::default();
        AuthzRoot {
            timeout_ms: settings.timeout_ms,
            grpc_cluster: settings.grpc_cluster,
            max_request_body_bytes: settings.max_request_body_bytes,
            cache_config: settings.cache,
            invalidation_secret: settings.invalidation_secret,
        }
    }

    /// Takes settings over; those of a configuration that was refused change nothing. The filter
    /// starts in any case.
    pub fn on_configure(&mut self, settings: Result<PluginSettings, ConfigError>) -> (started: bool)
        ensures
            started,
            match settings {
                Ok(settings) => final(self)@ == settings@,
                Err(_) => final(self)@ == old(self)@,
            },
    {
        if let Ok(settings) = settings {
            self.timeout_ms = settings.timeout_ms;
            self.grpc_cluster = settings.grpc_cluster;
            self.max_request_body_bytes = settings.max_request_body_bytes;
            self.cache_config = settings.cache;
            self.invalidation_secret = settings.invalidation_secret;
        }
        true
    }

    /// The filter's work on a request, before anything of it has come in.
    pub fn create_http_context(&self) -> (http: AuthzHttp)
        ensures
            http@ == AuthzHttpModel::new(self@),
    {
        AuthzHttp {
            grpc_token: None,
            timeout_ms: self.timeout_ms,
            grpc_cluster: self.grpc_cluster.clone(),
            max_request_body_bytes: self.max_request_body_bytes,
            cache_config: self.cache_config.clone(),
            cache_key: None,
            invalidation_secret: self.invalidation_secret.clone(),
            is_invalidation_request: false,
            dispatched: false,
            method: String::new(),
            path: String::new(),
            query: String::new(),
            host: String::new(),
            scheme: String::new(),
            request_id: String::new(),
            headers: TextMap::new(),
            body_buf: Vec::new(),
            body_seen: 0,
        }
    }
}

} // verus!
