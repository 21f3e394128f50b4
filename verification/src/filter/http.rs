//! The filter's work on one request.
use crate::cache::config::{CacheConfig, CacheConfigModel};
use crate::cache::entry::{shard_decoded, CacheEntry, CacheEntryModel};
use crate::cache::key::{compute_cache_key_with_policy, key_text, request_hash_under};
use crate::cache::shard::{
    quota_of, shard_id_from_key, shard_name, shard_of, shard_quota, shard_shared_key,
};
use crate::cache::update::{
    find_entry, fresh_entry, purge_all_updates, purge_key_update, store_update, ShardUpdate,
    ShardUpdateModel,
};
use crate::config::PluginSettingsModel;
use crate::decision::{
    body_or_forbidden, or_forbidden, outcome_of, AuthorizationOutcome, AuthorizationOutcomeModel,
};
use crate::filter::command::{
    bare_reply, cached_headers_to_pairs, call_check, check_call, local_reply_headers,
    pairs_to_cached_headers, reply_bare, reply_headers, reply_text, text_reply, Command,
    CommandModel, LocalReply, LocalReplyModel, Step, StepModel,
};
use crate::invalidation::{
    fault_of, InvalidationOp, InvalidationRequest, InvalidationRequestModel, INVALIDATION_PATH,
    INVALIDATION_SECRET_HEADER,
};
use crate::model::{optional_view, views};
use crate::pb::{CheckRequest, CheckRequestModel, CheckResponse};
use crate::request::{check_request_of, RequestParts, RequestPartsModel};
use crate::text::numbers::{number_spelled, read_number};
use crate::text::{
    ascii_lowered, chars_of, has_prefix, is_named, lower_text, same_text, to_lowercase,
};
use crate::text_map::TextMap;
use crate::wire::{decode, decoded};
use vstd::prelude::*;
use vstd::string::*;

verus! {

/// The state of the filter's work on one request.
pub struct AuthzHttp {
    /// The authorization call that is under way.
    pub grpc_token: Option<u32>,
    /// How long that call may take.
    pub timeout_ms: u64,
    pub grpc_cluster: String,
    pub max_request_body_bytes: usize,
    pub cache_config: CacheConfig,
    /// The cache key of the request, once it is known.
    pub cache_key: Option<String>,
    pub invalidation_secret: String,
    /// Whether the request is one to purge the cache.
    pub is_invalidation_request: bool,
    /// Whether the request has been dealt with, or is being dealt with elsewhere.
    pub dispatched: bool,
    pub method: String,
    pub path: String,
    pub query: String,
    pub host: String,
    pub scheme: String,
    pub request_id: String,
    pub headers: TextMap<String>,
    /// What has come in of the body.
    pub body_buf: Vec<u8>,
    /// How much of the body the proxy has shown.
    pub body_seen: usize,
}

/// The mathematical [`AuthzHttp`].
pub struct AuthzHttpModel {
    pub grpc_token: Option<u32>,
    pub timeout_ms: u64,
    pub grpc_cluster: Seq<char>,
    pub max_request_body_bytes: usize,
    pub cache_config: CacheConfigModel,
    pub cache_key: Option<Seq<char>>,
    pub invalidation_secret: Seq<char>,
    pub is_invalidation_request: bool,
    pub dispatched: bool,
    pub method: Seq<char>,
    pub path: Seq<char>,
    pub query: Seq<char>,
    pub host: Seq<char>,
    pub scheme: Seq<char>,
    pub request_id: Seq<char>,
    pub headers: Map<Seq<char>, Seq<char>>,
    pub body_buf: Seq<u8>,
    pub body_seen: usize,
}

impl View for AuthzHttp {
    type V = AuthzHttpModel;

    open spec fn view(&self) -> AuthzHttpModel {
        AuthzHttpModel {
            grpc_token: self.grpc_token,
            timeout_ms: self.timeout_ms,
            grpc_cluster: self.grpc_cluster@,
            max_request_body_bytes: self.max_request_body_bytes,
            cache_config: self.cache_config@,
            cache_key: optional_view(self.cache_key),
            invalidation_secret: self.invalidation_secret@,
            is_invalidation_request: self.is_invalidation_request,
            dispatched: self.dispatched,
            method: self.method@,
            path: self.path@,
            query: self.query@,
            host: self.host@,
            scheme: self.scheme@,
            request_id: self.request_id@,
            headers: self.headers@,
            body_buf: self.body_buf@,
            body_seen: self.body_seen,
        }
    }
}

/// How many characters stand before the first `?`.
pub open spec fn mark_at(target: Seq<char>) -> nat
    decreases target.len(),
{
    if target.len() == 0 || target[0] == '?' {
        0
    } else {
        1 + mark_at(target.skip(1))
    }
}

/// What an outcome leaves in the cache.
pub open spec fn recorded(
    outcome: AuthorizationOutcomeModel,
    expires_at_ms: u64,
) -> CacheEntryModel {
    match outcome {
        AuthorizationOutcomeModel::Allow { request_headers } => CacheEntryModel {
            expires_at_ms,
            allowed: true,
            denied_status: 0,
            denied_body: seq![],
            response_headers: seq![],
            request_headers,
        },
        AuthorizationOutcomeModel::Deny { status, body, headers } => CacheEntryModel {
            expires_at_ms,
            allowed: false,
            denied_status: status,
            denied_body: body,
            response_headers: headers,
            request_headers: seq![],
        },
    }
}

/// What is done with a request for which the cache has a decision.
pub open spec fn replayed(entry: CacheEntryModel) -> CommandModel {
    if entry.allowed {
        CommandModel::Forward { request_headers: entry.request_headers }
    } else {
        CommandModel::Reply(
            LocalReplyModel {
                status: entry.denied_status,
                headers: reply_headers(entry.response_headers),
                body: Some(body_or_forbidden(entry.denied_body)),
            },
        )
    }
}

/// What is done with a request that the authorization service has decided on.
pub open spec fn carried_out(outcome: AuthorizationOutcomeModel) -> CommandModel {
    match outcome {
        AuthorizationOutcomeModel::Allow { request_headers } => CommandModel::Resume {
            request_headers,
        },
        AuthorizationOutcomeModel::Deny { status, body, headers } => CommandModel::Reply(
            LocalReplyModel { status, headers: reply_headers(headers), body: Some(body) },
        ),
    }
}

/// When a decision made now expires.
pub open spec fn expiry(now_ms: u64, ttl_ms: u64) -> u64 {
    if now_ms + ttl_ms > u64::MAX {
        u64::MAX
    } else {
        (now_ms + ttl_ms) as u64
    }
}

impl AuthzHttpModel {
    /// The state before anything of the request has come in.
    pub open spec fn new(settings: PluginSettingsModel) -> AuthzHttpModel {
        AuthzHttpModel {
            grpc_token: None,
            timeout_ms: settings.timeout_ms,
            grpc_cluster: settings.grpc_cluster,
            max_request_body_bytes: settings.max_request_body_bytes,
            cache_config: settings.cache,
            cache_key: None,
            invalidation_secret: settings.invalidation_secret,
            is_invalidation_request: false,
            dispatched: false,
            method: seq![],
            path: seq![],
            query: seq![],
            host: seq![],
            scheme: seq![],
            request_id: seq![],
            headers: Map::empty(),
            body_buf: seq![],
            body_seen: 0,
        }
    }

    /// The state after one header. Those that start with a colon say what is asked for, and the
    /// request's number is kept apart; the rest are kept under their lowercase names.
    pub open spec fn with_header(self, name: Seq<char>, value: Seq<char>) -> AuthzHttpModel {
        if name == ":method"@ {
            AuthzHttpModel { method: value, ..self }
        } else if name == ":path"@ {
            if mark_at(value) < value.len() {
                AuthzHttpModel {
                    path: value.take(mark_at(value) as int),
                    query: value.skip(mark_at(value) as int + 1),
                    ..self
                }
            } else {
                AuthzHttpModel { path: value, ..self }
            }
        } else if name == ":authority"@ {
            AuthzHttpModel { host: value, ..self }
        } else if name == ":scheme"@ {
            AuthzHttpModel { scheme: value, ..self }
        } else if ascii_lowered(name) == "x-request-id"@ {
            AuthzHttpModel { request_id: value, ..self }
        } else if ":"@.is_prefix_of(name) {
            self
        } else {
            AuthzHttpModel { headers: self.headers.insert(lower_text(name), value), ..self }
        }
    }

    /// The state after the given headers.
    pub open spec fn with_headers(self, headers: Seq<(Seq<char>, Seq<char>)>) -> AuthzHttpModel
        decreases headers.len(),
    {
        if headers.len() == 0 {
            AuthzHttpModel { headers: Map::empty(), ..self }
        } else {
            self.with_headers(headers.drop_last()).with_header(
                headers.last().0,
                headers.last().1,
            )
        }
    }

    /// The state and the reply where the body is too long.
    pub open spec fn refused_as_too_large(self) -> (AuthzHttpModel, CommandModel) {
        (
            AuthzHttpModel { dispatched: true, ..self },
            text_reply(413, "Payload Too Large"@),
        )
    }

    /// Whether a purge request knows the secret.
    pub open spec fn may_purge(self) -> bool {
        &&& self.invalidation_secret.len() > 0
        &&& self.headers.contains_key(INVALIDATION_SECRET_HEADER@)
        &&& self.headers[INVALIDATION_SECRET_HEADER@] == self.invalidation_secret
    }

    /// The start of work on a purge request that has come in.
    pub open spec fn purging(self) -> (AuthzHttpModel, CommandModel) {
        (
            AuthzHttpModel { dispatched: true, ..self },
            if self.may_purge() {
                CommandModel::ReadInvalidation
            } else {
                text_reply(401, "Unauthorized"@)
            },
        )
    }

    /// The check for the request that has come in.
    pub open spec fn check(self) -> CheckRequestModel {
        check_request_of(
            RequestPartsModel {
                method: self.method,
                path: self.path,
                query: self.query,
                host: self.host,
                scheme: self.scheme,
                request_id: self.request_id,
                headers: self.headers,
                body: self.body_buf,
            },
        )
    }

    /// The cache key of the request that has come in.
    pub open spec fn key(self) -> Seq<char> {
        key_text(request_hash_under(self.check(), self.cache_config.header_policy))
    }

    /// The start of the check of a request that has come in: in the cache, where there is one,
    /// and else with the authorization service.
    pub open spec fn checking(self) -> (AuthzHttpModel, CommandModel) {
        (
            AuthzHttpModel {
                dispatched: true,
                cache_key: if self.cache_config.enabled {
                    Some(self.key())
                } else {
                    self.cache_key
                },
                method: seq![],
                path: seq![],
                query: seq![],
                host: seq![],
                scheme: seq![],
                request_id: seq![],
                headers: Map::empty(),
                body_buf: seq![],
                ..self
            },
            if self.cache_config.enabled {
                CommandModel::ReadCache {
                    shared_key: shard_name(shard_of(self.key())),
                    check: self.check(),
                }
            } else {
                check_call(self.check().encoded(), self.timeout_ms)
            },
        )
    }

    /// What happens when the headers come in.
    pub open spec fn on_headers(
        self,
        headers: Seq<(Seq<char>, Seq<char>)>,
        end_of_stream: bool,
    ) -> (AuthzHttpModel, CommandModel) {
        let read = self.with_headers(headers);
        let marked = AuthzHttpModel {
            is_invalidation_request: read.method == "POST"@ && read.path == INVALIDATION_PATH@,
            ..read
        };
        if self.dispatched {
            (self, CommandModel::Pause)
        } else if announces_more_than(headers, self.max_request_body_bytes) {
            read.refused_as_too_large()
        } else if marked.is_invalidation_request {
            if end_of_stream {
                marked.purging()
            } else {
                (marked, CommandModel::Continue)
            }
        } else if end_of_stream {
            marked.checking()
        } else {
            (marked, CommandModel::Pause)
        }
    }

    /// The part of the body to read: where it starts and how long it is.
    pub open spec fn window(self, body_size: usize) -> Option<(usize, usize)> {
        if self.dispatched || body_size > self.max_request_body_bytes || body_size
            <= self.body_seen {
            None
        } else {
            Some((self.body_seen, (body_size - self.body_seen) as usize))
        }
    }

    /// The state after more of the body has been shown.
    pub open spec fn with_body(self, body_size: usize, chunk: Option<Seq<u8>>) -> AuthzHttpModel {
        if body_size > self.body_seen {
            AuthzHttpModel {
                body_buf: match chunk {
                    Some(chunk) => self.body_buf + chunk,
                    None => self.body_buf,
                },
                body_seen: body_size,
                ..self
            }
        } else {
            self
        }
    }

    /// What happens when more of the body comes in.
    pub open spec fn on_body(
        self,
        body_size: usize,
        chunk: Option<Seq<u8>>,
        end_of_stream: bool,
    ) -> (AuthzHttpModel, CommandModel) {
        let read = self.with_body(body_size, chunk);
        if self.dispatched {
            (self, CommandModel::Pause)
        } else if body_size > self.max_request_body_bytes {
            self.refused_as_too_large()
        } else if !end_of_stream {
            (read, CommandModel::Pause)
        } else if read.is_invalidation_request {
            read.purging()
        } else {
            read.checking()
        }
    }

    /// What happens when the shard has been read.
    pub open spec fn on_cache_read(
        self,
        check: CheckRequestModel,
        bytes: Option<Seq<u8>>,
        now_ms: u64,
    ) -> CommandModel {
        let entry = match self.cache_key {
            Some(key) => fresh_entry(shard_decoded(bytes), key, now_ms),
            None => None,
        };
        match entry {
            Some(entry) => replayed(entry),
            None => check_call(check.encoded(), self.timeout_ms),
        }
    }

    /// What happens when the authorization service has been called, or could not be.
    pub open spec fn on_call_made(self, token: Option<u32>) -> (AuthzHttpModel, CommandModel) {
        match token {
            Some(token) => (
                AuthzHttpModel { grpc_token: Some(token), ..self },
                CommandModel::Pause,
            ),
            None => (self, text_reply(503, "Authz service unavailable"@)),
        }
    }

    /// What happens when a call has ended.
    pub open spec fn on_call_ended(self, token_id: u32, status_code: u32) -> (
        AuthzHttpModel,
        CommandModel,
    ) {
        if self.grpc_token != Some(token_id) {
            (self, CommandModel::Ignore)
        } else {
            (
                AuthzHttpModel { grpc_token: None, ..self },
                if status_code != 0 {
                    text_reply(503, "Authz service unavailable"@)
                } else {
                    CommandModel::ReadAnswer
                },
            )
        }
    }

    /// The changes to the cache that follow from an outcome.
    pub open spec fn updates(self, outcome: AuthorizationOutcomeModel, now_ms: u64) -> Seq<
        ShardUpdateModel,
    > {
        match self.cache_key {
            Some(key) => if self.cache_config.enabled {
                seq![
                    store_update(
                        key,
                        recorded(outcome, expiry(now_ms, self.cache_config.ttl_ms)),
                        quota_of(self.cache_config.max_entries as nat),
                    ),
                ]
            } else {
                seq![]
            },
            None => seq![],
        }
    }

    /// What happens when the authorization service's answer has been read.
    pub open spec fn on_answer(self, body: Option<Seq<u8>>, now_ms: u64) -> StepModel {
        match body {
            None => StepModel {
                updates: seq![],
                command: text_reply(500, "Empty authz response"@),
            },
            Some(body) => match decoded::<CheckResponse>(body) {
                None => StepModel {
                    updates: seq![],
                    command: text_reply(500, "Invalid authz response"@),
                },
                Some(response) => StepModel {
                    updates: self.updates(outcome_of(response), now_ms),
                    command: carried_out(outcome_of(response)),
                },
            },
        }
    }
}

/// The body length that the headers announce: the last that is a number.
pub open spec fn announced_length(headers: Seq<(Seq<char>, Seq<char>)>) -> Option<nat>
    decreases headers.len(),
{
    if headers.len() == 0 {
        None
    } else if ascii_lowered(headers.last().0) == "content-length"@ {
        match number_spelled(headers.last().1, 10, usize::MAX as nat) {
            Some(length) => Some(length),
            None => announced_length(headers.drop_last()),
        }
    } else {
        announced_length(headers.drop_last())
    }
}

/// Whether the headers announce a body that is longer than `max`.
pub open spec fn announces_more_than(headers: Seq<(Seq<char>, Seq<char>)>, max: usize) -> bool {
    announced_length(headers) matches Some(length) && length > max
}

/// What happens when a purge request has been read.
pub open spec fn on_purge_read(read: Result<InvalidationRequestModel, ()>) -> StepModel {
    match read {
        Err(_) => StepModel { updates: seq![], command: text_reply(400, "invalid json"@) },
        Ok(request) => match fault_of(request) {
            Some(fault) => StepModel { updates: seq![], command: text_reply(400, fault) },
            None => StepModel {
                updates: match request.op {
                    InvalidationOp::PurgeKey => seq![purge_key_update(request.key->0)],
                    InvalidationOp::PurgeAll => purge_all_updates(),
                },
                command: bare_reply(204),
            },
        },
    }
}

fn find_mark(target: &str) -> (place: usize)
    ensures
        place == mark_at(target@),
        place <= target@.len(),
{
    let chars = chars_of(target);
    let mut i: usize = 0;
    proof {
        assert(target@.skip(0) =~= target@);
    }
    while i < chars.len() && chars[i] != '?'
        invariant
            i <= chars@.len(),
            chars@ == target@,
            mark_at(target@) == i + mark_at(target@.skip(i as int)),
        ensures
            i <= chars@.len(),
            chars@ == target@,
            mark_at(target@) == i,
        decreases chars@.len() - i,
    {
        proof {
            assert(target@.skip(i as int).skip(1) =~= target@.skip(i + 1));
        }
        i = i + 1;
    }
    i
}

fn take_text(text: &mut String) -> (taken: String)
    ensures
        taken@ == old(text)@,
        final(text)@ == Seq::<char>::empty(),
{
    let mut taken = String::new();
    std::mem::swap(text, &mut taken);
    taken
}

impl AuthzHttp {
    fn read_header(&mut self, name: String, value: String)
        ensures
            final(self)@ == old(self)@.with_header(name@, value@),
    {
        proof {
            reveal_strlit("x-request-id");
            assert(ascii_lowered("x-request-id"@) =~= "x-request-id"@);
        }
        if same_text(name.as_str(), ":method") {
            self.method = value;
        } else if same_text(name.as_str(), ":path") {
            let place = find_mark(value.as_str());
            let end: usize = value.as_str().unicode_len();
            if place < end {
                self.path = value.as_str().substring_char(0, place).to_owned();
                self.query = value.as_str().substring_char(place + 1, end).to_owned();
            } else {
                self.path = value;
            }
        } else if same_text(name.as_str(), ":authority") {
            self.host = value;
        } else if same_text(name.as_str(), ":scheme") {
            self.scheme = value;
        } else if is_named(name.as_str(), "x-request-id") {
            self.request_id = value;
        } else if !has_prefix(name.as_str(), ":") {
            self.headers.insert(to_lowercase(name.as_str()), value);
        }
    }

    /// Takes the headers in.
    pub fn on_http_request_headers(
        &mut self,
        headers: Vec<(String, String)>,
        end_of_stream: bool,
    ) -> (command: Command)
        ensures
            (final(self)@, command@) == old(self)@.on_headers(views(headers@), end_of_stream),
    {
        if self.dispatched {
            return Command::Pause;
        }
        let ghost given = views(headers@);
        self.headers = TextMap::new();
        let mut content_length: Option<u64> = None;
        let mut i: usize = 0;
        proof {
            reveal_strlit("content-length");
            assert(ascii_lowered("content-length"@) =~= "content-length"@);
            assert(given.take(0) =~= seq![]);
        }
        while i < headers.len()
            invariant
                i <= headers@.len(),
                given == views(headers@),
                ascii_lowered("content-length"@) == "content-length"@,
                self@ == old(self)@.with_headers(given.take(i as int)),
                self.max_request_body_bytes == old(self).max_request_body_bytes,
                match content_length {
                    Some(length) => announced_length(given.take(i as int)) == Some(
                        length as nat,
                    ),
                    None => announced_length(given.take(i as int)) is None,
                },
            decreases headers@.len() - i,
        {
            proof {
                assert(given.take(i + 1).drop_last() =~= given.take(i as int));
                assert(given.take(i + 1).last() == headers@[i as int]@);
            }
            if is_named(headers[i].0.as_str(), "content-length") {
                if let Some(length) = read_number(headers[i].1.as_str(), 10, usize::MAX as u64) {
                    content_length = Some(length);
                }
            }
            self.read_header(headers[i].0.clone(), headers[i].1.clone());
            i = i + 1;
        }
        proof {
            assert(given.take(headers@.len() as int) =~= given);
        }
        if let Some(length) = content_length {
            if length > self.max_request_body_bytes as u64 {
                return self.reject_payload_too_large();
            }
        }
        self.is_invalidation_request = same_text(self.method.as_str(), "POST") && same_text(
            self.path.as_str(),
            INVALIDATION_PATH,
        );
        if self.is_invalidation_request {
            if end_of_stream {
                return self.handle_invalidation_request();
            }
            return Command::Continue;
        }
        if end_of_stream {
            self.dispatch_check_request()
        } else {
            Command::Pause
        }
    }

    /// The part of the body to read when the proxy shows `body_size` bytes of it.
    pub fn body_window(&self, body_size: usize) -> (window: Option<(usize, usize)>)
        ensures
            window == self@.window(body_size),
    {
        if self.dispatched || body_size > self.max_request_body_bytes || body_size
            <= self.body_seen {
            None
        } else {
            Some((self.body_seen, body_size - self.body_seen))
        }
    }

    /// Takes more of the body in. `chunk` is what was read of the window.
    pub fn on_http_request_body(
        &mut self,
        body_size: usize,
        chunk: Option<Vec<u8>>,
        end_of_stream: bool,
    ) -> (command: Command)
        ensures
            (final(self)@, command@) == old(self)@.on_body(
                body_size,
                optional_view(chunk),
                end_of_stream,
            ),
    {
        if self.dispatched {
            return Command::Pause;
        }
        if body_size > self.max_request_body_bytes {
            return self.reject_payload_too_large();
        }
        if body_size > self.body_seen {
            if let Some(chunk) = chunk {
                let ghost before = self.body_buf@;
                let mut more = chunk;
                self.body_buf.append(&mut more);
                proof {
                    assert(self.body_buf@ =~= before + chunk@);
                }
            }
            self.body_seen = body_size;
        }
        if !end_of_stream {
            return Command::Pause;
        }
        if self.is_invalidation_request {
            self.handle_invalidation_request()
        } else {
            self.dispatch_check_request()
        }
    }

    fn reject_payload_too_large(&mut self) -> (command: Command)
        ensures
            (final(self)@, command@) == old(self)@.refused_as_too_large(),
    {
        self.dispatched = true;
        reply_text(413, "Payload Too Large")
    }

    fn invalidation_authorized(&self) -> (authorized: bool)
        ensures
            authorized == self@.may_purge(),
    {
        if self.invalidation_secret.as_str().is_empty() {
            return false;
        }
        match self.headers.get(INVALIDATION_SECRET_HEADER) {
            Some(value) => same_text(value.as_str(), self.invalidation_secret.as_str()),
            None => false,
        }
    }

    fn handle_invalidation_request(&mut self) -> (command: Command)
        ensures
            (final(self)@, command@) == old(self)@.purging(),
    {
        self.dispatched = true;
        if self.invalidation_authorized() {
            Command::ReadInvalidation
        } else {
            reply_text(401, "Unauthorized")
        }
    }

    fn dispatch_check_request(&mut self) -> (command: Command)
        ensures
            (final(self)@, command@) == old(self)@.checking(),
    {
        self.dispatched = true;
        let mut headers: TextMap<String> = TextMap::new();
        std::mem::swap(&mut headers, &mut self.headers);
        let mut body: Vec<u8> = Vec::new();
        std::mem::swap(&mut body, &mut self.body_buf);
        let check = RequestParts {
            method: take_text(&mut self.method),
            path: take_text(&mut self.path),
            query: take_text(&mut self.query),
            host: take_text(&mut self.host),
            scheme: take_text(&mut self.scheme),
            request_id: take_text(&mut self.request_id),
            headers,
            body,
        }.into_check_request();
        if self.cache_config.enabled {
            let key = compute_cache_key_with_policy(&check, &self.cache_config.header_policy);
            let shared_key = shard_shared_key(shard_id_from_key(key.as_str()));
            self.cache_key = Some(key);
            Command::ReadCache { shared_key, check }
        } else {
            call_check(check.encode_to_vec(), self.timeout_ms)
        }
    }

    /// Takes the shard in that was read for a check.
    pub fn on_cache_read(
        &self,
        check: CheckRequest,
        bytes: Option<&[u8]>,
        now_ms: u64,
    ) -> (command: Command)
        ensures
            command@ == self@.on_cache_read(check@, optional_view(bytes), now_ms),
    {
        let entry = match &self.cache_key {
            Some(key) => find_entry(bytes, key.as_str(), now_ms),
            None => None,
        };
        match entry {
            Some(entry) => replay(&entry),
            None => call_check(check.encode_to_vec(), self.timeout_ms),
        }
    }

    /// Takes the token of the call in, or that it could not be made.
    pub fn on_call_made(&mut self, token: Option<u32>) -> (command: Command)
        ensures
            (final(self)@, command@) == old(self)@.on_call_made(token),
    {
        match token {
            Some(token) => {
                self.grpc_token = Some(token);
                Command::Pause
            },
            None => reply_text(503, "Authz service unavailable"),
        }
    }

    /// Takes in that a call has ended, and how.
    pub fn on_grpc_call_response(&mut self, token_id: u32, status_code: u32) -> (command: Command)
        ensures
            (final(self)@, command@) == old(self)@.on_call_ended(token_id, status_code),
    {
        match self.grpc_token {
            Some(token) => if token != token_id {
                return Command::Ignore;
            },
            None => return Command::Ignore,
        }
        self.grpc_token = None;
        if status_code != 0 {
            reply_text(503, "Authz service unavailable")
        } else {
            Command::ReadAnswer
        }
    }

    /// Takes the answer of the authorization service in.
    pub fn on_answer(&self, body: Option<&[u8]>, now_ms: u64) -> (step: Step)
        ensures
            step@ == self@.on_answer(optional_view(body), now_ms),
    {
        match body {
            None => only(reply_text(500, "Empty authz response")),
            Some(body) => match decode::<CheckResponse>(body) {
                None => only(reply_text(500, "Invalid authz response")),
                Some(response) => {
                    let outcome = AuthorizationOutcome::from_check_response(&response);
                    let updates = self.store_cache_entry(&outcome, now_ms);
                    Step { updates, command: carry_out(outcome) }
                },
            },
        }
    }

    fn store_cache_entry(&self, outcome: &AuthorizationOutcome, now_ms: u64) -> (updates: Vec<
        ShardUpdate,
    >)
        ensures
            views(updates@) == self@.updates(outcome@, now_ms),
    {
        let mut updates: Vec<ShardUpdate> = Vec::new();
        if let Some(cache_key) = &self.cache_key {
            if self.cache_config.enabled {
                let expires_at_ms: u64 = now_ms.saturating_add(self.cache_config.ttl_ms);
                let quota = shard_quota(self.cache_config.max_entries);
                let update = ShardUpdate::store(
                    cache_key.as_str(),
                    record(outcome, expires_at_ms),
                    quota,
                );
                updates.push(update);
                proof {
                    assert(views(updates@) =~= seq![update@]);
                }
                return updates;
            }
        }
        proof {
            assert(views(updates@) =~= seq![]);
        }
        updates
    }

    /// Takes a purge request in, from what reading the body as JSON gave.
    pub fn on_invalidation_read(
        &self,
        read: Result<InvalidationRequest, serde_json::Error>,
    ) -> (step: Step)
        ensures
            step@ == on_purge_read(
                match read {
                    Ok(request) => Ok(request@),
                    Err(_) => Err(()),
                },
            ),
    {
        let request = match InvalidationRequest::parse(read) {
            Ok(request) => request,
            Err(fault) => return only(reply_text(400, fault)),
        };
        let updates = match request.op {
            InvalidationOp::PurgeKey => {
                let mut updates: Vec<ShardUpdate> = Vec::new();
                if let Some(key) = &request.key {
                    let update = ShardUpdate::purge_key(key.as_str());
                    updates.push(update);
                    proof {
                        assert(views(updates@) =~= seq![update@]);
                    }
                }
                updates
            },
            InvalidationOp::PurgeAll => ShardUpdate::purge_all(),
        };
        Step { updates, command: reply_bare(204) }
    }
}

/// A step that changes nothing in the cache.
fn only(command: Command) -> (step: Step)
    ensures
        step@ == (StepModel { updates: seq![], command: command@ }),
{
    let updates: Vec<ShardUpdate> = Vec::new();
    proof {
        assert(views(updates@) =~= seq![]);
    }
    Step { updates, command }
}

/// What is done with a request for which the cache has a decision.
pub fn replay(entry: &CacheEntry) -> (command: Command)
    ensures
        command@ == replayed(entry@),
{
    if entry.allowed {
        Command::Forward { request_headers: cached_headers_to_pairs(&entry.request_headers) }
    } else {
        let headers = cached_headers_to_pairs(&entry.response_headers);
        Command::Reply(
            LocalReply {
                status: entry.denied_status,
                headers: local_reply_headers(&headers),
                body: Some(or_forbidden(entry.denied_body.as_str())),
            },
        )
    }
}

/// What is done with a request that the authorization service has decided on.
pub fn carry_out(outcome: AuthorizationOutcome) -> (command: Command)
    ensures
        command@ == carried_out(outcome@),
{
    match outcome {
        AuthorizationOutcome::Allow { request_headers } => Command::Resume { request_headers },
        AuthorizationOutcome::Deny { status, body, headers } => Command::Reply(
            LocalReply { status, headers: local_reply_headers(&headers), body: Some(body) },
        ),
    }
}

/// What an outcome leaves in the cache.
pub fn record(outcome: &AuthorizationOutcome, expires_at_ms: u64) -> (entry: CacheEntry)
    ensures
        entry@ == recorded(outcome@, expires_at_ms),
{
    let none: Vec<(String, String)> = Vec::new();
    proof {
        assert(views(none@) =~= seq![]);
    }
    match outcome {
        AuthorizationOutcome::Allow { request_headers } => CacheEntry {
            expires_at_ms,
            allowed: true,
            denied_status: 0,
            denied_body: String::new(),
            response_headers: pairs_to_cached_headers(&none),
            request_headers: pairs_to_cached_headers(request_headers),
        },
        AuthorizationOutcome::Deny { status, body, headers } => CacheEntry {
            expires_at_ms,
            allowed: false,
            denied_status: *status,
            denied_body: body.clone(),
            response_headers: pairs_to_cached_headers(headers),
            request_headers: pairs_to_cached_headers(&none),
        },
    }
}

} // verus!
