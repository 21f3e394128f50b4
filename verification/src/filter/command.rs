//! What the filter asks of the proxy.
use crate::cache::update::{ShardUpdate, ShardUpdateModel};
use crate::cache::CachedHeader;
use crate::model::{optional_view, views};
use crate::pb::{CheckRequest, CheckRequestModel};
use crate::text::{ascii_lowered, is_named};
use vstd::prelude::*;

verus! {

/// The cluster that authorization calls go to.
pub const GRPC_CLUSTER: &'static str = "ext_authz";

/// The service that is called.
pub const GRPC_SERVICE: &'static str = "envoy.service.auth.v3.Authorization";

/// The method of the service that is called.
pub const GRPC_METHOD: &'static str = "Check";

/// A reply that the filter makes itself.
#[derive(Clone, Debug, Eq, PartialEq)]
pub struct LocalReply {
    pub status: u32,
    pub headers: Vec<(String, String)>,
    pub body: Option<String>,
}

/// The mathematical [`LocalReply`].
pub struct LocalReplyModel {
    pub status: u32,
    pub headers: Seq<(Seq<char>, Seq<char>)>,
    pub body: Option<Seq<char>>,
}

impl View for LocalReply {
    type V = LocalReplyModel;

    open spec fn view(&self) -> LocalReplyModel {
        LocalReplyModel {
            status: self.status,
            headers: views(self.headers@),
            body: optional_view(self.body),
        }
    }
}

/// A call of the authorization service.
#[derive(Clone, Debug, Eq, PartialEq)]
pub struct GrpcCall {
    pub cluster: String,
    pub service: String,
    pub method: String,
    pub metadata: Vec<(String, Vec<u8>)>,
    pub message: Vec<u8>,
    /// How long the call may take.
    pub timeout_ms: u64,
}

/// The mathematical [`GrpcCall`].
pub struct GrpcCallModel {
    pub cluster: Seq<char>,
    pub service: Seq<char>,
    pub method: Seq<char>,
    pub metadata: Seq<(Seq<char>, Seq<u8>)>,
    pub message: Seq<u8>,
    pub timeout_ms: u64,
}

impl View for GrpcCall {
    type V = GrpcCallModel;

    open spec fn view(&self) -> GrpcCallModel {
        GrpcCallModel {
            cluster: self.cluster@,
            service: self.service@,
            method: self.method@,
            metadata: views(self.metadata@),
            message: self.message@,
            timeout_ms: self.timeout_ms,
        }
    }
}

/// What the proxy is asked to do next.
#[derive(Debug, PartialEq)]
pub enum Command {
    /// Nothing: the callback was not meant for this request.
    Ignore,
    /// Let the request go on.
    Continue,
    /// Hold the request.
    Pause,
    /// Answer the request, which is held.
    Reply(LocalReply),
    /// Set headers of the request and let it go on.
    Forward { request_headers: Vec<(String, String)> },
    /// Set headers of the request, which was held, and let it go on.
    Resume { request_headers: Vec<(String, String)> },
    /// Read the shard with the given name, and hand it in with the check that it may save.
    ReadCache { shared_key: String, check: CheckRequest },
    /// Make a call, once, and hand in its token.
    Call(GrpcCall),
    /// Read the answer of the authorization service, and hand it in.
    ReadAnswer,
    /// Read the request's body as a purge request, and hand it in.
    ReadInvalidation,
}

/// The mathematical [`Command`].
pub enum CommandModel {
    Ignore,
    Continue,
    Pause,
    Reply(LocalReplyModel),
    Forward { request_headers: Seq<(Seq<char>, Seq<char>)> },
    Resume { request_headers: Seq<(Seq<char>, Seq<char>)> },
    ReadCache { shared_key: Seq<char>, check: CheckRequestModel },
    Call(GrpcCallModel),
    ReadAnswer,
    ReadInvalidation,
}

impl View for Command {
    type V = CommandModel;

    open spec fn view(&self) -> CommandModel {
        match *self {
            Command::Ignore => CommandModel::Ignore,
            Command::Continue => CommandModel::Continue,
            Command::Pause => CommandModel::Pause,
            Command::Reply(reply) => CommandModel::Reply(reply@),
            Command::Forward { request_headers } => CommandModel::Forward {
                request_headers: views(request_headers@),
            },
            Command::Resume { request_headers } => CommandModel::Resume {
                request_headers: views(request_headers@),
            },
            Command::ReadCache { shared_key, check } => CommandModel::ReadCache {
                shared_key: shared_key@,
                check: check@,
            },
            Command::Call(call) => CommandModel::Call(call@),
            Command::ReadAnswer => CommandModel::ReadAnswer,
            Command::ReadInvalidation => CommandModel::ReadInvalidation,
        }
    }
}

/// Changes to stored shards, and what is to be done after them.
#[derive(Debug, PartialEq)]
pub struct Step {
    pub updates: Vec<ShardUpdate>,
    pub command: Command,
}

/// The mathematical [`Step`].
pub struct StepModel {
    pub updates: Seq<ShardUpdateModel>,
    pub command: CommandModel,
}

impl View for Step {
    type V = StepModel;

    open spec fn view(&self) -> StepModel {
        StepModel { updates: views(self.updates@), command: self.command@ }
    }
}

/// The call of the authorization service with an encoded check: it goes to the method `Check` of
/// the service `Authorization` on the cluster `ext_authz`, without metadata.
pub open spec fn check_call(message: Seq<u8>, timeout_ms: u64) -> CommandModel {
    CommandModel::Call(
        GrpcCallModel {
            cluster: GRPC_CLUSTER@,
            service: GRPC_SERVICE@,
            method: GRPC_METHOD@,
            metadata: seq![],
            message,
            timeout_ms,
        },
    )
}

/// The call of the authorization service with an encoded check.
pub fn call_check(message: Vec<u8>, timeout_ms: u64) -> (command: Command)
    ensures
        command@ == check_call(message@, timeout_ms),
{
    let metadata: Vec<(String, Vec<u8>)> = Vec::new();
    proof {
        assert(views(metadata@) =~= seq![]);
    }
    Command::Call(
        GrpcCall {
            cluster: GRPC_CLUSTER.to_owned(),
            service: GRPC_SERVICE.to_owned(),
            method: GRPC_METHOD.to_owned(),
            metadata,
            message,
            timeout_ms,
        },
    )
}

/// A reply with a plain text.
pub open spec fn text_reply(status: u32, text: Seq<char>) -> CommandModel {
    CommandModel::Reply(
        LocalReplyModel {
            status,
            headers: seq![("content-type"@, "text/plain"@)],
            body: Some(text),
        },
    )
}

/// A reply with a plain text.
pub fn reply_text(status: u32, text: &str) -> (command: Command)
    ensures
        command@ == text_reply(status, text@),
{
    let mut headers: Vec<(String, String)> = Vec::new();
    headers.push(("content-type".to_owned(), "text/plain".to_owned()));
    proof {
        assert(views(headers@) =~= seq![("content-type"@, "text/plain"@)]);
    }
    Command::Reply(LocalReply { status, headers, body: Some(text.to_owned()) })
}

/// A reply with neither headers nor a body.
pub open spec fn bare_reply(status: u32) -> CommandModel {
    CommandModel::Reply(LocalReplyModel { status, headers: seq![], body: None })
}

/// A reply with neither headers nor a body.
pub fn reply_bare(status: u32) -> (command: Command)
    ensures
        command@ == bare_reply(status),
{
    let headers: Vec<(String, String)> = Vec::new();
    proof {
        assert(views(headers@) =~= seq![]);
    }
    Command::Reply(LocalReply { status, headers, body: None })
}

/// Whether one of the headers is `content-type`, in any case.
pub open spec fn has_content_type(headers: Seq<(Seq<char>, Seq<char>)>) -> bool {
    exists|i: int|
        0 <= i < headers.len() && ascii_lowered((#[trigger] headers[i]).0) == "content-type"@
}

/// The headers of a reply: the given ones, and before them a `content-type` where they have none.
pub open spec fn reply_headers(headers: Seq<(Seq<char>, Seq<char>)>) -> Seq<
    (Seq<char>, Seq<char>),
> {
    if has_content_type(headers) {
        headers
    } else {
        seq![("content-type"@, "text/plain"@)] + headers
    }
}

/// The headers of a reply: the given ones, and before them a `content-type` where they have none.
pub fn local_reply_headers(headers: &Vec<(String, String)>) -> (all: Vec<(String, String)>)
    ensures
        views(all@) == reply_headers(views(headers@)),
{
    let ghost given = views(headers@);
    let mut typed = false;
    let mut i: usize = 0;
    proof {
        reveal_strlit("content-type");
        assert(ascii_lowered("content-type"@) =~= "content-type"@);
    }
    while i < headers.len()
        invariant
            i <= headers@.len(),
            given == views(headers@),
            ascii_lowered("content-type"@) == "content-type"@,
            typed == exists|k: int|
                0 <= k < i && ascii_lowered((#[trigger] given[k]).0) == "content-type"@,
        decreases headers@.len() - i,
    {
        let same = is_named(headers[i].0.as_str(), "content-type");
        proof {
            assert(given[i as int].0 == headers@[i as int].0@);
        }
        typed = typed || same;
        i = i + 1;
    }
    let mut all: Vec<(String, String)> = Vec::new();
    if !typed {
        all.push(("content-type".to_owned(), "text/plain".to_owned()));
    }
    let ghost start = views(all@);
    proof {
        assert(start =~= (if typed {
            seq![]
        } else {
            seq![("content-type"@, "text/plain"@)]
        }));
        assert(start =~= start + given.take(0));
    }
    let mut j: usize = 0;
    while j < headers.len()
        invariant
            j <= headers@.len(),
            given == views(headers@),
            views(all@) == start + given.take(j as int),
        decreases headers@.len() - j,
    {
        let ghost before = all@;
        let header = (headers[j].0.clone(), headers[j].1.clone());
        all.push(header);
        proof {
            assert(views(all@) =~= views(before).push(header@));
            assert(given.take(j + 1) =~= given.take(j as int).push(given[j as int]));
            assert(views(all@) =~= start + given.take(j + 1));
        }
        j = j + 1;
    }
    proof {
        assert(given.take(headers@.len() as int) =~= given);
        assert(views(all@) =~= reply_headers(given));
    }
    all
}

/// The headers of a cached decision as pairs.
pub fn cached_headers_to_pairs(headers: &Vec<CachedHeader>) -> (pairs: Vec<(String, String)>)
    ensures
        views(pairs@) == views(headers@),
{
    let mut pairs: Vec<(String, String)> = Vec::new();
    let mut i: usize = 0;
    while i < headers.len()
        invariant
            i <= headers@.len(),
            views(pairs@) =~= views(headers@).take(i as int),
        decreases headers@.len() - i,
    {
        let ghost before = pairs@;
        let pair = (headers[i].name.clone(), headers[i].value.clone());
        pairs.push(pair);
        proof {
            assert(views(pairs@) =~= views(before).push(pair@));
        }
        i = i + 1;
    }
    pairs
}

/// Pairs as the headers of a cached decision.
pub fn pairs_to_cached_headers(pairs: &Vec<(String, String)>) -> (headers: Vec<CachedHeader>)
    ensures
        views(headers@) == views(pairs@),
{
    let mut headers: Vec<CachedHeader> = Vec::new();
    let mut i: usize = 0;
    while i < pairs.len()
        invariant
            i <= pairs@.len(),
            views(headers@) =~= views(pairs@).take(i as int),
        decreases pairs@.len() - i,
    {
        let ghost before = headers@;
        let header = CachedHeader { name: pairs[i].0.clone(), value: pairs[i].1.clone() };
        headers.push(header);
        proof {
            assert(views(headers@) =~= views(before).push(header@));
        }
        i = i + 1;
    }
    headers
}

} // verus!
