//! What the authorization service's answer means for a request.
use crate::model::views;
use crate::pb::check_response::{HttpResponse, HttpResponseModel};
use crate::pb::{
    CheckResponse, CheckResponseModel, DeniedHttpResponse, DeniedHttpResponseModel,
    HeaderValueOption, HeaderValueOptionModel,
};
use crate::text::ascii_lowered;
use vstd::prelude::*;
use vstd::string::*;

verus! {

/// The status of a reply to a request that is denied without one.
pub const DEFAULT_DENIED_STATUS: u32 = 403;

/// Whether a request is let through.
#[derive(Clone, Copy, Debug, Eq, PartialEq)]
pub enum AuthorizationDecision {
    /// The request is let through.
    Allow,
    /// The request is turned away with the given status.
    Deny { status: u32 },
}

/// The status that a denial carries, or the default one.
pub open spec fn denied_status(denied: DeniedHttpResponseModel) -> u32 {
    match denied.status {
        Some(status) => status.code as u32,
        None => DEFAULT_DENIED_STATUS,
    }
}

/// What an answer decides.
pub open spec fn decision_of(response: CheckResponseModel) -> AuthorizationDecision {
    match response.http_response {
        Some(HttpResponseModel::OkResponse(_)) => AuthorizationDecision::Allow,
        Some(HttpResponseModel::DeniedResponse(denied)) => AuthorizationDecision::Deny {
            status: denied_status(denied),
        },
        Some(HttpResponseModel::ErrorResponse(denied)) => AuthorizationDecision::Deny {
            status: denied_status(denied),
        },
        None => AuthorizationDecision::Deny { status: DEFAULT_DENIED_STATUS },
    }
}

fn status_of(denied: &DeniedHttpResponse) -> (status: u32)
    ensures
        status == denied_status(denied@),
{
    match &denied.status {
        Some(status) => status.code as u32,
        None => DEFAULT_DENIED_STATUS,
    }
}

impl AuthorizationDecision {
    /// What an answer decides: only an `OkResponse` lets the request through.
    pub fn from_check_response(response: &CheckResponse) -> (decision: Self)
        ensures
            decision == decision_of(response@),
    {
        match &response.http_response {
            Some(HttpResponse::OkResponse(_)) => AuthorizationDecision::Allow,
            Some(HttpResponse::DeniedResponse(denied)) => AuthorizationDecision::Deny {
                status: status_of(denied),
            },
            Some(HttpResponse::ErrorResponse(denied)) => AuthorizationDecision::Deny {
                status: status_of(denied),
            },
            None => AuthorizationDecision::Deny { status: DEFAULT_DENIED_STATUS },
        }
    }
}

/// A decision with what it does to the request or to the reply.
#[derive(Clone, Debug, Eq, PartialEq)]
pub enum AuthorizationOutcome {
    /// The request is let through with the given headers set.
    Allow { request_headers: Vec<(String, String)> },
    /// The request is turned away with the given reply.
    Deny { status: u32, body: String, headers: Vec<(String, String)> },
}

/// The mathematical [`AuthorizationOutcome`].
pub enum AuthorizationOutcomeModel {
    Allow { request_headers: Seq<(Seq<char>, Seq<char>)> },
    Deny { status: u32, body: Seq<char>, headers: Seq<(Seq<char>, Seq<char>)> },
}

impl View for AuthorizationOutcome {
    type V = AuthorizationOutcomeModel;

    open spec fn view(&self) -> AuthorizationOutcomeModel {
        match *self {
            AuthorizationOutcome::Allow { request_headers } => AuthorizationOutcomeModel::Allow {
                request_headers: views(request_headers@),
            },
            AuthorizationOutcome::Deny { status, body, headers } => {
                AuthorizationOutcomeModel::Deny { status, body: body@, headers: views(headers@) }
            },
        }
    }
}

/// The headers among `options` that have a name, under their lowercase names.
pub open spec fn header_pairs(options: Seq<HeaderValueOptionModel>) -> Seq<(Seq<char>, Seq<char>)>
    decreases options.len(),
{
    if options.len() == 0 {
        seq![]
    } else {
        let before = header_pairs(options.drop_last());
        match options.last().header {
            Some(header) => if header.key.len() == 0 {
                before
            } else {
                before.push((ascii_lowered(header.key), header.value))
            },
            None => before,
        }
    }
}

/// The body of the reply to a denied request: the one it was denied with, or `Forbidden`.
pub open spec fn body_or_forbidden(body: Seq<char>) -> Seq<char> {
    if body.len() == 0 {
        "Forbidden"@
    } else {
        body
    }
}

/// What a denial comes to.
pub open spec fn denial_of(denied: DeniedHttpResponseModel) -> AuthorizationOutcomeModel {
    AuthorizationOutcomeModel::Deny {
        status: denied_status(denied),
        body: body_or_forbidden(denied.body),
        headers: header_pairs(denied.headers),
    }
}

/// What an answer comes to.
pub open spec fn outcome_of(response: CheckResponseModel) -> AuthorizationOutcomeModel {
    match response.http_response {
        Some(HttpResponseModel::OkResponse(accepted)) => AuthorizationOutcomeModel::Allow {
            request_headers: header_pairs(accepted.headers),
        },
        Some(HttpResponseModel::DeniedResponse(denied)) => denial_of(denied),
        Some(HttpResponseModel::ErrorResponse(denied)) => denial_of(denied),
        None => AuthorizationOutcomeModel::Deny {
            status: DEFAULT_DENIED_STATUS,
            body: "Forbidden"@,
            headers: seq![],
        },
    }
}

fn collect_header_pairs(options: &Vec<HeaderValueOption>) -> (pairs: Vec<(String, String)>)
    ensures
        views(pairs@) == header_pairs(views(options@)),
{
    let ghost models = views(options@);
    let mut pairs: Vec<(String, String)> = Vec::new();
    let mut i: usize = 0;
    proof {
        assert(models.take(0) =~= seq![]);
        assert(views(pairs@) =~= seq![]);
    }
    while i < options.len()
        invariant
            i <= options@.len(),
            models == views(options@),
            views(pairs@) == header_pairs(models.take(i as int)),
        decreases options@.len() - i,
    {
        let ghost before = pairs@;
        proof {
            assert(models.take(i + 1).drop_last() =~= models.take(i as int));
            assert(models.take(i + 1).last() == models[i as int]);
        }
        if let Some(header) = &options[i].header {
            if !header.key.as_str().is_empty() {
                let pair = (header.key.as_str().to_ascii_lowercase(), header.value.clone());
                pairs.push(pair);
                proof {
                    assert(views(pairs@) =~= views(before).push(pair@));
                }
            }
        }
        i = i + 1;
    }
    proof {
        assert(models.take(options@.len() as int) =~= models);
    }
    pairs
}

/// A body, or `Forbidden` where it is empty.
pub fn or_forbidden(body: &str) -> (text: String)
    ensures
        text@ == body_or_forbidden(body@),
{
    if body.is_empty() {
        "Forbidden".to_owned()
    } else {
        body.to_owned()
    }
}

fn deny(denied: &DeniedHttpResponse) -> (outcome: AuthorizationOutcome)
    ensures
        outcome@ == denial_of(denied@),
{
    AuthorizationOutcome::Deny {
        status: status_of(denied),
        body: or_forbidden(denied.body.as_str()),
        headers: collect_header_pairs(&denied.headers),
    }
}

impl AuthorizationOutcome {
    /// What an answer comes to.
    pub fn from_check_response(response: &CheckResponse) -> (outcome: Self)
        ensures
            outcome@ == outcome_of(response@),
    {
        match &response.http_response {
            Some(HttpResponse::OkResponse(accepted)) => AuthorizationOutcome::Allow {
                request_headers: collect_header_pairs(&accepted.headers),
            },
            Some(HttpResponse::DeniedResponse(denied)) => deny(denied),
            Some(HttpResponse::ErrorResponse(denied)) => deny(denied),
            None => {
                let headers: Vec<(String, String)> = Vec::new();
                proof {
                    assert(views(headers@) =~= seq![]);
                }
                AuthorizationOutcome::Deny {
                    status: DEFAULT_DENIED_STATUS,
                    body: "Forbidden".to_owned(),
                    headers,
                }
            },
        }
    }
}

impl AuthorizationOutcomeModel {
    /// The decision without what it does.
    pub open spec fn decision(self) -> AuthorizationDecision {
        match self {
            AuthorizationOutcomeModel::Allow { .. } => AuthorizationDecision::Allow,
            AuthorizationOutcomeModel::Deny { status, .. } => AuthorizationDecision::Deny {
                status,
            },
        }
    }
}

/// What an answer comes to agrees with what it decides.
pub proof fn law_outcome_follows_decision(response: CheckResponseModel)
    ensures
        outcome_of(response).decision() == decision_of(response),
{
}

/// Only an `OkResponse` lets a request through; every other answer, and one that says nothing,
/// turns it away with a body that is not empty.
pub proof fn law_fail_closed(response: CheckResponseModel)
    ensures
        outcome_of(response) is Allow <==> response.http_response matches Some(
            HttpResponseModel::OkResponse(_),
        ),
        outcome_of(response) matches AuthorizationOutcomeModel::Deny { body, .. } ==> body.len()
            > 0,
{
    reveal_strlit("Forbidden");
}

} // verus!
