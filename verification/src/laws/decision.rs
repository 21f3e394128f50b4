//! Laws on what an answer of the authorization service comes to.
use crate::decision::{
    decision_of, header_pairs, outcome_of, AuthorizationDecision, AuthorizationOutcomeModel,
};
use crate::pb::check_response::HttpResponseModel;
use crate::pb::header_value_option::HeaderAppendAction;
use crate::pb::{
    CheckResponseModel, DeniedHttpResponseModel, HeaderValueOptionModel, OkHttpResponseModel,
};
use crate::text::ascii_lowered;
use vstd::prelude::*;

verus! {

/// That a header has a name.
pub open spec fn has_name() -> spec_fn(HeaderValueOptionModel) -> bool {
    |option: HeaderValueOptionModel|
        option.header matches Some(header) && header.key.len() > 0
}

/// A header's lowercase name and its value.
pub open spec fn named_pair() -> spec_fn(HeaderValueOptionModel) -> (Seq<char>, Seq<char>) {
    |option: HeaderValueOptionModel|
        (ascii_lowered((option.header->0).key), (option.header->0).value)
}

/// The headers that have a name, as pairs.
pub open spec fn asked_headers(options: Seq<HeaderValueOptionModel>) -> Seq<
    (Seq<char>, Seq<char>),
> {
    options.filter(has_name()).map_values(named_pair())
}

pub(crate) proof fn lemma_asked_headers(options: Seq<HeaderValueOptionModel>)
    ensures
        header_pairs(options) == asked_headers(options),
    decreases options.len(),
{
    reveal(Seq::filter);
    if options.len() > 0 {
        let rest = options.drop_last();
        lemma_asked_headers(rest);
        let kept = rest.filter(has_name());
        if has_name()(options.last()) {
            assert(options.filter(has_name()) =~= kept.push(options.last()));
            assert(kept.push(options.last()).map_values(named_pair()) =~= kept.map_values(
                named_pair(),
            ).push(named_pair()(options.last())));
        } else {
            assert(options.filter(has_name()) =~= kept);
        }
    }
    assert(header_pairs(options) =~= asked_headers(options));
}

/// Whether an answer turns a request away with the given denial.
pub open spec fn denies_with(
    response: CheckResponseModel,
    denied: DeniedHttpResponseModel,
) -> bool {
    response.http_response == Some(HttpResponseModel::DeniedResponse(denied))
        || response.http_response == Some(HttpResponseModel::ErrorResponse(denied))
}

/// Whether a status is that of a denial: the one it carries, as a 32-bit number without a sign,
/// or 403 where it carries none.
pub open spec fn is_status_of(status: u32, denied: DeniedHttpResponseModel) -> bool {
    match denied.status {
        Some(given) => if given.code >= 0 {
            status as int == given.code as int
        } else {
            status as int == given.code + 0x1_0000_0000
        },
        None => status == 403,
    }
}

/// Whether a text is the body of a denial: its own, or `Forbidden` where it is empty.
pub open spec fn is_body_of(body: Seq<char>, denied: DeniedHttpResponseModel) -> bool {
    &&& denied.body.len() > 0 ==> body == denied.body
    &&& denied.body.len() == 0 ==> body == "Forbidden"@
}

/// A denial keeps the service's status, whatever it is, its body and its headers.
pub proof fn law_denial_is_the_services(
    response: CheckResponseModel,
    denied: DeniedHttpResponseModel,
)
    requires
        denies_with(response, denied),
    ensures
        decision_of(response) matches AuthorizationDecision::Deny { status } && is_status_of(
            status,
            denied,
        ),
        outcome_of(response) matches AuthorizationOutcomeModel::Deny { status, body, headers }
            && is_status_of(status, denied) && is_body_of(body, denied) && headers
            == asked_headers(denied.headers),
{
    lemma_asked_headers(denied.headers);
    if let Some(given) = denied.status {
        let code = given.code;
        assert(code < 0 ==> code as u32 == code + 0x1_0000_0000) by (bit_vector);
    }
}

/// An acceptance lets the request through with every header that the service asks for and that
/// has a name, in the service's order, under its lowercase name.
pub proof fn law_acceptance_is_the_services(
    response: CheckResponseModel,
    accepted: OkHttpResponseModel,
)
    requires
        response.http_response == Some(HttpResponseModel::OkResponse(accepted)),
    ensures
        decision_of(response) == AuthorizationDecision::Allow,
        outcome_of(response) == (AuthorizationOutcomeModel::Allow {
            request_headers: asked_headers(accepted.headers),
        }),
{
    lemma_asked_headers(accepted.headers);
}

/// An answer that says nothing of the request denies it with 403 and `Forbidden`.
pub proof fn law_silence_denies(response: CheckResponseModel)
    requires
        response.http_response is None,
    ensures
        decision_of(response) == (AuthorizationDecision::Deny { status: 403 }),
        outcome_of(response) == (AuthorizationOutcomeModel::Deny {
            status: 403,
            body: "Forbidden"@,
            headers: seq![],
        }),
{
}

/// The actions on a header have the numbers 0 to 3.
pub proof fn law_append_actions_are_numbered()
    ensures
        HeaderAppendAction::AppendIfExistsOrAdd.spec_number() == 0,
        HeaderAppendAction::AddIfAbsent.spec_number() == 1,
        HeaderAppendAction::OverwriteIfExistsOrAdd.spec_number() == 2,
        HeaderAppendAction::OverwriteIfExists.spec_number() == 3,
{
}

} // verus!
