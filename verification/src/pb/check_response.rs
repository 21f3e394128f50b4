//! What an authorization service may answer.
use crate::pb::{DeniedHttpResponse, DeniedHttpResponseModel, OkHttpResponse, OkHttpResponseModel};
use vstd::prelude::*;

verus! {

/// The answer to a check: the request is denied, let through, or met an error.
#[derive(Clone, Debug, PartialEq)]
pub enum HttpResponse {
    /// Field 2.
    DeniedResponse(DeniedHttpResponse),
    /// Field 3.
    OkResponse(OkHttpResponse),
    /// Field 5.
    ErrorResponse(DeniedHttpResponse),
}

/// The mathematical [`HttpResponse`].
pub enum HttpResponseModel {
    DeniedResponse(DeniedHttpResponseModel),
    OkResponse(OkHttpResponseModel),
    ErrorResponse(DeniedHttpResponseModel),
}

impl View for HttpResponse {
    type V = HttpResponseModel;

    open spec fn view(&self) -> HttpResponseModel {
        match *self {
            HttpResponse::DeniedResponse(denied) => HttpResponseModel::DeniedResponse(denied@),
            HttpResponse::OkResponse(accepted) => HttpResponseModel::OkResponse(accepted@),
            HttpResponse::ErrorResponse(denied) => HttpResponseModel::ErrorResponse(denied@),
        }
    }
}

} // verus!
