use cextauthz::decision::{AuthorizationDecision, AuthorizationOutcome};
use cextauthz::pb::check_response::HttpResponse;
use cextauthz::pb::{
    CheckResponse, DeniedHttpResponse, HeaderValue, HeaderValueOption, HttpStatus, OkHttpResponse,
};

fn response(http_response: Option<HttpResponse>) -> CheckResponse {
    CheckResponse { status: None, http_response }
}

fn denied(code: Option<i32>, body: &str) -> DeniedHttpResponse {
    DeniedHttpResponse {
        status: code.map(|code| HttpStatus { code }),
        headers: Vec::new(),
        body: body.to_string(),
    }
}

fn option(key: &str, value: &str) -> HeaderValueOption {
    HeaderValueOption {
        header: Some(HeaderValue { key: key.to_string(), value: value.to_string() }),
        append: None,
        append_action: 0,
        keep_empty_value: false,
    }
}

#[test]
fn classifies_ok_response_as_allow() {
    let response = response(Some(HttpResponse::OkResponse(OkHttpResponse {
        headers: Vec::new(),
        headers_to_remove: Vec::new(),
    })));
    assert_eq!(
        AuthorizationDecision::from_check_response(&response),
        AuthorizationDecision::Allow
    );
}

#[test]
fn classifies_denied_response_with_status() {
    let response = response(Some(HttpResponse::DeniedResponse(denied(Some(401), ""))));
    assert_eq!(
        AuthorizationDecision::from_check_response(&response),
        AuthorizationDecision::Deny { status: 401 }
    );
}

#[test]
fn defaults_denied_response_without_status_to_forbidden() {
    let response = response(Some(HttpResponse::DeniedResponse(denied(None, ""))));
    assert_eq!(
        AuthorizationDecision::from_check_response(&response),
        AuthorizationDecision::Deny { status: 403 }
    );
}

#[test]
fn defaults_missing_http_response_to_forbidden() {
    let response = response(None);
    assert_eq!(
        AuthorizationDecision::from_check_response(&response),
        AuthorizationDecision::Deny { status: 403 }
    );
}

#[test]
fn classifies_error_response_with_status_as_deny() {
    let response = response(Some(HttpResponse::ErrorResponse(denied(Some(503), ""))));
    assert_eq!(
        AuthorizationDecision::from_check_response(&response),
        AuthorizationDecision::Deny { status: 503 }
    );
}

#[test]
fn negative_status_code_wraps() {
    let response = response(Some(HttpResponse::DeniedResponse(denied(Some(-1), ""))));
    assert_eq!(
        AuthorizationDecision::from_check_response(&response),
        AuthorizationDecision::Deny { status: u32::MAX }
    );
}

#[test]
fn outcome_keeps_named_headers_in_lowercase() {
    let mut nameless = option("", "ignored");
    let mut headerless = option("x-gone", "ignored");
    headerless.header = None;
    nameless.append_action = 2;
    let response = response(Some(HttpResponse::OkResponse(OkHttpResponse {
        headers: vec![option("X-User", "Alice"), nameless, headerless, option("x-role", "Admin")],
        headers_to_remove: Vec::new(),
    })));
    assert_eq!(
        AuthorizationOutcome::from_check_response(&response),
        AuthorizationOutcome::Allow {
            request_headers: vec![
                ("x-user".to_string(), "Alice".to_string()),
                ("x-role".to_string(), "Admin".to_string()),
            ],
        }
    );
}

#[test]
fn outcome_of_denial_has_its_body_and_headers() {
    let mut refusal = denied(Some(429), "slow down");
    refusal.headers = vec![option("Retry-After", "10")];
    assert_eq!(
        AuthorizationOutcome::from_check_response(&response(Some(HttpResponse::DeniedResponse(
            refusal
        )))),
        AuthorizationOutcome::Deny {
            status: 429,
            body: "slow down".to_string(),
            headers: vec![("retry-after".to_string(), "10".to_string())],
        }
    );
}

#[test]
fn outcome_without_a_body_says_forbidden() {
    let forbidden = |status| AuthorizationOutcome::Deny {
        status,
        body: "Forbidden".to_string(),
        headers: Vec::new(),
    };
    assert_eq!(
        AuthorizationOutcome::from_check_response(&response(None)),
        forbidden(403)
    );
    assert_eq!(
        AuthorizationOutcome::from_check_response(&response(Some(HttpResponse::ErrorResponse(
            denied(Some(500), "")
        )))),
        forbidden(500)
    );
}

#[test]
fn outcome_agrees_with_the_decision() {
    for answer in [
        None,
        Some(HttpResponse::OkResponse(OkHttpResponse {
            headers: Vec::new(),
            headers_to_remove: Vec::new(),
        })),
        Some(HttpResponse::DeniedResponse(denied(Some(418), "teapot"))),
        Some(HttpResponse::ErrorResponse(denied(None, ""))),
    ] {
        let response = response(answer);
        let outcome = AuthorizationOutcome::from_check_response(&response);
        match AuthorizationDecision::from_check_response(&response) {
            AuthorizationDecision::Allow => {
                assert!(matches!(outcome, AuthorizationOutcome::Allow { .. }));
            }
            AuthorizationDecision::Deny { status: expected } => match outcome {
                AuthorizationOutcome::Deny { status, body, .. } => {
                    assert_eq!(status, expected);
                    assert!(!body.is_empty());
                }
                other => panic!("{other:?}"),
            },
        }
    }
}
