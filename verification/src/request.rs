//! From the parts of an HTTP request to a request for an authorization check.
use crate::pb::{
    AttributeContext, AttributeContextModel, CheckRequest, CheckRequestModel, HttpRequest,
    HttpRequestModel, Request, RequestModel,
};
use crate::text::{text_of_bytes, utf8_text_lossy};
use crate::text_map::TextMap;
use vstd::prelude::*;

verus! {

/// The parts of an HTTP request.
pub struct RequestParts {
    pub method: String,
    pub path: String,
    pub query: String,
    pub host: String,
    pub scheme: String,
    pub request_id: String,
    pub headers: TextMap<String>,
    pub body: Vec<u8>,
}

/// The mathematical [`RequestParts`].
pub struct RequestPartsModel {
    pub method: Seq<char>,
    pub path: Seq<char>,
    pub query: Seq<char>,
    pub host: Seq<char>,
    pub scheme: Seq<char>,
    pub request_id: Seq<char>,
    pub headers: Map<Seq<char>, Seq<char>>,
    pub body: Seq<u8>,
}

impl View for RequestParts {
    type V = RequestPartsModel;

    open spec fn view(&self) -> RequestPartsModel {
        RequestPartsModel {
            method: self.method@,
            path: self.path@,
            query: self.query@,
            host: self.host@,
            scheme: self.scheme@,
            request_id: self.request_id@,
            headers: self.headers@,
            body: self.body@,
        }
    }
}

impl Default for RequestParts {
    fn default() -> (parts: Self)
        ensures
            parts@ == (RequestPartsModel {
                method: seq![],
                path: seq![],
                query: seq![],
                host: seq![],
                scheme: seq![],
                request_id: seq![],
                headers: Map::empty(),
                body: seq![],
            }),
    {
        RequestParts {
            method: String::new(),
            path: String::new(),
            query: String::new(),
            host: String::new(),
            scheme: String::new(),
            request_id: String::new(),
            headers: TextMap::new(),
            body: Vec::new(),
        }
    }
}

/// The check for a request with the given parts. The body is there twice: as it came, and as
/// text.
pub open spec fn check_request_of(parts: RequestPartsModel) -> CheckRequestModel {
    CheckRequestModel {
        attributes: Some(
            AttributeContextModel {
                source: None,
                destination: None,
                request: Some(
                    RequestModel {
                        http: Some(
                            HttpRequestModel {
                                id: parts.request_id,
                                method: parts.method,
                                headers: parts.headers,
                                path: parts.path,
                                host: parts.host,
                                scheme: parts.scheme,
                                query: parts.query,
                                fragment: seq![],
                                size: parts.body.len() as i64,
                                protocol: seq![],
                                body: text_of_bytes(parts.body),
                                raw_body: parts.body,
                            },
                        ),
                    },
                ),
                context_extensions: Map::empty(),
            },
        ),
    }
}

impl RequestParts {
    /// The check for a request with these parts.
    pub fn into_check_request(self) -> (request: CheckRequest)
        ensures
            request@ == check_request_of(self@),
    {
        let size: i64 = self.body.len() as i64;
        let body = utf8_text_lossy(self.body.as_slice());
        CheckRequest {
            attributes: Some(
                AttributeContext {
                    source: None,
                    destination: None,
                    request: Some(
                        Request {
                            http: Some(
                                HttpRequest {
                                    id: self.request_id,
                                    method: self.method,
                                    headers: self.headers,
                                    path: self.path,
                                    host: self.host,
                                    scheme: self.scheme,
                                    query: self.query,
                                    fragment: String::new(),
                                    size,
                                    protocol: String::new(),
                                    body,
                                    raw_body: self.body,
                                },
                            ),
                        },
                    ),
                    context_extensions: TextMap::new(),
                },
            ),
        }
    }
}

} // verus!
