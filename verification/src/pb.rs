//! The messages of Envoy's `ext_authz` service, as far as the filter uses them.
use crate::model::{optional_view, views};
use crate::pb::check_response::{HttpResponse, HttpResponseModel};
use crate::text_map::{ascending, TextMap};
use crate::wire::{
    bytes_field, delimited_field, is_tag, merge_optional, merge_repeated, nested_merged,
    number_field, optional_merged, payload_number, payload_text, put_bytes, put_delimited,
    put_number, put_text, read_text, read_varint, text_field, FieldValue, Payload, WireMessage,
};
use vstd::prelude::*;

pub mod answer;
pub mod check_response;
pub mod header_value_option;

verus! {

/// A request for an authorization check.
#[derive(Clone, Debug, PartialEq)]
pub struct CheckRequest {
    /// Field 1.
    pub attributes: Option<AttributeContext>,
}

/// What is known of the request to be checked.
#[derive(Clone, Debug, PartialEq)]
pub struct AttributeContext {
    /// Field 1.
    pub source: Option<Peer>,
    /// Field 2.
    pub destination: Option<Peer>,
    /// Field 4.
    pub request: Option<Request>,
    /// Field 10.
    pub context_extensions: TextMap<String>,
}

/// One end of a connection.
#[derive(Clone, Debug, PartialEq)]
pub struct Peer {
    /// Field 2.
    pub service: String,
}

/// The request to be checked.
#[derive(Clone, Debug, PartialEq)]
pub struct Request {
    /// Field 2.
    pub http: Option<HttpRequest>,
}

/// An HTTP request. The fields are numbered from 1 in the order in which they stand.
#[derive(Clone, Debug, PartialEq)]
pub struct HttpRequest {
    pub id: String,
    pub method: String,
    pub headers: TextMap<String>,
    pub path: String,
    pub host: String,
    pub scheme: String,
    pub query: String,
    pub fragment: String,
    pub size: i64,
    pub protocol: String,
    pub body: String,
    pub raw_body: Vec<u8>,
}

/// The answer to a [`CheckRequest`].
#[derive(Clone, Debug, PartialEq)]
pub struct CheckResponse {
    /// Field 1.
    pub status: Option<Status>,
    /// Fields 2, 3 and 5, of which one at most is set.
    pub http_response: Option<HttpResponse>,
}

/// The outcome of the call itself.
#[derive(Clone, Debug, PartialEq)]
pub struct Status {
    /// Field 1.
    pub code: i32,
    /// Field 2.
    pub message: String,
}

/// How a request is turned away.
#[derive(Clone, Debug, PartialEq)]
pub struct DeniedHttpResponse {
    /// Field 1.
    pub status: Option<HttpStatus>,
    /// Field 2.
    pub headers: Vec<HeaderValueOption>,
    /// Field 3.
    pub body: String,
}

/// How a request is changed before it is let through.
#[derive(Clone, Debug, PartialEq)]
pub struct OkHttpResponse {
    /// Field 2.
    pub headers: Vec<HeaderValueOption>,
    /// Field 5.
    pub headers_to_remove: Vec<String>,
}

/// An HTTP status.
#[derive(Clone, Debug, PartialEq)]
pub struct HttpStatus {
    /// Field 1.
    pub code: i32,
}

/// A header, and how it meets one that is already there.
#[derive(Clone, Debug, PartialEq)]
pub struct HeaderValueOption {
    /// Field 1.
    pub header: Option<HeaderValue>,
    /// Field 2.
    pub append: Option<BoolValue>,
    /// Field 3, the number of a `HeaderAppendAction`.
    pub append_action: i32,
    /// Field 4.
    pub keep_empty_value: bool,
}

/// A header's name and value.
#[derive(Clone, Debug, PartialEq)]
pub struct HeaderValue {
    /// Field 1.
    pub key: String,
    /// Field 2.
    pub value: String,
}

/// A truth value that may be absent.
#[derive(Clone, Debug, PartialEq)]
pub struct BoolValue {
    /// Field 1.
    pub value: bool,
}

/// The mathematical [`HttpRequest`].
pub struct HttpRequestModel {
    pub id: Seq<char>,
    pub method: Seq<char>,
    pub headers: Map<Seq<char>, Seq<char>>,
    pub path: Seq<char>,
    pub host: Seq<char>,
    pub scheme: Seq<char>,
    pub query: Seq<char>,
    pub fragment: Seq<char>,
    pub size: i64,
    pub protocol: Seq<char>,
    pub body: Seq<char>,
    pub raw_body: Seq<u8>,
}

impl View for HttpRequest {
    type V = HttpRequestModel;

    open spec fn view(&self) -> HttpRequestModel {
        HttpRequestModel {
            id: self.id@,
            method: self.method@,
            headers: self.headers@,
            path: self.path@,
            host: self.host@,
            scheme: self.scheme@,
            query: self.query@,
            fragment: self.fragment@,
            size: self.size,
            protocol: self.protocol@,
            body: self.body@,
            raw_body: self.raw_body@,
        }
    }
}

/// The mathematical [`Request`].
pub struct RequestModel {
    pub http: Option<HttpRequestModel>,
}

impl View for Request {
    type V = RequestModel;

    open spec fn view(&self) -> RequestModel {
        RequestModel { http: optional_view(self.http) }
    }
}

/// The mathematical [`Peer`].
pub struct PeerModel {
    pub service: Seq<char>,
}

impl View for Peer {
    type V = PeerModel;

    open spec fn view(&self) -> PeerModel {
        PeerModel { service: self.service@ }
    }
}

/// The mathematical [`AttributeContext`].
pub struct AttributeContextModel {
    pub source: Option<PeerModel>,
    pub destination: Option<PeerModel>,
    pub request: Option<RequestModel>,
    pub context_extensions: Map<Seq<char>, Seq<char>>,
}

impl View for AttributeContext {
    type V = AttributeContextModel;

    open spec fn view(&self) -> AttributeContextModel {
        AttributeContextModel {
            source: optional_view(self.source),
            destination: optional_view(self.destination),
            request: optional_view(self.request),
            context_extensions: self.context_extensions@,
        }
    }
}

/// The mathematical [`CheckRequest`].
pub struct CheckRequestModel {
    pub attributes: Option<AttributeContextModel>,
}

impl View for CheckRequest {
    type V = CheckRequestModel;

    open spec fn view(&self) -> CheckRequestModel {
        CheckRequestModel { attributes: optional_view(self.attributes) }
    }
}

/// The encoding of a message field: nothing where there is no message.
pub open spec fn message_field(tag: u32, content: Option<Seq<u8>>) -> Seq<u8> {
    match content {
        Some(content) => delimited_field(tag, content),
        None => seq![],
    }
}

/// The encoding of a map from texts to texts, one entry after the other.
pub open spec fn text_map_field(tag: u32, pairs: Seq<(Seq<char>, Seq<char>)>) -> Seq<u8>
    decreases pairs.len(),
{
    if pairs.len() == 0 {
        seq![]
    } else {
        text_map_field(tag, pairs.drop_last()) + delimited_field(
            tag,
            text_field(1, pairs.last().0) + text_field(2, pairs.last().1),
        )
    }
}

impl HttpRequestModel {
    /// The encoding of the request. The headers stand in the order of their names.
    pub open spec fn encoded(self) -> Seq<u8> {
        text_field(1, self.id) + text_field(2, self.method) + text_map_field(
            3,
            ascending(self.headers),
        ) + text_field(4, self.path) + text_field(5, self.host) + text_field(6, self.scheme)
            + text_field(7, self.query) + text_field(8, self.fragment) + number_field(
            9,
            self.size as u64,
        ) + text_field(10, self.protocol) + text_field(11, self.body) + bytes_field(
            12,
            self.raw_body,
        )
    }
}

impl RequestModel {
    /// The encoding of the request.
    pub open spec fn encoded(self) -> Seq<u8> {
        message_field(
            2,
            match self.http {
                Some(http) => Some(http.encoded()),
                None => None,
            },
        )
    }
}

impl PeerModel {
    /// The encoding of the peer.
    pub open spec fn encoded(self) -> Seq<u8> {
        text_field(2, self.service)
    }

    /// The encoding of a peer that may be absent.
    pub open spec fn field(tag: u32, peer: Option<PeerModel>) -> Seq<u8> {
        message_field(
            tag,
            match peer {
                Some(peer) => Some(peer.encoded()),
                None => None,
            },
        )
    }
}

impl AttributeContextModel {
    /// The encoding of the context.
    pub open spec fn encoded(self) -> Seq<u8> {
        PeerModel::field(1, self.source) + PeerModel::field(2, self.destination) + message_field(
            4,
            match self.request {
                Some(request) => Some(request.encoded()),
                None => None,
            },
        ) + text_map_field(10, ascending(self.context_extensions))
    }
}

impl CheckRequestModel {
    /// The encoding of the request.
    pub open spec fn encoded(self) -> Seq<u8> {
        message_field(
            1,
            match self.attributes {
                Some(attributes) => Some(attributes.encoded()),
                None => None,
            },
        )
    }
}

fn put_text_map(tag: u32, map: &TextMap<String>, buf: &mut Vec<u8>)
    requires
        is_tag(tag),
    ensures
        final(buf)@ == old(buf)@ + text_map_field(tag, ascending(map@)),
{
    let count = map.len();
    let mut i: usize = 0;
    proof {
        assert(map.pairs().take(0) =~= Seq::empty());
        assert(buf@ =~= old(buf)@ + text_map_field(tag, map.pairs().take(0)));
    }
    while i < count
        invariant
            i <= count,
            count == map.pairs().len(),
            is_tag(tag),
            buf@ == old(buf)@ + text_map_field(tag, map.pairs().take(i as int)),
        decreases count - i,
    {
        let mut entry: Vec<u8> = Vec::new();
        put_text(1, map.key_at(i), &mut entry);
        put_text(2, map.value_at(i).as_str(), &mut entry);
        proof {
            let pair = map.pairs()[i as int];
            assert(entry@ =~= text_field(1, pair.0) + text_field(2, pair.1));
            assert(map.pairs().take(i + 1).drop_last() =~= map.pairs().take(i as int));
        }
        put_delimited(tag, entry.as_slice(), buf);
        proof {
            assert(buf@ =~= old(buf)@ + text_map_field(tag, map.pairs().take(i + 1)));
        }
        i = i + 1;
    }
    proof {
        assert(map.pairs().take(count as int) =~= map.pairs());
    }
}

impl HttpRequest {
    /// The encoding of the request.
    pub fn encode_to_vec(&self) -> (bytes: Vec<u8>)
        ensures
            bytes@ == self@.encoded(),
    {
        let mut buf: Vec<u8> = Vec::new();
        put_text(1, self.id.as_str(), &mut buf);
        put_text(2, self.method.as_str(), &mut buf);
        put_text_map(3, &self.headers, &mut buf);
        put_text(4, self.path.as_str(), &mut buf);
        put_text(5, self.host.as_str(), &mut buf);
        put_text(6, self.scheme.as_str(), &mut buf);
        put_text(7, self.query.as_str(), &mut buf);
        put_text(8, self.fragment.as_str(), &mut buf);
        put_number(9, self.size as u64, &mut buf);
        put_text(10, self.protocol.as_str(), &mut buf);
        put_text(11, self.body.as_str(), &mut buf);
        put_bytes(12, self.raw_body.as_slice(), &mut buf);
        proof {
            assert(buf@ =~= self@.encoded());
        }
        buf
    }
}

impl Request {
    /// The encoding of the request.
    pub fn encode_to_vec(&self) -> (bytes: Vec<u8>)
        ensures
            bytes@ == self@.encoded(),
    {
        let mut buf: Vec<u8> = Vec::new();
        if let Some(http) = &self.http {
            put_delimited(2, http.encode_to_vec().as_slice(), &mut buf);
        }
        proof {
            assert(buf@ =~= self@.encoded());
        }
        buf
    }
}

impl Peer {
    /// The encoding of the peer.
    pub fn encode_to_vec(&self) -> (bytes: Vec<u8>)
        ensures
            bytes@ == self@.encoded(),
    {
        let mut buf: Vec<u8> = Vec::new();
        put_text(2, self.service.as_str(), &mut buf);
        proof {
            assert(buf@ =~= self@.encoded());
        }
        buf
    }
}

impl AttributeContext {
    /// The encoding of the context.
    pub fn encode_to_vec(&self) -> (bytes: Vec<u8>)
        ensures
            bytes@ == self@.encoded(),
    {
        let mut buf: Vec<u8> = Vec::new();
        if let Some(source) = &self.source {
            put_delimited(1, source.encode_to_vec().as_slice(), &mut buf);
        }
        if let Some(destination) = &self.destination {
            put_delimited(2, destination.encode_to_vec().as_slice(), &mut buf);
        }
        if let Some(request) = &self.request {
            put_delimited(4, request.encode_to_vec().as_slice(), &mut buf);
        }
        put_text_map(10, &self.context_extensions, &mut buf);
        proof {
            assert(buf@ =~= self@.encoded());
        }
        buf
    }
}

impl CheckRequest {
    /// The encoding of the request.
    pub fn encode_to_vec(&self) -> (bytes: Vec<u8>)
        ensures
            bytes@ == self@.encoded(),
    {
        let mut buf: Vec<u8> = Vec::new();
        if let Some(attributes) = &self.attributes {
            put_delimited(1, attributes.encode_to_vec().as_slice(), &mut buf);
        }
        proof {
            assert(buf@ =~= self@.encoded());
        }
        buf
    }
}

/// The mathematical [`HeaderValue`].
pub struct HeaderValueModel {
    pub key: Seq<char>,
    pub value: Seq<char>,
}

impl View for HeaderValue {
    type V = HeaderValueModel;

    open spec fn view(&self) -> HeaderValueModel {
        HeaderValueModel { key: self.key@, value: self.value@ }
    }
}

impl WireMessage for HeaderValue {
    open spec fn initial() -> HeaderValueModel {
        HeaderValueModel { key: seq![], value: seq![] }
    }

    fn empty() -> (message: Self) {
        HeaderValue { key: String::new(), value: String::new() }
    }

    open spec fn is_map(tag: u32) -> bool {
        false
    }

    fn holds_map(tag: u32) -> (map: bool) {
        false
    }

    open spec fn field_merged(
        model: HeaderValueModel,
        tag: u32,
        payload: Payload,
        budget: nat,
    ) -> Option<HeaderValueModel> {
        if tag == 1 {
            match payload_text(payload) {
                Some(key) => Some(HeaderValueModel { key, ..model }),
                None => None,
            }
        } else if tag == 2 {
            match payload_text(payload) {
                Some(value) => Some(HeaderValueModel { value, ..model }),
                None => None,
            }
        } else {
            Some(model)
        }
    }

    fn merge_field(&mut self, tag: u32, value: FieldValue<'_>, budget: u32) -> (valid: bool) {
        if tag == 1 {
            match read_text(value) {
                Some(text) => {
                    self.key = text;
                    true
                },
                None => false,
            }
        } else if tag == 2 {
            match read_text(value) {
                Some(text) => {
                    self.value = text;
                    true
                },
                None => false,
            }
        } else {
            true
        }
    }
}

/// The mathematical [`DeniedHttpResponse`].
pub struct DeniedHttpResponseModel {
    pub status: Option<HttpStatus>,
    pub headers: Seq<HeaderValueOptionModel>,
    pub body: Seq<char>,
}

impl View for DeniedHttpResponse {
    type V = DeniedHttpResponseModel;

    open spec fn view(&self) -> DeniedHttpResponseModel {
        DeniedHttpResponseModel {
            status: self.status,
            headers: views(self.headers@),
            body: self.body@,
        }
    }
}

/// The mathematical [`OkHttpResponse`].
pub struct OkHttpResponseModel {
    pub headers: Seq<HeaderValueOptionModel>,
    pub headers_to_remove: Seq<Seq<char>>,
}

impl View for OkHttpResponse {
    type V = OkHttpResponseModel;

    open spec fn view(&self) -> OkHttpResponseModel {
        OkHttpResponseModel {
            headers: views(self.headers@),
            headers_to_remove: views(self.headers_to_remove@),
        }
    }
}

/// The mathematical [`HeaderValueOption`].
pub struct HeaderValueOptionModel {
    pub header: Option<HeaderValueModel>,
    pub append: Option<BoolValue>,
    pub append_action: i32,
    pub keep_empty_value: bool,
}

impl View for HeaderValueOption {
    type V = HeaderValueOptionModel;

    open spec fn view(&self) -> HeaderValueOptionModel {
        HeaderValueOptionModel {
            header: optional_view(self.header),
            append: self.append,
            append_action: self.append_action,
            keep_empty_value: self.keep_empty_value,
        }
    }
}

impl View for BoolValue {
    type V = BoolValue;

    open spec fn view(&self) -> BoolValue {
        *self
    }
}

impl View for HttpStatus {
    type V = HttpStatus;

    open spec fn view(&self) -> HttpStatus {
        *self
    }
}

/// The mathematical [`Status`].
pub struct StatusModel {
    pub code: i32,
    pub message: Seq<char>,
}

impl View for Status {
    type V = StatusModel;

    open spec fn view(&self) -> StatusModel {
        StatusModel { code: self.code, message: self.message@ }
    }
}

/// The mathematical [`CheckResponse`].
pub struct CheckResponseModel {
    pub status: Option<StatusModel>,
    pub http_response: Option<HttpResponseModel>,
}

impl View for CheckResponse {
    type V = CheckResponseModel;

    open spec fn view(&self) -> CheckResponseModel {
        CheckResponseModel {
            status: optional_view(self.status),
            http_response: optional_view(self.http_response),
        }
    }
}

impl WireMessage for BoolValue {
    open spec fn initial() -> BoolValue {
        BoolValue { value: false }
    }

    fn empty() -> (message: Self) {
        let message = BoolValue { value: false };
        message
    }

    open spec fn is_map(tag: u32) -> bool {
        false
    }

    fn holds_map(tag: u32) -> (map: bool) {
        false
    }

    open spec fn field_merged(
        model: BoolValue,
        tag: u32,
        payload: Payload,
        budget: nat,
    ) -> Option<BoolValue> {
        if tag == 1 {
            match payload_number(payload) {
                Some(number) => Some(BoolValue { value: number != 0 }),
                None => None,
            }
        } else {
            Some(model)
        }
    }

    fn merge_field(&mut self, tag: u32, value: FieldValue<'_>, budget: u32) -> (valid: bool) {
        if tag == 1 {
            match read_varint(value) {
                Some(number) => {
                    self.value = number != 0;
                    true
                },
                None => false,
            }
        } else {
            true
        }
    }
}

impl WireMessage for HttpStatus {
    open spec fn initial() -> HttpStatus {
        HttpStatus { code: 0 }
    }

    fn empty() -> (message: Self) {
        let message = HttpStatus { code: 0 };
        message
    }

    open spec fn is_map(tag: u32) -> bool {
        false
    }

    fn holds_map(tag: u32) -> (map: bool) {
        false
    }

    open spec fn field_merged(
        model: HttpStatus,
        tag: u32,
        payload: Payload,
        budget: nat,
    ) -> Option<HttpStatus> {
        if tag == 1 {
            match payload_number(payload) {
                Some(number) => Some(HttpStatus { code: number as i32 }),
                None => None,
            }
        } else {
            Some(model)
        }
    }

    fn merge_field(&mut self, tag: u32, value: FieldValue<'_>, budget: u32) -> (valid: bool) {
        if tag == 1 {
            match read_varint(value) {
                Some(number) => {
                    self.code = number as i32;
                    true
                },
                None => false,
            }
        } else {
            true
        }
    }
}

impl WireMessage for Status {
    open spec fn initial() -> StatusModel {
        StatusModel { code: 0, message: seq![] }
    }

    fn empty() -> (message: Self) {
        let message = Status { code: 0, message: String::new() };
        message
    }

    open spec fn is_map(tag: u32) -> bool {
        false
    }

    fn holds_map(tag: u32) -> (map: bool) {
        false
    }

    open spec fn field_merged(
        model: StatusModel,
        tag: u32,
        payload: Payload,
        budget: nat,
    ) -> Option<StatusModel> {
        if tag == 1 {
            match payload_number(payload) {
                Some(number) => Some(StatusModel { code: number as i32, ..model }),
                None => None,
            }
        } else if tag == 2 {
            match payload_text(payload) {
                Some(message) => Some(StatusModel { message, ..model }),
                None => None,
            }
        } else {
            Some(model)
        }
    }

    fn merge_field(&mut self, tag: u32, value: FieldValue<'_>, budget: u32) -> (valid: bool) {
        if tag == 1 {
            match read_varint(value) {
                Some(number) => {
                    self.code = number as i32;
                    true
                },
                None => false,
            }
        } else if tag == 2 {
            match read_text(value) {
                Some(text) => {
                    self.message = text;
                    true
                },
                None => false,
            }
        } else {
            true
        }
    }
}

impl WireMessage for HeaderValueOption {
    open spec fn initial() -> HeaderValueOptionModel {
        HeaderValueOptionModel {
            header: None,
            append: None,
            append_action: 0,
            keep_empty_value: false,
        }
    }

    fn empty() -> (message: Self) {
        let message = HeaderValueOption {
            header: None,
            append: None,
            append_action: 0,
            keep_empty_value: false,
        };
        message
    }

    open spec fn is_map(tag: u32) -> bool {
        false
    }

    fn holds_map(tag: u32) -> (map: bool) {
        false
    }

    open spec fn field_merged(
        model: HeaderValueOptionModel,
        tag: u32,
        payload: Payload,
        budget: nat,
    ) -> Option<HeaderValueOptionModel> {
        if tag == 1 {
            match optional_merged::<HeaderValue>(model.header, payload, budget) {
                Some(header) => Some(HeaderValueOptionModel { header: Some(header), ..model }),
                None => None,
            }
        } else if tag == 2 {
            match optional_merged::<BoolValue>(model.append, payload, budget) {
                Some(append) => Some(HeaderValueOptionModel { append: Some(append), ..model }),
                None => None,
            }
        } else if tag == 3 {
            match payload_number(payload) {
                Some(number) => Some(
                    HeaderValueOptionModel { append_action: number as i32, ..model },
                ),
                None => None,
            }
        } else if tag == 4 {
            match payload_number(payload) {
                Some(number) => Some(
                    HeaderValueOptionModel { keep_empty_value: number != 0, ..model },
                ),
                None => None,
            }
        } else {
            Some(model)
        }
    }

    fn merge_field(&mut self, tag: u32, value: FieldValue<'_>, budget: u32) -> (valid: bool) {
        if tag == 1 {
            merge_optional(&mut self.header, value, budget)
        } else if tag == 2 {
            merge_optional(&mut self.append, value, budget)
        } else if tag == 3 {
            match read_varint(value) {
                Some(number) => {
                    self.append_action = number as i32;
                    true
                },
                None => false,
            }
        } else if tag == 4 {
            match read_varint(value) {
                Some(number) => {
                    self.keep_empty_value = number != 0;
                    true
                },
                None => false,
            }
        } else {
            true
        }
    }
}

impl WireMessage for DeniedHttpResponse {
    open spec fn initial() -> DeniedHttpResponseModel {
        DeniedHttpResponseModel { status: None, headers: seq![], body: seq![] }
    }

    fn empty() -> (message: Self) {
        let message = DeniedHttpResponse { status: None, headers: Vec::new(), body: String::new() };
        proof {
            assert(views(message.headers@) =~= seq![]);
        }
        message
    }

    open spec fn is_map(tag: u32) -> bool {
        false
    }

    fn holds_map(tag: u32) -> (map: bool) {
        false
    }

    open spec fn field_merged(
        model: DeniedHttpResponseModel,
        tag: u32,
        payload: Payload,
        budget: nat,
    ) -> Option<DeniedHttpResponseModel> {
        if tag == 1 {
            match optional_merged::<HttpStatus>(model.status, payload, budget) {
                Some(status) => Some(DeniedHttpResponseModel { status: Some(status), ..model }),
                None => None,
            }
        } else if tag == 2 {
            match nested_merged::<HeaderValueOption>(
                HeaderValueOption::initial(),
                payload,
                budget,
            ) {
                Some(item) => Some(
                    DeniedHttpResponseModel { headers: model.headers.push(item), ..model },
                ),
                None => None,
            }
        } else if tag == 3 {
            match payload_text(payload) {
                Some(body) => Some(DeniedHttpResponseModel { body, ..model }),
                None => None,
            }
        } else {
            Some(model)
        }
    }

    fn merge_field(&mut self, tag: u32, value: FieldValue<'_>, budget: u32) -> (valid: bool) {
        if tag == 1 {
            merge_optional(&mut self.status, value, budget)
        } else if tag == 2 {
            merge_repeated(&mut self.headers, value, budget)
        } else if tag == 3 {
            match read_text(value) {
                Some(text) => {
                    self.body = text;
                    true
                },
                None => false,
            }
        } else {
            true
        }
    }
}

impl WireMessage for OkHttpResponse {
    open spec fn initial() -> OkHttpResponseModel {
        OkHttpResponseModel { headers: seq![], headers_to_remove: seq![] }
    }

    fn empty() -> (message: Self) {
        let message = OkHttpResponse { headers: Vec::new(), headers_to_remove: Vec::new() };
        proof {
            assert(views(message.headers@) =~= seq![]);
            assert(views(message.headers_to_remove@) =~= seq![]);
        }
        message
    }

    open spec fn is_map(tag: u32) -> bool {
        false
    }

    fn holds_map(tag: u32) -> (map: bool) {
        false
    }

    open spec fn field_merged(
        model: OkHttpResponseModel,
        tag: u32,
        payload: Payload,
        budget: nat,
    ) -> Option<OkHttpResponseModel> {
        if tag == 2 {
            match nested_merged::<HeaderValueOption>(
                HeaderValueOption::initial(),
                payload,
                budget,
            ) {
                Some(item) => Some(
                    OkHttpResponseModel { headers: model.headers.push(item), ..model },
                ),
                None => None,
            }
        } else if tag == 5 {
            match payload_text(payload) {
                Some(item) => Some(
                    OkHttpResponseModel {
                        headers_to_remove: model.headers_to_remove.push(item),
                        ..model
                    },
                ),
                None => None,
            }
        } else {
            Some(model)
        }
    }

    fn merge_field(&mut self, tag: u32, value: FieldValue<'_>, budget: u32) -> (valid: bool) {
        if tag == 2 {
            merge_repeated(&mut self.headers, value, budget)
        } else if tag == 5 {
            match read_text(value) {
                Some(text) => {
                    self.headers_to_remove.push(text);
                    proof {
                        assert(views(self.headers_to_remove@) =~= old(
                            self,
                        )@.headers_to_remove.push(text@));
                    }
                    true
                },
                None => false,
            }
        } else {
            true
        }
    }
}

impl WireMessage for CheckResponse {
    open spec fn initial() -> CheckResponseModel {
        CheckResponseModel { status: None, http_response: None }
    }

    fn empty() -> (message: Self) {
        CheckResponse { status: None, http_response: None }
    }

    open spec fn is_map(tag: u32) -> bool {
        false
    }

    fn holds_map(tag: u32) -> (map: bool) {
        false
    }

    open spec fn field_merged(
        model: CheckResponseModel,
        tag: u32,
        payload: Payload,
        budget: nat,
    ) -> Option<CheckResponseModel> {
        if tag == 1 {
            match optional_merged::<Status>(model.status, payload, budget) {
                Some(status) => Some(CheckResponseModel { status: Some(status), ..model }),
                None => None,
            }
        } else if tag == 2 {
            let held = match model.http_response {
                Some(HttpResponseModel::DeniedResponse(denied)) => Some(denied),
                _ => None,
            };
            match optional_merged::<DeniedHttpResponse>(held, payload, budget) {
                Some(denied) => Some(
                    CheckResponseModel {
                        http_response: Some(HttpResponseModel::DeniedResponse(denied)),
                        ..model
                    },
                ),
                None => None,
            }
        } else if tag == 3 {
            let held = match model.http_response {
                Some(HttpResponseModel::OkResponse(accepted)) => Some(accepted),
                _ => None,
            };
            match optional_merged::<OkHttpResponse>(held, payload, budget) {
                Some(accepted) => Some(
                    CheckResponseModel {
                        http_response: Some(HttpResponseModel::OkResponse(accepted)),
                        ..model
                    },
                ),
                None => None,
            }
        } else if tag == 5 {
            let held = match model.http_response {
                Some(HttpResponseModel::ErrorResponse(denied)) => Some(denied),
                _ => None,
            };
            match optional_merged::<DeniedHttpResponse>(held, payload, budget) {
                Some(denied) => Some(
                    CheckResponseModel {
                        http_response: Some(HttpResponseModel::ErrorResponse(denied)),
                        ..model
                    },
                ),
                None => None,
            }
        } else {
            Some(model)
        }
    }

    fn merge_field(&mut self, tag: u32, value: FieldValue<'_>, budget: u32) -> (valid: bool) {
        if tag == 1 {
            merge_optional(&mut self.status, value, budget)
        } else if tag == 2 {
            let mut held = match self.http_response.take() {
                Some(HttpResponse::DeniedResponse(denied)) => Some(denied),
                _ => None,
            };
            if !merge_optional(&mut held, value, budget) {
                return false;
            }
            if let Some(denied) = held {
                self.http_response = Some(HttpResponse::DeniedResponse(denied));
            }
            true
        } else if tag == 3 {
            let mut held = match self.http_response.take() {
                Some(HttpResponse::OkResponse(accepted)) => Some(accepted),
                _ => None,
            };
            if !merge_optional(&mut held, value, budget) {
                return false;
            }
            if let Some(accepted) = held {
                self.http_response = Some(HttpResponse::OkResponse(accepted));
            }
            true
        } else if tag == 5 {
            let mut held = match self.http_response.take() {
                Some(HttpResponse::ErrorResponse(denied)) => Some(denied),
                _ => None,
            };
            if !merge_optional(&mut held, value, budget) {
                return false;
            }
            if let Some(denied) = held {
                self.http_response = Some(HttpResponse::ErrorResponse(denied));
            }
            true
        } else {
            true
        }
    }
}

impl Default for HeaderValue {
    fn default() -> (message: Self)
        ensures
            message@ == HeaderValue::initial(),
    {
        HeaderValue::empty()
    }
}

impl Default for BoolValue {
    fn default() -> (message: Self)
        ensures
            message@ == BoolValue::initial(),
    {
        BoolValue::empty()
    }
}

impl Default for HttpStatus {
    fn default() -> (message: Self)
        ensures
            message@ == HttpStatus::initial(),
    {
        HttpStatus::empty()
    }
}

impl Default for Status {
    fn default() -> (message: Self)
        ensures
            message@ == Status::initial(),
    {
        Status::empty()
    }
}

impl Default for HeaderValueOption {
    fn default() -> (message: Self)
        ensures
            message@ == HeaderValueOption::initial(),
    {
        HeaderValueOption::empty()
    }
}

impl Default for DeniedHttpResponse {
    fn default() -> (message: Self)
        ensures
            message@ == DeniedHttpResponse::initial(),
    {
        DeniedHttpResponse::empty()
    }
}

impl Default for OkHttpResponse {
    fn default() -> (message: Self)
        ensures
            message@ == OkHttpResponse::initial(),
    {
        OkHttpResponse::empty()
    }
}

impl Default for CheckResponse {
    fn default() -> (message: Self)
        ensures
            message@ == CheckResponse::initial(),
    {
        CheckResponse::empty()
    }
}

impl Default for CheckRequest {
    fn default() -> (message: Self)
        ensures
            message@ == (CheckRequestModel { attributes: None }),
    {
        CheckRequest { attributes: None }
    }
}

impl Default for AttributeContext {
    fn default() -> (message: Self)
        ensures
            message@ == (AttributeContextModel {
                source: None,
                destination: None,
                request: None,
                context_extensions: Map::empty(),
            }),
    {
        AttributeContext {
            source: None,
            destination: None,
            request: None,
            context_extensions: TextMap::new(),
        }
    }
}

impl Default for Peer {
    fn default() -> (message: Self)
        ensures
            message@ == (PeerModel { service: seq![] }),
    {
        Peer { service: String::new() }
    }
}

impl Default for Request {
    fn default() -> (message: Self)
        ensures
            message@ == (RequestModel { http: None }),
    {
        Request { http: None }
    }
}

impl Default for HttpRequest {
    fn default() -> (message: Self)
        ensures
            message@ == (HttpRequestModel {
                id: seq![],
                method: seq![],
                headers: Map::empty(),
                path: seq![],
                host: seq![],
                scheme: seq![],
                query: seq![],
                fragment: seq![],
                size: 0,
                protocol: seq![],
                body: seq![],
                raw_body: seq![],
            }),
    {
        HttpRequest {
            id: String::new(),
            method: String::new(),
            headers: TextMap::new(),
            path: String::new(),
            host: String::new(),
            scheme: String::new(),
            query: String::new(),
            fragment: String::new(),
            size: 0,
            protocol: String::new(),
            body: String::new(),
            raw_body: Vec::new(),
        }
    }
}

} // verus!
