//! The encoding of answers, and that an answer is read back as it was written.
use crate::model::views;
use crate::pb::check_response::{HttpResponse, HttpResponseModel};
use crate::pb::{
    message_field, BoolValue, CheckResponse, CheckResponseModel, DeniedHttpResponse,
    DeniedHttpResponseModel, HeaderValue, HeaderValueModel, HeaderValueOption,
    HeaderValueOptionModel, HttpStatus, OkHttpResponse, OkHttpResponseModel, Status, StatusModel,
};
use crate::wire::{
    decoded, delimited_field, is_tag, lemma_merged_delimited, lemma_merged_number,
    lemma_merged_text, merged, nested_merged, number_field, payload_text, put_delimited,
    put_number, put_text, text_field, Payload, WireMessage, RECURSION_LIMIT,
};
use vstd::prelude::*;
use vstd::utf8::{encode_utf8, encode_utf8_decode_utf8, encode_utf8_valid_utf8};

verus! {

/// A truth value as a number.
pub open spec fn truth_number(value: bool) -> u64 {
    if value {
        1
    } else {
        0
    }
}

impl HeaderValueModel {
    /// The encoding of the header.
    pub open spec fn encoded(self) -> Seq<u8> {
        text_field(1, self.key) + text_field(2, self.value)
    }
}

impl BoolValue {
    /// The encoding of the truth value.
    pub open spec fn encoded(self) -> Seq<u8> {
        number_field(1, truth_number(self.value))
    }
}

impl HttpStatus {
    /// The encoding of the status.
    pub open spec fn encoded(self) -> Seq<u8> {
        number_field(1, self.code as u64)
    }
}

impl StatusModel {
    /// The encoding of the status.
    pub open spec fn encoded(self) -> Seq<u8> {
        number_field(1, self.code as u64) + text_field(2, self.message)
    }
}

impl HeaderValueOptionModel {
    /// The encoding of the header and of how it meets another.
    pub open spec fn encoded(self) -> Seq<u8> {
        message_field(
            1,
            match self.header {
                Some(header) => Some(header.encoded()),
                None => None,
            },
        ) + message_field(
            2,
            match self.append {
                Some(append) => Some(append.encoded()),
                None => None,
            },
        ) + number_field(3, self.append_action as u64) + number_field(
            4,
            truth_number(self.keep_empty_value),
        )
    }
}

/// The encoding of headers, one after the other.
pub open spec fn options_field(tag: u32, options: Seq<HeaderValueOptionModel>) -> Seq<u8>
    decreases options.len(),
{
    if options.len() == 0 {
        seq![]
    } else {
        options_field(tag, options.drop_last()) + delimited_field(tag, options.last().encoded())
    }
}

/// The encoding of texts, one after the other.
pub open spec fn texts_field(tag: u32, texts: Seq<Seq<char>>) -> Seq<u8>
    decreases texts.len(),
{
    if texts.len() == 0 {
        seq![]
    } else {
        texts_field(tag, texts.drop_last()) + delimited_field(tag, encode_utf8(texts.last()))
    }
}

impl DeniedHttpResponseModel {
    /// The encoding of the denial.
    pub open spec fn encoded(self) -> Seq<u8> {
        message_field(
            1,
            match self.status {
                Some(status) => Some(status.encoded()),
                None => None,
            },
        ) + options_field(2, self.headers) + text_field(3, self.body)
    }
}

impl OkHttpResponseModel {
    /// The encoding of the acceptance.
    pub open spec fn encoded(self) -> Seq<u8> {
        options_field(2, self.headers) + texts_field(5, self.headers_to_remove)
    }
}

impl HttpResponseModel {
    /// The encoding of the field that holds the answer to the check.
    pub open spec fn encoded(self) -> Seq<u8> {
        match self {
            HttpResponseModel::DeniedResponse(denied) => delimited_field(2, denied.encoded()),
            HttpResponseModel::OkResponse(accepted) => delimited_field(3, accepted.encoded()),
            HttpResponseModel::ErrorResponse(denied) => delimited_field(5, denied.encoded()),
        }
    }
}

impl CheckResponseModel {
    /// The encoding of the answer.
    pub open spec fn encoded(self) -> Seq<u8> {
        message_field(
            1,
            match self.status {
                Some(status) => Some(status.encoded()),
                None => None,
            },
        ) + match self.http_response {
            Some(http_response) => http_response.encoded(),
            None => seq![],
        }
    }
}

fn truth_as_number(value: bool) -> (number: u64)
    ensures
        number == truth_number(value),
{
    if value {
        1
    } else {
        0
    }
}

impl HeaderValue {
    /// The encoding of the header.
    pub fn encode_to_vec(&self) -> (bytes: Vec<u8>)
        ensures
            bytes@ == self@.encoded(),
    {
        let mut buf: Vec<u8> = Vec::new();
        put_text(1, self.key.as_str(), &mut buf);
        put_text(2, self.value.as_str(), &mut buf);
        proof {
            assert(buf@ =~= self@.encoded());
        }
        buf
    }
}

impl BoolValue {
    /// The encoding of the truth value.
    pub fn encode_to_vec(&self) -> (bytes: Vec<u8>)
        ensures
            bytes@ == self.encoded(),
    {
        let mut buf: Vec<u8> = Vec::new();
        put_number(1, truth_as_number(self.value), &mut buf);
        proof {
            assert(buf@ =~= self.encoded());
        }
        buf
    }
}

impl HttpStatus {
    /// The encoding of the status.
    pub fn encode_to_vec(&self) -> (bytes: Vec<u8>)
        ensures
            bytes@ == self.encoded(),
    {
        let mut buf: Vec<u8> = Vec::new();
        put_number(1, self.code as u64, &mut buf);
        proof {
            assert(buf@ =~= self.encoded());
        }
        buf
    }
}

impl Status {
    /// The encoding of the status.
    pub fn encode_to_vec(&self) -> (bytes: Vec<u8>)
        ensures
            bytes@ == self@.encoded(),
    {
        let mut buf: Vec<u8> = Vec::new();
        put_number(1, self.code as u64, &mut buf);
        put_text(2, self.message.as_str(), &mut buf);
        proof {
            assert(buf@ =~= self@.encoded());
        }
        buf
    }
}

impl HeaderValueOption {
    /// The encoding of the header and of how it meets another.
    pub fn encode_to_vec(&self) -> (bytes: Vec<u8>)
        ensures
            bytes@ == self@.encoded(),
    {
        let mut buf: Vec<u8> = Vec::new();
        if let Some(header) = &self.header {
            put_delimited(1, header.encode_to_vec().as_slice(), &mut buf);
        }
        if let Some(append) = &self.append {
            put_delimited(2, append.encode_to_vec().as_slice(), &mut buf);
        }
        put_number(3, self.append_action as u64, &mut buf);
        put_number(4, truth_as_number(self.keep_empty_value), &mut buf);
        proof {
            assert(buf@ =~= self@.encoded());
        }
        buf
    }
}

fn put_options(tag: u32, options: &Vec<HeaderValueOption>, buf: &mut Vec<u8>)
    requires
        is_tag(tag),
    ensures
        final(buf)@ == old(buf)@ + options_field(tag, views(options@)),
{
    let ghost models = views(options@);
    let mut i: usize = 0;
    proof {
        assert(models.take(0) =~= seq![]);
        assert(buf@ =~= old(buf)@ + options_field(tag, models.take(0)));
    }
    while i < options.len()
        invariant
            i <= options@.len(),
            models == views(options@),
            is_tag(tag),
            buf@ == old(buf)@ + options_field(tag, models.take(i as int)),
        decreases options@.len() - i,
    {
        put_delimited(tag, options[i].encode_to_vec().as_slice(), buf);
        proof {
            assert(models.take(i + 1).drop_last() =~= models.take(i as int));
            assert(buf@ =~= old(buf)@ + options_field(tag, models.take(i + 1)));
        }
        i = i + 1;
    }
    proof {
        assert(models.take(options@.len() as int) =~= models);
    }
}

fn put_texts(tag: u32, texts: &Vec<String>, buf: &mut Vec<u8>)
    requires
        is_tag(tag),
    ensures
        final(buf)@ == old(buf)@ + texts_field(tag, views(texts@)),
{
    let ghost models = views(texts@);
    let mut i: usize = 0;
    proof {
        assert(models.take(0) =~= seq![]);
        assert(buf@ =~= old(buf)@ + texts_field(tag, models.take(0)));
    }
    while i < texts.len()
        invariant
            i <= texts@.len(),
            models == views(texts@),
            is_tag(tag),
            buf@ == old(buf)@ + texts_field(tag, models.take(i as int)),
        decreases texts@.len() - i,
    {
        put_delimited(tag, texts[i].as_str().as_bytes(), buf);
        proof {
            assert(models.take(i + 1).drop_last() =~= models.take(i as int));
            assert(buf@ =~= old(buf)@ + texts_field(tag, models.take(i + 1)));
        }
        i = i + 1;
    }
    proof {
        assert(models.take(texts@.len() as int) =~= models);
    }
}

impl DeniedHttpResponse {
    /// The encoding of the denial.
    pub fn encode_to_vec(&self) -> (bytes: Vec<u8>)
        ensures
            bytes@ == self@.encoded(),
    {
        let mut buf: Vec<u8> = Vec::new();
        if let Some(status) = &self.status {
            put_delimited(1, status.encode_to_vec().as_slice(), &mut buf);
        }
        put_options(2, &self.headers, &mut buf);
        put_text(3, self.body.as_str(), &mut buf);
        proof {
            assert(buf@ =~= self@.encoded());
        }
        buf
    }
}

impl OkHttpResponse {
    /// The encoding of the acceptance.
    pub fn encode_to_vec(&self) -> (bytes: Vec<u8>)
        ensures
            bytes@ == self@.encoded(),
    {
        let mut buf: Vec<u8> = Vec::new();
        put_options(2, &self.headers, &mut buf);
        put_texts(5, &self.headers_to_remove, &mut buf);
        proof {
            assert(buf@ =~= self@.encoded());
        }
        buf
    }
}

impl CheckResponse {
    /// The encoding of the answer.
    pub fn encode_to_vec(&self) -> (bytes: Vec<u8>)
        ensures
            bytes@ == self@.encoded(),
    {
        let mut buf: Vec<u8> = Vec::new();
        if let Some(status) = &self.status {
            put_delimited(1, status.encode_to_vec().as_slice(), &mut buf);
        }
        match &self.http_response {
            Some(HttpResponse::DeniedResponse(denied)) => {
                put_delimited(2, denied.encode_to_vec().as_slice(), &mut buf);
            },
            Some(HttpResponse::OkResponse(accepted)) => {
                put_delimited(3, accepted.encode_to_vec().as_slice(), &mut buf);
            },
            Some(HttpResponse::ErrorResponse(denied)) => {
                put_delimited(5, denied.encode_to_vec().as_slice(), &mut buf);
            },
            None => {},
        }
        proof {
            assert(buf@ =~= self@.encoded());
        }
        buf
    }
}

/// A number with a sign keeps its value when it is widened and narrowed.
proof fn lemma_signed_number(number: i32)
    ensures
        (number as u64) as i32 == number,
        (number as u64 == 0) == (number == 0),
{
    assert((number as u64) as i32 == number) by (bit_vector);
    assert((number as u64 == 0) == (number == 0)) by (bit_vector);
}

proof fn lemma_header_round_trip(header: HeaderValueModel, budget: nat)
    requires
        header.encoded().len() <= u64::MAX,
    ensures
        merged::<HeaderValue>(HeaderValue::initial(), header.encoded(), budget) == Some(header),
{
    let start = HeaderValue::initial();
    let second = text_field(2, header.value);
    lemma_merged_text::<HeaderValue>(start, 1, header.key, second, budget);
    if header.key.len() == 0 {
        assert(header.key =~= seq![]);
    }
    let named = HeaderValueModel { key: header.key, ..start };
    assert(second + seq![] =~= second);
    lemma_merged_text::<HeaderValue>(named, 2, header.value, seq![], budget);
    if header.value.len() == 0 {
        assert(header.value =~= seq![]);
    }
}

proof fn lemma_truth_round_trip(value: BoolValue, budget: nat)
    ensures
        merged::<BoolValue>(BoolValue::initial(), value.encoded(), budget) == Some(value),
{
    assert(value.encoded() + seq![] =~= value.encoded());
    lemma_merged_number::<BoolValue>(
        BoolValue::initial(),
        1,
        truth_number(value.value),
        seq![],
        budget,
    );
}

proof fn lemma_http_status_round_trip(status: HttpStatus, budget: nat)
    ensures
        merged::<HttpStatus>(HttpStatus::initial(), status.encoded(), budget) == Some(status),
{
    assert(status.encoded() + seq![] =~= status.encoded());
    lemma_signed_number(status.code);
    lemma_merged_number::<HttpStatus>(
        HttpStatus::initial(),
        1,
        status.code as u64,
        seq![],
        budget,
    );
}

proof fn lemma_status_round_trip(status: StatusModel, budget: nat)
    requires
        status.encoded().len() <= u64::MAX,
    ensures
        merged::<Status>(Status::initial(), status.encoded(), budget) == Some(status),
{
    let start = Status::initial();
    let second = text_field(2, status.message);
    lemma_signed_number(status.code);
    lemma_merged_number::<Status>(start, 1, status.code as u64, second, budget);
    let coded = StatusModel { code: status.code, ..start };
    assert(second + seq![] =~= second);
    lemma_merged_text::<Status>(coded, 2, status.message, seq![], budget);
    if status.message.len() == 0 {
        assert(status.message =~= seq![]);
    }
}

proof fn lemma_option_round_trip(option: HeaderValueOptionModel, budget: nat)
    requires
        option.encoded().len() <= u64::MAX,
        budget > 0,
    ensures
        merged::<HeaderValueOption>(HeaderValueOption::initial(), option.encoded(), budget)
            == Some(option),
{
    let less = (budget - 1) as nat;
    let m0 = HeaderValueOption::initial();
    let m1 = HeaderValueOptionModel { header: option.header, ..m0 };
    let m2 = HeaderValueOptionModel { append: option.append, ..m1 };
    let m3 = HeaderValueOptionModel { append_action: option.append_action, ..m2 };
    let r3 = number_field(4, truth_number(option.keep_empty_value)) + seq![];
    let r2 = number_field(3, option.append_action as u64) + r3;
    let f2 = message_field(
        2,
        match option.append {
            Some(append) => Some(append.encoded()),
            None => None,
        },
    );
    let r1 = f2 + r2;
    let f1 = message_field(
        1,
        match option.header {
            Some(header) => Some(header.encoded()),
            None => None,
        },
    );
    assert(option.encoded() =~= f1 + r1);
    assert(merged::<HeaderValueOption>(m0, f1 + r1, budget) == merged::<HeaderValueOption>(
        m1,
        r1,
        budget,
    )) by {
        match option.header {
            Some(header) => {
                lemma_merged_delimited::<HeaderValueOption>(
                    m0,
                    1,
                    header.encoded(),
                    r1,
                    budget,
                );
                lemma_header_round_trip(header, less);
            },
            None => {
                assert(f1 + r1 =~= r1);
            },
        }
    }
    assert(merged::<HeaderValueOption>(m1, f2 + r2, budget) == merged::<HeaderValueOption>(
        m2,
        r2,
        budget,
    )) by {
        match option.append {
            Some(append) => {
                lemma_merged_delimited::<HeaderValueOption>(
                    m1,
                    2,
                    append.encoded(),
                    r2,
                    budget,
                );
                lemma_truth_round_trip(append, less);
            },
            None => {
                assert(f2 + r2 =~= r2);
            },
        }
    }
    lemma_signed_number(option.append_action);
    lemma_merged_number::<HeaderValueOption>(m2, 3, option.append_action as u64, r3, budget);
    lemma_merged_number::<HeaderValueOption>(
        m3,
        4,
        truth_number(option.keep_empty_value),
        seq![],
        budget,
    );
}

proof fn lemma_denied_headers_round_trip(
    denied: DeniedHttpResponseModel,
    headers: Seq<HeaderValueOptionModel>,
    rest: Seq<u8>,
    budget: nat,
)
    requires
        options_field(2, headers).len() <= u64::MAX,
        budget > 1,
    ensures
        merged::<DeniedHttpResponse>(denied, options_field(2, headers) + rest, budget) == merged::<
            DeniedHttpResponse,
        >(
            DeniedHttpResponseModel { headers: denied.headers + headers, ..denied },
            rest,
            budget,
        ),
    decreases headers.len(),
{
    if headers.len() == 0 {
        assert(options_field(2, headers) + rest =~= rest);
        assert(denied.headers + headers =~= denied.headers);
    } else {
        let before = headers.drop_last();
        let last = headers.last();
        let content = last.encoded();
        let field = delimited_field(2, content);
        assert(options_field(2, headers) + rest =~= options_field(2, before) + (field + rest));
        lemma_denied_headers_round_trip(denied, before, field + rest, budget);
        let partial = DeniedHttpResponseModel { headers: denied.headers + before, ..denied };
        lemma_merged_delimited::<DeniedHttpResponse>(partial, 2, content, rest, budget);
        let payload = Payload::Bytes(content);
        assert(nested_merged::<HeaderValueOption>(HeaderValueOption::initial(), payload, budget)
            == Some(last)) by {
            lemma_option_round_trip(last, (budget - 1) as nat);
        }
        assert(denied.headers + headers =~= (denied.headers + before).push(last));
    }
}

proof fn lemma_denied_round_trip(denied: DeniedHttpResponseModel, budget: nat)
    requires
        denied.encoded().len() <= u64::MAX,
        budget > 1,
    ensures
        merged::<DeniedHttpResponse>(DeniedHttpResponse::initial(), denied.encoded(), budget)
            == Some(denied),
{
    let m0 = DeniedHttpResponse::initial();
    let m1 = DeniedHttpResponseModel { status: denied.status, ..m0 };
    let m2 = DeniedHttpResponseModel { headers: denied.headers, ..m1 };
    let r2 = text_field(3, denied.body) + seq![];
    let r1 = options_field(2, denied.headers) + r2;
    let f1 = message_field(
        1,
        match denied.status {
            Some(status) => Some(status.encoded()),
            None => None,
        },
    );
    assert(denied.encoded() =~= f1 + r1);
    assert(merged::<DeniedHttpResponse>(m0, f1 + r1, budget) == merged::<DeniedHttpResponse>(
        m1,
        r1,
        budget,
    )) by {
        match denied.status {
            Some(status) => {
                lemma_merged_delimited::<DeniedHttpResponse>(
                    m0,
                    1,
                    status.encoded(),
                    r1,
                    budget,
                );
                lemma_http_status_round_trip(status, (budget - 1) as nat);
            },
            None => {
                assert(f1 + r1 =~= r1);
            },
        }
    }
    lemma_denied_headers_round_trip(m1, denied.headers, r2, budget);
    assert(m1.headers + denied.headers =~= denied.headers);
    lemma_merged_text::<DeniedHttpResponse>(m2, 3, denied.body, seq![], budget);
    if denied.body.len() == 0 {
        assert(denied.body =~= seq![]);
    }
}

proof fn lemma_accepted_headers_round_trip(
    accepted: OkHttpResponseModel,
    headers: Seq<HeaderValueOptionModel>,
    rest: Seq<u8>,
    budget: nat,
)
    requires
        options_field(2, headers).len() <= u64::MAX,
        budget > 1,
    ensures
        merged::<OkHttpResponse>(accepted, options_field(2, headers) + rest, budget) == merged::<
            OkHttpResponse,
        >(
            OkHttpResponseModel { headers: accepted.headers + headers, ..accepted },
            rest,
            budget,
        ),
    decreases headers.len(),
{
    if headers.len() == 0 {
        assert(options_field(2, headers) + rest =~= rest);
        assert(accepted.headers + headers =~= accepted.headers);
    } else {
        let before = headers.drop_last();
        let last = headers.last();
        let content = last.encoded();
        let field = delimited_field(2, content);
        assert(options_field(2, headers) + rest =~= options_field(2, before) + (field + rest));
        lemma_accepted_headers_round_trip(accepted, before, field + rest, budget);
        let partial = OkHttpResponseModel { headers: accepted.headers + before, ..accepted };
        lemma_merged_delimited::<OkHttpResponse>(partial, 2, content, rest, budget);
        let payload = Payload::Bytes(content);
        assert(nested_merged::<HeaderValueOption>(HeaderValueOption::initial(), payload, budget)
            == Some(last)) by {
            lemma_option_round_trip(last, (budget - 1) as nat);
        }
        assert(accepted.headers + headers =~= (accepted.headers + before).push(last));
    }
}

proof fn lemma_removed_headers_round_trip(
    accepted: OkHttpResponseModel,
    texts: Seq<Seq<char>>,
    rest: Seq<u8>,
    budget: nat,
)
    requires
        texts_field(5, texts).len() <= u64::MAX,
    ensures
        merged::<OkHttpResponse>(accepted, texts_field(5, texts) + rest, budget) == merged::<
            OkHttpResponse,
        >(
            OkHttpResponseModel {
                headers_to_remove: accepted.headers_to_remove + texts,
                ..accepted
            },
            rest,
            budget,
        ),
    decreases texts.len(),
{
    if texts.len() == 0 {
        assert(texts_field(5, texts) + rest =~= rest);
        assert(accepted.headers_to_remove + texts =~= accepted.headers_to_remove);
    } else {
        let before = texts.drop_last();
        let last = texts.last();
        let content = encode_utf8(last);
        let field = delimited_field(5, content);
        assert(texts_field(5, texts) + rest =~= texts_field(5, before) + (field + rest));
        lemma_removed_headers_round_trip(accepted, before, field + rest, budget);
        let partial = OkHttpResponseModel {
            headers_to_remove: accepted.headers_to_remove + before,
            ..accepted
        };
        lemma_merged_delimited::<OkHttpResponse>(partial, 5, content, rest, budget);
        assert(payload_text(Payload::Bytes(content)) == Some(last)) by {
            encode_utf8_valid_utf8(last);
            encode_utf8_decode_utf8(last);
        }
        assert(accepted.headers_to_remove + texts =~= (accepted.headers_to_remove + before).push(
            last,
        ));
    }
}

proof fn lemma_accepted_round_trip(accepted: OkHttpResponseModel, budget: nat)
    requires
        accepted.encoded().len() <= u64::MAX,
        budget > 1,
    ensures
        merged::<OkHttpResponse>(OkHttpResponse::initial(), accepted.encoded(), budget) == Some(
            accepted,
        ),
{
    let m0 = OkHttpResponse::initial();
    let m1 = OkHttpResponseModel { headers: accepted.headers, ..m0 };
    let r1 = texts_field(5, accepted.headers_to_remove) + seq![];
    assert(accepted.encoded() =~= options_field(2, accepted.headers) + r1);
    lemma_accepted_headers_round_trip(m0, accepted.headers, r1, budget);
    assert(m0.headers + accepted.headers =~= accepted.headers);
    lemma_removed_headers_round_trip(m1, accepted.headers_to_remove, seq![], budget);
    assert(m1.headers_to_remove + accepted.headers_to_remove =~= accepted.headers_to_remove);
}

/// An answer that was encoded is the answer that is read back. The bound is what a buffer can
/// hold.
pub proof fn law_answer_round_trip(response: CheckResponseModel)
    requires
        response.encoded().len() <= u64::MAX,
    ensures
        decoded::<CheckResponse>(response.encoded()) == Some(response),
{
    let budget = RECURSION_LIMIT as nat;
    let less = (budget - 1) as nat;
    let m0 = CheckResponse::initial();
    let m1 = CheckResponseModel { status: response.status, ..m0 };
    let f1 = message_field(
        1,
        match response.status {
            Some(status) => Some(status.encoded()),
            None => None,
        },
    );
    let f2 = match response.http_response {
        Some(http_response) => http_response.encoded(),
        None => seq![],
    };
    assert(response.encoded() =~= f1 + f2);
    assert(merged::<CheckResponse>(m0, f1 + f2, budget) == merged::<CheckResponse>(
        m1,
        f2,
        budget,
    )) by {
        match response.status {
            Some(status) => {
                lemma_merged_delimited::<CheckResponse>(m0, 1, status.encoded(), f2, budget);
                lemma_status_round_trip(status, less);
            },
            None => {
                assert(f1 + f2 =~= f2);
            },
        }
    }
    assert(f2 + seq![] =~= f2);
    match response.http_response {
        Some(HttpResponseModel::DeniedResponse(denied)) => {
            lemma_merged_delimited::<CheckResponse>(m1, 2, denied.encoded(), seq![], budget);
            lemma_denied_round_trip(denied, less);
        },
        Some(HttpResponseModel::OkResponse(accepted)) => {
            lemma_merged_delimited::<CheckResponse>(m1, 3, accepted.encoded(), seq![], budget);
            lemma_accepted_round_trip(accepted, less);
        },
        Some(HttpResponseModel::ErrorResponse(denied)) => {
            lemma_merged_delimited::<CheckResponse>(m1, 5, denied.encoded(), seq![], budget);
            lemma_denied_round_trip(denied, less);
        },
        None => {},
    }
}

} // verus!
