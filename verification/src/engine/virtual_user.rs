//! What one virtual user decides: whether to go on, which request is next,
//! what is sent, and what the event of a request says.

use vstd::prelude::*;
use vstd::string::{StringExecFns, StringSliceAdditionalSpecFns};
use vstd::utf8::{
    decode_utf8, encode_utf8, encode_utf8_decode_utf8, encode_utf8_valid_utf8, is_char_boundary,
    is_char_boundary_start_end_of_seq,
};
use uuid::Uuid;
use crate::assertions::{
    all_passed, assertions_passed, evaluate_all as evaluate_assertions, result_fits,
    AssertionResult, ResponseContext,
};
use crate::extractors::{
    evaluate_all as evaluate_extractors, extraction_fits, ExtractionContext, ExtractionResult,
};
use crate::outside::fresh_id;
use crate::results::{RequestResultEvent, MAX_RESPONSE_BODY_LEN};
use crate::extractors::{substitute_variables, substituted};
use crate::json::{json_text, parse_json_text, parsed_json, render_json, JsonValue};
use crate::http::request::SendRequestInput;
use crate::plan::model::{HttpMethod, HttpRequest, LoopCount, RequestBody};
use crate::string_map::{Entry, StringMap};
use crate::text::{join2, lowercased, same_text, to_lowercase};

verus! {

/// Whether a user begins another iteration: never once the run is cancelled;
/// else while fewer than `count` iterations are done, while fewer than
/// `seconds` whole seconds have gone by, or always.
pub open spec fn goes_on(policy: LoopCount, done: u64, elapsed_secs: u64, cancelled: bool) -> bool {
    !cancelled && match policy {
        LoopCount::Finite { count } => done < count,
        LoopCount::Duration { seconds } => elapsed_secs < seconds,
        LoopCount::Infinite => true,
    }
}

/// Decides whether a user begins another iteration, `done` iterations and
/// `elapsed_secs` whole seconds after it started.
pub fn should_iterate(policy: &LoopCount, done: u64, elapsed_secs: u64, cancelled: bool) -> (go:
    bool)
    ensures
        go == goes_on(*policy, done, elapsed_secs, cancelled),
{
    if cancelled {
        return false;
    }
    match policy {
        LoopCount::Finite { count } => done < *count,
        LoopCount::Duration { seconds } => elapsed_secs < *seconds,
        LoopCount::Infinite => true,
    }
}

/// The place of the first enabled request at or after `from`; the number of
/// requests where there is none.
pub open spec fn next_enabled(requests: Seq<HttpRequest>, from: int) -> int
    decreases requests.len() - from,
{
    if from < 0 || from >= requests.len() {
        requests.len() as int
    } else if requests[from].enabled {
        from
    } else {
        next_enabled(requests, from + 1)
    }
}

/// The request that a user sends next within an iteration, looking from
/// `from` on: the first enabled one, and none once the run is cancelled.
pub fn next_request(requests: &Vec<HttpRequest>, from: usize, cancelled: bool) -> (next: Option<
    usize,
>)
    ensures
        match next {
            Some(i) => !cancelled && i == next_enabled(requests@, from as int) && i
                < requests@.len() && requests@[i as int].enabled,
            None => cancelled || next_enabled(requests@, from as int) == requests@.len(),
        },
{
    if cancelled {
        return None;
    }
    let mut i: usize = from;
    while i < requests.len()
        invariant
            !cancelled,
            from <= i,
            next_enabled(requests@, from as int) == next_enabled(requests@, i as int),
        decreases requests@.len() - i,
    {
        assert(next_enabled(requests@, i as int) == if requests@[i as int].enabled {
            i as int
        } else {
            next_enabled(requests@, i + 1)
        });
        if requests[i].enabled {
            return Some(i);
        }
        i += 1;
    }
    assert(next_enabled(requests@, i as int) == requests@.len());
    None
}


/// A request with its placeholders replaced: what is sent.
#[derive(Debug, Clone)]
pub struct ResolvedRequest {
    pub id: Uuid,
    pub name: String,
    pub enabled: bool,
    pub method: HttpMethod,
    pub url: String,
    pub headers: StringMap,
    pub body: Option<RequestBody>,
}

/// The headers, names and values, with their placeholders replaced; of two
/// names that become the same, the later one stays.
pub open spec fn resolved_headers(
    entries: Seq<Entry>,
    vars: Map<Seq<char>, Seq<char>>,
    upto: int,
) -> Map<Seq<char>, Seq<char>>
    decreases upto,
{
    if upto <= 0 {
        Map::empty()
    } else {
        resolved_headers(entries, vars, upto - 1).insert(
            substituted(entries[upto - 1].name@, vars),
            substituted(entries[upto - 1].value@, vars),
        )
    }
}

/// The form fields are those of `pairs`, in order, names and values with
/// their placeholders replaced.
pub open spec fn pairs_resolved(
    resolved: Seq<(String, String)>,
    pairs: Seq<(String, String)>,
    vars: Map<Seq<char>, Seq<char>>,
) -> bool {
    &&& resolved.len() == pairs.len()
    &&& forall|i: int|
        0 <= i < pairs.len() ==> (#[trigger] resolved[i]).0@ == substituted(pairs[i].0@, vars)
            && resolved[i].1@ == substituted(pairs[i].1@, vars)
}

/// The body is `body` with its placeholders replaced: in the text of a
/// JSON, raw or XML body, and in the names and values of form fields.
pub open spec fn body_resolved(
    resolved: Option<RequestBody>,
    body: Option<RequestBody>,
    vars: Map<Seq<char>, Seq<char>>,
) -> bool {
    match (body, resolved) {
        (None, None) => true,
        (Some(RequestBody::Json(t)), Some(RequestBody::Json(r))) => r@ == substituted(t@, vars),
        (Some(RequestBody::Raw(t)), Some(RequestBody::Raw(r))) => r@ == substituted(t@, vars),
        (Some(RequestBody::Xml(t)), Some(RequestBody::Xml(r))) => r@ == substituted(t@, vars),
        (Some(RequestBody::FormData(p)), Some(RequestBody::FormData(r))) => pairs_resolved(
            r@,
            p@,
            vars,
        ),
        _ => false,
    }
}

fn resolve_pairs(pairs: &Vec<(String, String)>, variables: &StringMap) -> (resolved: Vec<
    (String, String),
>)
    requires
        variables.wf(),
    ensures
        pairs_resolved(resolved@, pairs@, variables@),
{
    let mut resolved: Vec<(String, String)> = Vec::new();
    let mut i: usize = 0;
    while i < pairs.len()
        invariant
            i <= pairs@.len(),
            variables.wf(),
            resolved@.len() == i,
            forall|k: int|
                0 <= k < i ==> (#[trigger] resolved@[k]).0@ == substituted(
                    pairs@[k].0@,
                    variables@,
                ) && resolved@[k].1@ == substituted(pairs@[k].1@, variables@),
        decreases pairs@.len() - i,
    {
        let name = substitute_variables(pairs[i].0.as_str(), variables);
        let value = substitute_variables(pairs[i].1.as_str(), variables);
        resolved.push((name, value));
        i += 1;
    }
    resolved
}

/// Replaces the placeholders of a request by the values of the variables:
/// in the URL, in the name and the value of every header, and in the body.
pub fn resolve_request_variables(req: &HttpRequest, variables: &StringMap) -> (resolved:
    ResolvedRequest)
    requires
        variables.wf(),
    ensures
        resolved.id == req.id,
        resolved.name@ == req.name@,
        resolved.enabled == req.enabled,
        resolved.method == req.method,
        resolved.url@ == substituted(req.url@, variables@),
        resolved.headers.wf(),
        resolved.headers@ == resolved_headers(
            req.headers.listing(),
            variables@,
            req.headers.listing().len() as int,
        ),
        body_resolved(resolved.body, req.body, variables@),
{
    let url = substitute_variables(req.url.as_str(), variables);
    let mut headers = StringMap::new();
    let entries = req.headers.entries();
    let mut i: usize = 0;
    while i < entries.len()
        invariant
            i <= entries@.len(),
            entries@ == req.headers.listing(),
            variables.wf(),
            headers.wf(),
            headers@ == resolved_headers(entries@, variables@, i as int),
        decreases entries@.len() - i,
    {
        let name = substitute_variables(entries[i].name.as_str(), variables);
        let value = substitute_variables(entries[i].value.as_str(), variables);
        headers.insert(name, value);
        i += 1;
    }
    let body = match &req.body {
        None => None,
        Some(RequestBody::Json(t)) => Some(
            RequestBody::Json(substitute_variables(t.as_str(), variables)),
        ),
        Some(RequestBody::Raw(t)) => Some(
            RequestBody::Raw(substitute_variables(t.as_str(), variables)),
        ),
        Some(RequestBody::Xml(t)) => Some(
            RequestBody::Xml(substitute_variables(t.as_str(), variables)),
        ),
        Some(RequestBody::FormData(p)) => Some(RequestBody::FormData(resolve_pairs(p, variables))),
    };
    ResolvedRequest {
        id: req.id,
        name: req.name.clone(),
        enabled: req.enabled,
        method: req.method,
        url,
        headers,
        body,
    }
}

/// The two lists hold the same names and values, in the same order.
pub open spec fn same_pairs(a: Seq<(String, String)>, b: Seq<(String, String)>) -> bool {
    &&& a.len() == b.len()
    &&& forall|i: int| 0 <= i < b.len() ==> (#[trigger] a[i]).0@ == b[i].0@ && a[i].1@ == b[i].1@
}

/// The two bodies are of one kind and hold the same text or fields.
pub open spec fn same_body(a: Option<RequestBody>, b: Option<RequestBody>) -> bool {
    match (a, b) {
        (None, None) => true,
        (Some(RequestBody::Json(x)), Some(RequestBody::Json(y))) => x@ == y@,
        (Some(RequestBody::Raw(x)), Some(RequestBody::Raw(y))) => x@ == y@,
        (Some(RequestBody::Xml(x)), Some(RequestBody::Xml(y))) => x@ == y@,
        (Some(RequestBody::FormData(x)), Some(RequestBody::FormData(y))) => same_pairs(x@, y@),
        _ => false,
    }
}

fn copy_pairs(pairs: &Vec<(String, String)>) -> (copy: Vec<(String, String)>)
    ensures
        same_pairs(copy@, pairs@),
{
    let mut copy: Vec<(String, String)> = Vec::new();
    let mut i: usize = 0;
    while i < pairs.len()
        invariant
            i <= pairs@.len(),
            copy@.len() == i,
            forall|k: int|
                0 <= k < i ==> (#[trigger] copy@[k]).0@ == pairs@[k].0@ && copy@[k].1@
                    == pairs@[k].1@,
        decreases pairs@.len() - i,
    {
        copy.push((pairs[i].0.clone(), pairs[i].1.clone()));
        i += 1;
    }
    copy
}

fn copy_body(body: &Option<RequestBody>) -> (copy: Option<RequestBody>)
    ensures
        same_body(copy, *body),
{
    match body {
        None => None,
        Some(RequestBody::Json(t)) => Some(RequestBody::Json(t.clone())),
        Some(RequestBody::Raw(t)) => Some(RequestBody::Raw(t.clone())),
        Some(RequestBody::Xml(t)) => Some(RequestBody::Xml(t.clone())),
        Some(RequestBody::FormData(p)) => Some(RequestBody::FormData(copy_pairs(p))),
    }
}

/// A request of a plan as a single request to send by hand: the same
/// method, URL, headers and body, and no authentication.
pub fn to_send_request_input(req: &HttpRequest) -> (input: SendRequestInput)
    requires
        req.headers.wf(),
    ensures
        input.method == req.method,
        input.url@ == req.url@,
        input.headers.wf(),
        input.headers@ == req.headers@,
        same_body(input.body, req.body),
        input.auth is None,
{
    SendRequestInput {
        method: req.method,
        url: req.url.clone(),
        headers: req.headers.copy(),
        body: copy_body(&req.body),
        auth: None,
    }
}

/// What goes out as the body of a request.
#[derive(Debug, Clone)]
pub enum Payload {
    /// Nothing.
    Empty,
    /// JSON as compact text.
    Json(String),
    /// Form fields, to be sent URL-encoded.
    Form(Vec<(String, String)>),
    /// Text sent as it is.
    Raw(String),
    /// XML text.
    Xml(String),
}

/// What a JSON body becomes, given what its text is as JSON: the value as
/// compact text, or the reason why the text is no JSON.
pub open spec fn json_payload(parsed: Result<JsonValue, String>) -> Result<Seq<char>, Seq<char>> {
    match parsed {
        Ok(value) => Ok(json_text(value)),
        Err(e) => Err("Invalid JSON body: "@ + e@),
    }
}

/// The payload is what `body` becomes.
pub open spec fn payload_fits(shaped: Result<Payload, String>, body: Option<RequestBody>) -> bool {
    match body {
        None => shaped matches Ok(Payload::Empty),
        Some(RequestBody::Json(t)) => match json_payload(parsed_json(t@)) {
            Ok(text) => shaped matches Ok(Payload::Json(p)) && p@ == text,
            Err(reason) => shaped matches Err(e) && e@ == reason,
        },
        Some(RequestBody::FormData(pairs)) => shaped matches Ok(Payload::Form(p)) && same_pairs(
            p@,
            pairs@,
        ),
        Some(RequestBody::Raw(t)) => shaped matches Ok(Payload::Raw(p)) && p@ == t@,
        Some(RequestBody::Xml(t)) => shaped matches Ok(Payload::Xml(p)) && p@ == t@,
    }
}

/// Shapes a JSON body from what its text is as JSON.
pub fn shape_json_body(parsed: &Result<JsonValue, String>) -> (shaped: Result<Payload, String>)
    ensures
        match json_payload(*parsed) {
            Ok(text) => shaped matches Ok(Payload::Json(p)) && p@ == text,
            Err(reason) => shaped matches Err(e) && e@ == reason,
        },
{
    match parsed {
        Ok(value) => Ok(Payload::Json(render_json(value))),
        Err(e) => Err(join2("Invalid JSON body: ", e.as_str())),
    }
}

/// Shapes the body of a resolved request. A JSON body is read and written
/// anew as compact text; one that is no JSON gives an error and no request.
pub fn shape_body(body: &Option<RequestBody>) -> (shaped: Result<Payload, String>)
    ensures
        payload_fits(shaped, *body),
{
    match body {
        None => Ok(Payload::Empty),
        Some(RequestBody::Json(t)) => {
            let parsed = parse_json_text(t.as_str());
            shape_json_body(&parsed)
        },
        Some(RequestBody::FormData(pairs)) => Ok(Payload::Form(copy_pairs(pairs))),
        Some(RequestBody::Raw(t)) => Ok(Payload::Raw(t.clone())),
        Some(RequestBody::Xml(t)) => Ok(Payload::Xml(t.clone())),
    }
}

/// Whether some header is named `Content-Type`, whatever the case of its
/// letters.
pub open spec fn names_content_type(entries: Seq<Entry>) -> bool {
    exists|i: int|
        0 <= i < entries.len() && lowercased((#[trigger] entries[i]).name@) == "content-type"@
}

/// The content type that a payload has where the request names none: none
/// for no body and for raw text.
pub open spec fn payload_content_type(payload: Payload) -> Option<Seq<char>> {
    match payload {
        Payload::Empty => None,
        Payload::Raw(_) => None,
        Payload::Json(_) => Some("application/json"@),
        Payload::Form(_) => Some("application/x-www-form-urlencoded"@),
        Payload::Xml(_) => Some("application/xml"@),
    }
}

/// The `Content-Type` header to add to a request: that of its payload,
/// unless the request's own headers name one.
pub fn default_content_type(payload: &Payload, headers: &StringMap) -> (added: Option<String>)
    ensures
        match added {
            Some(t) => !names_content_type(headers.listing()) && payload_content_type(*payload)
                == Some(t@),
            None => names_content_type(headers.listing()) || payload_content_type(*payload)
                is None,
        },
{
    let own = match payload {
        Payload::Empty => {
            return None;
        },
        Payload::Raw(_) => {
            return None;
        },
        Payload::Json(_) => "application/json",
        Payload::Form(_) => "application/x-www-form-urlencoded",
        Payload::Xml(_) => "application/xml",
    };
    let entries = headers.entries();
    let mut i: usize = 0;
    while i < entries.len()
        invariant
            i <= entries@.len(),
            entries@ == headers.listing(),
            payload_content_type(*payload) == Some(own@),
            forall|k: int|
                0 <= k < i ==> lowercased((#[trigger] entries@[k]).name@) != "content-type"@,
        decreases entries@.len() - i,
    {
        let lower = to_lowercase(entries[i].name.as_str());
        if same_text(lower.as_str(), "content-type") {
            return None;
        }
        i += 1;
    }
    Some(String::from_str(own))
}


/// The greatest character boundary of `bytes` that is not beyond `at`.
pub open spec fn boundary_below(bytes: Seq<u8>, at: int) -> int
    decreases at,
{
    if at <= 0 {
        0
    } else if is_char_boundary(bytes, at) {
        at
    } else {
        boundary_below(bytes, at - 1)
    }
}

/// What follows a body that was cut short.
pub open spec fn truncation_marker() -> Seq<char> {
    "…[truncated]"@
}

/// The part of a body that an event keeps: nothing of an empty body, the
/// whole of one of at most 4096 bytes, and of a longer one the characters
/// that fit within the first 4096 bytes, followed by the truncation marker.
pub open spec fn preview_of(body: Seq<char>) -> Option<Seq<char>> {
    let bytes = encode_utf8(body);
    if bytes.len() as usize > MAX_RESPONSE_BODY_LEN {
        Some(
            decode_utf8(bytes.subrange(0, boundary_below(bytes, MAX_RESPONSE_BODY_LEN as int)))
                + truncation_marker(),
        )
    } else if body.len() == 0 {
        None
    } else {
        Some(body)
    }
}

/// An executable text stands for the text that the model gives.
pub open spec fn text_is(text: Option<String>, model: Option<Seq<char>>) -> bool {
    match text {
        Some(t) => model == Some(t@),
        None => model is None,
    }
}

/// The part of a response's body that an event keeps.
pub fn body_preview(body: &str) -> (preview: Option<String>)
    ensures
        text_is(preview, preview_of(body@)),
{
    broadcast use {
        encode_utf8_valid_utf8,
        encode_utf8_decode_utf8,
        is_char_boundary_start_end_of_seq,
    };

    let ghost bytes = body.spec_bytes();
    if body.len() > MAX_RESPONSE_BODY_LEN {
        let mut cut: usize = MAX_RESPONSE_BODY_LEN;
        assert(is_char_boundary(bytes, 0));
        while !body.is_char_boundary(cut)
            invariant
                cut <= MAX_RESPONSE_BODY_LEN,
                bytes == body.spec_bytes(),
                bytes == encode_utf8(body@),
                vstd::utf8::valid_utf8(bytes),
                is_char_boundary(bytes, 0),
                boundary_below(bytes, MAX_RESPONSE_BODY_LEN as int) == boundary_below(
                    bytes,
                    cut as int,
                ),
            decreases cut,
        {
            cut -= 1;
        }
        assert(boundary_below(bytes, cut as int) == cut);
        let (head, _) = body.split_at(cut);
        assert(head.spec_bytes() == bytes.subrange(0, cut as int));
        assert(decode_utf8(encode_utf8(head@)) == head@);
        let mut preview = String::from_str(head);
        preview.append("…[truncated]");
        Some(preview)
    } else if body.is_empty() {
        None
    } else {
        Some(String::from_str(body))
    }
}


/// What came back for a request: the status, the raw size of the body, the
/// headers with their names in lower case, and the body as text.
#[derive(Debug, Clone)]
pub struct ResponseData {
    pub status_code: u16,
    pub size_bytes: u64,
    pub headers: StringMap,
    pub body_text: String,
}

/// The variables after the first `upto` extractions were stored: each one
/// that found a value has set its variable, in order; one that found none
/// has changed nothing.
pub open spec fn stored(
    vars: Map<Seq<char>, Seq<char>>,
    results: Seq<ExtractionResult>,
    upto: int,
) -> Map<Seq<char>, Seq<char>>
    decreases upto,
{
    if upto <= 0 {
        vars
    } else {
        let before = stored(vars, results, upto - 1);
        let result = results[upto - 1];
        match result.extracted_value {
            Some(value) => if result.success {
                before.insert(result.variable_name@, value@)
            } else {
                before
            },
            None => before,
        }
    }
}

/// Stores what the extractors found into the variables.
pub fn store_extractions(variables: &mut StringMap, results: &Vec<ExtractionResult>)
    requires
        old(variables).wf(),
    ensures
        final(variables).wf(),
        final(variables)@ == stored(old(variables)@, results@, results@.len() as int),
{
    let mut i: usize = 0;
    while i < results.len()
        invariant
            i <= results@.len(),
            variables.wf(),
            variables@ == stored(old(variables)@, results@, i as int),
        decreases results@.len() - i,
    {
        let result = &results[i];
        if result.success {
            match &result.extracted_value {
                Some(value) => {
                    variables.insert(result.variable_name.clone(), value.clone());
                },
                None => {},
            }
        }
        i += 1;
    }
}

/// The event says what came of `req`, sent as `resolved`, given `outcome`.
pub open spec fn event_fits(
    event: RequestResultEvent,
    req: HttpRequest,
    resolved: ResolvedRequest,
    outcome: Result<ResponseData, String>,
    elapsed_ms: u64,
) -> bool {
    &&& event.request_name@ == req.name@
    &&& event.elapsed_ms == elapsed_ms
    &&& event.method@ == resolved.method.text()
    &&& event.url@ == resolved.url@
    &&& match outcome {
        Ok(data) => {
            &&& event.status_code == data.status_code
            &&& event.size_bytes == data.size_bytes
            &&& event.error is None
            &&& event.assertion_results@.len() == req.assertions@.len()
            &&& forall|i: int|
                0 <= i < req.assertions@.len() ==> result_fits(
                    #[trigger] event.assertion_results@[i],
                    req.assertions@[i],
                    data.status_code,
                    data.headers@,
                    data.body_text@,
                    elapsed_ms,
                )
            &&& event.assertions_passed == all_passed(event.assertion_results@)
            &&& event.extraction_results@.len() == req.extractors@.len()
            &&& forall|i: int|
                0 <= i < req.extractors@.len() ==> extraction_fits(
                    #[trigger] event.extraction_results@[i],
                    req.extractors@[i],
                    data.headers@,
                    data.body_text@,
                )
            &&& event.response_headers@ == data.headers@
            &&& text_is(event.response_body, preview_of(data.body_text@))
        },
        Err(reason) => {
            &&& event.status_code == 0
            &&& event.size_bytes == 0
            &&& !event.assertions_passed
            &&& event.error matches Some(e) && e@ == reason@
            &&& event.assertion_results@.len() == 0
            &&& event.extraction_results@.len() == 0
            &&& event.response_headers@ == Map::<Seq<char>, Seq<char>>::empty()
            &&& event.response_body is None
        },
    }
}

/// Makes the event of one request from what came back for it. Where a
/// response came, its assertions are judged and its extractors applied, and
/// what they found is stored into the variables; where none came, the event
/// holds the reason and the variables stay as they are.
pub fn complete_request(
    req: &HttpRequest,
    resolved: &ResolvedRequest,
    outcome: Result<ResponseData, String>,
    elapsed_ms: u64,
    timestamp_ms: i64,
    plan_id: Uuid,
    thread_group_name: &str,
    variables: &mut StringMap,
) -> (event: RequestResultEvent)
    requires
        old(variables).wf(),
        outcome matches Ok(data) ==> data.headers.wf(),
    ensures
        event.plan_id == plan_id,
        event.thread_group_name@ == thread_group_name@,
        event.timestamp_ms == timestamp_ms,
        event_fits(event, *req, *resolved, outcome, elapsed_ms),
        final(variables).wf(),
        final(variables)@ == (match outcome {
            Ok(_) => stored(
                old(variables)@,
                event.extraction_results@,
                event.extraction_results@.len() as int,
            ),
            Err(_) => old(variables)@,
        }),
{
    let method = resolved.method.to_string();
    let url = resolved.url.clone();
    match outcome {
        Ok(data) => {
            let ctx = ResponseContext {
                status_code: data.status_code,
                headers: &data.headers,
                body: data.body_text.as_str(),
                elapsed_ms,
            };
            let assertion_results = evaluate_assertions(&req.assertions, &ctx);
            let passed = assertions_passed(&assertion_results);
            let ectx = ExtractionContext {
                status_code: data.status_code,
                headers: &data.headers,
                body: data.body_text.as_str(),
            };
            let extraction_results = evaluate_extractors(&req.extractors, &ectx);
            store_extractions(variables, &extraction_results);
            let response_body = body_preview(data.body_text.as_str());
            RequestResultEvent {
                id: fresh_id(),
                plan_id,
                thread_group_name: String::from_str(thread_group_name),
                request_name: req.name.clone(),
                timestamp_ms,
                status_code: data.status_code,
                elapsed_ms,
                size_bytes: data.size_bytes,
                assertions_passed: passed,
                error: None,
                assertion_results,
                extraction_results,
                method,
                url,
                response_headers: data.headers,
                response_body,
            }
        },
        Err(reason) => {
            let empty = StringMap::new();
            RequestResultEvent {
                id: fresh_id(),
                plan_id,
                thread_group_name: String::from_str(thread_group_name),
                request_name: req.name.clone(),
                timestamp_ms,
                status_code: 0,
                elapsed_ms,
                size_bytes: 0,
                assertions_passed: false,
                error: Some(reason),
                assertion_results: Vec::new(),
                extraction_results: Vec::new(),
                method,
                url,
                response_headers: empty,
                response_body: None,
            }
        },
    }
}


/// The headers of a response as the rules read them: the first `upto`
/// headers with their names in lower case; of two with one name the later
/// one stays.
pub open spec fn headers_collected(pairs: Seq<(String, String)>, upto: int) -> Map<
    Seq<char>,
    Seq<char>,
>
    decreases upto,
{
    if upto <= 0 {
        Map::empty()
    } else {
        headers_collected(pairs, upto - 1).insert(lowercased(pairs[upto - 1].0@), pairs[upto - 1].1@)
    }
}

/// Collects the headers of a response, given in their order of arrival,
/// under their names in lower case.
pub fn collect_headers(pairs: &Vec<(String, String)>) -> (headers: StringMap)
    ensures
        headers.wf(),
        headers@ == headers_collected(pairs@, pairs@.len() as int),
{
    let mut headers = StringMap::new();
    let mut i: usize = 0;
    while i < pairs.len()
        invariant
            i <= pairs@.len(),
            headers.wf(),
            headers@ == headers_collected(pairs@, i as int),
        decreases pairs@.len() - i,
    {
        let name = to_lowercase(pairs[i].0.as_str());
        headers.insert(name, pairs[i].1.clone());
        i += 1;
    }
    headers
}

} // verus!
