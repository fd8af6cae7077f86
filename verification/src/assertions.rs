//! The rules that judge a response: each gives a verdict and a message that
//! tells what was seen and what was expected.

use vstd::prelude::*;
use uuid::Uuid;
use crate::json::{
    debug_json, json_debug_text, json_equal, navigate_json_path, navigated, parse_json_text,
    parsed_json, same_json, JsonValue,
};
use crate::plan::model::Assertion;
use crate::string_map::StringMap;
use crate::text::{
    contains_text, decimal, decimal_string, lowercased, join2, join3, join4, join5, join6, join7, quote, quoted,
    same_text, str_contains, to_lowercase,
};

verus! {

/// A rule that a response is held against.
#[derive(Debug)]
#[allow(inconsistent_fields)]
pub enum AssertionRule {
    /// The status code is `expected`.
    StatusCodeEquals { expected: u16 },
    /// The status code is not `not_expected`.
    StatusCodeNotEquals { not_expected: u16 },
    /// The status code lies within `min ..= max`.
    StatusCodeRange { min: u16, max: u16 },
    /// The body holds `substring`.
    BodyContains { substring: String },
    /// The body does not hold `substring`.
    BodyNotContains { substring: String },
    /// The body is JSON, and the dotted path `expression` leads to `expected`.
    JsonPath { expression: String, expected: JsonValue },
    /// The response took less than `threshold_ms` milliseconds.
    ResponseTimeBelow { threshold_ms: u64 },
    /// The header `header` is there and is `expected`.
    HeaderEquals { header: String, expected: String },
    /// The header `header` is there and holds `substring`.
    HeaderContains { header: String, substring: String },
}

/// The verdict of one rule on one response.
#[derive(Debug, Clone)]
pub struct AssertionResult {
    pub assertion_id: Uuid,
    pub assertion_name: String,
    pub passed: bool,
    pub message: String,
}

/// What the rules read of a response.
pub struct ResponseContext<'a> {
    pub status_code: u16,
    pub headers: &'a StringMap,
    pub body: &'a str,
    pub elapsed_ms: u64,
}

/// A verdict with its message.
pub struct Verdict {
    pub passed: bool,
    pub message: Seq<char>,
}

/// The verdict on a status code that must be `expected`.
pub open spec fn status_equals_verdict(status: u16, expected: u16) -> Verdict {
    if status == expected {
        Verdict {
            passed: true,
            message: "Status code "@ + decimal(status as nat) + " matches expected "@ + decimal(
                expected as nat,
            ),
        }
    } else {
        Verdict {
            passed: false,
            message: "Expected status "@ + decimal(expected as nat) + ", got "@ + decimal(
                status as nat,
            ),
        }
    }
}

/// The verdict on a status code that must not be `not_expected`.
pub open spec fn status_not_equals_verdict(status: u16, not_expected: u16) -> Verdict {
    if status != not_expected {
        Verdict {
            passed: true,
            message: "Status code "@ + decimal(status as nat) + " is not "@ + decimal(
                not_expected as nat,
            ),
        }
    } else {
        Verdict {
            passed: false,
            message: "Status code "@ + decimal(status as nat) + " should not be "@ + decimal(
                not_expected as nat,
            ),
        }
    }
}

/// The verdict on a status code that must lie within `min ..= max`.
pub open spec fn status_range_verdict(status: u16, min: u16, max: u16) -> Verdict {
    let passed = min <= status <= max;
    Verdict {
        passed,
        message: "Status "@ + decimal(status as nat) + (if passed {
            " is within range ["@
        } else {
            " is outside range ["@
        }) + decimal(min as nat) + ", "@ + decimal(max as nat) + "]"@,
    }
}

/// The verdict on a body that must hold `substring`.
pub open spec fn body_contains_verdict(body: Seq<char>, substring: Seq<char>) -> Verdict {
    if contains_text(body, substring) {
        Verdict { passed: true, message: "Body contains "@ + quoted(substring) }
    } else {
        Verdict { passed: false, message: "Body does not contain "@ + quoted(substring) }
    }
}

/// The verdict on a body that must not hold `substring`.
pub open spec fn body_not_contains_verdict(body: Seq<char>, substring: Seq<char>) -> Verdict {
    if !contains_text(body, substring) {
        Verdict { passed: true, message: "Body does not contain "@ + quoted(substring) }
    } else {
        Verdict { passed: false, message: "Body unexpectedly contains "@ + quoted(substring) }
    }
}

/// The verdict on a body, read as JSON, in which `expression` must lead to
/// `expected`.
pub open spec fn json_path_verdict(
    parsed: Result<JsonValue, String>,
    expression: Seq<char>,
    expected: JsonValue,
) -> Verdict {
    match parsed {
        Ok(json) => match navigated(json, expression) {
            Some(value) => if same_json(value, expected) {
                Verdict {
                    passed: true,
                    message: "JSON path "@ + quoted(expression) + " equals "@ + json_debug_text(
                        expected,
                    ),
                }
            } else {
                Verdict {
                    passed: false,
                    message: "JSON path "@ + quoted(expression) + " expected "@
                        + json_debug_text(expected) + ", got "@ + json_debug_text(value),
                }
            },
            None => Verdict {
                passed: false,
                message: "JSON path "@ + quoted(expression) + " not found in response"@,
            },
        },
        Err(e) => Verdict { passed: false, message: "Failed to parse response as JSON: "@ + e@ },
    }
}

/// The verdict on a response time that must be below `threshold_ms`.
pub open spec fn response_time_verdict(elapsed_ms: u64, threshold_ms: u64) -> Verdict {
    let passed = elapsed_ms < threshold_ms;
    Verdict {
        passed,
        message: "Response time "@ + decimal(elapsed_ms as nat) + (if passed {
            " ms < "@
        } else {
            " ms exceeds "@
        }) + decimal(threshold_ms as nat) + " ms threshold"@,
    }
}

/// The message for a header that the response does not have.
pub open spec fn header_missing_message(header: Seq<char>) -> Seq<char> {
    "Header "@ + quoted(header) + " not found in response"@
}

/// The verdict on a header that must be there and be `expected`. The
/// header is looked up under its name in lower case, as the headers of a
/// response are kept; the message shows the name as the rule writes it.
pub open spec fn header_equals_verdict(
    headers: Map<Seq<char>, Seq<char>>,
    header: Seq<char>,
    expected: Seq<char>,
) -> Verdict {
    let key = lowercased(header);
    if !headers.contains_key(key) {
        Verdict { passed: false, message: header_missing_message(header) }
    } else if headers[key] == expected {
        Verdict {
            passed: true,
            message: "Header "@ + quoted(header) + " equals "@ + quoted(expected),
        }
    } else {
        Verdict {
            passed: false,
            message: "Header "@ + quoted(header) + " expected "@ + quoted(expected) + ", got "@
                + quoted(headers[key]),
        }
    }
}

/// The verdict on a header that must be there and hold `substring`. The
/// header is looked up under its name in lower case, as the headers of a
/// response are kept; the message shows the name as the rule writes it.
pub open spec fn header_contains_verdict(
    headers: Map<Seq<char>, Seq<char>>,
    header: Seq<char>,
    substring: Seq<char>,
) -> Verdict {
    let key = lowercased(header);
    if !headers.contains_key(key) {
        Verdict { passed: false, message: header_missing_message(header) }
    } else if contains_text(headers[key], substring) {
        Verdict {
            passed: true,
            message: "Header "@ + quoted(header) + " contains "@ + quoted(substring),
        }
    } else {
        Verdict {
            passed: false,
            message: "Header "@ + quoted(header) + " value "@ + quoted(headers[key])
                + " does not contain "@ + quoted(substring),
        }
    }
}

/// The verdict of `rule` on a response, given what the body is as JSON.
pub open spec fn verdict_of(
    rule: AssertionRule,
    status: u16,
    headers: Map<Seq<char>, Seq<char>>,
    body: Seq<char>,
    elapsed_ms: u64,
    parsed: Result<JsonValue, String>,
) -> Verdict {
    match rule {
        AssertionRule::StatusCodeEquals { expected } => status_equals_verdict(status, expected),
        AssertionRule::StatusCodeNotEquals { not_expected } => status_not_equals_verdict(
            status,
            not_expected,
        ),
        AssertionRule::StatusCodeRange { min, max } => status_range_verdict(status, min, max),
        AssertionRule::BodyContains { substring } => body_contains_verdict(body, substring@),
        AssertionRule::BodyNotContains { substring } => body_not_contains_verdict(
            body,
            substring@,
        ),
        AssertionRule::JsonPath { expression, expected } => json_path_verdict(
            parsed,
            expression@,
            expected,
        ),
        AssertionRule::ResponseTimeBelow { threshold_ms } => response_time_verdict(
            elapsed_ms,
            threshold_ms,
        ),
        AssertionRule::HeaderEquals { header, expected } => header_equals_verdict(
            headers,
            header@,
            expected@,
        ),
        AssertionRule::HeaderContains { header, substring } => header_contains_verdict(
            headers,
            header@,
            substring@,
        ),
    }
}

/// An executable verdict says what the model says.
pub open spec fn says(result: (bool, String), verdict: Verdict) -> bool {
    result.0 == verdict.passed && result.1@ == verdict.message
}

/// Judges a body, read as JSON into `parsed`, by the path `expression` and
/// the value `expected` that it must lead to.
pub fn judge_json_path(
    parsed: &Result<JsonValue, String>,
    expression: &str,
    expected: &JsonValue,
) -> (result: (bool, String))
    ensures
        says(result, json_path_verdict(*parsed, expression@, *expected)),
{
    match parsed {
        Ok(json) => match navigate_json_path(json, expression) {
            Some(value) => {
                let path = quote(expression);
                let want = debug_json(expected);
                if json_equal(value, expected) {
                    (true, join4("JSON path ", path.as_str(), " equals ", want.as_str()))
                } else {
                    let got = debug_json(value);
                    (
                        false,
                        join6(
                            "JSON path ",
                            path.as_str(),
                            " expected ",
                            want.as_str(),
                            ", got ",
                            got.as_str(),
                        ),
                    )
                }
            },
            None => {
                let path = quote(expression);
                (false, join3("JSON path ", path.as_str(), " not found in response"))
            },
        },
        Err(e) => (false, join2("Failed to parse response as JSON: ", e.as_str())),
    }
}

/// Judges a response by one rule. Returns the verdict and a message that
/// tells what was seen and what was expected.
pub fn evaluate_assertion(rule: &AssertionRule, ctx: &ResponseContext) -> (result: (bool, String))
    requires
        ctx.headers.wf(),
    ensures
        says(
            result,
            verdict_of(
                *rule,
                ctx.status_code,
                ctx.headers@,
                ctx.body@,
                ctx.elapsed_ms,
                parsed_json(ctx.body@),
            ),
        ),
{
    match rule {
        AssertionRule::StatusCodeEquals { expected } => {
            let seen = decimal_string(ctx.status_code as u64);
            let want = decimal_string(*expected as u64);
            if ctx.status_code == *expected {
                (true, join4("Status code ", seen.as_str(), " matches expected ", want.as_str()))
            } else {
                (false, join4("Expected status ", want.as_str(), ", got ", seen.as_str()))
            }
        },
        AssertionRule::StatusCodeNotEquals { not_expected } => {
            let seen = decimal_string(ctx.status_code as u64);
            let unwanted = decimal_string(*not_expected as u64);
            if ctx.status_code != *not_expected {
                (true, join4("Status code ", seen.as_str(), " is not ", unwanted.as_str()))
            } else {
                (false, join4("Status code ", seen.as_str(), " should not be ", unwanted.as_str()))
            }
        },
        AssertionRule::StatusCodeRange { min, max } => {
            let seen = decimal_string(ctx.status_code as u64);
            let low = decimal_string(*min as u64);
            let high = decimal_string(*max as u64);
            let passed = ctx.status_code >= *min && ctx.status_code <= *max;
            let relation = if passed {
                " is within range ["
            } else {
                " is outside range ["
            };
            (
                passed,
                join7("Status ", seen.as_str(), relation, low.as_str(), ", ", high.as_str(), "]"),
            )
        },
        AssertionRule::BodyContains { substring } => {
            let what = quote(substring.as_str());
            if str_contains(ctx.body, substring.as_str()) {
                (true, join2("Body contains ", what.as_str()))
            } else {
                (false, join2("Body does not contain ", what.as_str()))
            }
        },
        AssertionRule::BodyNotContains { substring } => {
            let what = quote(substring.as_str());
            if !str_contains(ctx.body, substring.as_str()) {
                (true, join2("Body does not contain ", what.as_str()))
            } else {
                (false, join2("Body unexpectedly contains ", what.as_str()))
            }
        },
        AssertionRule::JsonPath { expression, expected } => {
            let parsed = parse_json_text(ctx.body);
            judge_json_path(&parsed, expression.as_str(), expected)
        },
        AssertionRule::ResponseTimeBelow { threshold_ms } => {
            let seen = decimal_string(ctx.elapsed_ms);
            let limit = decimal_string(*threshold_ms);
            let passed = ctx.elapsed_ms < *threshold_ms;
            let relation = if passed {
                " ms < "
            } else {
                " ms exceeds "
            };
            (
                passed,
                join5("Response time ", seen.as_str(), relation, limit.as_str(), " ms threshold"),
            )
        },
        AssertionRule::HeaderEquals { header, expected } => {
            let name = quote(header.as_str());
            let key = to_lowercase(header.as_str());
            match ctx.headers.get(key.as_str()) {
                Some(value) => {
                    let want = quote(expected.as_str());
                    if same_text(value.as_str(), expected.as_str()) {
                        (true, join4("Header ", name.as_str(), " equals ", want.as_str()))
                    } else {
                        let got = quote(value.as_str());
                        (
                            false,
                            join6(
                                "Header ",
                                name.as_str(),
                                " expected ",
                                want.as_str(),
                                ", got ",
                                got.as_str(),
                            ),
                        )
                    }
                },
                None => (false, join3("Header ", name.as_str(), " not found in response")),
            }
        },
        AssertionRule::HeaderContains { header, substring } => {
            let name = quote(header.as_str());
            let key = to_lowercase(header.as_str());
            match ctx.headers.get(key.as_str()) {
                Some(value) => {
                    let part = quote(substring.as_str());
                    if str_contains(value.as_str(), substring.as_str()) {
                        (true, join4("Header ", name.as_str(), " contains ", part.as_str()))
                    } else {
                        let got = quote(value.as_str());
                        (
                            false,
                            join6(
                                "Header ",
                                name.as_str(),
                                " value ",
                                got.as_str(),
                                " does not contain ",
                                part.as_str(),
                            ),
                        )
                    }
                },
                None => (false, join3("Header ", name.as_str(), " not found in response")),
            }
        },
    }
}


/// The verdict on a rule as a plan holds it: that of the rule, or a failure
/// that tells why the rule could not be read.
pub open spec fn planned_verdict(
    rule: Result<AssertionRule, String>,
    status: u16,
    headers: Map<Seq<char>, Seq<char>>,
    body: Seq<char>,
    elapsed_ms: u64,
    parsed: Result<JsonValue, String>,
) -> Verdict {
    match rule {
        Ok(r) => verdict_of(r, status, headers, body, elapsed_ms, parsed),
        Err(e) => Verdict { passed: false, message: "Invalid assertion rule: "@ + e@ },
    }
}

/// A result is the one that `assertion` earns on a response with the given
/// status, headers, body and response time.
pub open spec fn result_fits(
    result: AssertionResult,
    assertion: Assertion,
    status: u16,
    headers: Map<Seq<char>, Seq<char>>,
    body: Seq<char>,
    elapsed_ms: u64,
) -> bool {
    let verdict = planned_verdict(
        assertion.rule,
        status,
        headers,
        body,
        elapsed_ms,
        parsed_json(body),
    );
    &&& result.assertion_id == assertion.id
    &&& result.assertion_name@ == assertion.name@
    &&& result.passed == verdict.passed
    &&& result.message@ == verdict.message
}

/// Judges a response by every rule of a request, in order. A rule that could
/// not be read fails, and the rules after it are judged all the same.
pub fn evaluate_all(assertions: &Vec<Assertion>, ctx: &ResponseContext) -> (results: Vec<
    AssertionResult,
>)
    requires
        ctx.headers.wf(),
    ensures
        results@.len() == assertions@.len(),
        forall|i: int|
            0 <= i < assertions@.len() ==> result_fits(
                #[trigger] results@[i],
                assertions@[i],
                ctx.status_code,
                ctx.headers@,
                ctx.body@,
                ctx.elapsed_ms,
            ),
{
    let mut results: Vec<AssertionResult> = Vec::new();
    let mut i: usize = 0;
    while i < assertions.len()
        invariant
            i <= assertions@.len(),
            ctx.headers.wf(),
            results@.len() == i,
            forall|k: int|
                0 <= k < i ==> result_fits(
                    #[trigger] results@[k],
                    assertions@[k],
                    ctx.status_code,
                    ctx.headers@,
                    ctx.body@,
                    ctx.elapsed_ms,
                ),
        decreases assertions@.len() - i,
    {
        let assertion = &assertions[i];
        let (passed, message) = match &assertion.rule {
            Ok(rule) => evaluate_assertion(rule, ctx),
            Err(e) => (false, join2("Invalid assertion rule: ", e.as_str())),
        };
        results.push(
            AssertionResult {
                assertion_id: assertion.id,
                assertion_name: assertion.name.clone(),
                passed,
                message,
            },
        );
        i += 1;
    }
    results
}

/// Whether every result passed; true of no results.
pub open spec fn all_passed(results: Seq<AssertionResult>) -> bool {
    forall|i: int| 0 <= i < results.len() ==> (#[trigger] results[i]).passed
}

/// Whether every rule passed: true where there was none.
pub fn assertions_passed(results: &Vec<AssertionResult>) -> (passed: bool)
    ensures
        passed == all_passed(results@),
{
    let mut i: usize = 0;
    while i < results.len()
        invariant
            i <= results@.len(),
            forall|k: int| 0 <= k < i ==> (#[trigger] results@[k]).passed,
        decreases results@.len() - i,
    {
        if !results[i].passed {
            return false;
        }
        i += 1;
    }
    true
}

/// A response time passes a threshold only where it is below it: one that
/// equals the threshold fails.
pub proof fn lemma_response_time_is_strict(elapsed_ms: u64, threshold_ms: u64)
    ensures
        response_time_verdict(elapsed_ms, threshold_ms).passed <==> elapsed_ms < threshold_ms,
        !response_time_verdict(threshold_ms, threshold_ms).passed,
{
}

/// A status range holds both its ends.
pub proof fn lemma_status_range_is_inclusive(status: u16, min: u16, max: u16)
    ensures
        status_range_verdict(status, min, max).passed <==> min <= status <= max,
        min <= max ==> status_range_verdict(min, min, max).passed && status_range_verdict(
            max,
            min,
            max,
        ).passed,
{
}


/// A rule on a header passes under the header's name as written exactly
/// where it passes under the name in lower case: where the headers hold the
/// lower-case name with what the rule asks for. The case of the letters in
/// the rule's name does not matter, given that a name in lower case is its
/// own lower-case form.
pub proof fn lemma_header_rule_in_lower_case(
    headers: Map<Seq<char>, Seq<char>>,
    header: Seq<char>,
    expected: Seq<char>,
)
    requires
        lowercased(lowercased(header)) == lowercased(header),
    ensures
        header_equals_verdict(headers, header, expected).passed == header_equals_verdict(
            headers,
            lowercased(header),
            expected,
        ).passed,
        header_equals_verdict(headers, header, expected).passed == (headers.contains_key(
            lowercased(header),
        ) && headers[lowercased(header)] == expected),
        header_contains_verdict(headers, header, expected).passed == header_contains_verdict(
            headers,
            lowercased(header),
            expected,
        ).passed,
        header_contains_verdict(headers, header, expected).passed == (headers.contains_key(
            lowercased(header),
        ) && contains_text(headers[lowercased(header)], expected)),
{
}

} // verus!
