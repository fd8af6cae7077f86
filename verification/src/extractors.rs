//! Values taken out of a response, and the variables that requests are
//! written with.

use vstd::prelude::*;
use uuid::Uuid;
use crate::json::{
    json_text, navigate_json_path, navigated, parse_json_text, parsed_json, render_json,
    JsonValue,
};
use crate::plan::model::Extractor;
use crate::string_map::StringMap;
use crate::text::{
    chars_of, decimal, decimal_string, join2, join3, join4, join6, lowercased, quote, quoted,
    to_lowercase,
};
use vstd::string::StringExecFns;

verus! {

/// A rule that takes a value out of a response.
#[derive(Debug, Clone)]
pub enum ExtractorRule {
    /// The value that the dotted path `expression` leads to in the body,
    /// read as JSON.
    JsonPath { expression: String },
    /// What group `group` of the first match of `pattern` in the body holds;
    /// group 0 is the whole match.
    Regex { pattern: String, group: u32 },
    /// The value of the header `name`, whatever the case of its letters.
    Header { name: String },
}

/// A placeholder as it is written: `${`, the name, `}`.
pub open spec fn placeholder(name: Seq<char>) -> Seq<char> {
    seq!['$', '{'] + name + seq!['}']
}

/// `input` with each placeholder `${name}` replaced, from left to right, by
/// the value of `name`. A placeholder whose name has no value stays as it
/// is, and so does what follows a `${` that is never closed.
#[verifier::opaque]
pub open spec fn substituted(input: Seq<char>, vars: Map<Seq<char>, Seq<char>>) -> Seq<char>
    decreases input.len(),
{
    if input.len() == 0 {
        input
    } else if input[0] == '$' && input.len() > 1 && input[1] == '{' {
        let rest = input.skip(2);
        match rest.index_of_first('}') {
            Some(close) => {
                if 0 <= close < rest.len() {
                    let name = rest.take(close);
                    let value = if vars.contains_key(name) {
                        vars[name]
                    } else {
                        placeholder(name)
                    };
                    value + substituted(rest.skip(close + 1), vars)
                } else {
                    input
                }
            },
            None => input,
        }
    } else {
        seq![input[0]] + substituted(input.skip(1), vars)
    }
}

/// Whether `${` stands somewhere in `input`.
pub open spec fn has_placeholder_start(input: Seq<char>) -> bool {
    exists|i: int| 0 <= i < input.len() - 1 && input[i] == '$' && #[trigger] input[i + 1] == '{'
}

/// A string without `${` is unchanged, whatever the variables hold.
pub proof fn lemma_substitution_without_placeholder(
    input: Seq<char>,
    vars: Map<Seq<char>, Seq<char>>,
)
    requires
        !has_placeholder_start(input),
    ensures
        substituted(input, vars) == input,
    decreases input.len(),
{
    reveal(substituted);
    if input.len() > 0 {
        if input.len() > 1 && input[0] == '$' {
            assert(input[0int + 1] != '{');
        }
        let rest = input.skip(1);
        assert(!has_placeholder_start(rest)) by {
            if has_placeholder_start(rest) {
                let i = choose|i: int|
                    0 <= i < rest.len() - 1 && rest[i] == '$' && #[trigger] rest[i + 1] == '{';
                assert(input[i + 1] == '$' && input[(i + 1) + 1] == '{');
            }
        }
        lemma_substitution_without_placeholder(rest, vars);
        assert(seq![input[0]] + rest =~= input);
    }
}

/// With no variable set, every string is unchanged.
pub proof fn lemma_substitution_with_empty_store(input: Seq<char>)
    ensures
        substituted(input, Map::<Seq<char>, Seq<char>>::empty()) == input,
    decreases input.len(),
{
    reveal(substituted);
    let vars = Map::<Seq<char>, Seq<char>>::empty();
    if input.len() > 0 {
        if input[0] == '$' && input.len() > 1 && input[1] == '{' {
            let rest = input.skip(2);
            rest.index_of_first_ensures('}');
            match rest.index_of_first('}') {
                Some(close) => {
                    let name = rest.take(close);
                    let tail = rest.skip(close + 1);
                    lemma_substitution_with_empty_store(tail);
                    assert(placeholder(name) + tail =~= input);
                },
                None => {},
            }
        } else {
            let rest = input.skip(1);
            lemma_substitution_with_empty_store(rest);
            assert(seq![input[0]] + rest =~= input);
        }
    }
}

/// Nothing is left of the empty string.
proof fn lemma_step_end(vars: Map<Seq<char>, Seq<char>>)
    ensures
        substituted(Seq::<char>::empty(), vars) == Seq::<char>::empty(),
{
    reveal(substituted);
}

/// One character that opens no placeholder is copied.
proof fn lemma_step_plain(here: Seq<char>, vars: Map<Seq<char>, Seq<char>>)
    requires
        here.len() > 0,
        !(here[0] == '$' && here.len() > 1 && here[1] == '{'),
    ensures
        substituted(here, vars) == seq![here[0]] + substituted(here.skip(1), vars),
{
    reveal(substituted);
}

/// A placeholder closed at `k` gives its value, or itself, and the rest
/// follows.
proof fn lemma_step_closed(here: Seq<char>, vars: Map<Seq<char>, Seq<char>>, k: int)
    requires
        here.len() > 1,
        here[0] == '$',
        here[1] == '{',
        0 <= k < here.len() - 2,
        here[k + 2] == '}',
        forall|m: int| 2 <= m < k + 2 ==> here[m] != '}',
    ensures
        substituted(here, vars) == (if vars.contains_key(here.subrange(2, k + 2)) {
            vars[here.subrange(2, k + 2)]
        } else {
            placeholder(here.subrange(2, k + 2))
        }) + substituted(here.skip(k + 3), vars),
{
    reveal(substituted);
    let rest = here.skip(2);
    rest.index_of_first_ensures('}');
    assert(rest[k] == '}');
    assert(rest.contains('}'));
    let close = rest.index_of_first('}')->0;
    assert(close == k) by {
        if close < k {
            assert(here[close + 2] != '}');
        }
    }
    assert(rest.take(k) =~= here.subrange(2, k + 2));
    assert(rest.skip(k + 1) =~= here.skip(k + 3));
}

/// What follows a `${` that is never closed stays as it is.
proof fn lemma_step_unclosed(here: Seq<char>, vars: Map<Seq<char>, Seq<char>>)
    requires
        here.len() > 1,
        here[0] == '$',
        here[1] == '{',
        forall|m: int| 2 <= m < here.len() ==> here[m] != '}',
    ensures
        substituted(here, vars) == here,
{
    reveal(substituted);
    let rest = here.skip(2);
    rest.index_of_first_ensures('}');
    assert(!rest.contains('}')) by {
        if rest.contains('}') {
            let m = choose|m: int| 0 <= m < rest.len() && rest[m] == '}';
            assert(here[m + 2] != '}');
        }
    }
}

/// Reads the name of a placeholder from `start` up to the next `}` or the
/// end of `chars`; returns the name and the place where it stopped.
fn read_name(chars: &Vec<char>, start: usize) -> (found: (String, usize))
    requires
        start <= chars@.len(),
    ensures
        start <= found.1 <= chars@.len(),
        found.0@ == chars@.subrange(start as int, found.1 as int),
        forall|m: int| start <= m < found.1 ==> chars@[m] != '}',
        found.1 < chars@.len() ==> chars@[found.1 as int] == '}',
{
    let n = chars.len();
    let mut name = String::new();
    let mut j: usize = start;
    assert(chars@.subrange(start as int, j as int) =~= Seq::<char>::empty());
    while j < n && chars[j] != '}'
        invariant
            n == chars@.len(),
            start <= j <= n,
            name@ == chars@.subrange(start as int, j as int),
            forall|m: int| start <= m < j ==> chars@[m] != '}',
        decreases n - j,
    {
        name.push(chars[j]);
        assert(chars@.subrange(start as int, j + 1) =~= chars@.subrange(
            start as int,
            j as int,
        ).push(chars@[j as int]));
        j += 1;
    }
    (name, j)
}

/// Replaces every placeholder `${name}` in `input` by the value that
/// `variables` holds for `name`; one whose name has no value stays as it is.
#[verifier::rlimit(40)]
pub fn substitute_variables(input: &str, variables: &StringMap) -> (output: String)
    requires
        variables.wf(),
    ensures
        output@ == substituted(input@, variables@),
{
    let chars = chars_of(input);
    let n = chars.len();
    let mut output = String::new();
    let mut i: usize = 0;
    assert(chars@.skip(0) =~= chars@);
    while i < n
        invariant
            n == chars@.len(),
            chars@ == input@,
            i <= n,
            variables.wf(),
            output@ + substituted(chars@.skip(i as int), variables@) == substituted(
                chars@,
                variables@,
            ),
        decreases n - i,
    {
        let ghost here = chars@.skip(i as int);
        let ghost done = output@;
        let ghost all = substituted(chars@, variables@);
        if chars[i] == '$' && i + 1 < n && chars[i + 1] == '{' {
            let (name, j) = read_name(&chars, i + 2);
            assert(name@ =~= here.subrange(2, j - i));
            if j < n {
                let ghost tail = substituted(chars@.skip(j + 1), variables@);
                proof {
                    lemma_step_closed(here, variables@, j - i - 2);
                    assert(here.skip(j - i + 1) =~= chars@.skip(j + 1));
                }
                match variables.get(name.as_str()) {
                    Some(value) => {
                        output.append(value.as_str());
                        assert(output@ + tail =~= done + (variables@[name@] + tail));
                    },
                    None => {
                        output.push('$');
                        output.push('{');
                        output.append(name.as_str());
                        output.push('}');
                        assert(output@ =~= done + placeholder(name@));
                        assert(output@ + tail =~= done + (placeholder(name@) + tail));
                    },
                }
                i = j + 1;
            } else {
                proof {
                    lemma_step_unclosed(here, variables@);
                }
                output.push('$');
                output.push('{');
                output.append(name.as_str());
                proof {
                    assert(output@ =~= done + here);
                    assert(chars@.skip(n as int) =~= Seq::<char>::empty());
                    lemma_step_end(variables@);
                    assert(output@ + Seq::<char>::empty() =~= output@);
                }
                i = n;
            }
        } else {
            let ghost tail = substituted(chars@.skip(i + 1), variables@);
            output.push(chars[i]);
            proof {
                lemma_step_plain(here, variables@);
                assert(here.skip(1) =~= chars@.skip(i + 1));
                assert(output@ + tail =~= done + (seq![here[0]] + tail));
            }
            i += 1;
        }
    }
    proof {
        assert(chars@.skip(n as int) =~= Seq::<char>::empty());
        lemma_step_end(variables@);
        assert(output@ + Seq::<char>::empty() =~= output@);
    }
    output
}


/// What came of one extractor on one response.
#[derive(Debug, Clone)]
pub struct ExtractionResult {
    pub extractor_id: Uuid,
    pub extractor_name: String,
    /// The variable that the value was meant for.
    pub variable_name: String,
    pub success: bool,
    /// The value, where one was found.
    pub extracted_value: Option<String>,
    pub message: String,
}

/// What the extractors read of a response.
pub struct ExtractionContext<'a> {
    pub status_code: u16,
    pub headers: &'a StringMap,
    pub body: &'a str,
}

/// What a regular expression makes of a text.
#[derive(Debug, Clone)]
pub enum RegexOutcome {
    /// The pattern is no regular expression; the reason is held.
    Invalid(String),
    /// The pattern matches nowhere.
    NoMatch,
    /// The pattern matches, and the group asked for is not in the match.
    NoGroup,
    /// What the group holds in the first match.
    Captured(String),
}

/// What the `regex` crate makes of `pattern` on `text` for group `group`:
/// `Regex::new`, then `Regex::captures`, then `Captures::get`.
pub uninterp spec fn regex_outcome(pattern: Seq<char>, text: Seq<char>, group: nat) -> RegexOutcome;

/// `Regex::new`, `Regex::captures` and `Captures::get` of the `regex` crate,
/// one after the other: the error's message where the pattern does not
/// compile, else whether the pattern matches and what the group holds in the
/// first match. The outcome depends on the pattern, the text and the group
/// alone.
#[verifier::external_body]
pub(crate) fn regex_capture(pattern: &str, text: &str, group: usize) -> (outcome: RegexOutcome)
    ensures
        outcome == regex_outcome(pattern@, text@, group as nat),
{
    match regex::Regex::new(pattern) {
        Err(e) => RegexOutcome::Invalid(e.to_string()),
        Ok(re) => match re.captures(text) {
            None => RegexOutcome::NoMatch,
            Some(caps) => match caps.get(group) {
                None => RegexOutcome::NoGroup,
                Some(m) => RegexOutcome::Captured(m.as_str().to_string()),
            },
        },
    }
}

/// A JSON value as a variable holds it: a string without its quotes, a
/// number, `true`, `false` or `null` as written, anything else as compact
/// JSON.
pub open spec fn plain_text(value: JsonValue) -> Seq<char> {
    match value {
        JsonValue::String(s) => s@,
        JsonValue::Number(n) => n@,
        JsonValue::Bool(b) => if b {
            "true"@
        } else {
            "false"@
        },
        JsonValue::Null => "null"@,
        _ => json_text(value),
    }
}

/// Writes a JSON value as a variable holds it.
pub fn json_value_to_string(value: &JsonValue) -> (text: String)
    ensures
        text@ == plain_text(*value),
{
    match value {
        JsonValue::String(s) => s.clone(),
        JsonValue::Number(n) => n.clone(),
        JsonValue::Bool(b) => if *b {
            String::from_str("true")
        } else {
            String::from_str("false")
        },
        JsonValue::Null => String::from_str("null"),
        _ => render_json(value),
    }
}

/// What an extractor found, with its message.
pub struct Extraction {
    pub success: bool,
    pub value: Option<Seq<char>>,
    pub message: Seq<char>,
}

/// What the path `expression` takes out of a body, read as JSON.
pub open spec fn json_path_extraction(
    parsed: Result<JsonValue, String>,
    expression: Seq<char>,
) -> Extraction {
    match parsed {
        Ok(json) => match navigated(json, expression) {
            Some(value) => Extraction {
                success: true,
                value: Some(plain_text(value)),
                message: "JSON path "@ + quoted(expression) + " extracted "@ + quoted(
                    plain_text(value),
                ),
            },
            None => Extraction {
                success: false,
                value: None,
                message: "JSON path "@ + quoted(expression) + " not found in response body"@,
            },
        },
        Err(e) => Extraction {
            success: false,
            value: None,
            message: "Failed to parse response body as JSON: "@ + e@,
        },
    }
}

/// What a regular expression takes out of a body, given what it made of it.
pub open spec fn regex_extraction(outcome: RegexOutcome, pattern: Seq<char>, group: u32) -> Extraction {
    match outcome {
        RegexOutcome::Captured(found) => Extraction {
            success: true,
            value: Some(found@),
            message: "Regex "@ + quoted(pattern) + " group "@ + decimal(group as nat)
                + " extracted "@ + quoted(found@),
        },
        RegexOutcome::NoGroup => Extraction {
            success: false,
            value: None,
            message: "Regex "@ + quoted(pattern) + " matched but group "@ + decimal(group as nat)
                + " does not exist"@,
        },
        RegexOutcome::NoMatch => Extraction {
            success: false,
            value: None,
            message: "Regex "@ + quoted(pattern) + " did not match the response body"@,
        },
        RegexOutcome::Invalid(e) => Extraction {
            success: false,
            value: None,
            message: "Invalid regex pattern "@ + quoted(pattern) + ": "@ + e@,
        },
    }
}

/// The value of the header `name`, looked up by its lower-case form.
pub open spec fn header_extraction(headers: Map<Seq<char>, Seq<char>>, name: Seq<char>) -> Extraction {
    let key = lowercased(name);
    if headers.contains_key(key) {
        Extraction {
            success: true,
            value: Some(headers[key]),
            message: "Header "@ + quoted(name) + " extracted "@ + quoted(headers[key]),
        }
    } else {
        Extraction {
            success: false,
            value: None,
            message: "Header "@ + quoted(name) + " not found in response"@,
        }
    }
}

/// What `rule` takes out of a response, given what the body is as JSON and
/// what the rule's pattern makes of the body.
pub open spec fn extraction_of(
    rule: ExtractorRule,
    headers: Map<Seq<char>, Seq<char>>,
    body: Seq<char>,
) -> Extraction {
    match rule {
        ExtractorRule::JsonPath { expression } => json_path_extraction(
            parsed_json(body),
            expression@,
        ),
        ExtractorRule::Regex { pattern, group } => regex_extraction(
            regex_outcome(pattern@, body, group as nat),
            pattern@,
            group,
        ),
        ExtractorRule::Header { name } => header_extraction(headers, name@),
    }
}

/// An executable extraction says what the model says.
pub open spec fn yields(result: (bool, Option<String>, String), extraction: Extraction) -> bool {
    &&& result.0 == extraction.success
    &&& match result.1 {
        Some(v) => extraction.value == Some(v@),
        None => extraction.value is None,
    }
    &&& result.2@ == extraction.message
}

/// Takes the value at the path `expression` out of a body, read as JSON
/// into `parsed`.
pub fn extract_json_path(parsed: &Result<JsonValue, String>, expression: &str) -> (result: (
    bool,
    Option<String>,
    String,
))
    ensures
        yields(result, json_path_extraction(*parsed, expression@)),
{
    let path = quote(expression);
    match parsed {
        Ok(json) => match navigate_json_path(json, expression) {
            Some(value) => {
                let extracted = json_value_to_string(value);
                let shown = quote(extracted.as_str());
                let message = join4("JSON path ", path.as_str(), " extracted ", shown.as_str());
                (true, Some(extracted), message)
            },
            None => (
                false,
                None,
                join3("JSON path ", path.as_str(), " not found in response body"),
            ),
        },
        Err(e) => (false, None, join2("Failed to parse response body as JSON: ", e.as_str())),
    }
}

/// Takes out of a body what group `group` of `pattern` holds, given what
/// the pattern made of the body.
pub fn extract_regex(outcome: RegexOutcome, pattern: &str, group: u32) -> (result: (
    bool,
    Option<String>,
    String,
))
    ensures
        yields(result, regex_extraction(outcome, pattern@, group)),
{
    let shown_pattern = quote(pattern);
    match outcome {
        RegexOutcome::Captured(found) => {
            let number = decimal_string(group as u64);
            let shown = quote(found.as_str());
            let message = join6(
                "Regex ",
                shown_pattern.as_str(),
                " group ",
                number.as_str(),
                " extracted ",
                shown.as_str(),
            );
            (true, Some(found), message)
        },
        RegexOutcome::NoGroup => {
            let number = decimal_string(group as u64);
            let mut message = join4(
                "Regex ",
                shown_pattern.as_str(),
                " matched but group ",
                number.as_str(),
            );
            message.append(" does not exist");
            (false, None, message)
        },
        RegexOutcome::NoMatch => (
            false,
            None,
            join3("Regex ", shown_pattern.as_str(), " did not match the response body"),
        ),
        RegexOutcome::Invalid(e) => (
            false,
            None,
            join4("Invalid regex pattern ", shown_pattern.as_str(), ": ", e.as_str()),
        ),
    }
}

/// Takes a value out of a response by one rule. Returns whether a value was
/// found, the value, and a message.
pub fn evaluate_extractor(rule: &ExtractorRule, ctx: &ExtractionContext) -> (result: (
    bool,
    Option<String>,
    String,
))
    requires
        ctx.headers.wf(),
    ensures
        yields(result, extraction_of(*rule, ctx.headers@, ctx.body@)),
{
    match rule {
        ExtractorRule::JsonPath { expression } => {
            let parsed = parse_json_text(ctx.body);
            extract_json_path(&parsed, expression.as_str())
        },
        ExtractorRule::Regex { pattern, group } => {
            let outcome = regex_capture(pattern.as_str(), ctx.body, *group as usize);
            extract_regex(outcome, pattern.as_str(), *group)
        },
        ExtractorRule::Header { name } => {
            let key = to_lowercase(name.as_str());
            let shown_name = quote(name.as_str());
            match ctx.headers.get(key.as_str()) {
                Some(value) => {
                    let shown = quote(value.as_str());
                    let message = join4(
                        "Header ",
                        shown_name.as_str(),
                        " extracted ",
                        shown.as_str(),
                    );
                    (true, Some(value.clone()), message)
                },
                None => (
                    false,
                    None,
                    join3("Header ", shown_name.as_str(), " not found in response"),
                ),
            }
        },
    }
}

/// What an extractor as a plan holds it takes out of a response: what its
/// rule takes, or a failure that tells why the rule could not be read.
pub open spec fn planned_extraction(
    rule: Result<ExtractorRule, String>,
    headers: Map<Seq<char>, Seq<char>>,
    body: Seq<char>,
) -> Extraction {
    match rule {
        Ok(r) => extraction_of(r, headers, body),
        Err(e) => Extraction {
            success: false,
            value: None,
            message: "Invalid extractor rule: "@ + e@,
        },
    }
}

/// A result is the one that `extractor` earns on a response with the given
/// headers and body.
pub open spec fn extraction_fits(
    result: ExtractionResult,
    extractor: Extractor,
    headers: Map<Seq<char>, Seq<char>>,
    body: Seq<char>,
) -> bool {
    let extraction = planned_extraction(extractor.expression, headers, body);
    &&& result.extractor_id == extractor.id
    &&& result.extractor_name@ == extractor.name@
    &&& result.variable_name@ == extractor.variable@
    &&& yields((result.success, result.extracted_value, result.message), extraction)
}

/// Applies every extractor of a request to a response, in order. One whose
/// rule could not be read fails, and those after it are applied all the
/// same.
pub fn evaluate_all(extractors: &Vec<Extractor>, ctx: &ExtractionContext) -> (results: Vec<
    ExtractionResult,
>)
    requires
        ctx.headers.wf(),
    ensures
        results@.len() == extractors@.len(),
        forall|i: int|
            0 <= i < extractors@.len() ==> extraction_fits(
                #[trigger] results@[i],
                extractors@[i],
                ctx.headers@,
                ctx.body@,
            ),
{
    let mut results: Vec<ExtractionResult> = Vec::new();
    let mut i: usize = 0;
    while i < extractors.len()
        invariant
            i <= extractors@.len(),
            ctx.headers.wf(),
            results@.len() == i,
            forall|k: int|
                0 <= k < i ==> extraction_fits(
                    #[trigger] results@[k],
                    extractors@[k],
                    ctx.headers@,
                    ctx.body@,
                ),
        decreases extractors@.len() - i,
    {
        let extractor = &extractors[i];
        let (success, extracted_value, message) = match &extractor.expression {
            Ok(rule) => evaluate_extractor(rule, ctx),
            Err(e) => (false, None, join2("Invalid extractor rule: ", e.as_str())),
        };
        results.push(
            ExtractionResult {
                extractor_id: extractor.id,
                extractor_name: extractor.name.clone(),
                variable_name: extractor.variable.clone(),
                success,
                extracted_value,
                message,
            },
        );
        i += 1;
    }
    results
}

} // verus!
