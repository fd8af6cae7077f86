//! What is asked of a plan before it is stored or run.

use vstd::prelude::*;
use vstd::string::StringExecFns;
use crate::error::RmeterError;
use crate::outside::{uuid_text, uuid_to_string};
use crate::plan::model::{HttpRequest, TestPlan, ThreadGroup};
use crate::text::{chars_of, has_prefix, join3, join5, starts_with, trim_bounds, trimmed};

verus! {

/// `s` without every pair of the character `c`, taken from left to right.
pub open spec fn without_pairs(s: Seq<char>, c: char) -> Seq<char>
    decreases s.len(),
{
    if s.len() == 0 {
        s
    } else if s.len() >= 2 && s[0] == c && s[1] == c {
        without_pairs(s.skip(2), c)
    } else {
        seq![s[0]] + without_pairs(s.skip(1), c)
    }
}

/// Whether a URL names the scheme `http` or `https`, once the white space
/// around it and the braces of placeholders `{{…}}` are set aside.
pub open spec fn has_http_scheme(url: Seq<char>) -> bool {
    let expanded = without_pairs(without_pairs(trimmed(url), '{'), '}');
    starts_with(expanded, "http://"@) || starts_with(expanded, "https://"@)
}

/// What is wrong with a request, as messages in order.
pub open spec fn request_errors(req: HttpRequest) -> Seq<Seq<char>> {
    (if trimmed(req.url@).len() == 0 {
        seq!["Request '"@ + req.name@ + "': URL must not be empty"@]
    } else {
        Seq::empty()
    }) + (if !has_http_scheme(req.url@) {
        seq![
            "Request '"@ + req.name@ + "': URL must start with http:// or https:// (got: "@
                + req.url@ + ")"@,
        ]
    } else {
        Seq::empty()
    })
}

/// What is wrong with the first `upto` requests.
pub open spec fn requests_errors(requests: Seq<HttpRequest>, upto: int) -> Seq<Seq<char>>
    decreases upto,
{
    if upto <= 0 {
        Seq::empty()
    } else {
        requests_errors(requests, upto - 1) + request_errors(requests[upto - 1])
    }
}

/// What is wrong with a thread group and its requests.
pub open spec fn group_errors(group: ThreadGroup) -> Seq<Seq<char>> {
    (if trimmed(group.name@).len() == 0 {
        seq!["Thread group '"@ + uuid_text(group.id) + "' name must not be empty"@]
    } else {
        Seq::empty()
    }) + (if group.num_threads == 0 {
        seq!["Thread group '"@ + group.name@ + "': num_threads must be at least 1"@]
    } else {
        Seq::empty()
    }) + requests_errors(group.requests@, group.requests@.len() as int)
}

/// What is wrong with the first `upto` thread groups.
pub open spec fn groups_errors(groups: Seq<ThreadGroup>, upto: int) -> Seq<Seq<char>>
    decreases upto,
{
    if upto <= 0 {
        Seq::empty()
    } else {
        groups_errors(groups, upto - 1) + group_errors(groups[upto - 1])
    }
}

/// What is wrong with a plan: a blank name, then what is wrong with each
/// thread group in turn, and within a group with each request in turn.
pub open spec fn plan_errors(plan: TestPlan) -> Seq<Seq<char>> {
    (if trimmed(plan.name@).len() == 0 {
        seq!["Test plan name must not be empty"@]
    } else {
        Seq::empty()
    }) + groups_errors(plan.thread_groups@, plan.thread_groups@.len() as int)
}

/// The characters of `chars` from `from` up to `to` without every pair of
/// the character `c`.
fn drop_pairs(chars: &Vec<char>, from: usize, to: usize, c: char) -> (out: Vec<char>)
    requires
        from <= to <= chars@.len(),
    ensures
        out@ == without_pairs(chars@.subrange(from as int, to as int), c),
{
    let ghost whole = chars@.subrange(from as int, to as int);
    let mut out: Vec<char> = Vec::new();
    let mut i: usize = from;
    assert(whole.skip(0) =~= whole);
    while i < to
        invariant
            from <= i <= to,
            to <= chars@.len(),
            whole == chars@.subrange(from as int, to as int),
            out@ + without_pairs(whole.skip(i - from), c) == without_pairs(whole, c),
        decreases to - i,
    {
        let ghost here = whole.skip(i - from);
        let ghost done = out@;
        assert(here[0] == chars@[i as int]);
        if i + 1 < to && chars[i] == c && chars[i + 1] == c {
            assert(here[1] == chars@[i + 1]);
            assert(here.skip(2) =~= whole.skip(i - from + 2));
            i += 2;
        } else {
            proof {
                if here.len() >= 2 {
                    assert(here[1] == chars@[i + 1]);
                }
                assert(here.skip(1) =~= whole.skip(i - from + 1));
                let tail = without_pairs(here.skip(1), c);
                assert(done.push(here[0]) + tail =~= done + (seq![here[0]] + tail));
            }
            out.push(chars[i]);
            i += 1;
        }
    }
    proof {
        assert(whole.skip(to - from) =~= Seq::<char>::empty());
        assert(out@ + Seq::<char>::empty() =~= out@);
    }
    out
}

/// The messages are those of the model, in order.
pub open spec fn messages_are(messages: Seq<String>, model: Seq<Seq<char>>) -> bool {
    &&& messages.len() == model.len()
    &&& forall|i: int| 0 <= i < model.len() ==> (#[trigger] messages[i])@ == model[i]
}

/// Adds to `messages` what is wrong with a request.
fn validate_request(req: &HttpRequest, messages: &mut Vec<String>, Ghost(before): Ghost<Seq<Seq<char>>>)
    requires
        messages_are(old(messages)@, before),
    ensures
        messages_are(final(messages)@, before + request_errors(*req)),
{
    let chars = chars_of(req.url.as_str());
    let (start, end) = trim_bounds(&chars);
    if start == end {
        messages.push(join3("Request '", req.name.as_str(), "': URL must not be empty"));
    }
    let opened = drop_pairs(&chars, start, end, '{');
    let expanded = drop_pairs(&opened, 0, opened.len(), '}');
    assert(opened@.subrange(0, opened@.len() as int) =~= opened@);
    let plain = chars_of("http://");
    let secure = chars_of("https://");
    if !has_prefix(&expanded, &plain) && !has_prefix(&expanded, &secure) {
        messages.push(
            join5(
                "Request '",
                req.name.as_str(),
                "': URL must start with http:// or https:// (got: ",
                req.url.as_str(),
                ")",
            ),
        );
    }
    assert(messages@.len() == (before + request_errors(*req)).len());
}

/// Adds to `messages` what is wrong with a thread group and its requests.
fn validate_thread_group(
    group: &ThreadGroup,
    messages: &mut Vec<String>,
    Ghost(before): Ghost<Seq<Seq<char>>>,
)
    requires
        messages_are(old(messages)@, before),
    ensures
        messages_are(final(messages)@, before + group_errors(*group)),
{
    let chars = chars_of(group.name.as_str());
    let (start, end) = trim_bounds(&chars);
    if start == end {
        let id = uuid_to_string(&group.id);
        messages.push(join3("Thread group '", id.as_str(), "' name must not be empty"));
    }
    if group.num_threads == 0 {
        messages.push(
            join3("Thread group '", group.name.as_str(), "': num_threads must be at least 1"),
        );
    }
    let ghost own = (if trimmed(group.name@).len() == 0 {
        seq!["Thread group '"@ + uuid_text(group.id) + "' name must not be empty"@]
    } else {
        Seq::empty()
    }) + (if group.num_threads == 0 {
        seq!["Thread group '"@ + group.name@ + "': num_threads must be at least 1"@]
    } else {
        Seq::empty()
    });
    assert(messages_are(messages@, before + own));
    let mut i: usize = 0;
    assert(before + own + requests_errors(group.requests@, 0) =~= before + own);
    while i < group.requests.len()
        invariant
            i <= group.requests@.len(),
            messages_are(
                messages@,
                before + own + requests_errors(group.requests@, i as int),
            ),
        decreases group.requests@.len() - i,
    {
        let ghost so_far = before + own + requests_errors(group.requests@, i as int);
        validate_request(&group.requests[i], messages, Ghost(so_far));
        assert(so_far + request_errors(group.requests@[i as int]) =~= before + own
            + requests_errors(group.requests@, i + 1));
        i += 1;
    }
    assert(before + own + requests_errors(group.requests@, i as int) =~= before + group_errors(
        *group,
    ));
}

/// Lists what is wrong with a plan; a plan with which nothing is wrong
/// gives no error. Every error is a validation error with its message.
pub fn validate_plan(plan: &TestPlan) -> (errors: Vec<RmeterError>)
    ensures
        errors@.len() == plan_errors(*plan).len(),
        forall|i: int|
            0 <= i < errors@.len() ==> ((#[trigger] errors@[i]) matches RmeterError::Validation(
                m,
            ) && m@ == plan_errors(*plan)[i]),
{
    let mut messages: Vec<String> = Vec::new();
    let chars = chars_of(plan.name.as_str());
    let (start, end) = trim_bounds(&chars);
    if start == end {
        messages.push(String::from_str("Test plan name must not be empty"));
    }
    let ghost own = if trimmed(plan.name@).len() == 0 {
        seq!["Test plan name must not be empty"@]
    } else {
        Seq::<Seq<char>>::empty()
    };
    assert(messages_are(messages@, own));
    let mut i: usize = 0;
    assert(own + groups_errors(plan.thread_groups@, 0) =~= own);
    while i < plan.thread_groups.len()
        invariant
            i <= plan.thread_groups@.len(),
            messages_are(messages@, own + groups_errors(plan.thread_groups@, i as int)),
        decreases plan.thread_groups@.len() - i,
    {
        let ghost so_far = own + groups_errors(plan.thread_groups@, i as int);
        validate_thread_group(&plan.thread_groups[i], &mut messages, Ghost(so_far));
        assert(so_far + group_errors(plan.thread_groups@[i as int]) =~= own + groups_errors(
            plan.thread_groups@,
            i + 1,
        ));
        i += 1;
    }
    let ghost model = plan_errors(*plan);
    assert(messages_are(messages@, model));
    let mut errors: Vec<RmeterError> = Vec::new();
    let mut k: usize = 0;
    while k < messages.len()
        invariant
            k <= messages@.len(),
            messages_are(messages@, model),
            errors@.len() == k,
            forall|j: int|
                0 <= j < k ==> ((#[trigger] errors@[j]) matches RmeterError::Validation(m) && m@
                    == model[j]),
        decreases messages@.len() - k,
    {
        errors.push(RmeterError::Validation(messages[k].clone()));
        k += 1;
    }
    errors
}

} // verus!
