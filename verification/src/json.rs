//! JSON values as the rules read them, and the dotted paths that lead into
//! them.

use vstd::prelude::*;
use crate::text::{
    chars_of, find_char, lemma_first_place, lemma_last_place, lemma_no_place, rfind_char,
    same_text, substring,
};

verus! {

/// A JSON value.
#[derive(Debug)]
pub enum JsonValue {
    Null,
    Bool(bool),
    /// A number, held as the text that stands for it. Where the value is
    /// written out (`json_text`, `json_debug_text`), a text that is no JSON
    /// number is written as `null`.
    Number(String),
    String(String),
    Array(Vec<JsonValue>),
    /// An object with its members in order.
    Object(Vec<Member>),
}

/// A member of a JSON object.
#[derive(Debug)]
pub struct Member {
    pub key: String,
    pub value: JsonValue,
}

/// `serde_json::Value`; nothing is known of what it holds.
#[verifier::external_type_specification]
#[verifier::external_body]
pub struct ExOutsideJson(serde_json::Value);

/// Turns a `serde_json::Value` into a `JsonValue`, variant by variant; a
/// number becomes the text that `Number`'s `Display` gives. Nothing is
/// claimed of the result.
#[verifier::external_body]
fn json_from_outside(value: &serde_json::Value) -> JsonValue {
    match value {
        serde_json::Value::Null => JsonValue::Null,
        serde_json::Value::Bool(b) => JsonValue::Bool(*b),
        serde_json::Value::Number(n) => JsonValue::Number(n.to_string()),
        serde_json::Value::String(s) => JsonValue::String(s.clone()),
        serde_json::Value::Array(items) => JsonValue::Array(
            items.iter().map(json_from_outside).collect(),
        ),
        serde_json::Value::Object(members) => JsonValue::Object(
            members.iter().map(|(k, v)| Member { key: k.clone(), value: json_from_outside(v) })
                .collect(),
        ),
    }
}

/// Turns a `JsonValue` into a `serde_json::Value`, variant by variant; the
/// text of a number is read by `Number`'s `FromStr`, and a text that it
/// refuses becomes `null`. Nothing is claimed of the result.
#[verifier::external_body]
fn json_to_outside(value: &JsonValue) -> serde_json::Value {
    match value {
        JsonValue::Null => serde_json::Value::Null,
        JsonValue::Bool(b) => serde_json::Value::Bool(*b),
        JsonValue::Number(text) => text.parse::<serde_json::Number>().map(
            serde_json::Value::Number,
        ).unwrap_or(serde_json::Value::Null),
        JsonValue::String(s) => serde_json::Value::String(s.clone()),
        JsonValue::Array(items) => serde_json::Value::Array(
            items.iter().map(json_to_outside).collect(),
        ),
        JsonValue::Object(members) => serde_json::Value::Object(
            members.iter().map(|m| (m.key.clone(), json_to_outside(&m.value))).collect(),
        ),
    }
}

/// What `serde_json::from_str` makes of a text: the value, or the message of
/// its error.
pub uninterp spec fn parsed_json(text: Seq<char>) -> Result<JsonValue, String>;

/// `serde_json::from_str` to a `serde_json::Value`: the value that the text
/// stands for, or the error's message as its `Display` gives it. The result
/// depends on the text alone.
#[verifier::external_body]
pub(crate) fn parse_json_text(text: &str) -> (parsed: Result<JsonValue, String>)
    ensures
        parsed == parsed_json(text@),
{
    match serde_json::from_str::<serde_json::Value>(text) {
        Ok(value) => Ok(json_from_outside(&value)),
        Err(e) => Err(e.to_string()),
    }
}

/// A value as compact JSON text, as the `Display` of `serde_json::Value`
/// gives it.
pub uninterp spec fn json_text(value: JsonValue) -> Seq<char>;

/// `serde_json::Value`'s `Display`: the value as compact JSON text, which
/// depends on the value alone.
#[verifier::external_body]
pub(crate) fn render_json(value: &JsonValue) -> (text: String)
    ensures
        text@ == json_text(*value),
{
    json_to_outside(value).to_string()
}

/// A value as the `Debug` of `serde_json::Value` shows it.
pub uninterp spec fn json_debug_text(value: JsonValue) -> Seq<char>;

/// `serde_json::Value`'s `Debug`: the value as a developer reads it, which
/// depends on the value alone.
#[verifier::external_body]
pub(crate) fn debug_json(value: &JsonValue) -> (text: String)
    ensures
        text@ == json_debug_text(*value),
{
    format!("{:?}", json_to_outside(value))
}


/// The value of the first member named `key`, looking from `from` on.
pub open spec fn member_from(members: Seq<Member>, key: Seq<char>, from: int) -> Option<
    JsonValue,
>
    decreases members.len() - from,
{
    if from < 0 || from >= members.len() {
        None
    } else if members[from].key@ == key {
        Some(members[from].value)
    } else {
        member_from(members, key, from + 1)
    }
}

/// The member `key` of an object; nothing of any other value.
pub open spec fn field_of(value: JsonValue, key: Seq<char>) -> Option<JsonValue> {
    match value {
        JsonValue::Object(members) => member_from(members@, key, 0),
        _ => None,
    }
}

/// The element at `index` of an array; nothing of any other value.
pub open spec fn element_of(value: JsonValue, index: nat) -> Option<JsonValue> {
    match value {
        JsonValue::Array(items) => if index < items@.len() {
            Some(items@[index as int])
        } else {
            None
        },
        _ => None,
    }
}

/// The number that a decimal digit stands for; -1 for any other character.
pub open spec fn digit_of(c: char) -> int {
    if c == '0' {
        0
    } else if c == '1' {
        1
    } else if c == '2' {
        2
    } else if c == '3' {
        3
    } else if c == '4' {
        4
    } else if c == '5' {
        5
    } else if c == '6' {
        6
    } else if c == '7' {
        7
    } else if c == '8' {
        8
    } else if c == '9' {
        9
    } else {
        -1
    }
}

/// Every character is a decimal digit.
pub open spec fn all_digits(s: Seq<char>) -> bool {
    forall|i: int| 0 <= i < s.len() ==> digit_of(#[trigger] s[i]) >= 0
}

/// The number that a sequence of decimal digits stands for.
pub open spec fn digits_value(s: Seq<char>) -> int
    decreases s.len(),
{
    if s.len() == 0 {
        0
    } else {
        digits_value(s.drop_last()) * 10 + digit_of(s.last())
    }
}

/// The index that a text stands for: decimal digits, at least one, with `+`
/// allowed before them.
pub open spec fn index_value(text: Seq<char>) -> Option<nat> {
    let body = if text.len() > 0 && text[0] == '+' {
        text.skip(1)
    } else {
        text
    };
    if body.len() == 0 || !all_digits(body) {
        None
    } else {
        Some(digits_value(body) as nat)
    }
}

/// One step into a value by one segment of a path: the member that the
/// segment names, or, where the segment holds `[`, the element whose index
/// stands between `[` and the last `]` (or the segment's last character,
/// where there is no `]`), taken from the member named before the `[` or,
/// with no name there, from the value itself.
pub open spec fn stepped(value: JsonValue, segment: Seq<char>) -> Option<JsonValue> {
    match segment.index_of_first('[') {
        None => field_of(value, segment),
        Some(open) => {
            let closing = match segment.index_of_last(']') {
                Some(k) => k,
                None => segment.len() - 1,
            };
            if closing < open + 1 {
                None
            } else {
                let base = if open == 0 {
                    Some(value)
                } else {
                    field_of(value, segment.take(open))
                };
                match (base, index_value(segment.subrange(open + 1, closing))) {
                    (Some(from), Some(index)) => element_of(from, index),
                    _ => None,
                }
            }
        },
    }
}

/// The parts of `s` between the occurrences of `sep`.
pub open spec fn split_on(s: Seq<char>, sep: char) -> Seq<Seq<char>>
    decreases s.len(),
{
    match s.index_of_first(sep) {
        Some(i) => if 0 <= i < s.len() {
            seq![s.take(i)] + split_on(s.skip(i + 1), sep)
        } else {
            seq![s]
        },
        None => seq![s],
    }
}

/// The value reached from `value` by the segments in turn.
pub open spec fn walked(value: JsonValue, segments: Seq<Seq<char>>) -> Option<JsonValue>
    decreases segments.len(),
{
    if segments.len() == 0 {
        Some(value)
    } else {
        match stepped(value, segments[0]) {
            Some(next) => walked(next, segments.skip(1)),
            None => None,
        }
    }
}

/// The value that a dotted path leads to: the path is split on `.`, and each
/// segment is one step.
pub open spec fn navigated(value: JsonValue, path: Seq<char>) -> Option<JsonValue> {
    walked(value, split_on(path, '.'))
}

/// A reference that was found stands for the value that the model gives.
pub open spec fn found_is(found: Option<&JsonValue>, model: Option<JsonValue>) -> bool {
    match found {
        Some(v) => model == Some(*v),
        None => model is None,
    }
}

fn digit_value(c: char) -> (d: Option<usize>)
    ensures
        match d {
            Some(v) => v == digit_of(c) && v < 10,
            None => digit_of(c) < 0,
        },
{
    if c == '0' {
        Some(0)
    } else if c == '1' {
        Some(1)
    } else if c == '2' {
        Some(2)
    } else if c == '3' {
        Some(3)
    } else if c == '4' {
        Some(4)
    } else if c == '5' {
        Some(5)
    } else if c == '6' {
        Some(6)
    } else if c == '7' {
        Some(7)
    } else if c == '8' {
        Some(8)
    } else if c == '9' {
        Some(9)
    } else {
        None
    }
}

/// A number in digits is not below the number that its first digits give.
proof fn lemma_prefix_value(s: Seq<char>, k: int)
    requires
        all_digits(s),
        0 <= k <= s.len(),
    ensures
        0 <= digits_value(s.take(k)) <= digits_value(s),
    decreases s.len(),
{
    if s.len() == 0 {
        assert(s.take(k) =~= s);
    } else if k == s.len() {
        assert(s.take(k) =~= s);
        lemma_prefix_value(s.drop_last(), k - 1);
        assert(digit_of(s.last()) >= 0);
    } else {
        lemma_prefix_value(s.drop_last(), k);
        assert(s.drop_last().take(k) =~= s.take(k));
        assert(digit_of(s.last()) >= 0);
    }
}

/// Reads the index that `chars` hold from `from` up to `to`; none where they
/// hold no index or one beyond `usize`.
fn parse_index(chars: &Vec<char>, from: usize, to: usize) -> (index: Option<usize>)
    requires
        from <= to <= chars@.len(),
    ensures
        match index_value(chars@.subrange(from as int, to as int)) {
            Some(v) => if v <= usize::MAX {
                index == Some(v as usize)
            } else {
                index is None
            },
            None => index is None,
        },
{
    let ghost text = chars@.subrange(from as int, to as int);
    let start: usize = if from < to && chars[from] == '+' {
        from + 1
    } else {
        from
    };
    let ghost body = chars@.subrange(start as int, to as int);
    proof {
        if from < to {
            assert(text[0] == chars@[from as int]);
        }
        if text.len() > 0 && text[0] == '+' {
            assert(body =~= text.skip(1));
        } else {
            assert(body =~= text);
        }
    }
    if start == to {
        assert(body.len() == 0);
        return None;
    }
    let mut i: usize = start;
    while i < to
        invariant
            start <= i <= to,
            to <= chars@.len(),
            body == chars@.subrange(start as int, to as int),
            forall|m: int| 0 <= m < i - start ==> digit_of(#[trigger] body[m]) >= 0,
            index_value(chars@.subrange(from as int, to as int)) == (if body.len() == 0
                || !all_digits(body) {
                None
            } else {
                Some(digits_value(body) as nat)
            }),
        decreases to - i,
    {
        match digit_value(chars[i]) {
            Some(_) => {},
            None => {
                assert(digit_of(body[i - start]) < 0);
                return None;
            },
        }
        i += 1;
    }
    assert(all_digits(body));
    let mut acc: usize = 0;
    let mut j: usize = start;
    assert(body.take(0) =~= Seq::<char>::empty());
    while j < to
        invariant
            start <= j <= to,
            to <= chars@.len(),
            body == chars@.subrange(start as int, to as int),
            all_digits(body),
            acc == digits_value(body.take(j - start)),
            index_value(chars@.subrange(from as int, to as int)) == (if body.len() == 0
                || !all_digits(body) {
                None
            } else {
                Some(digits_value(body) as nat)
            }),
        decreases to - j,
    {
        let d = match digit_value(chars[j]) {
            Some(d) => d,
            None => 0,
        };
        proof {
            let upto = body.take(j - start + 1);
            assert(upto.drop_last() =~= body.take(j - start));
            assert(upto.last() == chars@[j as int]);
            assert(digit_of(body[j - start]) >= 0);
            lemma_prefix_value(body, j - start + 1);
        }
        if acc > (usize::MAX - d) / 10 {
            proof {
                let upto = body.take(j - start + 1);
                assert(digits_value(upto) == acc * 10 + d);
                assert(acc * 10 + d > usize::MAX);
                assert(digits_value(body) > usize::MAX);
            }
            return None;
        }
        acc = acc * 10 + d;
        j += 1;
    }
    assert(body.take(to - start) =~= body);
    Some(acc)
}

/// The member `key` of an object, if `value` is one and has it.
fn get_field<'a>(value: &'a JsonValue, key: &str) -> (found: Option<&'a JsonValue>)
    ensures
        found_is(found, field_of(*value, key@)),
{
    match value {
        JsonValue::Object(members) => {
            let mut i: usize = 0;
            while i < members.len()
                invariant
                    i <= members@.len(),
                    member_from(members@, key@, 0) == member_from(members@, key@, i as int),
                    field_of(*value, key@) == member_from(members@, key@, 0),
                decreases members@.len() - i,
            {
                assert(member_from(members@, key@, i as int) == if members@[i as int].key@
                    == key@ {
                    Some(members@[i as int].value)
                } else {
                    member_from(members@, key@, i + 1)
                });
                if same_text(members[i].key.as_str(), key) {
                    return Some(&members[i].value);
                }
                i += 1;
            }
            None
        },
        _ => None,
    }
}

/// The element at `index` of an array, if `value` is one and has it.
fn get_element<'a>(value: &'a JsonValue, index: usize) -> (found: Option<&'a JsonValue>)
    ensures
        found_is(found, element_of(*value, index as nat)),
{
    match value {
        JsonValue::Array(items) => {
            if index < items.len() {
                Some(&items[index])
            } else {
                None
            }
        },
        _ => None,
    }
}

/// One step into `value` by the segment that `chars` hold from `from` up to
/// `to`.
fn step<'a>(value: &'a JsonValue, chars: &Vec<char>, from: usize, to: usize) -> (found: Option<
    &'a JsonValue,
>)
    requires
        from <= to <= chars@.len(),
    ensures
        found_is(found, stepped(*value, chars@.subrange(from as int, to as int))),
{
    let ghost segment = chars@.subrange(from as int, to as int);
    let open = find_char(chars, '[', from, to);
    if open == to {
        proof {
            lemma_no_place(segment, '[');
        }
        let key = substring(chars, from, to);
        return get_field(value, key.as_str());
    }
    proof {
        lemma_first_place(segment, '[', open - from);
    }
    let closing: usize = match rfind_char(chars, ']', from, to) {
        Some(k) => {
            proof {
                lemma_last_place(segment, ']', k - from);
            }
            k
        },
        None => {
            proof {
                lemma_no_place(segment, ']');
            }
            to - 1
        },
    };
    if closing < open + 1 {
        return None;
    }
    assert(segment.take(open - from) =~= chars@.subrange(from as int, open as int));
    assert(segment.subrange(open - from + 1, closing - from) =~= chars@.subrange(
        open + 1,
        closing as int,
    ));
    let base: &'a JsonValue = if open == from {
        value
    } else {
        let key = substring(chars, from, open);
        match get_field(value, key.as_str()) {
            Some(b) => b,
            None => {
                return None;
            },
        }
    };
    match parse_index(chars, open + 1, closing) {
        Some(index) => get_element(base, index),
        None => {
            proof {
                let text = chars@.subrange(open + 1, closing as int);
                match index_value(text) {
                    Some(v) => {
                        assert(v > usize::MAX);
                        if let JsonValue::Array(items) = base {
                            assert(items.len() == items@.len());
                        }
                        assert(element_of(*base, v) is None);
                    },
                    None => {},
                }
            }
            None
        },
    }
}

/// The split of what follows `from` begins with the segment up to the next
/// separator at `cut`, or is that segment alone where there is no separator.
proof fn lemma_split_step(chars: Seq<char>, sep: char, from: int, cut: int)
    requires
        0 <= from <= cut <= chars.len(),
        forall|m: int| from <= m < cut ==> chars[m] != sep,
        cut < chars.len() ==> chars[cut] == sep,
    ensures
        split_on(chars.skip(from), sep) == (if cut < chars.len() {
            seq![chars.subrange(from, cut)] + split_on(chars.skip(cut + 1), sep)
        } else {
            seq![chars.subrange(from, cut)]
        }),
{
    let here = chars.skip(from);
    if cut < chars.len() {
        lemma_first_place(here, sep, cut - from);
        assert(here.take(cut - from) =~= chars.subrange(from, cut));
        assert(here.skip(cut - from + 1) =~= chars.skip(cut + 1));
    } else {
        lemma_no_place(here, sep);
        assert(here =~= chars.subrange(from, cut));
    }
}

/// Follows a dotted path into a value: `key`, `key.sub`, `key[0]`,
/// `key[0].sub`. Returns the value that the path leads to, if it leads to
/// one.
pub fn navigate_json_path<'a>(value: &'a JsonValue, path: &str) -> (found: Option<&'a JsonValue>)
    ensures
        found_is(found, navigated(*value, path@)),
{
    let chars = chars_of(path);
    let n = chars.len();
    let mut current: &'a JsonValue = value;
    let mut from: usize = 0;
    assert(chars@.skip(0) =~= chars@);
    loop
        invariant
            n == chars@.len(),
            chars@ == path@,
            from <= n,
            navigated(*value, path@) == walked(*current, split_on(chars@.skip(from as int), '.')),
        decreases n - from,
    {
        let cut = find_char(&chars, '.', from, n);
        proof {
            lemma_split_step(chars@, '.', from as int, cut as int);
        }
        let ghost segment = chars@.subrange(from as int, cut as int);
        let ghost parts = split_on(chars@.skip(from as int), '.');
        assert(parts[0] == segment);
        match step(current, &chars, from, cut) {
            Some(next) => {
                assert(walked(*current, parts) == walked(*next, parts.skip(1)));
                if cut < n {
                    assert(parts.skip(1) =~= split_on(chars@.skip(cut + 1), '.'));
                    current = next;
                    from = cut + 1;
                } else {
                    assert(parts.skip(1) =~= Seq::<Seq<char>>::empty());
                    return Some(next);
                }
            },
            None => {
                return None;
            },
        }
    }
}


/// Two values are the same JSON: of one kind, with the same text, the same
/// elements in order, the same members in order.
pub open spec fn same_json(a: JsonValue, b: JsonValue) -> bool
    decreases a,
{
    match (a, b) {
        (JsonValue::Null, JsonValue::Null) => true,
        (JsonValue::Bool(x), JsonValue::Bool(y)) => x == y,
        (JsonValue::Number(x), JsonValue::Number(y)) => x@ == y@,
        (JsonValue::String(x), JsonValue::String(y)) => x@ == y@,
        (JsonValue::Array(x), JsonValue::Array(y)) => {
            &&& x@.len() == y@.len()
            &&& forall|i: int| 0 <= i < x@.len() ==> same_json(#[trigger] x@[i], y@[i])
        },
        (JsonValue::Object(x), JsonValue::Object(y)) => {
            &&& x@.len() == y@.len()
            &&& forall|i: int|
                0 <= i < x@.len() ==> (#[trigger] x@[i]).key@ == y@[i].key@ && same_json(
                    x@[i].value,
                    y@[i].value,
                )
        },
        _ => false,
    }
}

/// Whether two values are the same JSON.
pub fn json_equal(a: &JsonValue, b: &JsonValue) -> (same: bool)
    ensures
        same == same_json(*a, *b),
    decreases a,
{
    match (a, b) {
        (JsonValue::Null, JsonValue::Null) => true,
        (JsonValue::Bool(x), JsonValue::Bool(y)) => *x == *y,
        (JsonValue::Number(x), JsonValue::Number(y)) => same_text(x.as_str(), y.as_str()),
        (JsonValue::String(x), JsonValue::String(y)) => same_text(x.as_str(), y.as_str()),
        (JsonValue::Array(x), JsonValue::Array(y)) => {
            if x.len() != y.len() {
                return false;
            }
            let mut i: usize = 0;
            while i < x.len()
                invariant
                    i <= x@.len(),
                    x@.len() == y@.len(),
                    *a == JsonValue::Array(*x),
                    *b == JsonValue::Array(*y),
                    forall|k: int| 0 <= k < i ==> same_json(#[trigger] x@[k], y@[k]),
                decreases x@.len() - i,
            {
                proof {
                    vstd::std_specs::vec::axiom_vec_index_decreases(*x, i as int);
                    assert(a->Array_0 == *x);
                    assert(decreases_to!(*a => a->Array_0));
                    assert(decreases_to!(*a => x[i as int]));
                }
                if !json_equal(&x[i], &y[i]) {
                    return false;
                }
                i += 1;
            }
            true
        },
        (JsonValue::Object(x), JsonValue::Object(y)) => {
            if x.len() != y.len() {
                return false;
            }
            let mut i: usize = 0;
            while i < x.len()
                invariant
                    i <= x@.len(),
                    x@.len() == y@.len(),
                    *a == JsonValue::Object(*x),
                    *b == JsonValue::Object(*y),
                    forall|k: int|
                        0 <= k < i ==> (#[trigger] x@[k]).key@ == y@[k].key@ && same_json(
                            x@[k].value,
                            y@[k].value,
                        ),
                decreases x@.len() - i,
            {
                if !same_text(x[i].key.as_str(), y[i].key.as_str()) {
                    return false;
                }
                proof {
                    vstd::std_specs::vec::axiom_vec_index_decreases(*x, i as int);
                    assert(a->Object_0 == *x);
                    assert(decreases_to!(*a => a->Object_0));
                    assert(decreases_to!(*a => x[i as int].value));
                }
                if !json_equal(&x[i].value, &y[i].value) {
                    return false;
                }
                i += 1;
            }
            true
        },
        _ => false,
    }
}

} // verus!
