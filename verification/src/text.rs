//! Strings as sequences of characters: reading a string into a vector,
//! writing one back, searching.

use vstd::prelude::*;
use vstd::string::{axiom_spec_iter, next_postcondition};
use vstd::std_specs::iter::IteratorSpec;
use vstd::string::StringExecFns;

verus! {

/// `String::push`: the character is appended.
pub assume_specification[ std::string::String::push ](s: &mut std::string::String, ch: char)
    ensures
        final(s)@ == old(s)@.push(ch),
;

/// `str == str`: two strings are equal where their characters are.
pub assume_specification[ <str as PartialEq>::eq ](a: &str, b: &str) -> (same: bool)
    ensures
        same == (a@ == b@),
;

/// Whether two strings hold the same characters.
pub fn same_text(a: &str, b: &str) -> (same: bool)
    ensures
        same == (a@ == b@),
{
    *a == *b
}

/// The characters of `s`, in order.
pub fn chars_of(s: &str) -> (chars: Vec<char>)
    ensures
        chars@ == s@,
{
    broadcast use {axiom_spec_iter, next_postcondition};

    let mut chars: Vec<char> = Vec::new();
    let mut it = s.chars();
    loop
        invariant
            chars@ + it.remaining() == s@,
            it.obeys_prophetic_iter_laws(),
            it.decrease() is Some,
        decreases it.decrease()->0,
    {
        let ghost before = it.remaining();
        match it.next() {
            Some(c) => {
                chars.push(c);
                assert(chars@ + it.remaining() =~= (chars@.drop_last() + before));
            },
            None => {
                assert(chars@ + it.remaining() =~= chars@);
                return chars;
            },
        }
    }
}

/// Whether `needle` stands somewhere in `hay`.
pub open spec fn contains_text(hay: Seq<char>, needle: Seq<char>) -> bool {
    exists|i: int|
        0 <= i <= hay.len() - needle.len() && #[trigger] hay.subrange(i, i + needle.len())
            == needle
}

/// Whether `needle` stands in `hay` at the place `at`.
fn stands_at(hay: &Vec<char>, needle: &Vec<char>, at: usize) -> (stands: bool)
    requires
        at + needle@.len() <= hay@.len(),
    ensures
        stands == (hay@.subrange(at as int, at + needle@.len()) == needle@),
{
    let ghost part = hay@.subrange(at as int, at + needle@.len());
    let hay_len = hay.len();
    let mut k: usize = 0;
    while k < needle.len()
        invariant
            k <= needle@.len(),
            hay_len == hay@.len(),
            at + needle@.len() <= hay@.len(),
            part == hay@.subrange(at as int, at + needle@.len()),
            forall|m: int| 0 <= m < k ==> part[m] == needle@[m],
        decreases needle@.len() - k,
    {
        if hay[at + k] != needle[k] {
            assert(part[k as int] != needle@[k as int]);
            return false;
        }
        k += 1;
    }
    assert(part =~= needle@);
    true
}

/// Whether `needle` stands somewhere in `hay`.
pub fn str_contains(hay: &str, needle: &str) -> (found: bool)
    ensures
        found == contains_text(hay@, needle@),
{
    let hay_chars = chars_of(hay);
    let needle_chars = chars_of(needle);
    if needle_chars.len() > hay_chars.len() {
        return false;
    }
    let last: usize = hay_chars.len() - needle_chars.len();
    let mut at: usize = 0;
    loop
        invariant
            at <= last,
            last == hay_chars@.len() - needle_chars@.len(),
            hay_chars@ == hay@,
            needle_chars@ == needle@,
            forall|i: int|
                0 <= i < at ==> #[trigger] hay@.subrange(i, i + needle@.len()) != needle@,
        decreases last - at,
    {
        if stands_at(&hay_chars, &needle_chars, at) {
            return true;
        }
        if at == last {
            return false;
        }
        at += 1;
    }
}

/// The lower-case form of a string, as `str::to_lowercase` gives it.
pub uninterp spec fn lowercased(s: Seq<char>) -> Seq<char>;

/// `str::to_lowercase`: the lower-case form of the string, which depends on
/// the string alone.
#[verifier::external_body]
pub(crate) fn to_lowercase(s: &str) -> (lower: String)
    ensures
        lower@ == lowercased(s@),
{
    s.to_lowercase()
}

/// The character of a decimal digit.
pub open spec fn digit_char(d: nat) -> char
    recommends
        d < 10,
{
    if d == 0 {
        '0'
    } else if d == 1 {
        '1'
    } else if d == 2 {
        '2'
    } else if d == 3 {
        '3'
    } else if d == 4 {
        '4'
    } else if d == 5 {
        '5'
    } else if d == 6 {
        '6'
    } else if d == 7 {
        '7'
    } else if d == 8 {
        '8'
    } else {
        '9'
    }
}

/// A number written in decimal, without leading zeros.
pub open spec fn decimal(n: nat) -> Seq<char>
    decreases n,
{
    if n < 10 {
        seq![digit_char(n)]
    } else {
        decimal(n / 10).push(digit_char(n % 10))
    }
}

fn digit_to_char(d: u64) -> (c: char)
    requires
        d < 10,
    ensures
        c == digit_char(d as nat),
{
    if d == 0 {
        '0'
    } else if d == 1 {
        '1'
    } else if d == 2 {
        '2'
    } else if d == 3 {
        '3'
    } else if d == 4 {
        '4'
    } else if d == 5 {
        '5'
    } else if d == 6 {
        '6'
    } else if d == 7 {
        '7'
    } else if d == 8 {
        '8'
    } else {
        '9'
    }
}

/// Writes `n` in decimal.
pub fn decimal_string(n: u64) -> (s: String)
    ensures
        s@ == decimal(n as nat),
{
    let mut digits: Vec<char> = Vec::new();
    let mut rest: u64 = n;
    while rest >= 10
        invariant
            rest <= n,
            decimal(n as nat) == decimal(rest as nat) + reversed(digits@),
        decreases rest,
    {
        let ghost before = digits@;
        digits.push(digit_to_char(rest % 10));
        proof {
            assert(reversed(digits@) =~= seq![digit_char((rest % 10) as nat)] + reversed(
                before,
            )) by {
                assert(digits@.drop_last() =~= before);
            }
            assert(decimal(rest as nat) + reversed(before) =~= decimal((rest / 10) as nat)
                + reversed(digits@));
        }
        rest = rest / 10;
    }
    let mut s = String::new();
    s.push(digit_to_char(rest));
    let mut i: usize = digits.len();
    assert(digits@.take(i as int) =~= digits@);
    assert(s@ =~= decimal(rest as nat));
    while i > 0
        invariant
            i <= digits@.len(),
            s@ + reversed(digits@.take(i as int)) == decimal(n as nat),
        decreases i,
    {
        i -= 1;
        s.push(digits[i]);
        proof {
            let upto = digits@.take(i + 1);
            assert(upto.drop_last() =~= digits@.take(i as int));
            assert(reversed(upto) =~= seq![digits@[i as int]] + reversed(digits@.take(i as int)));
            assert(s@ + reversed(digits@.take(i as int)) =~= s@.drop_last() + reversed(upto));
        }
    }
    assert(reversed(digits@.take(0)) =~= Seq::<char>::empty());
    assert(s@ + Seq::<char>::empty() =~= s@);
    s
}

/// The sequence back to front.
pub open spec fn reversed(s: Seq<char>) -> Seq<char>
    decreases s.len(),
{
    if s.len() == 0 {
        s
    } else {
        seq![s.last()] + reversed(s.drop_last())
    }
}


/// The first place of `c` in `s` is `k`, where `c` stands at `k` and nowhere
/// before.
pub proof fn lemma_first_place(s: Seq<char>, c: char, k: int)
    requires
        0 <= k < s.len(),
        s[k] == c,
        forall|m: int| 0 <= m < k ==> s[m] != c,
    ensures
        s.index_of_first(c) == Some(k),
{
    s.index_of_first_ensures(c);
    assert(s.contains(c));
    let found = s.index_of_first(c)->0;
    if found < k {
        assert(s[found] != c);
    }
}

/// The last place of `c` in `s` is `k`, where `c` stands at `k` and nowhere
/// after.
pub proof fn lemma_last_place(s: Seq<char>, c: char, k: int)
    requires
        0 <= k < s.len(),
        s[k] == c,
        forall|m: int| k < m < s.len() ==> s[m] != c,
    ensures
        s.index_of_last(c) == Some(k),
{
    s.index_of_last_ensures(c);
    assert(s.contains(c));
    let found = s.index_of_last(c)->0;
    if found > k {
        assert(s[found] != c);
    }
}

/// `c` has no place in `s`, where it stands nowhere.
pub proof fn lemma_no_place(s: Seq<char>, c: char)
    requires
        forall|m: int| 0 <= m < s.len() ==> s[m] != c,
    ensures
        s.index_of_first(c) is None,
        s.index_of_last(c) is None,
{
    s.index_of_first_ensures(c);
    s.index_of_last_ensures(c);
    if s.contains(c) {
        let m = choose|m: int| 0 <= m < s.len() && s[m] == c;
        assert(s[m] != c);
    }
}

/// The first place of `c` in `chars` from `from` up to `to`; `to` where there
/// is none.
pub fn find_char(chars: &Vec<char>, c: char, from: usize, to: usize) -> (at: usize)
    requires
        from <= to <= chars@.len(),
    ensures
        from <= at <= to,
        forall|m: int| from <= m < at ==> chars@[m] != c,
        at < to ==> chars@[at as int] == c,
{
    let mut at: usize = from;
    while at < to && chars[at] != c
        invariant
            from <= at <= to,
            to <= chars@.len(),
            forall|m: int| from <= m < at ==> chars@[m] != c,
        decreases to - at,
    {
        at += 1;
    }
    at
}

/// The last place of `c` in `chars` from `from` up to `to`, if there is one.
pub fn rfind_char(chars: &Vec<char>, c: char, from: usize, to: usize) -> (at: Option<usize>)
    requires
        from <= to <= chars@.len(),
    ensures
        match at {
            Some(k) => from <= k < to && chars@[k as int] == c && forall|m: int|
                k < m < to ==> chars@[m] != c,
            None => forall|m: int| from <= m < to ==> chars@[m] != c,
        },
{
    let mut at: usize = to;
    while at > from
        invariant
            from <= at <= to,
            to <= chars@.len(),
            forall|m: int| at <= m < to ==> chars@[m] != c,
        decreases at,
    {
        at -= 1;
        if chars[at] == c {
            return Some(at);
        }
    }
    None
}

/// The string that holds `chars` from `from` up to `to`.
pub fn substring(chars: &Vec<char>, from: usize, to: usize) -> (s: String)
    requires
        from <= to <= chars@.len(),
    ensures
        s@ == chars@.subrange(from as int, to as int),
{
    let mut s = String::new();
    let mut i: usize = from;
    assert(chars@.subrange(from as int, i as int) =~= Seq::<char>::empty());
    while i < to
        invariant
            from <= i <= to,
            to <= chars@.len(),
            s@ == chars@.subrange(from as int, i as int),
        decreases to - i,
    {
        s.push(chars[i]);
        assert(chars@.subrange(from as int, i + 1) =~= chars@.subrange(from as int, i as int).push(
            chars@[i as int],
        ));
        i += 1;
    }
    s
}


/// A text between double quotes.
pub open spec fn quoted(s: Seq<char>) -> Seq<char> {
    seq!['"'] + s + seq!['"']
}

/// Writes `s` between double quotes.
pub fn quote(s: &str) -> (q: String)
    ensures
        q@ == quoted(s@),
{
    let mut q = String::new();
    q.push('"');
    q.append(s);
    q.push('"');
    assert(q@ =~= quoted(s@));
    q
}

/// Two texts, one after the other.
pub fn join2(a: &str, b: &str) -> (s: String)
    ensures
        s@ == a@ + b@,
{
    let mut s = String::from_str(a);
    s.append(b);
    s
}

/// Three texts, one after the other.
pub fn join3(a: &str, b: &str, c: &str) -> (s: String)
    ensures
        s@ == a@ + b@ + c@,
{
    let mut s = String::from_str(a);
    s.append(b);
    s.append(c);
    s
}

/// Four texts, one after the other.
pub fn join4(a: &str, b: &str, c: &str, d: &str) -> (s: String)
    ensures
        s@ == a@ + b@ + c@ + d@,
{
    let mut s = String::from_str(a);
    s.append(b);
    s.append(c);
    s.append(d);
    s
}

/// Five texts, one after the other.
pub fn join5(a: &str, b: &str, c: &str, d: &str, e: &str) -> (s: String)
    ensures
        s@ == a@ + b@ + c@ + d@ + e@,
{
    let mut s = String::from_str(a);
    s.append(b);
    s.append(c);
    s.append(d);
    s.append(e);
    s
}

/// Six texts, one after the other.
pub fn join6(a: &str, b: &str, c: &str, d: &str, e: &str, f: &str) -> (s: String)
    ensures
        s@ == a@ + b@ + c@ + d@ + e@ + f@,
{
    let mut s = String::from_str(a);
    s.append(b);
    s.append(c);
    s.append(d);
    s.append(e);
    s.append(f);
    s
}

/// Seven texts, one after the other.
pub fn join7(a: &str, b: &str, c: &str, d: &str, e: &str, f: &str, g: &str) -> (s: String)
    ensures
        s@ == a@ + b@ + c@ + d@ + e@ + f@ + g@,
{
    let mut s = String::from_str(a);
    s.append(b);
    s.append(c);
    s.append(d);
    s.append(e);
    s.append(f);
    s.append(g);
    s
}


/// `s` begins with `prefix`.
pub open spec fn starts_with(s: Seq<char>, prefix: Seq<char>) -> bool {
    prefix.len() <= s.len() && s.subrange(0, prefix.len() as int) == prefix
}

/// Whether `chars` begins with `prefix`.
pub fn has_prefix(chars: &Vec<char>, prefix: &Vec<char>) -> (has: bool)
    ensures
        has == starts_with(chars@, prefix@),
{
    if prefix.len() > chars.len() {
        return false;
    }
    let mut i: usize = 0;
    while i < prefix.len()
        invariant
            i <= prefix@.len(),
            prefix@.len() <= chars@.len(),
            forall|k: int| 0 <= k < i ==> chars@[k] == prefix@[k],
        decreases prefix@.len() - i,
    {
        if chars[i] != prefix[i] {
            assert(chars@.subrange(0, prefix@.len() as int)[i as int] != prefix@[i as int]);
            return false;
        }
        i += 1;
    }
    assert(chars@.subrange(0, prefix@.len() as int) =~= prefix@);
    true
}


/// Whether a character is white space, as `char::is_whitespace` says.
pub uninterp spec fn whitespace(c: char) -> bool;

/// `char::is_whitespace`: whether the character has the Unicode property
/// `White_Space`, which depends on the character alone.
#[verifier::external_body]
pub(crate) fn is_whitespace(c: char) -> (white: bool)
    ensures
        white == whitespace(c),
{
    c.is_whitespace()
}

/// How many characters of white space `s` begins with.
pub open spec fn leading_space(s: Seq<char>) -> int
    decreases s.len(),
{
    if s.len() == 0 || !whitespace(s[0]) {
        0
    } else {
        1 + leading_space(s.skip(1))
    }
}

/// How many characters of white space `s` ends with.
pub open spec fn trailing_space(s: Seq<char>) -> int
    decreases s.len(),
{
    if s.len() == 0 || !whitespace(s.last()) {
        0
    } else {
        1 + trailing_space(s.drop_last())
    }
}

/// `s` without the white space at its beginning and at its end.
pub open spec fn trimmed(s: Seq<char>) -> Seq<char> {
    let rest = s.skip(leading_space(s));
    rest.take(rest.len() - trailing_space(rest))
}

/// The bounds of `chars` without the white space around it.
pub fn trim_bounds(chars: &Vec<char>) -> (bounds: (usize, usize))
    ensures
        bounds.0 <= bounds.1 <= chars@.len(),
        chars@.subrange(bounds.0 as int, bounds.1 as int) == trimmed(chars@),
{
    let n = chars.len();
    let mut start: usize = 0;
    assert(chars@.skip(0) =~= chars@);
    while start < n && is_whitespace(chars[start])
        invariant
            start <= n,
            n == chars@.len(),
            leading_space(chars@) == start + leading_space(chars@.skip(start as int)),
        decreases n - start,
    {
        proof {
            let here = chars@.skip(start as int);
            assert(here[0] == chars@[start as int]);
            assert(here.skip(1) =~= chars@.skip(start + 1));
        }
        start += 1;
    }
    proof {
        let here = chars@.skip(start as int);
        if start < n {
            assert(here[0] == chars@[start as int]);
        }
        assert(leading_space(here) == 0);
    }
    let ghost rest = chars@.skip(start as int);
    let mut end: usize = n;
    assert(rest.take(rest.len() as int) =~= rest);
    while end > start && is_whitespace(chars[end - 1])
        invariant
            start <= end <= n,
            n == chars@.len(),
            rest == chars@.skip(start as int),
            trailing_space(rest) == (n - end) + trailing_space(rest.take(end - start)),
        decreases end,
    {
        proof {
            let here = rest.take(end - start);
            assert(here.last() == chars@[end - 1]);
            assert(here.drop_last() =~= rest.take(end - start - 1));
        }
        end -= 1;
    }
    proof {
        let here = rest.take(end - start);
        if end > start {
            assert(here.last() == chars@[end - 1]);
        }
        assert(trailing_space(here) == 0);
        assert(rest.take(rest.len() - trailing_space(rest)) =~= chars@.subrange(
            start as int,
            end as int,
        ));
    }
    (start, end)
}

} // verus!
