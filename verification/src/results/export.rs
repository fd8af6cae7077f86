//! How a value is written into a report: as a field of a CSV line, as text
//! within HTML.

use vstd::prelude::*;
use vstd::string::StringExecFns;
use crate::text::{chars_of, quoted};

verus! {

/// Whether a field must stand between quotes in a CSV line: it holds a
/// comma, a quote or a line break.
pub open spec fn needs_quotes(value: Seq<char>) -> bool {
    value.contains(',') || value.contains('"') || value.contains('\n')
}

/// The text with every quote written twice.
pub open spec fn quotes_doubled(value: Seq<char>) -> Seq<char>
    decreases value.len(),
{
    if value.len() == 0 {
        value
    } else if value.last() == '"' {
        quotes_doubled(value.drop_last()) + seq!['"', '"']
    } else {
        quotes_doubled(value.drop_last()).push(value.last())
    }
}

/// A value as a field of a CSV line: as it is, or, where it must, between
/// quotes with its own quotes doubled.
pub open spec fn csv_escaped(value: Seq<char>) -> Seq<char> {
    if needs_quotes(value) {
        quoted(quotes_doubled(value))
    } else {
        value
    }
}

/// Writes a value as a field of a CSV line.
pub fn csv_escape(value: &str) -> (field: String)
    ensures
        field@ == csv_escaped(value@),
{
    let chars = chars_of(value);
    let mut special = false;
    let mut doubled = String::new();
    let mut i: usize = 0;
    assert(chars@.take(0) =~= Seq::<char>::empty());
    while i < chars.len()
        invariant
            i <= chars@.len(),
            special == needs_quotes(chars@.take(i as int)),
            doubled@ == quotes_doubled(chars@.take(i as int)),
        decreases chars@.len() - i,
    {
        let c = chars[i];
        proof {
            let before = chars@.take(i as int);
            let now = chars@.take(i + 1);
            assert(now.drop_last() =~= before);
            assert(now.last() == c);
            assert forall|x: char| now.contains(x) <==> (before.contains(x) || x == c) by {
                if now.contains(x) {
                    let k = choose|k: int| 0 <= k < now.len() && now[k] == x;
                    if k < i {
                        assert(before[k] == x);
                    }
                }
                if before.contains(x) {
                    let k = choose|k: int| 0 <= k < before.len() && before[k] == x;
                    assert(now[k] == x);
                }
                if x == c {
                    assert(now[i as int] == x);
                }
            }
        }
        if c == ',' || c == '"' || c == '\n' {
            special = true;
        }
        if c == '"' {
            doubled.push('"');
            doubled.push('"');
            assert(doubled@ =~= quotes_doubled(chars@.take(i as int)) + seq!['"', '"']);
        } else {
            doubled.push(c);
        }
        i += 1;
    }
    assert(chars@.take(i as int) =~= chars@);
    if special {
        let mut field = String::new();
        field.push('"');
        field.append(doubled.as_str());
        field.push('"');
        assert(field@ =~= quoted(doubled@));
        field
    } else {
        String::from_str(value)
    }
}

/// A character as it is written within HTML.
pub open spec fn html_char(c: char) -> Seq<char> {
    if c == '&' {
        "&amp;"@
    } else if c == '<' {
        "&lt;"@
    } else if c == '>' {
        "&gt;"@
    } else if c == '"' {
        "&quot;"@
    } else {
        seq![c]
    }
}

/// A text as it is written within HTML: `&`, `<`, `>` and `"` are written
/// as entities.
pub open spec fn html_escaped(s: Seq<char>) -> Seq<char>
    decreases s.len(),
{
    if s.len() == 0 {
        s
    } else {
        html_escaped(s.drop_last()) + html_char(s.last())
    }
}

/// Writes a text as it stands within HTML.
pub fn html_escape(s: &str) -> (escaped: String)
    ensures
        escaped@ == html_escaped(s@),
{
    let chars = chars_of(s);
    let mut escaped = String::new();
    let mut i: usize = 0;
    assert(chars@.take(0) =~= Seq::<char>::empty());
    while i < chars.len()
        invariant
            i <= chars@.len(),
            escaped@ == html_escaped(chars@.take(i as int)),
        decreases chars@.len() - i,
    {
        let c = chars[i];
        proof {
            let now = chars@.take(i + 1);
            assert(now.drop_last() =~= chars@.take(i as int));
            assert(now.last() == c);
        }
        if c == '&' {
            escaped.append("&amp;");
        } else if c == '<' {
            escaped.append("&lt;");
        } else if c == '>' {
            escaped.append("&gt;");
        } else if c == '"' {
            escaped.append("&quot;");
        } else {
            escaped.push(c);
            assert(escaped@ =~= html_escaped(chars@.take(i as int)) + seq![c]);
        }
        i += 1;
    }
    assert(chars@.take(i as int) =~= chars@);
    escaped
}

} // verus!
