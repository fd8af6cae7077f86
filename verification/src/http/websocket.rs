//! What a WebSocket scenario reports, and the host that its URL names.

use vstd::prelude::*;
use crate::text::{chars_of, has_prefix, join2, starts_with, substring};

verus! {

/// What came of one step of a scenario.
#[derive(Debug, Clone)]
pub struct WebSocketStepResult {
    pub step_index: usize,
    pub step_type: String,
    pub elapsed_ms: u64,
    pub success: bool,
    /// What was received, where the step received.
    pub message: Option<String>,
    /// Why the step failed, where it did.
    pub error: Option<String>,
}

/// What came of a whole scenario.
#[derive(Debug, Clone)]
pub struct WebSocketResult {
    pub step_results: Vec<WebSocketStepResult>,
    pub total_elapsed_ms: u64,
    /// Whether the handshake succeeded.
    pub connected: bool,
    pub error: Option<String>,
}

/// The URL without its scheme, `wss://` or `ws://`.
pub open spec fn after_scheme(url: Seq<char>) -> Seq<char> {
    if starts_with(url, "wss://"@) {
        url.skip(6)
    } else if starts_with(url, "ws://"@) {
        url.skip(5)
    } else {
        url
    }
}

/// Whether `c` ends the authority of a URL.
pub open spec fn ends_authority(c: char) -> bool {
    c == '/' || c == '?' || c == '#'
}

/// The length of the authority with which `rest` begins: up to the first
/// `/`, `?` or `#`.
pub open spec fn authority_len(rest: Seq<char>) -> int
    decreases rest.len(),
{
    if rest.len() == 0 || ends_authority(rest[0]) {
        0
    } else {
        1 + authority_len(rest.skip(1))
    }
}

/// The host, with its port if it has one, that a WebSocket URL names; none
/// where the URL names no host.
pub open spec fn host_of(url: Seq<char>) -> Option<Seq<char>> {
    let rest = after_scheme(url);
    let n = authority_len(rest);
    if n == 0 {
        None
    } else {
        Some(rest.take(n))
    }
}

/// Takes the host, with its port if it has one, out of a WebSocket URL, for
/// the `Host` header.
pub fn extract_host(url: &str) -> (host: Result<String, String>)
    ensures
        match host_of(url@) {
            Some(h) => host matches Ok(found) && found@ == h,
            None => host matches Err(e) && e@ == "Cannot extract host from URL: "@ + url@,
        },
{
    let chars = chars_of(url);
    let secure = chars_of("wss://");
    let plain = chars_of("ws://");
    proof {
        reveal_strlit("wss://");
        reveal_strlit("ws://");
    }
    let start: usize = if has_prefix(&chars, &secure) {
        6
    } else if has_prefix(&chars, &plain) {
        5
    } else {
        0
    };
    let ghost rest = chars@.skip(start as int);
    assert(rest == after_scheme(url@));
    let mut end: usize = start;
    assert(rest.skip(0) =~= rest);
    while end < chars.len() && !(chars[end] == '/' || chars[end] == '?' || chars[end] == '#')
        invariant
            start <= end <= chars@.len(),
            rest == chars@.skip(start as int),
            authority_len(rest) == (end - start) + authority_len(rest.skip(end - start)),
        decreases chars@.len() - end,
    {
        proof {
            let here = rest.skip(end - start);
            assert(here[0] == chars@[end as int]);
            assert(here.skip(1) =~= rest.skip(end - start + 1));
        }
        end += 1;
    }
    proof {
        let here = rest.skip(end - start);
        if end < chars@.len() {
            assert(here[0] == chars@[end as int]);
        }
        assert(authority_len(here) == 0);
        assert(rest.take(end - start) =~= chars@.subrange(start as int, end as int));
    }
    if end == start {
        Err(join2("Cannot extract host from URL: ", url))
    } else {
        Ok(substring(&chars, start, end))
    }
}

} // verus!
