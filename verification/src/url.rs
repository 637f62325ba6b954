//! The WebSocket endpoint of a Home Assistant instance.

use vstd::prelude::*;
use crate::text::{is_prefix_of, starts_with, concat};

verus! {

/// `s` without its trailing `/` characters.
pub open spec fn trim_end_slashes(s: Seq<char>) -> Seq<char>
    decreases s.len(),
{
    if s.len() > 0 && s.last() == '/' {
        trim_end_slashes(s.drop_last())
    } else {
        s
    }
}

/// The scheme rewrite: `http://` becomes `ws://`, `https://` becomes `wss://`,
/// anything else is kept.
pub open spec fn ws_base(t: Seq<char>) -> Seq<char> {
    if is_prefix_of("http://"@, t) {
        "ws://"@ + t.skip(7)
    } else if is_prefix_of("https://"@, t) {
        "wss://"@ + t.skip(8)
    } else {
        t
    }
}

/// The WebSocket URL of the API for the base URL `base`.
pub open spec fn ws_url(base: Seq<char>) -> Seq<char> {
    ws_base(trim_end_slashes(base)) + "/api/websocket"@
}

proof fn lemma_trim_prefix(s: Seq<char>, end: int)
    requires
        0 <= end < s.len(),
        forall|j: int| end <= j < s.len() ==> s[j] == '/',
    ensures
        trim_end_slashes(s) == trim_end_slashes(s.take(end)),
    decreases s.len() - end,
{
    assert(s.drop_last() =~= s.take(s.len() - 1));
    if end < s.len() - 1 {
        lemma_trim_prefix(s.drop_last(), end);
        assert(s.drop_last().take(end) =~= s.take(end));
    }
}

/// Builds the WebSocket URL of the API from the base URL of the instance.
pub fn build_ws_url(base: &str) -> (url: String)
    ensures
        url@ == ws_url(base@),
{
    let n: usize = base.unicode_len();
    let mut end: usize = n;
    while end > 0 && base.get_char(end - 1) == '/'
        invariant
            n == base@.len(),
            end <= n,
            forall|j: int| end <= j < n ==> base@[j] == '/',
        decreases end,
    {
        end -= 1;
    }
    proof {
        if end < n {
            lemma_trim_prefix(base@, end as int);
        } else {
            assert(base@.take(n as int) =~= base@);
        }
        let t = base@.take(end as int);
        assert(t.len() > 0 ==> t.last() != '/');
        assert(trim_end_slashes(t) == t);
    }
    let trimmed = base.substring_char(0, end);
    let ws = if starts_with(trimmed, "http://") {
        proof { reveal_strlit("http://"); }
        concat("ws://", trimmed.substring_char(7, end))
    } else if starts_with(trimmed, "https://") {
        proof { reveal_strlit("https://"); }
        concat("wss://", trimmed.substring_char(8, end))
    } else {
        String::from_str(trimmed)
    };
    proof {
        assert(trimmed@.subrange(7, end as int) =~= trimmed@.skip(7));
        assert(trimmed@.subrange(8, end as int) =~= trimmed@.skip(8));
    }
    concat(ws.as_str(), "/api/websocket")
}

/// Trailing slashes of the base URL do not change the endpoint.
pub proof fn lemma_trailing_slash_ignored(base: Seq<char>)
    ensures
        ws_url(base.push('/')) == ws_url(base),
{
    assert(base.push('/').drop_last() =~= base);
}

/// The endpoint keeps the host and path of the base and swaps the scheme:
/// `http://rest` gives `ws://rest/api/websocket` and `https://rest` gives
/// `wss://rest/api/websocket`, where `rest` has no trailing slash.
pub proof fn lemma_scheme_swap(rest: Seq<char>)
    requires
        rest.len() > 0,
        rest.last() != '/',
    ensures
        ws_url("http://"@ + rest) == "ws://"@ + rest + "/api/websocket"@,
        ws_url("https://"@ + rest) == "wss://"@ + rest + "/api/websocket"@,
{
    reveal_strlit("http://");
    reveal_strlit("https://");
    let a = "http://"@ + rest;
    let b = "https://"@ + rest;
    assert(a.last() == rest.last());
    assert(b.last() == rest.last());
    assert(trim_end_slashes(a) == a);
    assert(trim_end_slashes(b) == b);
    assert(a.take(7) =~= "http://"@);
    assert(a.skip(7) =~= rest);
    assert(b.take(8) =~= "https://"@);
    assert(b.skip(8) =~= rest);
    assert(!is_prefix_of("http://"@, b)) by {
        assert(b[4] == 's');
        assert("http://"@[4] == ':');
    }
}

} // verus!
