//! Client library: fluent builders for writes and queries.
//!
//! The builders assemble what a request carries (an `IngestBatch`, an SQL
//! text); sending it over HTTP is the caller's part.
use vstd::prelude::*;
use vstd::string::StrSliceExecFns;

use crate::common::error::RutSeriError;
use crate::common::text::{decimal, push_decimal};

pub mod query;
pub mod write;

verus! {

/// `s` without its trailing slashes.
pub open spec fn without_trailing_slashes(s: Seq<char>) -> Seq<char>
    decreases s.len(),
{
    if s.len() > 0 && s.last() == '/' {
        without_trailing_slashes(s.drop_last())
    } else {
        s
    }
}

/// The base URL a client keeps: the given URL without its trailing
/// slashes (`http://localhost:4000/` becomes `http://localhost:4000`).
pub fn normalize_base_url(url: &str) -> (r: String)
    ensures
        r@ == without_trailing_slashes(url@),
{
    let n = url.unicode_len();
    let mut end: usize = n;
    proof {
        assert(url@.subrange(0, n as int) =~= url@);
    }
    while end > 0 && url.get_char(end - 1) == '/'
        invariant
            n == url@.len(),
            end <= n,
            without_trailing_slashes(url@) == without_trailing_slashes(url@.subrange(0, end as int)),
        decreases end,
    {
        proof {
            let s = url@.subrange(0, end as int);
            assert(s.drop_last() =~= url@.subrange(0, end - 1));
        }
        end = end - 1;
    }
    proof {
        let s = url@.subrange(0, end as int);
        if end > 0 {
            assert(s.last() == url@[end - 1]);
        }
    }
    url.substring_char(0, end).to_owned()
}

/// The text of a failed request: `<action> failed (<code> <reason>): <body>`,
/// the status written as an HTTP status displays.
pub open spec fn failure_message(action: Seq<char>, status: u16, reason: Seq<char>, body: Seq<char>) -> Seq<char> {
    action + " failed ("@ + decimal(status as nat) + " "@ + reason + "): "@ + body
}

/// The error of a failed request: `Internal` with `<action> failed
/// (<code> <reason>): <body>`, where `reason` is the status's reason phrase
/// and `body` the reply's text.
pub fn request_failure(action: &str, status: u16, reason: &str, body: &str) -> (e: RutSeriError)
    ensures
        e matches RutSeriError::Internal(m) && m@ == failure_message(action@, status, reason@, body@),
{
    let mut m = action.to_owned();
    m.append(" failed (");
    push_decimal(&mut m, status as u64);
    m.append(" ");
    m.append(reason);
    m.append("): ");
    m.append(body);
    proof {
        reveal_strlit(" failed (");
        reveal_strlit(" ");
        reveal_strlit("): ");
    }
    RutSeriError::Internal(m)
}

/// What a server's reply to a request means: success for a 2xx status,
/// and otherwise the `request_failure` error.
pub fn reply_outcome(action: &str, status: u16, reason: &str, body: &str) -> (r: Result<(), RutSeriError>)
    ensures
        r is Ok <==> 200 <= status < 300,
        r matches Err(e) ==> e matches RutSeriError::Internal(m) && m@ == failure_message(action@, status, reason@, body@),
{
    if 200 <= status && status < 300 {
        Ok(())
    } else {
        Err(request_failure(action, status, reason, body))
    }
}

} // verus!
