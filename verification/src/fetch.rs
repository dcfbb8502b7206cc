//! The resilient fetcher's decision logic: anti-bot response detection and
//! the retry/backoff schedule. The network calls themselves live outside
//! the library; these functions decide what to do with each outcome.

use vstd::prelude::*;
use crate::text;

verus! {

/// The response body carries a challenge-page marker.
pub open spec fn bot_marker_hit(body: Seq<char>) -> bool {
    ||| text::contains_seq(body, "cf-ray"@)
    ||| text::contains_seq(body, "Attention Required"@)
    ||| text::contains_seq(body, "Please wait while your request is being verified"@)
}

/// The anti-bot heuristic: a blocking status code or a challenge-page
/// marker in the body.
pub open spec fn looks_like_bot_spec(status: u16, body: Seq<char>) -> bool {
    status == 403 || status == 503 || bot_marker_hit(body)
}

/// Whether a response looks like a challenge page; see
/// [`looks_like_bot_spec`].
pub fn looks_like_bot(status: u16, body: &String) -> (r: bool)
    ensures
        r == looks_like_bot_spec(status, body@),
{
    if status == 403 || status == 503 {
        return true;
    }
    let b = text::chars_of(body.as_str());
    text::contains_sub(&b, &text::chars_of("cf-ray")) || text::contains_sub(
        &b,
        &text::chars_of("Attention Required"),
    ) || text::contains_sub(
        &b,
        &text::chars_of("Please wait while your request is being verified"),
    )
}

/// A response is accepted only with a success status, a non-empty body and
/// no anti-bot hit; anything else retries like a network failure.
pub open spec fn response_ok_spec(status: u16, body: Seq<char>) -> bool {
    &&& 200 <= status < 300
    &&& body.len() > 0
    &&& !looks_like_bot_spec(status, body)
}

/// Whether a response is accepted; see [`response_ok_spec`].
pub fn response_ok(status: u16, body: &String) -> (r: bool)
    ensures
        r == response_ok_spec(status, body@),
{
    200 <= status && status < 300 && !body.as_str().is_empty() && !looks_like_bot(status, body)
}

/// The backoff delay of the attempt after one with delay `b`: doubled and
/// capped at 1500 ms.
pub open spec fn next_backoff(b: int) -> int {
    if 2 * b < 1500 {
        2 * b
    } else {
        1500
    }
}

/// The retry state of one fetch: how many attempts are left and how long
/// to sleep before the next one. The schedule starts at 300 ms and doubles
/// to a 1500 ms ceiling: 300, 600, 1200.
#[derive(Clone, Copy, Debug, PartialEq, Eq, Structural)]
pub struct RetryState {
    pub attempts_left: u8,
    pub backoff_ms: u64,
}

impl RetryState {
    /// The state invariant: a bounded attempt budget and delay.
    pub open spec fn wf(self) -> bool {
        self.attempts_left <= 3 && 300 <= self.backoff_ms <= 1500
    }

    /// The state before the first attempt: three attempts, 300 ms backoff.
    pub fn start() -> (r: RetryState)
        ensures
            r == (RetryState { attempts_left: 3u8, backoff_ms: 300u64 }),
            r.wf(),
    {
        RetryState { attempts_left: 3, backoff_ms: 300 }
    }

    /// No attempts remain: the fetch degrades to "no data".
    pub fn exhausted(&self) -> (r: bool)
        ensures
            r == (self.attempts_left == 0),
    {
        self.attempts_left == 0
    }

    /// The state after one failed attempt: one fewer attempt, the backoff
    /// doubled and capped.
    pub fn after_failure(self) -> (r: RetryState)
        requires
            self.attempts_left > 0,
            self.wf(),
        ensures
            r.attempts_left == self.attempts_left - 1,
            r.backoff_ms as int == next_backoff(self.backoff_ms as int),
            r.wf(),
    {
        let doubled = self.backoff_ms * 2;
        let capped = if doubled < 1500 {
            doubled
        } else {
            1500
        };
        RetryState { attempts_left: self.attempts_left - 1, backoff_ms: capped }
    }
}

/// The attempt whose response would be accepted, among the recorded
/// `(status, body)` outcomes of one fetch, in order.
pub fn first_accepted(attempts: &Vec<(u16, String)>) -> (r: Option<usize>)
    ensures
        match r {
            Some(i) => i < attempts@.len() && response_ok_spec(
                attempts@[i as int].0,
                attempts@[i as int].1@,
            ) && forall|k: int|
                0 <= k < i ==> !response_ok_spec(attempts@[k].0, attempts@[k].1@),
            None => forall|k: int|
                0 <= k < attempts@.len() ==> !response_ok_spec(attempts@[k].0, attempts@[k].1@),
        },
{
    let mut i: usize = 0;
    while i < attempts.len()
        invariant
            i <= attempts@.len(),
            forall|k: int| 0 <= k < i ==> !response_ok_spec(attempts@[k].0, attempts@[k].1@),
        decreases attempts@.len() - i,
    {
        if response_ok(attempts[i].0, &attempts[i].1) {
            return Some(i);
        }
        i += 1;
    }
    None
}

} // verus!
