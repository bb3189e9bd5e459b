//! Decisions of the structured-response client: when to retry a request,
//! how long to wait, when polling ends, and where a structured payload may
//! be found in a response. The requests themselves are sent by the caller.
use crate::json::{JsonArray, JsonValue};
use vstd::prelude::*;
use vstd::string::*;

verus! {

/// Attempts at creating a response.
pub const MAX_POST_ATTEMPTS: u32 = 5;

/// First wait before retrying a create request, in milliseconds.
pub const INITIAL_POST_DELAY_MS: u64 = 300;

/// First wait between polls, in milliseconds.
pub const INITIAL_POLL_DELAY_MS: u64 = 2000;

/// Longest wait between polls, in milliseconds.
pub const MAX_POLL_DELAY_MS: u64 = 20000;

/// What to do after a create request answered with `status`.
#[derive(Clone, Copy, Debug, PartialEq, Eq, Structural)]
pub enum PostAction {
    /// Accepted: poll the response.
    Poll,
    /// Transient refusal: wait and try again.
    Retry,
    /// Refused for good: fail with the response body.
    Fail,
    /// Transient refusal on the last attempt: retries are exhausted.
    Exhausted,
}

pub open spec fn is_success(status: u16) -> bool {
    200 <= status < 300
}

/// 429 or a server error.
pub open spec fn is_transient(status: u16) -> bool {
    status == 429 || (500 <= status < 600)
}

pub open spec fn post_action_spec(status: u16, attempt: u32) -> PostAction {
    if is_success(status) {
        PostAction::Poll
    } else if is_transient(status) {
        if attempt + 1 < MAX_POST_ATTEMPTS {
            PostAction::Retry
        } else {
            PostAction::Exhausted
        }
    } else {
        PostAction::Fail
    }
}

/// The action after attempt `attempt` (from 0) answered with `status`.
pub fn post_action(status: u16, attempt: u32) -> (r: PostAction)
    ensures
        r == post_action_spec(status, attempt),
{
    if 200 <= status && status < 300 {
        PostAction::Poll
    } else if status == 429 || (500 <= status && status < 600) {
        if attempt < MAX_POST_ATTEMPTS - 1 {
            PostAction::Retry
        } else {
            PostAction::Exhausted
        }
    } else {
        PostAction::Fail
    }
}

/// The wait before the next create attempt: `delay` times 1.8, rounded,
/// plus `jitter`.
pub fn next_post_delay(delay_ms: u64, jitter_ms: u64) -> (r: u64)
    requires
        delay_ms <= 1_000_000_000_000,
        jitter_ms < 250,
    ensures
        r == (delay_ms * 18 + 5) / 10 + jitter_ms,
{
    (delay_ms * 18 + 5) / 10 + jitter_ms
}

/// Relies on `fastrand::u64` over `0..bound`: some value below `bound`.
#[verifier::external_body]
fn random_below(bound: u64) -> (r: u64)
    requires
        bound > 0,
    ensures
        r < bound,
{
    fastrand::u64(0..bound)
}

/// The wait before the next create attempt, with a random jitter below
/// 250 ms.
pub fn post_backoff(delay_ms: u64) -> (r: u64)
    requires
        delay_ms <= 1_000_000_000_000,
    ensures
        (delay_ms * 18 + 5) / 10 <= r < (delay_ms * 18 + 5) / 10 + 250,
{
    let j = random_below(250);
    next_post_delay(delay_ms, j)
}

/// The next wait between polls: doubled, at most 20 s.
pub fn next_poll_delay(delay_ms: u64) -> (r: u64)
    ensures
        r == if delay_ms * 2 < MAX_POLL_DELAY_MS { delay_ms * 2 } else { MAX_POLL_DELAY_MS as int },
{
    if delay_ms < MAX_POLL_DELAY_MS / 2 {
        delay_ms * 2
    } else {
        MAX_POLL_DELAY_MS
    }
}

/// The sleep before the next poll: the delay plus a random jitter below
/// 500 ms.
pub fn poll_sleep(delay_ms: u64) -> (r: u64)
    requires
        delay_ms <= MAX_POLL_DELAY_MS,
    ensures
        delay_ms <= r < delay_ms + 500,
{
    delay_ms + random_below(500)
}

/// What a polled response's `status` means.
#[derive(Clone, Copy, Debug, PartialEq, Eq, Structural)]
pub enum PollState {
    Completed,
    Failed,
    Running,
}

pub open spec fn poll_state_spec(status: Option<Seq<char>>) -> PollState {
    match status {
        Some(s) => if s == "completed"@ {
            PollState::Completed
        } else if s == "failed"@ || s == "cancelled"@ {
            PollState::Failed
        } else {
            PollState::Running
        },
        None => PollState::Running,
    }
}

fn text_is(s: &String, lit: &str) -> (r: bool)
    ensures
        r == (s@ == lit@),
{
    *s == String::from_str(lit)
}

/// The state of a polled response body.
pub fn poll_state(payload: &JsonValue) -> (r: PollState)
    ensures
        r == poll_state_spec(payload.str_field_spec("status"@)),
{
    match payload.str_field(&String::from_str("status")) {
        Some(s) => {
            if text_is(s, "completed") {
                PollState::Completed
            } else if text_is(s, "failed") || text_is(s, "cancelled") {
                PollState::Failed
            } else {
                PollState::Running
            }
        },
        None => PollState::Running,
    }
}

/// `error.message`, else `last_error.message`, of a failed response.
pub open spec fn failure_detail_spec(payload: JsonValue) -> Option<Seq<char>> {
    match payload.field_spec("error"@) {
        Some(e) if e.str_field_spec("message"@) is Some => e.str_field_spec("message"@),
        _ => match payload.field_spec("last_error"@) {
            Some(e) => e.str_field_spec("message"@),
            None => None,
        },
    }
}

/// The failure message of a failed response, if it gives one.
pub fn failure_detail(payload: &JsonValue) -> (r: Option<String>)
    ensures
        match r {
            Some(s) => failure_detail_spec(*payload) == Some(s@),
            None => failure_detail_spec(*payload) is None,
        },
{
    let msg = String::from_str("message");
    match payload.field(&String::from_str("error")) {
        Some(e) => {
            match e.str_field(&msg) {
                Some(m) => {
                    return Some(m.clone());
                },
                None => {},
            }
        },
        None => {},
    }
    match payload.field(&String::from_str("last_error")) {
        Some(e) => match e.str_field(&msg) {
            Some(m) => Some(m.clone()),
            None => None,
        },
        None => None,
    }
}

pub open spec fn opt_seq(o: Option<JsonValue>) -> Seq<JsonValue> {
    match o {
        Some(v) => seq![v],
        None => Seq::empty(),
    }
}

/// `parsed` then `text` of an output element or content block.
pub open spec fn pair_candidates(v: JsonValue) -> Seq<JsonValue> {
    opt_seq(v.field_spec("parsed"@)) + opt_seq(v.field_spec("text"@))
}

/// Candidates of a list of content blocks, in order.
pub open spec fn blocks_candidates(a: JsonArray) -> Seq<JsonValue>
    decreases a,
{
    match a {
        JsonArray::Empty => Seq::empty(),
        JsonArray::Item(b, rest) => pair_candidates(*b) + blocks_candidates(*rest),
    }
}

/// Candidates of one output element: its own, then its content blocks'.
pub open spec fn item_candidates(v: JsonValue) -> Seq<JsonValue> {
    pair_candidates(v) + match v.field_spec("content"@) {
        Some(JsonValue::Array(a)) => blocks_candidates(a),
        _ => Seq::empty(),
    }
}

/// Candidates of the output elements, in order.
pub open spec fn items_candidates(a: JsonArray) -> Seq<JsonValue>
    decreases a,
{
    match a {
        JsonArray::Empty => Seq::empty(),
        JsonArray::Item(v, rest) => item_candidates(*v) + items_candidates(*rest),
    }
}

/// Where a structured payload may be, in the order they are tried:
/// `output_parsed`, `output_text`, then for each element of `output` its
/// `parsed` and `text` and those of each block of its `content`.
pub open spec fn structured_candidates_spec(root: JsonValue) -> Seq<JsonValue> {
    opt_seq(root.field_spec("output_parsed"@)) + opt_seq(root.field_spec("output_text"@)) + match root.field_spec("output"@) {
        Some(JsonValue::Array(a)) => items_candidates(a),
        _ => Seq::empty(),
    }
}

fn push_field(out: &mut Vec<JsonValue>, v: &JsonValue, k: &str)
    ensures
        final(out)@ == old(out)@ + opt_seq(v.field_spec(k@)),
{
    match v.field(&String::from_str(k)) {
        Some(x) => {
            out.push(x.deep_clone());
            assert(final(out)@ =~= old(out)@ + seq![*x]);
        },
        None => {
            assert(final(out)@ =~= old(out)@ + Seq::<JsonValue>::empty());
        },
    }
}

fn push_blocks(out: &mut Vec<JsonValue>, a: &JsonArray)
    ensures
        final(out)@ == old(out)@ + blocks_candidates(*a),
    decreases a,
{
    match a {
        JsonArray::Empty => {
            assert(final(out)@ =~= old(out)@ + Seq::<JsonValue>::empty());
        },
        JsonArray::Item(b, rest) => {
            let ghost o = out@;
            push_field(out, &**b, "parsed");
            push_field(out, &**b, "text");
            push_blocks(out, &**rest);
            assert(out@ =~= o + blocks_candidates(*a));
        },
    }
}

fn push_items(out: &mut Vec<JsonValue>, a: &JsonArray)
    ensures
        final(out)@ == old(out)@ + items_candidates(*a),
    decreases a,
{
    match a {
        JsonArray::Empty => {
            assert(final(out)@ =~= old(out)@ + Seq::<JsonValue>::empty());
        },
        JsonArray::Item(v, rest) => {
            let ghost o = out@;
            push_field(out, &**v, "parsed");
            push_field(out, &**v, "text");
            match (**v).field(&String::from_str("content")) {
                Some(JsonValue::Array(blocks)) => {
                    push_blocks(out, blocks);
                },
                _ => {},
            }
            let ghost mid = out@;
            push_items(out, &**rest);
            assert(out@ =~= o + items_candidates(*a));
        },
    }
}

/// The candidate payloads of a completed response, in the order they are
/// tried.
pub fn structured_candidates(root: &JsonValue) -> (r: Vec<JsonValue>)
    ensures
        r@ == structured_candidates_spec(*root),
{
    let mut out: Vec<JsonValue> = Vec::new();
    push_field(&mut out, root, "output_parsed");
    push_field(&mut out, root, "output_text");
    match root.field(&String::from_str("output")) {
        Some(JsonValue::Array(a)) => {
            push_items(&mut out, a);
        },
        _ => {},
    }
    assert(out@ =~= structured_candidates_spec(*root));
    out
}

} // verus!
