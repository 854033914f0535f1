//! Decision core of the credentialed HTTP client.
//!
//! The client hides retry and credential rotation from its callers. The
//! policy lives here as a pure state machine: every observed response is
//! classified, and `retry_step` turns the classification into the next
//! client state and the action to perform (use the response, sleep and
//! retry, rotate credentials, or give up). Performing the calls and the
//! sleeps is the surrounding runtime's job.

use vstd::prelude::*;

use vstd::string::StringExecFns;

verus! {

/// First backoff after a transport failure, in seconds.
pub const INITIAL_BACKOFF: u64 = 1;

/// Constant added on every backoff doubling.
pub const BACKOFF_JITTER: u64 = 1;

/// Ceiling on accumulated backoff, in seconds; beyond it the call is
/// surfaced as fatal.
pub const BACKOFF_CAP: u64 = 300;

/// Sleep before reusing the first credential after rotation wrapped
/// around, in seconds.
pub const ROTATION_COOLDOWN: u64 = 60;

/// How a single response (or its absence) is classified.
#[derive(Debug, Clone, Copy, PartialEq, Eq, Structural)]
pub enum ResponseClass {
    /// A usable response.
    Success,
    /// A connection-level failure: retried with capped backoff.
    Transport,
    /// A rate-limit signal: resolved by credential rotation, invisible to
    /// the caller.
    RateLimited,
    /// Any other non-success status: fatal for this call.
    HttpStatus(u16),
    /// A query response with neither data nor errors: fatal.
    EmptyData,
}

/// An error surfaced to the caller of a client operation.
#[derive(Debug, Clone, Copy, PartialEq, Eq, Structural)]
pub enum FatalError {
    /// Accumulated backoff exceeded the ceiling.
    BackoffExhausted,
    /// A non-success, non-rate-limit status.
    HttpStatus(u16),
    /// The query response carried an error list and no data.
    QueryFailed,
    /// The query response carried neither data nor errors.
    EmptyData,
}

pub open spec fn spec_classify(transport_failure: bool, status: u16, body_mentions_abuse: bool)
    -> ResponseClass {
    if transport_failure {
        ResponseClass::Transport
    } else if status == 429 || status == 422 {
        ResponseClass::RateLimited
    } else if 200 <= status < 300 {
        if body_mentions_abuse {
            ResponseClass::RateLimited
        } else {
            ResponseClass::Success
        }
    } else {
        ResponseClass::HttpStatus(status)
    }
}

/// Classifies one observed call outcome: transport failures are retried,
/// 429/422 and success-shaped bodies that mention abuse are rate-limit
/// signals, other non-success statuses are fatal.
pub fn classify_response(transport_failure: bool, status: u16, body_mentions_abuse: bool) -> (c:
    ResponseClass)
    ensures
        c == spec_classify(transport_failure, status, body_mentions_abuse),
{
    if transport_failure {
        ResponseClass::Transport
    } else if status == 429 || status == 422 {
        ResponseClass::RateLimited
    } else if 200 <= status && status < 300 {
        if body_mentions_abuse {
            ResponseClass::RateLimited
        } else {
            ResponseClass::Success
        }
    } else {
        ResponseClass::HttpStatus(status)
    }
}

/// What a query-endpoint body asks the client to do.
#[derive(Debug, Clone, Copy, PartialEq, Eq, Structural)]
pub enum QueryDisposition {
    /// Data present: use it (stray error entries are logged, not fatal).
    UseData,
    /// No data, only errors: fail the call.
    FailErrors,
    /// No data, a message mentioning abuse: a rate-limit signal.
    RateLimitedBody,
    /// Neither data nor errors nor message: a protocol anomaly, fatal.
    Empty,
    /// No data, a message without an abuse hint: fail the call.
    FailMessage,
}

pub open spec fn spec_classify_query_body(
    has_data: bool,
    has_errors: bool,
    has_message: bool,
    message_mentions_abuse: bool,
) -> QueryDisposition {
    if has_data {
        QueryDisposition::UseData
    } else if has_errors {
        QueryDisposition::FailErrors
    } else if has_message {
        if message_mentions_abuse {
            QueryDisposition::RateLimitedBody
        } else {
            QueryDisposition::FailMessage
        }
    } else {
        QueryDisposition::Empty
    }
}

/// Decides what a query response body means: present data wins, an error
/// list without data is fatal, an abuse message is a rate-limit signal,
/// and an entirely empty body is a protocol anomaly.
pub fn classify_query_body(
    has_data: bool,
    has_errors: bool,
    has_message: bool,
    message_mentions_abuse: bool,
) -> (d: QueryDisposition)
    ensures
        d == spec_classify_query_body(has_data, has_errors, has_message, message_mentions_abuse),
{
    if has_data {
        QueryDisposition::UseData
    } else if has_errors {
        QueryDisposition::FailErrors
    } else if has_message {
        if message_mentions_abuse {
            QueryDisposition::RateLimitedBody
        } else {
            QueryDisposition::FailMessage
        }
    } else {
        QueryDisposition::Empty
    }
}

/// The ceiling on a batch query's reported rate-limit cost. A higher cost
/// means the query shape regressed; the crawl must stop at once rather
/// than retry.
pub fn batch_cost_acceptable(cost: u16) -> (ok: bool)
    ensures
        ok == (cost <= 1),
{
    cost <= 1
}

/// Mutable client state shared by all callers: the backoff ladder of the
/// current call and the index of the credential in use.
#[derive(Debug, Clone, Copy, PartialEq, Eq, Structural)]
pub struct RetryState {
    /// Next sleep on a transport failure, in seconds.
    pub backoff: u64,
    /// Backoff already accumulated for the current call, in seconds.
    pub waited: u64,
    /// Index of the credential currently in use.
    pub credential: usize,
}

impl RetryState {
    pub open spec fn wf(&self, credential_count: usize) -> bool {
        &&& INITIAL_BACKOFF <= self.backoff <= 2 * BACKOFF_CAP + BACKOFF_JITTER
        &&& self.waited <= BACKOFF_CAP
        &&& self.credential < credential_count
    }

    /// Fresh state for a new call: initial backoff, nothing waited,
    /// first credential.
    pub fn new() -> (s: RetryState)
        ensures
            s.backoff == INITIAL_BACKOFF,
            s.waited == 0,
            s.credential == 0,
    {
        RetryState { backoff: INITIAL_BACKOFF, waited: 0, credential: 0 }
    }
}

/// The action the caller must perform after one classified response.
#[derive(Debug, Clone, Copy, PartialEq, Eq, Structural)]
pub enum RetryDecision {
    /// Use the response.
    Proceed,
    /// Sleep this many seconds, then retry the same call.
    SleepRetry { seconds: u64 },
    /// Switch to this credential; sleep the cooldown first (non-zero
    /// exactly when rotation wrapped back to the first credential).
    Rotate { credential: usize, cooldown: u64 },
    /// Give up on this call and surface the error.
    Fail { error: FatalError },
}

/// The successor state after one more transport failure.
pub open spec fn transport_next(s: RetryState) -> RetryState {
    RetryState {
        backoff: (2 * s.backoff + BACKOFF_JITTER) as u64,
        waited: (s.waited + s.backoff) as u64,
        credential: s.credential,
    }
}

/// Whether one more transport failure exhausts the backoff budget.
pub open spec fn transport_exhausted(s: RetryState) -> bool {
    s.waited + s.backoff > BACKOFF_CAP
}

pub open spec fn spec_retry_step(s: RetryState, class: ResponseClass, credential_count: usize)
    -> (RetryState, RetryDecision) {
    match class {
        ResponseClass::Success => (s, RetryDecision::Proceed),
        ResponseClass::Transport => if transport_exhausted(s) {
            (s, RetryDecision::Fail { error: FatalError::BackoffExhausted })
        } else {
            (transport_next(s), RetryDecision::SleepRetry { seconds: s.backoff })
        },
        ResponseClass::RateLimited => {
            let next = ((s.credential + 1) % (credential_count as int)) as usize;
            (
                RetryState { backoff: s.backoff, waited: s.waited, credential: next },
                RetryDecision::Rotate {
                    credential: next,
                    cooldown: if next == 0 {
                        ROTATION_COOLDOWN
                    } else {
                        0
                    },
                },
            )
        },
        ResponseClass::HttpStatus(code) => (
            s,
            RetryDecision::Fail { error: FatalError::HttpStatus(code) },
        ),
        ResponseClass::EmptyData => (s, RetryDecision::Fail { error: FatalError::EmptyData }),
    }
}

/// Advances the client state by one classified response and returns the
/// action to perform: transport failures sleep and double the backoff
/// until the ceiling, rate limits rotate to the next credential (with a
/// cooldown once rotation wraps), and fatal classes surface an error.
pub fn retry_step(state: &mut RetryState, class: ResponseClass, credential_count: usize) -> (d:
    RetryDecision)
    requires
        old(state).wf(credential_count),
        credential_count >= 1,
    ensures
        final(state).wf(credential_count),
        (*final(state), d) == spec_retry_step(*old(state), class, credential_count),
{
    match class {
        ResponseClass::Success => RetryDecision::Proceed,
        ResponseClass::Transport => {
            if state.waited + state.backoff > BACKOFF_CAP {
                RetryDecision::Fail { error: FatalError::BackoffExhausted }
            } else {
                let seconds = state.backoff;
                state.waited = state.waited + state.backoff;
                state.backoff = 2 * state.backoff + BACKOFF_JITTER;
                RetryDecision::SleepRetry { seconds }
            }
        },
        ResponseClass::RateLimited => {
            let next = (state.credential + 1) % credential_count;
            state.credential = next;
            let cooldown = if next == 0 {
                ROTATION_COOLDOWN
            } else {
                0
            };
            RetryDecision::Rotate { credential: next, cooldown }
        },
        ResponseClass::HttpStatus(code) => RetryDecision::Fail {
            error: FatalError::HttpStatus(code),
        },
        ResponseClass::EmptyData => RetryDecision::Fail { error: FatalError::EmptyData },
    }
}

/// The state after `k` consecutive transport failures, each within the
/// backoff budget.
pub open spec fn iter_transport(s: RetryState, k: nat) -> RetryState
    decreases k,
{
    if k == 0 {
        s
    } else {
        iter_transport(transport_next(s), (k - 1) as nat)
    }
}

/// Backoff termination (the retry loop cannot spin forever): from any
/// well-formed state, a call that fails at the transport level on every
/// attempt reaches the `Fail` decision after a bounded number of retries,
/// because every retry adds at least one second to the accumulated wait
/// and the wait is capped.
pub proof fn lemma_backoff_termination(s: RetryState, credential_count: usize)
    requires
        s.wf(credential_count),
    ensures
        exists|k: nat|
            k <= BACKOFF_CAP + 1 - s.waited && transport_exhausted(#[trigger] iter_transport(s, k)),
    decreases BACKOFF_CAP + 1 - s.waited,
{
    if transport_exhausted(s) {
        assert(iter_transport(s, 0) == s);
        assert(transport_exhausted(iter_transport(s, 0)));
    } else {
        let s2 = transport_next(s);
        assert(s2.waited >= s.waited + 1);
        assert(s2.wf(credential_count));
        lemma_backoff_termination(s2, credential_count);
        let k2 = choose|k: nat|
            k <= BACKOFF_CAP + 1 - s2.waited && transport_exhausted(
                #[trigger] iter_transport(s2, k),
            );
        assert(iter_transport(s, k2 + 1) == iter_transport(s2, k2));
        assert(transport_exhausted(iter_transport(s, (k2 + 1) as nat)));
    }
}

/// The request URL scheme prefix that marks a path as already absolute.
pub open spec fn https_prefix() -> Seq<char> {
    seq!['h', 't', 't', 'p', 's', ':', '/', '/']
}

/// The forge API root that relative paths are resolved against.
pub open spec fn api_base() -> Seq<char> {
    "https://api.github.com/"@
}

/// Whether a path already carries the absolute-URL scheme prefix.
fn starts_with_https(path: &str) -> (b: bool)
    ensures
        b == (path@.len() >= 8 && path@.subrange(0, 8) == https_prefix()),
{
    let n = path.unicode_len();
    if n < 8 {
        return false;
    }
    let b = path.get_char(0) == 'h' && path.get_char(1) == 't' && path.get_char(2) == 't'
        && path.get_char(3) == 'p' && path.get_char(4) == 's' && path.get_char(5) == ':'
        && path.get_char(6) == '/' && path.get_char(7) == '/';
    proof {
        if b {
            assert(path@.subrange(0, 8) =~= https_prefix());
        } else {
            assert(path@.subrange(0, 8) != https_prefix()) by {
                if path@.subrange(0, 8) == https_prefix() {
                    assert(forall|k: int|
                        0 <= k < 8 ==> path@[k] == #[trigger] https_prefix()[k]);
                }
            }
        }
    }
    b
}

/// The URL a client request goes to: absolute paths pass through,
/// anything else is resolved against the forge API root.
pub fn request_url(path: &str) -> (url: String)
    ensures
        url@ == if path@.len() >= 8 && path@.subrange(0, 8) == https_prefix() {
            path@
        } else {
            api_base() + path@
        },
{
    if starts_with_https(path) {
        path.to_owned()
    } else {
        let mut url = "https://api.github.com/".to_owned();
        url.append(path);
        url
    }
}

/// The authorization header value carrying a credential.
pub fn auth_header(token: &str) -> (h: String)
    ensures
        h@ == "token "@ + token@,
{
    let mut h = "token ".to_owned();
    h.append(token);
    h
}

/// The fixed identifying user-agent string sent with every request.
pub fn user_agent() -> (ua: &'static str)
    ensures
        ua@ == "rust-repos (https://github.com/rust-ops/rust-repos)"@,
{
    "rust-repos (https://github.com/rust-ops/rust-repos)"
}

/// The credential the client must attach to its next request.
pub fn current_token<'a>(tokens: &'a Vec<String>, state: &RetryState) -> (t: &'a String)
    requires
        state.credential < tokens@.len(),
    ensures
        *t == tokens@[state.credential as int],
{
    &tokens[state.credential]
}

} // verus!
