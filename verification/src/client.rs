//! The chat client's decisions: which failures are worth another attempt,
//! how long to wait before it, and what an HTTP status means.
use vstd::prelude::*;
use crate::text::{chars_of, push_decimal, decimal, trim, trim_bounds, slice_range, string_of};
use crate::sse::SseError;

verus! {

broadcast use vstd::string::group_string_axioms;

/// How many times a failed request is repeated.
pub const MAX_RETRIES: usize = 5;

/// Why a chat request failed.
#[derive(Clone, Debug)]
pub enum ClientError {
    /// The provider answered 429.
    RateLimited { body: String },
    /// The provider answered another error status.
    ApiError { status: u16, body: String },
    /// The request did not get through; whether connecting failed or it
    /// timed out.
    Http { connect: bool, timeout: bool },
    /// The request body could not be built.
    BuildRequest,
    /// The streamed reply could not be read.
    Sse(SseError),
}

/// A status the provider may recover from.
pub open spec fn transient_status(status: u16) -> bool {
    status == 500 || status == 502 || status == 503 || status == 504
}

impl ClientError {
    /// Whether the request is worth repeating.
    pub fn is_retryable(&self) -> (b: bool)
        ensures
            b == match self {
                ClientError::ApiError { status, .. } => transient_status(*status),
                ClientError::Http { connect, timeout } => *connect || *timeout,
                ClientError::Sse(e) => e is Read || e is TruncatedStream,
                _ => false,
            },
    {
        match self {
            ClientError::ApiError { status, .. } => *status == 500 || *status == 502 || *status
                == 503 || *status == 504,
            ClientError::Http { connect, timeout } => *connect || *timeout,
            ClientError::Sse(e) => e.is_retryable(),
            _ => false,
        }
    }

    /// The text the error is shown as.
    pub open spec fn message_text(&self) -> Seq<char> {
        match self {
            ClientError::RateLimited { body } => "rate limited (429): "@ + body@,
            ClientError::ApiError { status, body } => "api error "@ + decimal(*status as nat)
                + ": "@ + body@,
            ClientError::Http { .. } => "http request failed"@,
            ClientError::BuildRequest => "failed to build request body"@,
            ClientError::Sse(_) => "sse error"@,
        }
    }

    /// The error as it is shown.
    pub fn message(&self) -> (r: String)
        ensures
            r@ == self.message_text(),
    {
        match self {
            ClientError::RateLimited { body } => {
                let mut s = String::new();
                s.append("rate limited (429): ");
                s.append(body.as_str());
                s
            },
            ClientError::ApiError { status, body } => {
                let mut s = String::new();
                s.append("api error ");
                push_decimal(&mut s, *status as u64);
                s.append(": ");
                s.append(body.as_str());
                s
            },
            ClientError::Http { .. } => "http request failed".to_string(),
            ClientError::BuildRequest => "failed to build request body".to_string(),
            ClientError::Sse(_) => "sse error".to_string(),
        }
    }

    /// The exit status of the command line for this error.
    pub fn exit_code(&self) -> (r: i32)
        ensures
            r == match self {
                ClientError::RateLimited { .. } => 4int,
                ClientError::ApiError { .. } => 5,
                ClientError::Http { .. } => 6,
                ClientError::Sse(_) => 7,
                ClientError::BuildRequest => 1,
            },
    {
        match self {
            ClientError::RateLimited { .. } => 4,
            ClientError::ApiError { .. } => 5,
            ClientError::Http { .. } => 6,
            ClientError::Sse(_) => 7,
            ClientError::BuildRequest => 1,
        }
    }
}

/// Why a run of the agent failed: the chat client's error, or another
/// failure described by its message.
#[derive(Clone, Debug)]
pub enum AgentError {
    Client(ClientError),
    Other(String),
}

impl AgentError {
    /// The error as it is shown: the cause's own message.
    pub fn message(&self) -> (r: String)
        ensures
            r@ == match self {
                AgentError::Client(c) => c.message_text(),
                AgentError::Other(m) => m@,
            },
    {
        match self {
            AgentError::Client(c) => c.message(),
            AgentError::Other(m) => m.clone(),
        }
    }

    /// The exit status of the command line for this error: the client
    /// error's own, 1 for any other.
    pub fn exit_code(&self) -> (r: i32)
        ensures
            r == match self {
                AgentError::Client(c) => match c {
                    ClientError::RateLimited { .. } => 4int,
                    ClientError::ApiError { .. } => 5,
                    ClientError::Http { .. } => 6,
                    ClientError::Sse(_) => 7,
                    ClientError::BuildRequest => 1,
                },
                AgentError::Other(_) => 1,
            },
    {
        match self {
            AgentError::Client(c) => c.exit_code(),
            AgentError::Other(_) => 1,
        }
    }
}

impl From<ClientError> for AgentError {
    fn from(e: ClientError) -> (r: AgentError) {
        AgentError::Client(e)
    }
}

impl vstd::std_specs::convert::FromSpecImpl<ClientError> for AgentError {
    open spec fn obeys_from_spec() -> bool {
        true
    }

    open spec fn from_spec(e: ClientError) -> AgentError {
        AgentError::Client(e)
    }
}

/// What an HTTP status says of a request: nothing for a success (2xx),
/// rate limiting for 429, an API error otherwise; the body is trimmed.
pub fn status_error(status: u16, body: &str) -> (r: Option<ClientError>)
    ensures
        if 200 <= status < 300 {
            r is None
        } else if status == 429 {
            r matches Some(ClientError::RateLimited { body: b }) && b@ == trim(body@)
        } else {
            r matches Some(ClientError::ApiError { status: s, body: b }) && s == status && b@ == trim(
                body@,
            )
        },
{
    if 200 <= status && status < 300 {
        return None;
    }
    let v = chars_of(body);
    let (a, b) = trim_bounds(v.as_slice(), 0, v.len());
    proof {
        assert(v@.subrange(0, v@.len() as int) =~= v@);
    }
    let trimmed = string_of(slice_range(v.as_slice(), a, b).as_slice());
    if status == 429 {
        Some(ClientError::RateLimited { body: trimmed })
    } else {
        Some(ClientError::ApiError { status, body: trimmed })
    }
}

/// The wait before retry number `attempt` (from 1): doubling from one
/// second, at most a minute.
pub open spec fn retry_delay(attempt: nat) -> nat {
    vstd::math::min(vstd::arithmetic::power2::pow2((attempt - 1) as nat) as int, 60) as nat
}

/// Seconds to wait before retry number `attempt`.
pub fn retry_delay_secs(attempt: usize) -> (r: u64)
    requires
        attempt >= 1,
    ensures
        r == retry_delay(attempt as nat),
{
    proof {
        vstd::arithmetic::power2::lemma2_to64();
        if attempt - 1 > 6 {
            vstd::arithmetic::power2::lemma_pow2_strictly_increases(6, (attempt - 1) as nat);
        }
    }
    let k = attempt - 1;
    if k == 0 {
        1
    } else if k == 1 {
        2
    } else if k == 2 {
        4
    } else if k == 3 {
        8
    } else if k == 4 {
        16
    } else if k == 5 {
        32
    } else {
        60
    }
}

/// Whether a request that failed on attempt `attempt` (from 0) is made
/// again.
pub fn should_retry(attempt: usize, err: &ClientError) -> (r: bool)
    ensures
        r == (attempt < MAX_RETRIES && match err {
            ClientError::ApiError { status, .. } => transient_status(*status),
            ClientError::Http { connect, timeout } => *connect || *timeout,
            ClientError::Sse(e) => e is Read || e is TruncatedStream,
            _ => false,
        }),
{
    attempt < MAX_RETRIES && err.is_retryable()
}

} // verus!
