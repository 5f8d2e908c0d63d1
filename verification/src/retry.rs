//! Which download server to try next.
//!
//! Servers are tried in order. A response with a status other than 200 moves on to the
//! next server at once; a transport failure (or a body that fails to arrive or decode)
//! is retried on the same server, up to three attempts in a row, before moving on.

use vstd::prelude::*;

verus! {

/// The attempts a server gets for transport failures before the next one is tried.
pub const TRIES_PER_SERVER: u8 = 3;

/// The position in the server list: the server to use and the failed attempts on it so far.
#[derive(Clone, Copy, Debug, PartialEq, Eq, Structural)]
pub struct RetryState {
    pub server_id: u8,
    pub try_count: u8,
}

/// Why an attempt failed.
#[derive(Clone, Copy, Debug, PartialEq, Eq, Structural)]
pub enum AttemptFailure {
    /// The server answered with a status other than 200.
    BadStatus,
    /// The request, or reading or decoding its body, failed.
    Transport,
}

/// The state after a failed attempt.
pub open spec fn spec_retry_after(state: RetryState, failure: AttemptFailure) -> RetryState {
    match failure {
        AttemptFailure::BadStatus => RetryState { server_id: (state.server_id + 1) as u8, try_count: 0 },
        AttemptFailure::Transport => if state.try_count + 1 >= TRIES_PER_SERVER {
            RetryState { server_id: (state.server_id + 1) as u8, try_count: 0 }
        } else {
            RetryState { server_id: state.server_id, try_count: (state.try_count + 1) as u8 }
        },
    }
}

/// The first attempt.
pub fn retry_start() -> (res: RetryState)
    ensures
        res.server_id == 0 && res.try_count == 0,
{
    RetryState { server_id: 0, try_count: 0 }
}

/// Whether a server remains to be tried.
pub fn has_server(state: RetryState, num_servers: usize) -> (res: bool)
    ensures
        res == (state.server_id < num_servers),
{
    (state.server_id as usize) < num_servers
}

/// The state after a failed attempt (see `spec_retry_after`). The current server must
/// exist and the list must be addressable by a `u8`.
pub fn retry_after(state: RetryState, failure: AttemptFailure, num_servers: usize) -> (res: RetryState)
    requires
        state.server_id < num_servers,
        num_servers <= 255,
        state.try_count < TRIES_PER_SERVER,
    ensures
        res == spec_retry_after(state, failure),
{
    match failure {
        AttemptFailure::BadStatus => RetryState { server_id: state.server_id + 1, try_count: 0 },
        AttemptFailure::Transport => {
            if state.try_count + 1 >= TRIES_PER_SERVER {
                RetryState { server_id: state.server_id + 1, try_count: 0 }
            } else {
                RetryState { server_id: state.server_id, try_count: state.try_count + 1 }
            }
        },
    }
}

/// How many attempts the state stands for, counting every server before it as fully used.
pub open spec fn attempts_used(state: RetryState) -> int {
    state.server_id * TRIES_PER_SERVER + state.try_count
}

/// Law: retrying always ends. Every failure moves strictly forward (at least one attempt
/// further), a server never gets more than three attempts in a row, and no state beyond
/// the last server is reached before `3 * num_servers` attempts are used up.
pub proof fn lemma_retry_progress(state: RetryState, failure: AttemptFailure, num_servers: int)
    requires
        state.server_id < num_servers <= 255,
        state.try_count < TRIES_PER_SERVER,
    ensures
        attempts_used(spec_retry_after(state, failure)) > attempts_used(state),
        spec_retry_after(state, failure).try_count < TRIES_PER_SERVER,
        attempts_used(spec_retry_after(state, failure)) <= num_servers * TRIES_PER_SERVER,
        spec_retry_after(state, failure).server_id >= state.server_id,
        failure == AttemptFailure::BadStatus ==> spec_retry_after(state, failure).server_id == state.server_id + 1,
{
    assert(attempts_used(spec_retry_after(state, failure)) <= num_servers * TRIES_PER_SERVER) by (nonlinear_arith)
        requires
            state.server_id < num_servers,
            state.try_count < 3,
            attempts_used(spec_retry_after(state, failure)) <= (state.server_id + 1) * 3,
    {
    }
}

} // verus!
