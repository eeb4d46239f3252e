//! The admission decisions of the worker pools: how many connections or
//! jobs may wait, what becomes of a served connection, and how many
//! workers a pool gets.

use vstd::prelude::*;

verus! {

/// The most connections an acceptor keeps waiting or in service.
pub const MAX_CONNECTIONS: usize = 1900;

/// The most jobs a thread pool keeps waiting or running.
pub const MAX_JOBS: usize = 900;

/// How long, in seconds, a connection may wait before it is dropped
/// without being served.
pub const CONNECTION_TIMEOUT_SECS: u64 = 10;

/// Whether one more connection may be taken while `in_flight` are held.
pub fn admits_connection(in_flight: usize) -> (b: bool)
    ensures
        b == (in_flight < MAX_CONNECTIONS),
{
    in_flight < MAX_CONNECTIONS
}

/// Whether one more job may be queued while `queued` are held.
pub fn admits_job(queued: usize) -> (b: bool)
    ensures
        b == (queued < MAX_JOBS),
{
    queued < MAX_JOBS
}

/// Whether a connection that has waited `waited_secs` seconds is still
/// served.
pub fn still_fresh(waited_secs: u64) -> (b: bool)
    ensures
        b == (waited_secs < CONNECTION_TIMEOUT_SECS),
{
    waited_secs < CONNECTION_TIMEOUT_SECS
}

/// What becomes of a connection once a request on it was served.
#[derive(Clone, Copy, Debug, PartialEq, Eq, Structural)]
pub enum AfterRequest {
    /// It goes back in the queue for its next request.
    Requeue,
    /// It is closed, and its place released.
    Release,
}

/// A connection whose request asked to be kept open goes back in the
/// queue while there is room; any other is released.
pub fn after_request(has_keep_alive: bool, in_flight: usize) -> (a: AfterRequest)
    ensures
        a == (if has_keep_alive && in_flight < MAX_CONNECTIONS { AfterRequest::Requeue } else { AfterRequest::Release }),
{
    if has_keep_alive && admits_connection(in_flight) {
        AfterRequest::Requeue
    } else {
        AfterRequest::Release
    }
}

/// `num_cpus::get`: the number of CPUs this process may use, which its
/// documentation promises is at least 1; nothing else is stated of it.
#[verifier::external_body]
fn cpu_count() -> (n: usize)
    ensures
        n >= 1,
{
    num_cpus::get()
}

/// The size of a default pool on a machine with `cpus` CPUs: one worker
/// fewer than the CPUs; `None` where that leaves no worker, a size that
/// pools refuse.
pub fn pool_size_for(cpus: usize) -> (r: Option<usize>)
    requires
        cpus >= 1,
    ensures
        r == (if cpus >= 2 { Some((cpus - 1) as usize) } else { None::<usize> }),
{
    if cpus >= 2 { Some(cpus - 1) } else { None }
}

/// The size of a default pool on this machine: one worker fewer than its
/// CPUs, or `None` on a machine with one CPU.
pub fn default_pool_size() -> (r: Option<usize>)
    ensures
        r matches Some(n) ==> n >= 1,
{
    pool_size_for(cpu_count())
}

} // verus!
