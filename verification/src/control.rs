//! Shutdown coordination and the listener's decisions.
//!
//! One shared boolean flag, written only by stop and read at the top of
//! every loop iteration, coordinates shutdown: the listener and every
//! handler observe it within one poll interval and exit. The flag's
//! transition and the listener's per-iteration decision live here; the
//! surrounding process holds the flag in an atomic, performs the accepts,
//! and spawns one handler thread per accepted connection.

use vstd::prelude::*;

verus! {

/// Milliseconds slept when a poll finds nothing to do. Bounds idle CPU
/// use and, with it, shutdown and accept latency.
pub const POLL_INTERVAL_MS: u64 = 10;

/// Bytes available to one read: one message per read, up to this cap.
pub const READ_BUFFER_LEN: usize = 512;

/// What stop does to the flag: the flag's next value, and whether a
/// shutdown signal was actually sent (it is not when the server was
/// already stopped — a second stop is a no-op).
pub open spec fn stop_spec(running: bool) -> (bool, bool) {
    (false, running)
}

/// Applies the stop transition to a flag value. The flag is stopped
/// afterwards in every case, and never transitions back to running.
pub fn stop_transition(running: bool) -> (r: (bool, bool))
    ensures
        r == stop_spec(running),
        r.0 == false,
        r.1 == running,
{
    (false, running)
}

/// Stopping is idempotent: a second stop finds the flag already stopped,
/// sends no signal, and leaves the flag stopped.
pub proof fn lemma_stop_idempotent(running: bool)
    ensures
        stop_spec(stop_spec(running).0).0 == false,
        stop_spec(stop_spec(running).0).1 == false,
{
}

/// What one non-blocking accept attempt yielded.
pub enum AcceptEvent {
    /// A connection was accepted.
    Accepted,
    /// No connection is pending; not an error.
    WouldBlock,
    /// The accept failed.
    Failed,
}

/// What the listener does before its next iteration.
pub enum ListenerAction {
    /// Hand the accepted socket to a fresh handler.
    SpawnHandler,
    /// Sleep one poll interval, then poll again.
    RetryLater,
    /// Log the failure and keep accepting: one failed accept is not
    /// fatal, and never ends the listener or any sibling connection.
    ContinueAccepting,
    /// Leave the accept loop: the server has been stopped.
    Exit,
}

/// Decides one listener iteration. The loop exits exactly when the flag
/// is stopped; while running, an accepted connection gets its own
/// handler, a pending-less poll retries after one interval, and an accept
/// failure is logged and survived.
pub fn listener_step(running: bool, ev: AcceptEvent) -> (act: ListenerAction)
    ensures
        !running <==> act is Exit,
        running && ev is Accepted ==> act is SpawnHandler,
        running && ev is WouldBlock ==> act is RetryLater,
        running && ev is Failed ==> act is ContinueAccepting,
{
    if !running {
        return ListenerAction::Exit;
    }
    match ev {
        AcceptEvent::Accepted => ListenerAction::SpawnHandler,
        AcceptEvent::WouldBlock => ListenerAction::RetryLater,
        AcceptEvent::Failed => ListenerAction::ContinueAccepting,
    }
}

/// A fresh zeroed read buffer of the fixed capacity.
pub fn make_read_buffer() -> (buf: Vec<u8>)
    ensures
        buf@.len() == READ_BUFFER_LEN,
        forall|i: int| 0 <= i < buf@.len() ==> buf@[i] == 0u8,
{
    let mut buf: Vec<u8> = Vec::new();
    let mut i: usize = 0;
    while i < READ_BUFFER_LEN
        invariant
            i <= READ_BUFFER_LEN,
            buf@.len() == i,
            forall|k: int| 0 <= k < buf@.len() ==> buf@[k] == 0u8,
        decreases READ_BUFFER_LEN - i,
    {
        buf.push(0u8);
        i = i + 1;
    }
    buf
}

/// Cuts a filled read buffer down to the bytes one read returned: the
/// frame a single read yields is exactly the first `n` bytes.
pub fn truncate_frame(buf: &mut Vec<u8>, n: usize)
    requires
        n <= old(buf)@.len(),
    ensures
        final(buf)@ == old(buf)@.take(n as int),
{
    buf.truncate(n);
    assert(buf@ =~= old(buf)@.take(n as int));
}

} // verus!
