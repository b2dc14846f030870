//! Decisions of the stdin/stdout relay over a Unix domain socket.
use vstd::prelude::*;

verus! {

/// What the relay does once stdin has been copied to the socket.
#[derive(Clone, Copy, Debug, PartialEq, Eq, Structural)]
pub enum RelayStep {
    /// The relay is complete.
    Finish,
    /// The socket's output still has to be copied to stdout.
    DrainSocketToStdout,
}

/// After stdin has been copied to the socket, whether or not it carried
/// any bytes: the relay finishes only once the socket's output has been
/// copied to stdout, so a reply to an empty request still reaches stdout.
pub fn after_stdin_copied(socket_to_stdout_done: bool) -> (r: RelayStep)
    ensures
        r == (if socket_to_stdout_done {
            RelayStep::Finish
        } else {
            RelayStep::DrainSocketToStdout
        }),
{
    if socket_to_stdout_done {
        RelayStep::Finish
    } else {
        RelayStep::DrainSocketToStdout
    }
}

/// Whether a failed half-close of the socket's write side is an error: a
/// peer that already closed (`NotConnected`) is not.
pub fn shutdown_failure_is_fatal(not_connected: bool) -> (r: bool)
    ensures
        r == !not_connected,
{
    !not_connected
}

} // verus!
