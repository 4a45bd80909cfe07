//! Options of the sockets that a node opens or accepts.

use vstd::prelude::*;

verus! {

/// How sockets are set up. Chosen once at startup, before any connection is
/// made, and handed to whatever opens or accepts one.
#[derive(Clone, Copy, Debug, PartialEq, Eq, Structural)]
pub struct SocketOptions {
    /// Whether small frames go out immediately instead of waiting for the
    /// previous segment to be acknowledged.
    pub tcp_nodelay: bool,
}

impl Default for SocketOptions {
    /// Small frames may wait.
    fn default() -> (options: Self)
        ensures
            !options.tcp_nodelay,
    {
        SocketOptions { tcp_nodelay: false }
    }
}

/// Sets whether sockets send small frames immediately.
pub fn set_tcp_nodelay(options: &mut SocketOptions, enabled: bool)
    ensures
        final(options).tcp_nodelay == enabled,
{
    options.tcp_nodelay = enabled;
}

/// Whether sockets send small frames immediately.
pub fn tcp_nodelay(options: &SocketOptions) -> (enabled: bool)
    ensures
        enabled == options.tcp_nodelay,
{
    options.tcp_nodelay
}

} // verus!
