//! Connection-phase state: how incoming frames are interpreted.

use vstd::prelude::*;

verus! {

#[derive(Clone, Copy, Debug, PartialEq, Eq, Structural)]
pub enum State {
    /// Waiting to send the client hello; the first frame carries the
    /// prologue.
    Hello,
    /// Hello sent; the next frame is the server's handshake reply.
    Handshake,
    /// Session keys derived; frames carry encrypted nodes.
    Connected,
    /// A forced reconnect is under way.
    Reconnect,
    /// The connection is closed for good.
    Closed,
}

impl State {
    /// Whether the state is the fresh-connection default.
    pub fn is_default(&self) -> (r: bool)
        ensures
            r == (*self is Hello),
    {
        matches!(self, State::Hello)
    }
}

impl Default for State {
    fn default() -> (r: State)
        ensures
            r is Hello,
    {
        State::Hello
    }
}

} // verus!
