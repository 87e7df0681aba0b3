//! The connection-phase dispatcher: a state machine that turns raw frames
//! into handshake steps or node digestion, and digestion results into
//! outgoing nodes. The transport performs the sends and hands frames back.

pub mod digest;
pub mod error;
pub mod iq;
pub mod success;

use vstd::prelude::*;
use crate::auth::{AuthHandler, ClientFinish, ServerHello, spec_login};
use crate::error::Error;
use crate::node::Node;
use crate::session::Session;
use crate::state::State;

verus! {

/// What the dispatcher hands the transport to send.
pub enum Transmission {
    Binary(Vec<u8>),
    Node(Node),
}

/// What processing one incoming frame asks of the caller.
pub enum ProcessOutcome {
    /// The frame carries the server hello; parse it and run the login.
    ServerHello(Vec<u8>),
    /// Digestion of the decoded nodes produced these results.
    Digested(Vec<digest::Digested>),
    /// Nothing to do in the current state.
    Idle,
}

pub struct Stream {
    pub session: Session,
    pub state: State,
}

impl Stream {
    /// A dispatcher at the start of a connection.
    pub fn new(session: Session) -> (r: Stream)
        ensures
            r.state is Hello,
            r.session == session,
    {
        Stream { session, state: State::Hello }
    }

    /// Starts the handshake: hands out the ephemeral public key the client
    /// hello must carry and moves to the handshake phase. A later call is a
    /// state error.
    pub fn send_hello(&mut self) -> (r: Result<Vec<u8>, Error>)
        ensures
            final(self).session == old(self).session,
            match r {
                Ok(key) => old(self).state is Hello && final(self).state is Handshake && key@
                    == old(self).session.credentials.ephemeral_keypair.public@,
                Err(e) => !(old(self).state is Hello) && e == Error::WrongState && final(self).state == old(self).state,
            },
    {
        if !self.state.is_default() {
            return Err(Error::WrongState);
        }
        self.state = State::Handshake;
        Ok(self.session.credentials.ephemeral_public())
    }

    /// Runs the key agreement over a parsed server hello with the serialized
    /// registration payload, derives the session keys, and moves to the
    /// connected phase.
    pub fn login(&mut self, hello: &ServerHello, user_payload: &[u8]) -> (r: Result<
        ClientFinish,
        Error,
    >)
        requires
            old(self).session.credentials.wf(),
        ensures
            final(self).session.credentials == old(self).session.credentials,
            match r {
                Ok(cf) => ({
                    &&& old(self).state is Handshake
                    &&& final(self).state is Connected
                    &&& spec_login(
                        old(self).session.credentials.ephemeral_keypair.public@,
                        old(self).session.credentials.ephemeral_keypair.secret@,
                        old(self).session.credentials.noise_keypair.public@,
                        old(self).session.credentials.noise_keypair.secret@,
                        hello.ephemeral@,
                        hello.server_static@,
                        hello.payload@,
                        user_payload@,
                    ) matches Some(out)
                    &&& ({
                        let out = spec_login(
                            old(self).session.credentials.ephemeral_keypair.public@,
                            old(self).session.credentials.ephemeral_keypair.secret@,
                            old(self).session.credentials.noise_keypair.public@,
                            old(self).session.credentials.noise_keypair.secret@,
                            hello.ephemeral@,
                            hello.server_static@,
                            hello.payload@,
                            user_payload@,
                        )->Some_0;
                        &&& out.0 == cf.static_key@
                        &&& out.1 == cf.payload@
                        &&& out.2 == final(self).session.store.encode_key@
                        &&& out.3 == final(self).session.store.decode_key@
                        &&& final(self).session.store.read_cnt == 0
                        &&& final(self).session.store.write_cnt == 0
                    })
                }),
                Err(e) => final(self).state == old(self).state && (!(old(self).state
                    is Handshake) ==> e == Error::WrongState) && (old(self).state is Handshake
                    ==> (spec_login(
                    old(self).session.credentials.ephemeral_keypair.public@,
                    old(self).session.credentials.ephemeral_keypair.secret@,
                    old(self).session.credentials.noise_keypair.public@,
                    old(self).session.credentials.noise_keypair.secret@,
                    hello.ephemeral@,
                    hello.server_static@,
                    hello.payload@,
                    user_payload@,
                ) is None || user_payload@.len() > crate::security::aes::AEAD_P_MAX)),
            },
    {
        if !(matches!(self.state, State::Handshake)) {
            return Err(Error::WrongState);
        }
        let cf = AuthHandler::create_login(
            &self.session.credentials,
            hello,
            user_payload,
            &mut self.session.store,
        )?;
        self.state = State::Connected;
        Ok(cf)
    }

    /// Classifies a handshake-phase frame. Exactly: the remote close marker
    /// is the close error; a buffer opening with two zero bytes is the
    /// framed server hello, whose first frame is handed out, or an
    /// unexpected message when no complete frame follows; anything else is
    /// no result, an encrypted node frame for the node path.
    pub fn process_binary(&mut self, input: &[u8]) -> (r: Result<Option<Vec<u8>>, Error>)
        ensures
            *final(self) == *old(self),
            ({
                let frames = crate::codec::spec_decode_frames(input@);
                let is_close = input@ == seq![0x88u8, 0x02u8, 0x03u8, 0xF3u8];
                let is_hello = input@.len() >= 2 && input@[0] == 0 && input@[1] == 0;
                match r {
                    Ok(out) => match out {
                        Some(frame) => !is_close && is_hello && frames.len() > 0 && frame@
                            == frames[0],
                        None => !is_close && !is_hello,
                    },
                    Err(e) => {
                        ||| (e == Error::WsClose && is_close)
                        ||| (e == Error::UnexpectedMessage && !is_close && is_hello
                            && frames.len() == 0)
                    },
                }
            }),
    {
        if input.len() == 4 && input[0] == 0x88 && input[1] == 0x02 && input[2] == 0x03 && input[3]
            == 0xF3 {
            proof {
                assert(input@ =~= seq![0x88u8, 0x02u8, 0x03u8, 0xF3u8]);
            }
            return Err(Error::WsClose);
        }
        if input.len() >= 2 && input[0] == 0 && input[1] == 0 {
            let mut frames = self.session.decode_binary(input);
            if frames.len() == 0 {
                return Err(Error::UnexpectedMessage);
            }
            let ghost f0 = frames@[0];
            let ghost dv = frames.deep_view();
            let first = frames.remove(0);
            proof {
                assert(dv[0] == f0.deep_view());
                assert(first.deep_view() =~= first@);
                assert(first@ =~= crate::codec::spec_decode_frames(input@)[0]);
            }
            return Ok(Some(first));
        }
        proof {
            assert(!(input@ == seq![0x88u8, 0x02u8, 0x03u8, 0xF3u8])) by {
                if input@ == seq![0x88u8, 0x02u8, 0x03u8, 0xF3u8] {
                    assert(input@.len() == 4);
                    assert(input@[0] == 0x88);
                }
            }
        }
        Ok(None)
    }

    /// Decodes every node framed in a connected-phase buffer and digests
    /// each in turn, one result per frame.
    pub fn process_node(&mut self, input: &[u8]) -> (r: Result<Vec<digest::Digested>, Error>)
        requires
            old(self).session.store.wf(),
            old(self).session.store.read_cnt + crate::codec::spec_decode_frames(input@).len()
                < u64::MAX,
            old(self).session.store.write_cnt < u64::MAX,
            old(self).session.credentials.wf(),
        ensures
            final(self).session.store.wf(),
            final(self).session.credentials == old(self).session.credentials,
            match r {
                Ok(results) => results@.len() == crate::codec::spec_decode_frames(input@).len(),
                Err(e) => e != Error::WrongState && e != Error::UnexpectedMessage,
            },
    {
        let nodes = self.session.decode(input)?;
        let mut results: Vec<digest::Digested> = Vec::new();
        let count = nodes.len();
        let mut nodes = nodes;
        let mut i: usize = 0;
        while i < count
            invariant
                i <= count,
                nodes@.len() == count - i,
                results@.len() == i,
                count == crate::codec::spec_decode_frames(input@).len(),
                self.session.store.wf(),
                self.session.credentials == old(self).session.credentials,
                self.session.credentials.wf(),
            decreases count - i,
        {
            let node = nodes.remove(0);
            let digested = match self.digest(node) {
                Ok(digested) => digested,
                Err(e) => {
                    return Err(e);
                },
            };
            results.push(digested);
            i += 1;
        }
        Ok(results)
    }

    /// Drives one frame through the state machine: a frame before the hello
    /// is a state error; in the handshake phase the close marker closes and
    /// a hello reply hands out the server hello, while any other frame is
    /// already an encrypted node and moves to the connected phase; in the
    /// connected phase every framed node is digested, one result per frame.
    pub fn process(&mut self, payload: &[u8]) -> (r: Result<ProcessOutcome, Error>)
        requires
            old(self).session.store.wf(),
            old(self).session.store.read_cnt + crate::codec::spec_decode_frames(payload@).len()
                < u64::MAX,
            old(self).session.store.write_cnt < u64::MAX,
            old(self).session.credentials.wf(),
        ensures
            final(self).session.store.wf(),
            final(self).session.credentials == old(self).session.credentials,
            old(self).state is Hello ==> (r matches Err(e) && e == Error::WrongState && *final(self) == *old(self)),
            old(self).state is Handshake ==> ({
                let frames = crate::codec::spec_decode_frames(payload@);
                let is_close = payload@ == seq![0x88u8, 0x02u8, 0x03u8, 0xF3u8];
                let is_hello = payload@.len() >= 2 && payload@[0] == 0 && payload@[1] == 0;
                &&& (is_close ==> (r matches Err(e) && e == Error::WsClose && *final(self) == *old(self)))
                &&& (!is_close && is_hello && frames.len() > 0 ==> (r matches Ok(out)
                    && out matches ProcessOutcome::ServerHello(frame) && frame@ == frames[0]
                    && *final(self) == *old(self)))
                &&& (!is_close && !is_hello ==> (r matches Ok(out)
                    ==> out matches ProcessOutcome::Digested(results) && results@.len()
                        == frames.len()))
            }),
            old(self).state is Connected ==> match r {
                Ok(out) => out matches ProcessOutcome::Digested(results) && results@.len()
                    == crate::codec::spec_decode_frames(payload@).len(),
                Err(e) => e != Error::WrongState && e != Error::UnexpectedMessage,
            },
            (old(self).state is Reconnect || old(self).state is Closed) ==> (r matches Ok(out)
                && out is Idle && *final(self) == *old(self)),
    {
        match self.state {
            State::Hello => Err(Error::WrongState),
            State::Handshake => {
                let frame = self.process_binary(payload)?;
                match frame {
                    Some(hello) => Ok(ProcessOutcome::ServerHello(hello)),
                    None => {
                        self.state = State::Connected;
                        let results = self.process_node(payload)?;
                        Ok(ProcessOutcome::Digested(results))
                    },
                }
            },
            State::Connected => {
                let results = self.process_node(payload)?;
                Ok(ProcessOutcome::Digested(results))
            },
            State::Reconnect => Ok(ProcessOutcome::Idle),
            State::Closed => Ok(ProcessOutcome::Idle),
        }
    }
}

} // verus!
