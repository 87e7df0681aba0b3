//! Digestion of decoded nodes in the connected phase: pairing, activation,
//! stream errors, and deliberate no-ops for everything else.

use vstd::prelude::*;
use crate::error::Error;
use crate::node::{Node, NodeV, ValueV};
use crate::stream::Stream;
use crate::stream::error::spec_stream_error_code;
use crate::stream::iq::{
    spec_confirm_reply, spec_has_ref_text, spec_has_text_id, spec_pairing_code_of, Iq,
};
use crate::stream::success::spec_activation_reply;

verus! {

/// What digesting one node yields.
#[derive(Debug)]
pub enum Digested {
    /// Nothing to answer.
    Quiet,
    /// A node to send back.
    Reply(Node),
    /// A pairing request: the composed pairing string for external
    /// rendering, and the confirmation to send back.
    Pairing(String, Node),
    /// A pairing success: the caller parses the identity records it carries
    /// and continues with the pairing checks.
    PairSuccess(Node),
    /// The session was torn down and the handshake starts over.
    Reconnect,
}

/// The first nested element of a node, when its content is a non-empty
/// list.
pub open spec fn spec_first_child(n: NodeV) -> Option<NodeV> {
    match n.content {
        ValueV::List(ns) => if ns.len() > 0 {
            Some(ns[0])
        } else {
            None
        },
        _ => None,
    }
}

/// What digesting an `iq` node must yield, by its first nested element.
pub open spec fn spec_iq_digest(
    node: NodeV,
    noise: Seq<u8>,
    identity: Seq<u8>,
    signing: Seq<u8>,
    r: Result<Digested, Error>,
) -> bool {
    match spec_first_child(node) {
        Some(c) => if c.description == "pair-device"@ {
            match r {
                Ok(out) => (out matches Digested::Pairing(code, confirm) && spec_pairing_code_of(
                    c,
                    noise,
                    identity,
                    signing,
                    code@,
                ) && spec_confirm_reply(node, ValueV::Null, confirm@)),
                Err(e) => e == Error::IntoError && !(spec_has_ref_text(c) && spec_has_text_id(
                    node,
                )),
            }
        } else if c.description == "pair-success"@ {
            r matches Ok(out) && (out matches Digested::PairSuccess(back) && back@ == node)
        } else {
            r matches Ok(out) && out is Quiet
        },
        None => r matches Ok(out) && out is Quiet,
    }
}

impl Stream {
    /// Digests one decoded node. Exactly: a stream error tears down (code
    /// 515), ends the session (code 401) or is a protocol error; `success`
    /// is answered with the activation request; an `iq` starts or continues
    /// the pairing flow by its first nested element; everything else is
    /// deliberately ignored, the session untouched.
    pub fn digest(&mut self, node: Node) -> (r: Result<Digested, Error>)
        requires
            old(self).session.credentials.wf(),
        ensures
            final(self).session.credentials == old(self).session.credentials,
            old(self).session.store.wf() ==> final(self).session.store.wf(),
            node@.description == "stream:error"@ ==> match r {
                Ok(out) => out is Reconnect && spec_stream_error_code(node@) == Some(515u32)
                    && final(self).state is Hello && final(self).session.store.encode_key@
                    == crate::spec_zeros(32) && final(self).session.store.decode_key@
                    == crate::spec_zeros(32) && final(self).session.store.read_cnt == 0 && final(self).session.store.write_cnt == 0,
                Err(e) => final(self).state == old(self).state && final(self).session.store == old(self).session.store && ({
                    ||| (e == Error::Unauthorized && spec_stream_error_code(node@) == Some(
                        401u32,
                    ))
                    ||| (e == Error::UnknownErrorCode && spec_stream_error_code(node@) != Some(
                        515u32,
                    ) && spec_stream_error_code(node@) != Some(401u32))
                }),
            },
            node@.description == "success"@ ==> (*final(self) == *old(self) && (r matches Ok(out)
                && out matches Digested::Reply(reply) && spec_activation_reply(reply@))),
            node@.description == "xmlstreamend"@ ==> (*final(self) == *old(self) && (r matches Ok(
                out,
            ) && out is Quiet)),
            node@.description == "iq"@ ==> (*final(self) == *old(self) && spec_iq_digest(
                node@,
                old(self).session.credentials.noise_keypair.public@,
                old(self).session.credentials.identity_keypair.public@,
                old(self).session.credentials.signed_keypair.key_pair.public@,
                r,
            )),
            (node@.description != "stream:error"@ && node@.description != "success"@
                && node@.description != "xmlstreamend"@ && node@.description != "iq"@) ==> (*final(self) == *old(self) && (r matches Ok(out) && out is Quiet)),
    {
        proof {
            reveal_strlit("stream:error");
            reveal_strlit("success");
            reveal_strlit("xmlstreamend");
            reveal_strlit("iq");
            assert("stream:error"@.len() == 12);
            assert("xmlstreamend"@.len() == 12);
            assert("stream:error"@[0] == 's');
            assert("xmlstreamend"@[0] == 'x');
            assert("stream:error"@ != "xmlstreamend"@);
            assert("success"@.len() == 7);
            assert("iq"@.len() == 2);
            assert("stream:error"@ != "success"@);
            assert("stream:error"@ != "iq"@);
            assert("success"@ != "xmlstreamend"@);
            assert("success"@ != "iq"@);
            assert("xmlstreamend"@ != "iq"@);
        }
        if crate::text::str_eq(node.description.as_str(), "stream:error") {
            return self.handle_error(&node);
        }
        if crate::text::str_eq(node.description.as_str(), "success") {
            let reply = crate::stream::success::handle_success()?;
            return Ok(Digested::Reply(reply));
        }
        if crate::text::str_eq(node.description.as_str(), "xmlstreamend") {
            return Ok(Digested::Quiet);
        }
        if crate::text::str_eq(node.description.as_str(), "iq") {
            return self.digest_iq(node);
        }
        Ok(Digested::Quiet)
    }

    /// Digests an `iq` node by its first nested element.
    fn digest_iq(&mut self, node: Node) -> (r: Result<Digested, Error>)
        requires
            old(self).session.credentials.wf(),
        ensures
            final(self).state == old(self).state,
            final(self).session == old(self).session,
            spec_iq_digest(
                node@,
                old(self).session.credentials.noise_keypair.public@,
                old(self).session.credentials.identity_keypair.public@,
                old(self).session.credentials.signed_keypair.key_pair.public@,
                r,
            ),
    {
        let mut kind: u8 = 0;
        match node.children() {
            Some(children) => {
                if children.len() > 0 {
                    proof {
                        crate::node::lemma_nodes_view(children@);
                    }
                    let container = &children[0];
                    if crate::text::str_eq(container.description.as_str(), "pair-device") {
                        kind = 1;
                    } else if crate::text::str_eq(
                        container.description.as_str(),
                        "pair-success",
                    ) {
                        kind = 2;
                    }
                }
            },
            None => {
            },
        }
        if kind == 1 {
            let code = match node.children() {
                Some(children) => {
                    proof {
                        crate::node::lemma_nodes_view(children@);
                    }
                    match Iq::print(&children[0], &self.session) {
                        Ok(code) => code,
                        Err(e) => {
                            return Err(e);
                        },
                    }
                },
                None => {
                    return Err(Error::UnknownNode);
                },
            };
            let confirm = Iq::send_confirm(&node, crate::node::Value::Null)?;
            Ok(Digested::Pairing(code, confirm))
        } else if kind == 2 {
            Ok(Digested::PairSuccess(node))
        } else {
            Ok(Digested::Quiet)
        }
    }
}

} // verus!
